use crate::chance::random_in_range;
use crate::event_writer::{told, told_all, told_lines, EventWriter};
use crate::game_room::{
    describe_room, resolve_target_in_room, room_lines, target_choice, RoomTarget, TargetChoice,
};
use crate::game_state::{
    drop_mob, lemma_occupants, others_in, players_in, put_mob, put_player, GameState, MobRespawn,
    Outcome, World,
};
use crate::order::{in_order, lemma_in_order_lists, lists_in_order, sorted_keys};
use crate::room_index::bucket_of;
use crate::search::{
    first_where, lemma_first_where_is, lemma_first_where_none, lemma_take_one_more, only,
};
use crate::tick::{on_division, truncated_div};
use crate::id::{id_values, MobId, PlayerId, RoomId};
use crate::player_coll::lemma_players_filed_once;
use std::collections::HashSet;
use vstd::std_specs::iter::IteratorSpec;
use crate::line::{colored_line, plain_line, span, Color, Line};
use crate::mob::{MobInstance, MobView};
use crate::player::Player;
use crate::text::{concat3, concat5, concat7, decimal, int_to_string, join_words, joined_by_space, strs};
use crate::tick::TickDuration;
use vstd::prelude::*;
use vstd::string::*;

verus! {

/// Ticks between two attacks of a player: one and a half seconds.
pub const PLAYER_ATTACK_PERIOD: i64 = 12;

/// Ticks between two rounds of healing: three seconds.
pub const PLAYER_HEAL_PERIOD: i64 = 24;

/// Ticks from the death of a mob to its respawn: thirty seconds.
pub const RESPAWN_DELAY: i64 = 240;

/// The health that one attack of a player takes from a mob.
pub const PLAYER_DAMAGE: i32 = 10;

/// The room in which players start and in which they wake up after dying.
pub const RESPAWN_ROOM: u64 = 0;

/// The period of the players' attacks.
pub fn player_attack_freq() -> (d: TickDuration)
    ensures
        d.0 == PLAYER_ATTACK_PERIOD,
{
    TickDuration(PLAYER_ATTACK_PERIOD)
}

/// The period of the players' healing.
pub fn player_heal_freq() -> (d: TickDuration)
    ensures
        d.0 == PLAYER_HEAL_PERIOD,
{
    TickDuration(PLAYER_HEAL_PERIOD)
}

/// What a player reads who attacks a mob.
pub open spec fn attack_self_text(mob: Seq<char>) -> Seq<char> {
    "You attack the "@ + mob + "."@
}

/// What the others read when a player attacks a mob.
pub open spec fn attack_others_text(player: Seq<char>, mob: Seq<char>) -> Seq<char> {
    player + " attacks the "@ + mob + "."@
}

/// What a player reads who hits a mob.
pub open spec fn hit_self_text(mob: Seq<char>, damage: int) -> Seq<char> {
    "You hit the "@ + mob + " for "@ + decimal(damage) + " damage."@
}

/// What the others read when a player hits a mob.
pub open spec fn hit_others_text(player: Seq<char>, mob: Seq<char>, damage: int) -> Seq<char> {
    player + " hits the "@ + mob + " for "@ + decimal(damage) + " damage."@
}

/// What a room reads when a mob dies.
pub open spec fn mob_dies_text(mob: Seq<char>) -> Seq<char> {
    "The "@ + mob + " dies."@
}

/// What a player reads whom a mob turns on.
pub open spec fn mob_attacks_you_text(mob: Seq<char>) -> Seq<char> {
    "The "@ + mob + " attacks you."@
}

/// What the others read when a mob turns on a player.
pub open spec fn mob_attacks_other_text(mob: Seq<char>, player: Seq<char>) -> Seq<char> {
    "The "@ + mob + " attacks "@ + player + "."@
}

/// What a player reads whom a mob hits.
pub open spec fn mob_hits_you_text(mob: Seq<char>, damage: int) -> Seq<char> {
    "The "@ + mob + " hits you for "@ + decimal(damage) + " damage."@
}

/// What the others read when a mob hits a player.
pub open spec fn mob_hits_other_text(mob: Seq<char>, player: Seq<char>, damage: int) -> Seq<
    char,
> {
    "The "@ + mob + " hits "@ + player + " for "@ + decimal(damage) + " damage."@
}

/// What the others read when a player dies.
pub open spec fn player_dies_text(player: Seq<char>) -> Seq<char> {
    player + " dies."@
}

/// A line of one span in a colour.
pub fn colored_text(text: &str, color: Color) -> (line: Line)
    ensures
        line@ == colored_line(text@, color),
{
    span(text).color(color).line()
}

/// The world and the queues after a player has engaged a mob: the player
/// targets the mob, the player reads that they attack, and the others in the
/// room read who attacks what.
pub open spec fn engaged(s: Outcome, player: Player, mob: MobView) -> Outcome {
    Outcome {
        world: put_player(s.world, Player { attack_target: Some(mob.id), ..player }),
        out: told_all(
            told(
                s.out,
                player.id.value,
                colored_line(attack_self_text(mob.template.name), Color::LightCyan),
            ),
            others_in(s.world, player.room_id.value, player.id.value),
            colored_line(attack_others_text(player.name@, mob.template.name), Color::Cyan),
        ),
    }
}

/// What the command to kill something does. The command fails, and nothing
/// changes, where the player is not there or is in no room of the world. A
/// mob that answers to the name becomes the player's target and hostile to
/// the player; an object cannot be killed; anything else is not there.
pub open spec fn kill_outcome(s: Outcome, player: u64, target: Seq<char>) -> Result<
    Outcome,
    Seq<char>,
> {
    let w = s.world;
    if !w.players.contains_key(player) {
        Err("kill: Self not found"@)
    } else if !w.rooms.contains_key(w.players[player].room_id.value) {
        Err("kill: Room not found"@)
    } else {
        let p = w.players[player];
        let room = w.rooms[p.room_id.value];
        match target_choice(w, room, target) {
            TargetChoice::Mob(m) => {
                let e = engaged(s, p, w.mobs[m]);
                Ok(
                    Outcome {
                        world: put_mob(
                            e.world,
                            MobView { hostile_to: w.mobs[m].hostile_to.insert(player), ..w.mobs[m] },
                        ),
                        out: e.out,
                    },
                )
            },
            TargetChoice::Object(i) => Ok(
                Outcome { world: w, out: told(s.out, player, plain_line("You cannot kill that."@)) },
            ),
            TargetChoice::Nothing => Ok(
                Outcome {
                    world: w,
                    out: told(s.out, player, plain_line("You do not see that here."@)),
                },
            ),
        }
    }
}

/// Makes a player target a mob and tells the room.
fn engage(player: Player, mob_id: MobId, mob_name: &String, writer: &mut EventWriter, state: &mut GameState)
    requires
        old(state).wf(),
        old(state)@.players.contains_key(player.id.value),
        old(state)@.players[player.id.value] == player,
        old(state)@.mobs.contains_key(mob_id.value),
        old(state)@.mobs[mob_id.value].id == mob_id,
        old(state)@.mobs[mob_id.value].template.name == mob_name@,
    ensures
        final(state).wf(),
        final(state).ticks == old(state).ticks,
        (Outcome { world: final(state)@, out: final(writer)@ }) == engaged(
            Outcome { world: old(state)@, out: old(writer)@ },
            player,
            old(state)@.mobs[mob_id.value],
        ),
{
    proof {
        lemma_occupants(*state, player.room_id.value);
    }
    let msg_self = concat3("You attack the ", mob_name.as_str(), ".");
    writer.tell(player.id, colored_text(msg_self.as_str(), Color::LightCyan));
    let msg_others = concat5(player.name.as_str(), " attacks the ", mob_name.as_str(), ".", "");
    assert(msg_others@ =~= attack_others_text(player.name@, mob_name@)) by {
        reveal_strlit("");
    }
    let ids = state.players.ids_in_room_except(player.room_id, player.id);
    writer.tell_many(&ids, colored_text(msg_others.as_str(), Color::Cyan));
    let mut after = player;
    after.attack_target = Some(mob_id);
    state.update_player(after);
}

/// Carries out the command to kill what the words name.
pub fn kill(
    player_id: PlayerId,
    args: &Vec<String>,
    writer: &mut EventWriter,
    state: &mut GameState,
) -> (r: Result<(), String>)
    requires
        old(state).wf(),
    ensures
        final(state).wf(),
        final(state).ticks == old(state).ticks,
        match kill_outcome(
            Outcome { world: old(state)@, out: old(writer)@ },
            player_id.value,
            joined_by_space(strs(args@)),
        ) {
            Ok(s) => r is Ok && (Outcome { world: final(state)@, out: final(writer)@ }) == s,
            Err(e) => r is Err && r->Err_0@ == e && final(state)@ == old(state)@
                && final(writer)@ == old(writer)@,
        },
{
    broadcast use vstd::std_specs::hash::group_hash_axioms;

    let player = match state.players.by_id().get(&player_id.value) {
        Some(p) => p.clone(),
        None => {
            return Err(String::from_str("kill: Self not found"));
        },
    };
    let args_joined = join_words(args);
    let found: Option<Option<(MobId, String)>> = {
        let room = match state.rooms.get(&player.room_id.value) {
            Some(room) => room,
            None => {
                return Err(String::from_str("kill: Room not found"));
            },
        };
        match resolve_target_in_room(args_joined.as_str(), room, &state.mobs) {
            Some(RoomTarget::Mob { mob }) => Some(Some((mob.id, mob.template.name.clone()))),
            Some(RoomTarget::RoomObject { room_object: _ }) => Some(None),
            None => None,
        }
    };
    assert(player.id == player_id);
    match found {
        Some(Some((mob_id, mob_name))) => {
            let ghost mob0 = state@.mobs[mob_id.value];
            engage(player, mob_id, &mob_name, writer, state);
            let who: u64 = player_id.value;
            let f = |m: MobInstance| -> (o: (MobInstance, ()))
                ensures
                    o.0@ == (MobView { hostile_to: m@.hostile_to.insert(who), ..m@ }),
                    o.0.id == m.id,
                {
                    let mut m = m;
                    m.hostile_to.insert(who);
                    (m, ())
                };
            state.change_mob(mob_id, f);
            Ok(())
        },
        Some(None) => {
            writer.tell(player_id, Line::str("You cannot kill that."));
            Ok(())
        },
        None => {
            writer.tell(player_id, Line::str("You do not see that here."));
            Ok(())
        },
    }
}

/// The condition that a player's attack is due at the world's clock value.
pub open spec fn attacks_now(w: World) -> spec_fn(u64) -> bool {
    |v: u64|
        w.players.contains_key(v) && on_division(
            w.ticks.0 as int,
            PLAYER_ATTACK_PERIOD as int,
            w.players[v].attack_offset.0 as int,
        )
}

/// The players whose attack is due, by ascending identifier.
pub open spec fn attackers(w: World) -> Seq<u64> {
    only(in_order(w.players.dom()), attacks_now(w))
}

/// The condition that a mob of a bucket is hostile to a player.
pub open spec fn mob_hostile_to(mobs: Map<u64, MobView>, player: u64) -> spec_fn(MobId) -> bool {
    |id: MobId| mobs.contains_key(id.value) && mobs[id.value].hostile_to.contains(player)
}

/// The world and the queues after an idle player has been drawn into a fight:
/// a player without a target engages the mob in the room that is hostile to
/// them and has been there longest. Nothing changes for a player who has a
/// target, or whom no mob in the room is hostile to.
pub open spec fn auto_engaged(s: Outcome, player: u64) -> Outcome {
    let w = s.world;
    if !w.players.contains_key(player) || w.players[player].attack_target is Some {
        s
    } else {
        let p = w.players[player];
        let bucket = bucket_of(w.mob_buckets, p.room_id.value);
        match first_where(bucket, mob_hostile_to(w.mobs, player)) {
            Some(i) => engaged(s, p, w.mobs[bucket[i].value]),
            None => s,
        }
    }
}

/// `auto_engaged` for each of the players, one after the other.
pub open spec fn auto_engaged_all(s: Outcome, players: Seq<u64>) -> Outcome
    decreases players.len(),
{
    if players.len() == 0 {
        s
    } else {
        auto_engaged(auto_engaged_all(s, players.drop_last()), players.last())
    }
}

/// Draws an idle player into a fight with a mob in the room that is hostile
/// to them.
pub fn update_player_target(player_id: PlayerId, writer: &mut EventWriter, state: &mut GameState)
    requires
        old(state).wf(),
        old(state)@.players.contains_key(player_id.value),
    ensures
        final(state).wf(),
        (Outcome { world: final(state)@, out: final(writer)@ }) == auto_engaged(
            Outcome { world: old(state)@, out: old(writer)@ },
            player_id.value,
        ),
        final(state)@.players.dom() == old(state)@.players.dom(),
        final(state)@.mobs.dom() == old(state)@.mobs.dom(),
        final(state).ticks == old(state).ticks,
{
    broadcast use vstd::std_specs::hash::group_hash_axioms;

    let player = match state.players.by_id().get(&player_id.value) {
        Some(p) => p.clone(),
        None => {
            return ;
        },
    };
    if player.attack_target.is_some() {
        return ;
    }
    let ids = state.mobs.ids_in_room(player.room_id);
    let ghost hostile = mob_hostile_to(state@.mobs, player_id.value);
    let mut found: Option<(MobId, String)> = None;
    let mut i: usize = 0;
    while i < ids.len() && found.is_none()
        invariant
            i <= ids@.len(),
            state.wf(),
            ids@ == bucket_of(state@.mob_buckets, player.room_id.value),
            hostile == mob_hostile_to(state@.mobs, player_id.value),
            found is None ==> forall|j: int| 0 <= j < i ==> !hostile(#[trigger] ids@[j]),
            match found {
                Some((mob_id, name)) => first_where(ids@, hostile) is Some && mob_id == ids@[first_where(
                    ids@,
                    hostile,
                )->0] && state@.mobs.contains_key(mob_id.value) && state@.mobs[mob_id.value].id
                    == mob_id && state@.mobs[mob_id.value].template.name == name@,
                None => true,
            },
        decreases ids@.len() - i + (if found is None { 1int } else { 0int }),
    {
        let id = ids[i];
        match state.mobs.by_id().get(&id.value) {
            Some(mob) => {
                if mob.hostile_to.contains(&player_id.value) {
                    proof {
                        lemma_first_where_is(ids@, hostile, i as int);
                    }
                    found = Some((mob.id, mob.template.name.clone()));
                } else {
                    i = i + 1;
                }
            },
            None => {
                i = i + 1;
            },
        }
    }
    match found {
        Some((mob_id, mob_name)) => {
            assert(player.id == player_id);
            engage(player, mob_id, &mob_name, writer, state);
            assert(state@.players.dom() =~= old(state)@.players.dom());
        },
        None => {
            proof {
                lemma_first_where_none(ids@, hostile);
            }
        },
    }
}

/// The world and the queues after a player has hit a mob: the player and
/// the others in the room read of the hit; a mob with no more health than
/// the hit takes dies, which the whole room reads, and any other loses that
/// much health.
pub open spec fn attacked_by_player(s: Outcome, p: Player, mob: MobView) -> Outcome {
    let w = s.world;
    let name = mob.template.name;
    let out1 = told_all(
        told(
            s.out,
            p.id.value,
            colored_line(hit_self_text(name, PLAYER_DAMAGE as int), Color::LightCyan),
        ),
        others_in(w, p.room_id.value, p.id.value),
        colored_line(hit_others_text(p.name@, name, PLAYER_DAMAGE as int), Color::Cyan),
    );
    if PLAYER_DAMAGE >= mob.hp {
        Outcome {
            world: w,
            out: told_all(
                out1,
                players_in(w, p.room_id.value),
                colored_line(mob_dies_text(name), Color::DarkGrey),
            ),
        }
    } else {
        Outcome {
            world: put_mob(w, MobView { hp: (mob.hp - PLAYER_DAMAGE) as i32, ..mob }),
            out: out1,
        }
    }
}

/// Lets a player hit a mob, and says whether the hit kills it. A mob that
/// survives loses health; one that dies is left for the caller to remove.
pub fn attack_with_player(
    player: &Player,
    mob_id: MobId,
    writer: &mut EventWriter,
    state: &mut GameState,
) -> (killed: bool)
    requires
        old(state).wf(),
        old(state)@.mobs.contains_key(mob_id.value),
    ensures
        final(state).wf(),
        killed == (PLAYER_DAMAGE >= old(state)@.mobs[mob_id.value].hp),
        (Outcome { world: final(state)@, out: final(writer)@ }) == attacked_by_player(
            Outcome { world: old(state)@, out: old(writer)@ },
            *player,
            old(state)@.mobs[mob_id.value],
        ),
        final(state)@.mobs.dom() == old(state)@.mobs.dom(),
{
    broadcast use vstd::std_specs::hash::group_hash_axioms;

    proof {
        lemma_occupants(*state, player.room_id.value);
    }
    let (mob_name, mob_hp) = match state.mobs.by_id().get(&mob_id.value) {
        Some(mob) => (mob.template.name.clone(), mob.hp),
        None => {
            proof {
                assert(false);
            }
            return vstd::pervasive::unreached();
        },
    };
    let damage_text = int_to_string(10);
    let msg_self = concat5(
        "You hit the ",
        mob_name.as_str(),
        " for ",
        damage_text.as_str(),
        " damage.",
    );
    writer.tell(player.id, colored_text(msg_self.as_str(), Color::LightCyan));
    let msg_others = concat7(
        player.name.as_str(),
        " hits the ",
        mob_name.as_str(),
        " for ",
        damage_text.as_str(),
        " damage.",
        "",
    );
    assert(msg_others@ =~= hit_others_text(player.name@, mob_name@, 10)) by {
        reveal_strlit("");
    }
    let others = state.players.ids_in_room_except(player.room_id, player.id);
    writer.tell_many(&others, colored_text(msg_others.as_str(), Color::Cyan));
    let killed = PLAYER_DAMAGE >= mob_hp;
    if killed {
        let msg = concat3("The ", mob_name.as_str(), " dies.");
        let everyone = state.players.ids_in_room(player.room_id);
        writer.tell_many(&everyone, colored_text(msg.as_str(), Color::DarkGrey));
    } else {
        let f = |m: MobInstance| -> (o: (MobInstance, ()))
            requires
                m.hp > PLAYER_DAMAGE,
            ensures
                o.0@ == (MobView { hp: (m.hp - PLAYER_DAMAGE) as i32, ..m@ }),
                o.0.id == m.id,
            {
                let mut m = m;
                m.hp = m.hp - PLAYER_DAMAGE;
                (m, ())
            };
        state.change_mob(mob_id, f);
        assert(state@.mobs.dom() =~= old(state)@.mobs.dom());
    }
    killed
}

/// The world and the queues after the attack of a player that is due, and
/// the mob that it killed, if any. A player without a target does nothing. A
/// player whose target is gone or in another room loses the target. Any
/// other hits the target; a mob that dies is removed, and its respawn is
/// scheduled.
pub open spec fn struck(s: Outcome, player: u64) -> (Outcome, Option<u64>) {
    let w = s.world;
    let p = w.players[player];
    match p.attack_target {
        None => (s, None),
        Some(t) => if w.mobs.contains_key(t.value) && w.mobs[t.value].room_id.value
            == p.room_id.value {
            let mob = w.mobs[t.value];
            let a = attacked_by_player(s, p, mob);
            if PLAYER_DAMAGE >= mob.hp {
                (
                    Outcome {
                        world: drop_mob(
                            World {
                                spawns: a.world.spawns.insert(
                                    (w.ticks.0 + RESPAWN_DELAY) as i64,
                                    MobRespawn {
                                        room_id: mob.room_id,
                                        mob_template_id: mob.template.id,
                                    },
                                ),
                                ..a.world
                            },
                            t,
                        ),
                        out: a.out,
                    },
                    Some(t.value),
                )
            } else {
                (a, None)
            }
        } else {
            (Outcome { world: put_player(w, Player { attack_target: None, ..p }), out: s.out }, None)
        },
    }
}

/// `struck` for each of the players, one after the other, and the mobs that
/// were killed.
pub open spec fn struck_all(s: Outcome, players: Seq<u64>) -> (Outcome, Set<u64>)
    decreases players.len(),
{
    if players.len() == 0 {
        (s, Set::empty())
    } else {
        let (s1, killed) = struck_all(s, players.drop_last());
        let (s2, k) = struck(s1, players.last());
        (
            s2,
            match k {
                Some(m) => killed.insert(m),
                None => killed,
            },
        )
    }
}

/// Carries out the attack of a player that is due.
fn strike(player_id: PlayerId, writer: &mut EventWriter, state: &mut GameState) -> (killed: Option<
    MobId,
>)
    requires
        old(state).wf(),
        old(state)@.players.contains_key(player_id.value),
        old(state).ticks.0 + RESPAWN_DELAY <= i64::MAX,
    ensures
        final(state).wf(),
        struck(Outcome { world: old(state)@, out: old(writer)@ }, player_id.value) == (
            Outcome { world: final(state)@, out: final(writer)@ },
            match killed {
                Some(m) => Some(m.value),
                None => None,
            },
        ),
        final(state)@.players.dom() == old(state)@.players.dom(),
        final(state).ticks == old(state).ticks,
{
    broadcast use vstd::std_specs::hash::group_hash_axioms;
    broadcast use vstd::std_specs::btree::group_btree_axioms;

    let player = match state.players.by_id().get(&player_id.value) {
        Some(p) => p.clone(),
        None => {
            return None;
        },
    };
    let target = match player.attack_target {
        Some(t) => t,
        None => {
            return None;
        },
    };
    let there: Option<(crate::id::RoomId, crate::id::MobTemplateId)> = match state.mobs.by_id().get(
        &target.value,
    ) {
        Some(mob) => {
            if mob.room_id.value == player.room_id.value {
                Some((mob.room_id, mob.template.id))
            } else {
                None
            }
        },
        None => None,
    };
    match there {
        Some((mob_room_id, mob_template_id)) => {
            let killed = attack_with_player(&player, target, writer, state);
            if killed {
                let respawn_at = state.ticks.add(TickDuration(RESPAWN_DELAY));
                state.scheduled_mob_spawns.insert(
                    respawn_at.0,
                    MobRespawn { room_id: mob_room_id, mob_template_id },
                );
                let _ = state.take_mob(target);
                Some(target)
            } else {
                None
            }
        },
        None => {
            let mut after = player;
            after.attack_target = None;
            state.update_player(after);
            assert(state@.players.dom() =~= old(state)@.players.dom());
            None
        },
    }
}

/// Whether a player targets one of some mobs.
pub open spec fn targets_one_of(p: Player, mobs: Set<u64>) -> bool {
    match p.attack_target {
        Some(t) => mobs.contains(t.value),
        None => false,
    }
}

/// The world after every player who targeted one of some mobs has lost the
/// target.
pub open spec fn targets_cleared(w: World, mobs: Set<u64>) -> World {
    World {
        players: Map::new(
            |v: u64| w.players.contains_key(v),
            |v: u64|
                if targets_one_of(w.players[v], mobs) {
                    Player { attack_target: None, ..w.players[v] }
                } else {
                    w.players[v]
                },
        ),
        ..w
    }
}

/// The world and the queues after the attacks of the players that are due
/// at the world's clock value. First each of these players who is idle is
/// drawn into a fight, if a mob in the room is hostile to them. Then each of
/// them attacks. Last every player who targeted a mob that was killed loses
/// the target.
pub open spec fn player_attacks(s: Outcome) -> Outcome {
    let due = attackers(s.world);
    let s1 = auto_engaged_all(s, due);
    let (s2, killed) = struck_all(s1, due);
    Outcome { world: targets_cleared(s2.world, killed), out: s2.out }
}

fn is_one_of(id: MobId, ids: &Vec<MobId>) -> (r: bool)
    ensures
        r == exists|i: int| 0 <= i < ids@.len() && (#[trigger] ids@[i]).value == id.value,
{
    let mut i: usize = 0;
    while i < ids.len()
        invariant
            i <= ids@.len(),
            forall|j: int| 0 <= j < i ==> (#[trigger] ids@[j]).value != id.value,
        decreases ids@.len() - i,
    {
        if ids[i].value == id.value {
            return true;
        }
        i = i + 1;
    }
    false
}

/// The players whose attack is due, by ascending identifier.
fn players_on_this_tick(state: &GameState) -> (due: Vec<u64>)
    requires
        state.wf(),
    ensures
        due@ == attackers(state@),
        forall|i: int| 0 <= i < due@.len() ==> state@.players.contains_key(#[trigger] due@[i]),
{
    broadcast use vstd::std_specs::hash::group_hash_axioms;

    let ids = sorted_keys(state.players.by_id());
    let ghost now = attacks_now(state@);
    let mut due: Vec<u64> = Vec::new();
    let mut i: usize = 0;
    proof {
        lemma_in_order_lists(state@.players.dom());
    }
    while i < ids.len()
        invariant
            i <= ids@.len(),
            state.wf(),
            ids@ == in_order(state@.players.dom()),
            lists_in_order(ids@, state@.players.dom()),
            now == attacks_now(state@),
            due@ == only(ids@.take(i as int), now),
            forall|j: int| 0 <= j < due@.len() ==> state@.players.contains_key(#[trigger] due@[j]),
        decreases ids@.len() - i,
    {
        proof {
            let upto = ids@.take(i + 1);
            assert(upto.drop_last() =~= ids@.take(i as int));
            assert(upto.last() == ids@[i as int]);
            assert(ids@.contains(ids@[i as int]));
        }
        let id = ids[i];
        match state.players.by_id().get(&id) {
            Some(p) => {
                if state.ticks.is_on_division(player_attack_freq(), p.attack_offset) {
                    due.push(id);
                }
            },
            None => {},
        }
        i = i + 1;
    }
    assert(ids@.take(i as int) =~= ids@);
    due
}

/// Lets the players attack whose attack is due.
pub fn tick_player_attacks(writer: &mut EventWriter, state: &mut GameState)
    requires
        old(state).wf(),
        old(state).ticks.0 + RESPAWN_DELAY <= i64::MAX,
    ensures
        final(state).wf(),
        (Outcome { world: final(state)@, out: final(writer)@ }) == player_attacks(
            Outcome { world: old(state)@, out: old(writer)@ },
        ),
        final(state).ticks == old(state).ticks,
{
    broadcast use vstd::std_specs::hash::group_hash_axioms;

    let ghost start = Outcome { world: state@, out: writer@ };
    let due = players_on_this_tick(state);
    let mut i: usize = 0;
    while i < due.len()
        invariant
            i <= due@.len(),
            state.wf(),
            state.ticks == old(state).ticks,
            state@.players.dom() == start.world.players.dom(),
            forall|j: int|
                0 <= j < due@.len() ==> start.world.players.contains_key(#[trigger] due@[j]),
            (Outcome { world: state@, out: writer@ }) == auto_engaged_all(
                start,
                due@.take(i as int),
            ),
        decreases due@.len() - i,
    {
        proof {
            let upto = due@.take(i + 1);
            assert(upto.drop_last() =~= due@.take(i as int));
            assert(upto.last() == due@[i as int]);
            assert(start.world.players.contains_key(due@[i as int]));
        }
        update_player_target(PlayerId::new(due[i]), writer, state);
        i = i + 1;
    }
    assert(due@.take(i as int) =~= due@);
    let ghost engaged_all = Outcome { world: state@, out: writer@ };
    let mut killed_mob_ids: Vec<MobId> = Vec::new();
    let mut k: usize = 0;
    while k < due.len()
        invariant
            k <= due@.len(),
            state.wf(),
            state.ticks == old(state).ticks,
            old(state).ticks.0 + RESPAWN_DELAY <= i64::MAX,
            state@.players.dom() == start.world.players.dom(),
            forall|j: int|
                0 <= j < due@.len() ==> start.world.players.contains_key(#[trigger] due@[j]),
            (Outcome { world: state@, out: writer@ }) == struck_all(
                engaged_all,
                due@.take(k as int),
            ).0,
            forall|m: u64|
                struck_all(engaged_all, due@.take(k as int)).1.contains(m) <==> exists|j: int|
                    0 <= j < killed_mob_ids@.len() && (#[trigger] killed_mob_ids@[j]).value == m,
        decreases due@.len() - k,
    {
        let ghost before_ids = killed_mob_ids@;
        proof {
            let upto = due@.take(k + 1);
            assert(upto.drop_last() =~= due@.take(k as int));
            assert(upto.last() == due@[k as int]);
            assert(start.world.players.contains_key(due@[k as int]));
        }
        match strike(PlayerId::new(due[k]), writer, state) {
            Some(m) => {
                killed_mob_ids.push(m);
                proof {
                    let set0 = struck_all(engaged_all, due@.take(k as int)).1;
                    let set1 = struck_all(engaged_all, due@.take(k + 1)).1;
                    assert(set1 == set0.insert(m.value));
                    assert forall|x: u64| set1.contains(x) <==> exists|j: int|
                        0 <= j < killed_mob_ids@.len() && (#[trigger] killed_mob_ids@[j]).value
                            == x by {
                        if set0.contains(x) {
                            let j = choose|j: int|
                                0 <= j < before_ids.len() && (#[trigger] before_ids[j]).value == x;
                            assert(killed_mob_ids@[j].value == x);
                        }
                        if x == m.value {
                            assert(killed_mob_ids@[before_ids.len() as int].value == x);
                        }
                        if exists|j: int|
                            0 <= j < killed_mob_ids@.len() && (#[trigger] killed_mob_ids@[j]).value
                                == x {
                            let j = choose|j: int|
                                0 <= j < killed_mob_ids@.len() && (
                                #[trigger] killed_mob_ids@[j]).value == x;
                            if j < before_ids.len() {
                                assert(before_ids[j].value == x);
                            }
                        }
                    }
                }
            },
            None => {},
        }
        k = k + 1;
    }
    assert(due@.take(k as int) =~= due@);
    let ghost after_strikes = state@;
    let ghost killed = struck_all(engaged_all, due@).1;
    let ids = sorted_keys(state.players.by_id());
    proof {
        lemma_in_order_lists(state@.players.dom());
    }
    let mut n: usize = 0;
    proof {
        let none_yet = Map::new(
            |v: u64| after_strikes.players.contains_key(v),
            |v: u64|
                if ids@.take(0).contains(v) && targets_one_of(after_strikes.players[v], killed) {
                    Player { attack_target: None, ..after_strikes.players[v] }
                } else {
                    after_strikes.players[v]
                },
        );
        assert(none_yet =~= after_strikes.players);
    }
    while n < ids.len()
        invariant
            n <= ids@.len(),
            state.wf(),
            state.ticks == old(state).ticks,
            lists_in_order(ids@, after_strikes.players.dom()),
            forall|m: u64|
                killed.contains(m) <==> exists|j: int|
                    0 <= j < killed_mob_ids@.len() && (#[trigger] killed_mob_ids@[j]).value == m,
            state@ == (World {
                players: Map::new(
                    |v: u64| after_strikes.players.contains_key(v),
                    |v: u64|
                        if ids@.take(n as int).contains(v) && targets_one_of(
                            after_strikes.players[v],
                            killed,
                        ) {
                            Player { attack_target: None, ..after_strikes.players[v] }
                        } else {
                            after_strikes.players[v]
                        },
                ),
                ..after_strikes
            }),
        decreases ids@.len() - n,
    {
        let id = ids[n];
        let ghost seen = ids@.take(n as int);
        let ghost upto = ids@.take(n + 1);
        let ghost before = state@;
        proof {
            assert(ids@.contains(ids@[n as int]));
            assert(!seen.contains(id)) by {
                if seen.contains(id) {
                    let j = choose|j: int| 0 <= j < seen.len() && seen[j] == id;
                    assert(crate::order::as_ints(ids@)[j] < crate::order::as_ints(ids@)[n as int]);
                }
            }
            assert forall|v: u64| upto.contains(v) <==> seen.contains(v) || v == id by {
                if upto.contains(v) {
                    let j = choose|j: int| 0 <= j < upto.len() && upto[j] == v;
                    if j < n {
                        assert(seen[j] == v);
                    }
                }
                if seen.contains(v) {
                    let j = choose|j: int| 0 <= j < seen.len() && seen[j] == v;
                    assert(upto[j] == v);
                }
                if v == id {
                    assert(upto[n as int] == v);
                }
            }
        }
        let player = match state.players.by_id().get(&id) {
            Some(p) => p.clone(),
            None => {
                proof {
                    assert(false);
                }
                return ;
            },
        };
        let clear = match player.attack_target {
            Some(t) => is_one_of(t, &killed_mob_ids),
            None => false,
        };
        assert(clear == targets_one_of(after_strikes.players[id], killed));
        if clear {
            let mut after = player;
            after.attack_target = None;
            state.update_player(after);
        }
        proof {
            let expect = World {
                players: Map::new(
                    |v: u64| after_strikes.players.contains_key(v),
                    |v: u64|
                        if upto.contains(v) && targets_one_of(after_strikes.players[v], killed) {
                            Player { attack_target: None, ..after_strikes.players[v] }
                        } else {
                            after_strikes.players[v]
                        },
                ),
                ..after_strikes
            };
            assert(state@.players =~= expect.players);
            assert(state@.changed =~= expect.changed);
            assert(state@ == expect);
        }
        n = n + 1;
    }
    proof {
        assert(ids@.take(n as int) =~= ids@);
        assert(state@.players =~= targets_cleared(after_strikes, killed).players);
    }
}

/// The condition that a player of a bucket is one that a mob is hostile to.
pub open spec fn hostile_in_room(mob: MobView) -> spec_fn(PlayerId) -> bool {
    |id: PlayerId| mob.hostile_to.contains(id.value)
}

/// The players that a mob may turn on: those in its room that it is hostile
/// to, in order of arrival.
pub open spec fn candidates(w: World, mob: u64) -> Seq<PlayerId> {
    only(
        bucket_of(w.player_buckets, w.mobs[mob].room_id.value),
        hostile_in_room(w.mobs[mob]),
    )
}

/// Whether a mob has a target that is still there and in the mob's room.
pub open spec fn keeps_target(w: World, mob: u64) -> bool {
    match w.mobs[mob].attack_target {
        Some(t) => w.players.contains_key(t.value) && w.players[t.value].room_id.value
            == w.mobs[mob].room_id.value,
        None => false,
    }
}

/// From how many players a mob has to pick a new target: none where it
/// keeps the one it has.
pub open spec fn needed_targets(w: World, mob: u64) -> nat {
    if keeps_target(w, mob) {
        0
    } else {
        candidates(w, mob).len()
    }
}

/// The candidate at the place `pick`, or the first where there is no such
/// place.
pub open spec fn picked(c: Seq<PlayerId>, pick: int) -> PlayerId {
    if 0 <= pick < c.len() {
        c[pick]
    } else {
        c[0]
    }
}

/// The world and the queues after a mob has looked to its target. The mob
/// forgets the players that are gone. It keeps a target that is still in its
/// room. Else it turns on one of the players in its room that it is hostile
/// to, the one at the place `pick` among them, which that player and the
/// others in the room read; with no such player it has no target.
pub open spec fn retargeted(s: Outcome, mob: u64, pick: int) -> Outcome {
    let w = s.world;
    let m = w.mobs[mob];
    let pruned = m.hostile_to.intersect(w.players.dom());
    if keeps_target(w, mob) {
        Outcome { world: put_mob(w, MobView { hostile_to: pruned, ..m }), out: s.out }
    } else {
        let c = candidates(w, mob);
        if c.len() == 0 {
            Outcome {
                world: put_mob(w, MobView { hostile_to: pruned, attack_target: None, ..m }),
                out: s.out,
            }
        } else {
            let t = picked(c, pick);
            Outcome {
                world: put_mob(w, MobView { hostile_to: pruned, attack_target: Some(t), ..m }),
                out: told_all(
                    told(
                        s.out,
                        t.value,
                        colored_line(mob_attacks_you_text(m.template.name), Color::LightRed),
                    ),
                    others_in(w, m.room_id.value, t.value),
                    colored_line(
                        mob_attacks_other_text(m.template.name, w.players[t.value].name@),
                        Color::Red,
                    ),
                ),
            }
        }
    }
}

/// The members of a set of players that are still there.
fn connected_only(hostile: &HashSet<u64>, state: &GameState) -> (r: HashSet<u64>)
    ensures
        r@ == hostile@.intersect(state@.players.dom()),
{
    broadcast use vstd::std_specs::hash::group_hash_axioms;

    let mut out: HashSet<u64> = HashSet::new();
    let ghost all = hostile.iter().remaining().unref();
    for v in iter: hostile.iter()
        invariant
            iter.seq().unref() == all,
            forall|x: u64|
                out@.contains(x) <==> all.take(iter.index()).contains(x)
                    && state@.players.contains_key(x),
    {
        proof {
            lemma_take_one_more(all, iter.index());
        }
        if state.players.by_id().contains_key(v) {
            out.insert(*v);
        }
    }
    proof {
        assert(all.take(all.len() as int) =~= all);
        assert forall|x: u64| out@.contains(x) <==> hostile@.intersect(
            state@.players.dom(),
        ).contains(x) by {
            assert(all.to_set().contains(x) <==> all.contains(x));
        }
        assert(out@ =~= hostile@.intersect(state@.players.dom()));
    }
    out
}

/// The players that a mob may turn on.
fn candidates_of(mob_id: MobId, state: &GameState) -> (c: Vec<PlayerId>)
    requires
        state.wf(),
        state@.mobs.contains_key(mob_id.value),
    ensures
        c@ == candidates(state@, mob_id.value),
        forall|i: int| 0 <= i < c@.len() ==> state@.players.contains_key((#[trigger] c@[i]).value),
{
    broadcast use vstd::std_specs::hash::group_hash_axioms;

    let mob = match state.mobs.by_id().get(&mob_id.value) {
        Some(m) => m,
        None => {
            proof {
                assert(false);
            }
            return Vec::new();
        },
    };
    let ids = state.players.ids_in_room(mob.room_id);
    let ghost hostile = hostile_in_room(state@.mobs[mob_id.value]);
    let mut out: Vec<PlayerId> = Vec::new();
    let mut i: usize = 0;
    proof {
        lemma_players_filed_once(state.players);
    }
    while i < ids.len()
        invariant
            i <= ids@.len(),
            ids@ == bucket_of(state@.player_buckets, mob.room_id.value),
            hostile == hostile_in_room(state@.mobs[mob_id.value]),
            mob.hostile_to@ == state@.mobs[mob_id.value].hostile_to,
            out@ == only(ids@.take(i as int), hostile),
            forall|j: int| 0 <= j < ids@.len() ==> state@.players.contains_key(
                (#[trigger] ids@[j]).value,
            ),
            forall|j: int| 0 <= j < out@.len() ==> state@.players.contains_key(
                (#[trigger] out@[j]).value,
            ),
        decreases ids@.len() - i,
    {
        proof {
            lemma_take_one_more(ids@, i as int);
        }
        if mob.hostile_to.contains(&ids[i].value) {
            out.push(ids[i]);
        }
        i = i + 1;
    }
    assert(ids@.take(i as int) =~= ids@);
    out
}

/// Whether a mob has a target that is still there and in the mob's room.
fn mob_keeps_target(mob_id: MobId, state: &GameState) -> (r: bool)
    requires
        state.wf(),
        state@.mobs.contains_key(mob_id.value),
    ensures
        r == keeps_target(state@, mob_id.value),
{
    broadcast use vstd::std_specs::hash::group_hash_axioms;

    match state.mobs.by_id().get(&mob_id.value) {
        Some(mob) => match mob.attack_target {
            Some(t) => match state.players.by_id().get(&t.value) {
                Some(p) => p.room_id.value == mob.room_id.value,
                None => false,
            },
            None => false,
        },
        None => false,
    }
}

/// From how many players a mob has to pick a new target when its turn
/// comes: none where it keeps the one it has.
pub fn targets_needed(mob_id: MobId, state: &GameState) -> (n: usize)
    requires
        state.wf(),
        state@.mobs.contains_key(mob_id.value),
    ensures
        n == needed_targets(state@, mob_id.value),
{
    if mob_keeps_target(mob_id, state) {
        0
    } else {
        candidates_of(mob_id, state).len()
    }
}

/// Lets a mob look to its target; `pick` says which of the players that it
/// may turn on it chooses where it needs a new one.
pub fn update_mob_target(mob_id: MobId, pick: usize, writer: &mut EventWriter, state: &mut GameState)
    requires
        old(state).wf(),
        old(state)@.mobs.contains_key(mob_id.value),
    ensures
        final(state).wf(),
        (Outcome { world: final(state)@, out: final(writer)@ }) == retargeted(
            Outcome { world: old(state)@, out: old(writer)@ },
            mob_id.value,
            pick as int,
        ),
        final(state)@.mobs.dom() == old(state)@.mobs.dom(),
        final(state)@.players == old(state)@.players,
        final(state).ticks == old(state).ticks,
        match final(state)@.mobs[mob_id.value].attack_target {
            Some(t) => final(state)@.players.contains_key(t.value),
            None => true,
        },
{
    broadcast use vstd::std_specs::hash::group_hash_axioms;

    let ghost w = state@;
    let (room_id, target, mob_name, pruned) = match state.mobs.by_id().get(&mob_id.value) {
        Some(mob) => (
            mob.room_id,
            mob.attack_target,
            mob.template.name.clone(),
            connected_only(&mob.hostile_to, state),
        ),
        None => {
            proof {
                assert(false);
            }
            return ;
        },
    };
    let keeps = mob_keeps_target(mob_id, state);
    let new_target: Option<PlayerId> = if keeps {
        target
    } else {
        let c = candidates_of(mob_id, state);
        if c.len() == 0 {
            None
        } else {
            let t = if pick < c.len() {
                c[pick]
            } else {
                c[0]
            };
            assert(t == picked(c@, pick as int));
            let target_name = match state.players.by_id().get(&t.value) {
                Some(p) => p.name.clone(),
                None => {
                    proof {
                        assert(false);
                    }
                    String::new()
                },
            };
            proof {
                lemma_occupants(*state, room_id.value);
            }
            let msg_target = concat3("The ", mob_name.as_str(), " attacks you.");
            writer.tell(t, colored_text(msg_target.as_str(), Color::LightRed));
            let msg_others = concat5(
                "The ",
                mob_name.as_str(),
                " attacks ",
                target_name.as_str(),
                ".",
            );
            let others = state.players.ids_in_room_except(room_id, t);
            writer.tell_many(&others, colored_text(msg_others.as_str(), Color::Red));
            Some(t)
        }
    };
    let f = move |m: MobInstance| -> (o: (MobInstance, ()))
        ensures
            o.0@ == (MobView { hostile_to: pruned@, attack_target: new_target, ..m@ }),
            o.0.id == m.id,
        {
            let mut m = m;
            m.hostile_to = pruned;
            m.attack_target = new_target;
            (m, ())
        };
    state.change_mob(mob_id, f);
    assert(state@.mobs.dom() =~= w.mobs.dom());
}

/// A player after a hit: one with no more health than the hit takes dies,
/// which restores the health in full and ends the player's own attack; any
/// other loses that much health.
pub open spec fn hurt(p: Player, damage: i32) -> Player {
    if damage >= p.hp {
        Player { hp: p.max_hp, attack_target: None, ..p }
    } else {
        Player { hp: (p.hp - damage) as i32, ..p }
    }
}

/// The world and the queues after a mob has hit a player: the player is
/// hurt; the player and the others in the mob's room read of the hit, and,
/// where the player dies, of the death.
pub open spec fn attacked_by_mob(s: Outcome, mob: MobView, target: u64) -> Outcome {
    let p = s.world.players[target];
    let damage = mob.template.damage;
    let name = mob.template.name;
    let w1 = put_player(s.world, hurt(p, damage));
    let others = others_in(w1, mob.room_id.value, target);
    let out1 = told_all(
        told(s.out, target, colored_line(mob_hits_you_text(name, damage as int), Color::LightRed)),
        others,
        colored_line(mob_hits_other_text(name, p.name@, damage as int), Color::Red),
    );
    if damage >= p.hp {
        Outcome {
            world: w1,
            out: told_all(
                told(out1, target, colored_line("You die."@, Color::DarkGrey)),
                others,
                colored_line(player_dies_text(p.name@), Color::DarkGrey),
            ),
        }
    } else {
        Outcome { world: w1, out: out1 }
    }
}

/// Lets a mob hit a player, and says whether the hit kills the player.
pub fn attack_with_mob(
    mob_id: MobId,
    target_id: PlayerId,
    writer: &mut EventWriter,
    state: &mut GameState,
) -> (killed: bool)
    requires
        old(state).wf(),
        old(state)@.mobs.contains_key(mob_id.value),
        old(state)@.players.contains_key(target_id.value),
    ensures
        final(state).wf(),
        killed == (old(state)@.mobs[mob_id.value].template.damage
            >= old(state)@.players[target_id.value].hp),
        (Outcome { world: final(state)@, out: final(writer)@ }) == attacked_by_mob(
            Outcome { world: old(state)@, out: old(writer)@ },
            old(state)@.mobs[mob_id.value],
            target_id.value,
        ),
        final(state)@.mobs == old(state)@.mobs,
        final(state)@.players.dom() == old(state)@.players.dom(),
        final(state).ticks == old(state).ticks,
{
    broadcast use vstd::std_specs::hash::group_hash_axioms;

    let (mob_name, damage, mob_room_id) = match state.mobs.by_id().get(&mob_id.value) {
        Some(mob) => (mob.template.name.clone(), mob.template.damage, mob.room_id),
        None => {
            proof {
                assert(false);
            }
            return false;
        },
    };
    let target = match state.players.by_id().get(&target_id.value) {
        Some(p) => p.clone(),
        None => {
            proof {
                assert(false);
            }
            return false;
        },
    };
    assert(target.id == target_id);
    let target_name = target.name.clone();
    let killed = damage >= target.hp;
    let mut after = target;
    if killed {
        after.hp = after.max_hp;
        after.attack_target = None;
    } else {
        after.hp = after.hp - damage;
    }
    state.update_player(after);
    assert(state@.players.dom() =~= old(state)@.players.dom());
    proof {
        lemma_occupants(*state, mob_room_id.value);
    }
    let damage_text = int_to_string(damage as i128);
    let msg_target = concat5(
        "The ",
        mob_name.as_str(),
        " hits you for ",
        damage_text.as_str(),
        " damage.",
    );
    writer.tell(target_id, colored_text(msg_target.as_str(), Color::LightRed));
    let msg_others = concat7(
        "The ",
        mob_name.as_str(),
        " hits ",
        target_name.as_str(),
        " for ",
        damage_text.as_str(),
        " damage.",
    );
    let others = state.players.ids_in_room_except(mob_room_id, target_id);
    writer.tell_many(&others, colored_text(msg_others.as_str(), Color::Red));
    if killed {
        writer.tell(target_id, colored_text("You die.", Color::DarkGrey));
        let msg_dies = concat3(target_name.as_str(), " dies.", "");
        assert(msg_dies@ =~= player_dies_text(target_name@)) by {
            reveal_strlit("");
        }
        writer.tell_many(&others, colored_text(msg_dies.as_str(), Color::DarkGrey));
    }
    killed
}

/// A mob that has put a player out of its mind: it is no longer hostile to
/// the player and does not target them.
pub open spec fn forgetful(m: MobView, player: u64) -> MobView {
    MobView {
        hostile_to: m.hostile_to.remove(player),
        attack_target: match m.attack_target {
            Some(t) => if t.value == player {
                None
            } else {
                Some(t)
            },
            None => None,
        },
        ..m
    }
}

/// The world after every mob has put a player out of its mind.
pub open spec fn forgotten(w: World, player: u64) -> World {
    World {
        mobs: Map::new(|m: u64| w.mobs.contains_key(m), |m: u64| forgetful(w.mobs[m], player)),
        ..w
    }
}

/// Makes every mob put a player out of its mind.
fn forget_player(player: PlayerId, state: &mut GameState)
    requires
        old(state).wf(),
    ensures
        final(state).wf(),
        final(state)@ == forgotten(old(state)@, player.value),
        final(state).ticks == old(state).ticks,
{
    broadcast use vstd::std_specs::hash::group_hash_axioms;

    let ghost w = state@;
    let who: u64 = player.value;
    let ids = sorted_keys(state.mobs.by_id());
    proof {
        assert(state.mobs.views().dom() =~= state.mobs.entities().dom());
        lemma_in_order_lists(state@.mobs.dom());
        let none_yet = Map::new(
            |m: u64| w.mobs.contains_key(m),
            |m: u64|
                if ids@.take(0).contains(m) {
                    forgetful(w.mobs[m], who)
                } else {
                    w.mobs[m]
                },
        );
        assert(none_yet =~= w.mobs);
        assert forall|m: u64| #[trigger] w.mobs.contains_key(m) implies w.mobs[m].id.value
            == m by {
            assert(state.mobs.entities().contains_key(m));
        }
    }
    let mut n: usize = 0;
    while n < ids.len()
        invariant
            n <= ids@.len(),
            state.wf(),
            state.ticks == old(state).ticks,
            who == player.value,
            lists_in_order(ids@, w.mobs.dom()),
            forall|m: u64| #[trigger] w.mobs.contains_key(m) ==> w.mobs[m].id.value == m,
            state@ == (World {
                mobs: Map::new(
                    |m: u64| w.mobs.contains_key(m),
                    |m: u64|
                        if ids@.take(n as int).contains(m) {
                            forgetful(w.mobs[m], who)
                        } else {
                            w.mobs[m]
                        },
                ),
                ..w
            }),
        decreases ids@.len() - n,
    {
        let id = ids[n];
        let ghost seen = ids@.take(n as int);
        let ghost upto = ids@.take(n + 1);
        proof {
            lemma_take_one_more(ids@, n as int);
            assert(ids@.contains(ids@[n as int]));
            assert(!seen.contains(id)) by {
                if seen.contains(id) {
                    let j = choose|j: int| 0 <= j < seen.len() && seen[j] == id;
                    assert(crate::order::as_ints(ids@)[j] < crate::order::as_ints(ids@)[n as int]);
                }
            }
            assert(state@.mobs[id] == w.mobs[id]);
        }
        let f = |m: MobInstance| -> (o: (MobInstance, ()))
            ensures
                o.0@ == forgetful(m@, who),
                o.0.id == m.id,
            {
                let mut m = m;
                m.hostile_to.remove(&who);
                let clear = match m.attack_target {
                    Some(t) => t.value == who,
                    None => false,
                };
                if clear {
                    m.attack_target = None;
                }
                (m, ())
            };
        assert(state@.mobs.contains_key(id));
        assert(state.mobs.entities().contains_key(id));
        assert(state.mobs.entities()[id].id.value == id);
        assert(state@.mobs[id] == state.mobs.entities()[id]@);
        state.change_mob(MobId::new(id), f);
        proof {
            let expect = World {
                mobs: Map::new(
                    |m: u64| w.mobs.contains_key(m),
                    |m: u64|
                        if upto.contains(m) {
                            forgetful(w.mobs[m], who)
                        } else {
                            w.mobs[m]
                        },
                ),
                ..w
            };
            assert(state@.mobs =~= expect.mobs);
            assert(state@ == expect);
        }
        n = n + 1;
    }
    proof {
        assert(ids@.take(n as int) =~= ids@);
        assert(state@.mobs =~= forgotten(w, who).mobs);
    }
}

/// The world and the queues after the attack of a mob, and the player that
/// it killed, if any. A mob without a target does nothing. Any other hits its
/// target. A player who dies wakes up in the respawn room, and every mob puts
/// them out of its mind.
pub open spec fn mob_struck(s: Outcome, mob: u64) -> (Outcome, Option<u64>) {
    let m = s.world.mobs[mob];
    match m.attack_target {
        None => (s, None),
        Some(t) => if !s.world.players.contains_key(t.value) {
            (s, None)
        } else {
            let a = attacked_by_mob(s, m, t.value);
            if m.template.damage >= s.world.players[t.value].hp {
                let moved = put_player(
                    a.world,
                    Player {
                        room_id: RoomId { value: RESPAWN_ROOM, phantom: std::marker::PhantomData },
                        ..a.world.players[t.value]
                    },
                );
                (Outcome { world: forgotten(moved, t.value), out: a.out }, Some(t.value))
            } else {
                (a, None)
            }
        },
    }
}

/// The world and the queues after the turn of a mob, and the player that it
/// killed, if any: the mob looks to its target, then attacks.
pub open spec fn mob_turned(s: Outcome, mob: u64, pick: int) -> (Outcome, Option<u64>) {
    mob_struck(retargeted(s, mob, pick), mob)
}

/// Carries out the turn of a mob; `pick` says which of the players that it
/// may turn on it chooses where it needs a new target.
pub fn mob_turn(mob_id: MobId, pick: usize, writer: &mut EventWriter, state: &mut GameState) -> (dead:
    Option<PlayerId>)
    requires
        old(state).wf(),
        old(state)@.mobs.contains_key(mob_id.value),
    ensures
        final(state).wf(),
        mob_turned(Outcome { world: old(state)@, out: old(writer)@ }, mob_id.value, pick as int)
            == (
            Outcome { world: final(state)@, out: final(writer)@ },
            match dead {
                Some(p) => Some(p.value),
                None => None,
            },
        ),
        final(state)@.mobs.dom() == old(state)@.mobs.dom(),
        final(state).ticks == old(state).ticks,
{
    broadcast use vstd::std_specs::hash::group_hash_axioms;

    update_mob_target(mob_id, pick, writer, state);
    let ghost dom = state@.mobs.dom();
    let target = match state.mobs.by_id().get(&mob_id.value) {
        Some(mob) => mob.attack_target,
        None => None,
    };
    match target {
        Some(t) => {
            let killed = attack_with_mob(mob_id, t, writer, state);
            if killed {
                let mut moved = match state.players.by_id().get(&t.value) {
                    Some(p) => p.clone(),
                    None => {
                        proof {
                            assert(false);
                        }
                        return None;
                    },
                };
                assert(moved.id == t);
                moved.room_id = RoomId::new(RESPAWN_ROOM);
                state.update_player(moved);
                forget_player(t, state);
                assert(state@.mobs.dom() =~= dom);
                Some(t)
            } else {
                None
            }
        },
        None => None,
    }
}

/// The condition that a mob's attack is due at the world's clock value.
pub open spec fn mob_attacks_now(w: World) -> spec_fn(u64) -> bool {
    |m: u64|
        w.mobs.contains_key(m) && on_division(
            w.ticks.0 as int,
            w.mobs[m].template.attack_period.0 as int,
            w.mobs[m].attack_offset.0 as int,
        )
}

/// The mobs whose attack is due, by ascending identifier.
pub open spec fn attacking_mobs(w: World) -> Seq<u64> {
    only(in_order(w.mobs.dom()), mob_attacks_now(w))
}

/// The turns of some mobs, one after the other, and the players that died,
/// in the order of their deaths. The mob at a place of the list chooses by
/// the pick at the same place.
pub open spec fn mob_turns(s: Outcome, mobs: Seq<u64>, picks: Seq<int>) -> (Outcome, Seq<u64>)
    decreases mobs.len(),
{
    if mobs.len() == 0 {
        (s, Seq::empty())
    } else {
        let (s1, dead) = mob_turns(s, mobs.drop_last(), picks);
        let (s2, d) = mob_turned(s1, mobs.last(), picks[mobs.len() - 1]);
        (
            s2,
            match d {
                Some(p) => dead.push(p),
                None => dead,
            },
        )
    }
}

/// The turns of some mobs depend only on the picks at their places.
pub proof fn lemma_mob_turns_picks(s: Outcome, mobs: Seq<u64>, a: Seq<int>, b: Seq<int>)
    requires
        forall|i: int| 0 <= i < mobs.len() ==> a[i] == b[i],
    ensures
        mob_turns(s, mobs, a) == mob_turns(s, mobs, b),
    decreases mobs.len(),
{
    if mobs.len() > 0 {
        lemma_mob_turns_picks(s, mobs.drop_last(), a, b);
    }
}

/// The queues after each of the players who died has been shown the respawn
/// room, if the world has one.
pub open spec fn shown_respawn_room(s: Outcome, dead: Seq<u64>) -> Outcome
    decreases dead.len(),
{
    if dead.len() == 0 {
        s
    } else {
        let before = shown_respawn_room(s, dead.drop_last());
        if s.world.rooms.contains_key(RESPAWN_ROOM) {
            Outcome {
                world: before.world,
                out: told_lines(
                    before.out,
                    dead.last(),
                    room_lines(s.world, dead.last(), s.world.rooms[RESPAWN_ROOM]),
                ),
            }
        } else {
            before
        }
    }
}

/// The world and the queues after the attacks of the mobs that are due at
/// the world's clock value, given what each of them picks: each takes its
/// turn, by ascending identifier; then the players who died are shown the
/// room in which they wake up.
pub open spec fn mob_attacks(s: Outcome, picks: Seq<int>) -> Outcome {
    let (s1, dead) = mob_turns(s, attacking_mobs(s.world), picks);
    shown_respawn_room(s1, dead)
}

/// The mobs whose attack is due, by ascending identifier.
fn mobs_on_this_tick(state: &GameState) -> (due: Vec<u64>)
    requires
        state.wf(),
    ensures
        due@ == attacking_mobs(state@),
        forall|i: int| 0 <= i < due@.len() ==> state@.mobs.contains_key(#[trigger] due@[i]),
{
    broadcast use vstd::std_specs::hash::group_hash_axioms;

    let ids = sorted_keys(state.mobs.by_id());
    let ghost now = mob_attacks_now(state@);
    let mut due: Vec<u64> = Vec::new();
    let mut i: usize = 0;
    proof {
        assert(state.mobs.views().dom() =~= state.mobs.entities().dom());
        lemma_in_order_lists(state@.mobs.dom());
    }
    while i < ids.len()
        invariant
            i <= ids@.len(),
            state.wf(),
            ids@ == in_order(state@.mobs.dom()),
            lists_in_order(ids@, state@.mobs.dom()),
            now == mob_attacks_now(state@),
            due@ == only(ids@.take(i as int), now),
            forall|j: int| 0 <= j < due@.len() ==> state@.mobs.contains_key(#[trigger] due@[j]),
        decreases ids@.len() - i,
    {
        proof {
            lemma_take_one_more(ids@, i as int);
            assert(ids@.contains(ids@[i as int]));
        }
        let id = ids[i];
        match state.mobs.by_id().get(&id) {
            Some(mob) => {
                assert(state@.mobs[id] == mob@);
                assert(mob@.template.wf());
                if state.ticks.is_on_division(mob.template.attack_period, mob.attack_offset) {
                    due.push(id);
                }
            },
            None => {
                assert(!state@.mobs.contains_key(id));
            },
        }
        i = i + 1;
    }
    assert(ids@.take(i as int) =~= ids@);
    due
}

/// Lets the mobs attack whose attack is due. A mob that needs a new target
/// and has several players to choose from picks one at random, so the
/// outcome is that of `mob_attacks` for some picks.
pub fn tick_mob_attacks(writer: &mut EventWriter, state: &mut GameState)
    requires
        old(state).wf(),
    ensures
        final(state).wf(),
        final(state).ticks == old(state).ticks,
        exists|picks: Seq<int>|
            (Outcome { world: final(state)@, out: final(writer)@ }) == #[trigger] mob_attacks(
                Outcome { world: old(state)@, out: old(writer)@ },
                picks,
            ),
{
    broadcast use vstd::std_specs::hash::group_hash_axioms;

    let ghost start = Outcome { world: state@, out: writer@ };
    let due = mobs_on_this_tick(state);
    let ghost mut picks: Seq<int> = Seq::empty();
    let mut dead: Vec<PlayerId> = Vec::new();
    let mut k: usize = 0;
    assert(id_values(dead@) =~= Seq::<u64>::empty());
    while k < due.len()
        invariant
            k <= due@.len(),
            state.wf(),
            state.ticks == old(state).ticks,
            picks.len() == k,
            state@.mobs.dom() == start.world.mobs.dom(),
            forall|j: int| 0 <= j < due@.len() ==> start.world.mobs.contains_key(#[trigger] due@[j]),
            mob_turns(start, due@.take(k as int), picks) == (
                Outcome { world: state@, out: writer@ },
                id_values(dead@),
            ),
        decreases due@.len() - k,
    {
        let ghost before_picks = picks;
        let ghost before_dead = id_values(dead@);
        let mob_id = MobId::new(due[k]);
        assert(start.world.mobs.contains_key(due@[k as int]));
        let n = targets_needed(mob_id, state);
        let count: u64 = n as u64;
        let pick: usize = if count > 0 && count <= 0x7fff_ffff_ffff_ffff {
            random_in_range(0, count as i64) as usize
        } else {
            0
        };
        proof {
            picks = picks.push(pick as int);
            lemma_take_one_more(due@, k as int);
            lemma_mob_turns_picks(start, due@.take(k as int), before_picks, picks);
        }
        match mob_turn(mob_id, pick, writer, state) {
            Some(p) => {
                dead.push(p);
                assert(id_values(dead@) =~= before_dead.push(p.value));
            },
            None => {},
        }
        k = k + 1;
    }
    assert(due@.take(k as int) =~= due@);
    let ghost turned = Outcome { world: state@, out: writer@ };
    let mut i: usize = 0;
    while i < dead.len()
        invariant
            i <= dead@.len(),
            state.wf(),
            state@ == turned.world,
            (Outcome { world: state@, out: writer@ }) == shown_respawn_room(
                turned,
                id_values(dead@).take(i as int),
            ),
        decreases dead@.len() - i,
    {
        proof {
            lemma_take_one_more(id_values(dead@), i as int);
        }
        match state.rooms.get(&RESPAWN_ROOM) {
            Some(room) => {
                describe_room(dead[i], room, writer, state);
            },
            None => {},
        }
        i = i + 1;
    }
    proof {
        assert(id_values(dead@).take(i as int) =~= id_values(dead@));
        assert((Outcome { world: state@, out: writer@ }) == mob_attacks(start, picks));
    }
}

/// Whether some mob is hostile to a player.
pub open spec fn in_combat(w: World, player: u64) -> bool {
    exists|m: u64| #[trigger] w.mobs.contains_key(m) && w.mobs[m].hostile_to.contains(player)
}

/// The health of a player after a round of healing: a twentieth of the full
/// health more, but no more than the full health (and no less than the
/// least health that can be represented).
pub open spec fn healed_hp(hp: i32, max_hp: i32) -> i32 {
    let sum = hp + truncated_div(max_hp as int, 20);
    if sum >= max_hp {
        max_hp
    } else if sum < i32::MIN {
        i32::MIN
    } else {
        sum as i32
    }
}

/// A player after a round of healing: one who is below full health and whom
/// no mob is hostile to regains health; any other stays as they are.
pub open spec fn healed_player(w: World, p: Player) -> Player {
    if p.hp < p.max_hp && !in_combat(w, p.id.value) {
        Player { hp: healed_hp(p.hp, p.max_hp), ..p }
    } else {
        p
    }
}

/// The world after the players' healing, which is due at every clock value
/// that is a multiple of the healing period: every player heals, and the
/// rooms of those whose health changed are marked.
pub open spec fn healed(w: World) -> World {
    if !on_division(w.ticks.0 as int, PLAYER_HEAL_PERIOD as int, 0) {
        w
    } else {
        World {
            players: Map::new(
                |v: u64| w.players.contains_key(v),
                |v: u64| healed_player(w, w.players[v]),
            ),
            changed: Set::new(
                |r: u64|
                    w.changed.contains(r) || exists|v: u64|
                        #[trigger] w.players.contains_key(v) && w.players[v].room_id.value == r
                            && healed_player(w, w.players[v]).hp != w.players[v].hp,
            ),
            ..w
        }
    }
}

fn is_in_combat(player: u64, mob_ids: &Vec<u64>, state: &GameState) -> (r: bool)
    requires
        forall|m: u64| mob_ids@.contains(m) <==> state@.mobs.contains_key(m),
    ensures
        r == in_combat(state@, player),
{
    broadcast use vstd::std_specs::hash::group_hash_axioms;

    let mut i: usize = 0;
    while i < mob_ids.len()
        invariant
            i <= mob_ids@.len(),
            forall|m: u64| mob_ids@.contains(m) <==> state@.mobs.contains_key(m),
            forall|j: int|
                0 <= j < i ==> !state@.mobs[#[trigger] mob_ids@[j]].hostile_to.contains(player),
        decreases mob_ids@.len() - i,
    {
        assert(mob_ids@.contains(mob_ids@[i as int]));
        match state.mobs.by_id().get(&mob_ids[i]) {
            Some(mob) => {
                assert(state@.mobs[mob_ids@[i as int]] == mob@);
                if mob.hostile_to.contains(&player) {
                    assert(state@.mobs.contains_key(mob_ids@[i as int]));
                    return true;
                }
            },
            None => {
                assert(!state@.mobs.contains_key(mob_ids@[i as int]));
            },
        }
        i = i + 1;
    }
    assert forall|m: u64| #[trigger] state@.mobs.contains_key(m) implies !state@.mobs[m].hostile_to.contains(
        player,
    ) by {
        assert(mob_ids@.contains(m));
        let j = choose|j: int| 0 <= j < mob_ids@.len() && mob_ids@[j] == m;
        assert(!state@.mobs[mob_ids@[j]].hostile_to.contains(player));
    }
    false
}

fn heal_amount(hp: i32, max_hp: i32) -> (r: i32)
    ensures
        r == healed_hp(hp, max_hp),
{
    let gain: i64 = (max_hp / 20) as i64;
    let sum: i64 = hp as i64 + gain;
    if sum >= max_hp as i64 {
        max_hp
    } else if sum < -2147483648 {
        -2147483648
    } else {
        sum as i32
    }
}

/// Lets the players heal when healing is due.
pub fn tick_heal_players(state: &mut GameState)
    requires
        old(state).wf(),
    ensures
        final(state).wf(),
        final(state)@ == healed(old(state)@),
        final(state).ticks == old(state).ticks,
{
    broadcast use vstd::std_specs::hash::group_hash_axioms;

    if !state.ticks.is_on_division(player_heal_freq(), TickDuration::zero()) {
        return ;
    }
    let ghost w = state@;
    let mob_ids = sorted_keys(state.mobs.by_id());
    let ids = sorted_keys(state.players.by_id());
    proof {
        assert(state.mobs.views().dom() =~= state.mobs.entities().dom());
        lemma_in_order_lists(state@.mobs.dom());
        lemma_in_order_lists(state@.players.dom());
        let none_yet = World {
            players: Map::new(
                |v: u64| w.players.contains_key(v),
                |v: u64|
                    if ids@.take(0).contains(v) {
                        healed_player(w, w.players[v])
                    } else {
                        w.players[v]
                    },
            ),
            changed: Set::new(
                |r: u64|
                    w.changed.contains(r) || exists|v: u64|
                        ids@.take(0).contains(v) && #[trigger] w.players.contains_key(v)
                            && w.players[v].room_id.value == r && healed_player(
                            w,
                            w.players[v],
                        ).hp != w.players[v].hp,
            ),
            ..w
        };
        assert(none_yet.players =~= w.players);
        assert(none_yet.changed =~= w.changed);
    }
    let mut n: usize = 0;
    while n < ids.len()
        invariant
            n <= ids@.len(),
            state.wf(),
            state.ticks == old(state).ticks,
            lists_in_order(ids@, w.players.dom()),
            forall|m: u64| mob_ids@.contains(m) <==> w.mobs.contains_key(m),
            forall|v: u64| #[trigger] w.players.contains_key(v) ==> w.players[v].id.value == v,
            state@ == (World {
                players: Map::new(
                    |v: u64| w.players.contains_key(v),
                    |v: u64|
                        if ids@.take(n as int).contains(v) {
                            healed_player(w, w.players[v])
                        } else {
                            w.players[v]
                        },
                ),
                changed: Set::new(
                    |r: u64|
                        w.changed.contains(r) || exists|v: u64|
                            ids@.take(n as int).contains(v) && #[trigger] w.players.contains_key(v)
                                && w.players[v].room_id.value == r && healed_player(
                                w,
                                w.players[v],
                            ).hp != w.players[v].hp,
                ),
                ..w
            }),
        decreases ids@.len() - n,
    {
        let id = ids[n];
        let ghost seen = ids@.take(n as int);
        let ghost upto = ids@.take(n + 1);
        let ghost before = state@;
        proof {
            lemma_take_one_more(ids@, n as int);
            assert(ids@.contains(ids@[n as int]));
            assert(!seen.contains(id)) by {
                if seen.contains(id) {
                    let j = choose|j: int| 0 <= j < seen.len() && seen[j] == id;
                    assert(crate::order::as_ints(ids@)[j] < crate::order::as_ints(ids@)[n as int]);
                }
            }
            assert(state@.players[id] == w.players[id]);
        }
        let player = match state.players.by_id().get(&id) {
            Some(p) => p.clone(),
            None => {
                proof {
                    assert(false);
                }
                return ;
            },
        };
        let fighting = is_in_combat(id, &mob_ids, state);
        assert(fighting == in_combat(w, id)) by {
            assert(state@.mobs == w.mobs);
        }
        if player.hp < player.max_hp && !fighting {
            let new_hp = heal_amount(player.hp, player.max_hp);
            let mut after = player;
            after.hp = new_hp;
            state.update_player(after);
        }
        proof {
            let expect = World {
                players: Map::new(
                    |v: u64| w.players.contains_key(v),
                    |v: u64|
                        if upto.contains(v) {
                            healed_player(w, w.players[v])
                        } else {
                            w.players[v]
                        },
                ),
                changed: Set::new(
                    |r: u64|
                        w.changed.contains(r) || exists|v: u64|
                            upto.contains(v) && #[trigger] w.players.contains_key(v)
                                && w.players[v].room_id.value == r && healed_player(
                                w,
                                w.players[v],
                            ).hp != w.players[v].hp,
                ),
                ..w
            };
            assert(state@.players =~= expect.players);
            let room = w.players[id].room_id.value;
            let differs = healed_player(w, w.players[id]).hp != w.players[id].hp;
            assert forall|r: u64| state@.changed.contains(r) <==> expect.changed.contains(r) by {
                if differs {
                    assert(state@.changed == before.changed.insert(room));
                } else {
                    assert(state@.changed == before.changed);
                }
                if before.changed.contains(r) && !w.changed.contains(r) {
                    let v = choose|v: u64|
                        seen.contains(v) && #[trigger] w.players.contains_key(v)
                            && w.players[v].room_id.value == r && healed_player(
                            w,
                            w.players[v],
                        ).hp != w.players[v].hp;
                    assert(upto.contains(v));
                }
                if differs && r == room {
                    assert(upto.contains(id) && w.players.contains_key(id));
                }
                if expect.changed.contains(r) && !w.changed.contains(r) {
                    let v = choose|v: u64|
                        upto.contains(v) && #[trigger] w.players.contains_key(v)
                            && w.players[v].room_id.value == r && healed_player(
                            w,
                            w.players[v],
                        ).hp != w.players[v].hp;
                    if v != id {
                        assert(seen.contains(v));
                    }
                }
            }
            assert(state@.changed =~= expect.changed);
            assert(state@ == expect);
        }
        n = n + 1;
    }
    proof {
        assert(ids@.take(n as int) =~= ids@);
        let goal = healed(w);
        assert(state@.players =~= goal.players);
        assert forall|r: u64| state@.changed.contains(r) <==> goal.changed.contains(r) by {
            if state@.changed.contains(r) && !w.changed.contains(r) {
                let v = choose|v: u64|
                    ids@.contains(v) && #[trigger] w.players.contains_key(v)
                        && w.players[v].room_id.value == r && healed_player(w, w.players[v]).hp
                        != w.players[v].hp;
                assert(w.players.contains_key(v));
            }
            if goal.changed.contains(r) && !w.changed.contains(r) {
                let v = choose|v: u64|
                    #[trigger] w.players.contains_key(v) && w.players[v].room_id.value == r
                        && healed_player(w, w.players[v]).hp != w.players[v].hp;
                assert(ids@.contains(v));
            }
        }
        assert(state@.changed =~= goal.changed);
    }
}

} // verus!
