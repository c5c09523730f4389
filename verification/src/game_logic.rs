use crate::chance::random_in_range;
use crate::event_writer::{told, told_all, told_lines, EventWriter};
use crate::game_alias::{alias, alias_lines, resolve_aliases, resolved};
use crate::game_chat::{chat, chat_outcome, illegal_chat_pattern, regex_match, ChatCommand};
use crate::game_combat::{
    healed, kill, kill_outcome, mob_attacks, player_attacks, tick_heal_players, tick_mob_attacks,
    tick_player_attacks, RESPAWN_DELAY,
};
use crate::game_help::{help, help_lines};
use crate::game_room::{
    after_statements, command_choice, command_usable, delays_fit, describe_room,
    description_text, object_offers,
    eval_room_description, resolve_room_specific_command, resolve_target_in_room, room_lines,
    run_room_command, target_choice, CommandChoice, RoomSpecificCommand, RoomTarget, TargetChoice,
};
use crate::game_state::{
    add_mob, add_player, drop_player, first_exit_to, lemma_occupants, others_in, players_in,
    put_player, GameState, MobRespawn, Outcome, RoomCommand, RoomVarReset, World,
};
use crate::room_vars::with_var;
use crate::schedule::{due_entries, due_keys, not_due, take_due};
use crate::id::{MobId, PlayerId, RoomId};
use crate::line::{
    colored, lines_view, plain, plain_line, span, spans_view, Color, Line, LineSpan, SpanView,
};
use crate::mob::{MobInstance, MobSpawn, MobTemplate, MobView, TemplateView};
use crate::order::{in_order, lemma_in_order_lists, lists_in_order, sorted_keys};
use crate::player::Player;
use crate::search::{first_where, lemma_first_where, lemma_take_one_more};
use crate::text::{
    are_text, ascii_lowercase, concat3, concat5, concat7, decimal, eq_ignore_ascii_case,
    eq_ignoring_ascii_case, int_to_string, is_text, join_words, joined_by_space, plural_text,
    split_whitespace, strs, to_ascii_lowercase, whitespace_words,
};
use crate::text_util::{are, plural};
use crate::tick::{on_division, Tick, TickDuration, LARGE_TICK_FREQUENCY};
use std::collections::HashSet;
use vstd::prelude::*;
use vstd::string::*;

verus! {

/// The sentence that says how many players are online.
pub open spec fn player_count_text(count: int) -> Seq<char> {
    "There "@ + are_text(count) + " "@ + decimal(count) + " "@ + plural_text(count, "player"@)
        + " online."@
}

/// Says how many players are online.
pub fn format_player_count(count: usize) -> (r: String)
    ensures
        r@ == player_count_text(count as int),
{
    let number = int_to_string(count as i128);
    let noun = plural(count, "player");
    concat7("There ", are(count), " ", number.as_str(), " ", noun.as_str(), " online.")
}

/// The names of some players, a line each.
pub open spec fn name_lines(ids: Seq<u64>, players: Map<u64, Player>) -> Seq<Seq<SpanView>> {
    ids.map_values(|v: u64| plain_line(players[v].name@))
}

/// What a player reads who asks who is online: how many players there are,
/// then their names by ascending identifier.
pub open spec fn who_lines(w: World) -> Seq<Seq<SpanView>> {
    seq![plain_line(player_count_text(w.players.dom().len() as int))] + name_lines(
        in_order(w.players.dom()),
        w.players,
    )
}

/// Tells a player who is online.
pub fn list_players(player_id: PlayerId, writer: &mut EventWriter, state: &GameState)
    requires
        state.wf(),
    ensures
        final(writer)@ == told_lines(old(writer)@, player_id.value, who_lines(state@)),
{
    broadcast use vstd::std_specs::hash::group_hash_axioms;

    let count = state.players.by_id().len();
    let mut lines: Vec<Line> = Vec::new();
    lines.push(Line::str(format_player_count(count).as_str()));
    let ghost first = lines_view(lines@);
    assert(first =~= seq![plain_line(player_count_text(state@.players.dom().len() as int))]);
    let ids = sorted_keys(state.players.by_id());
    proof {
        lemma_in_order_lists(state@.players.dom());
    }
    let mut i: usize = 0;
    assert(lines_view(lines@) =~= first + name_lines(ids@.take(0), state@.players));
    while i < ids.len()
        invariant
            i <= ids@.len(),
            lists_in_order(ids@, state@.players.dom()),
            lines_view(lines@) == first + name_lines(ids@.take(i as int), state@.players),
        decreases ids@.len() - i,
    {
        let ghost before = lines_view(lines@);
        proof {
            lemma_take_one_more(ids@, i as int);
            assert(ids@.contains(ids@[i as int]));
        }
        match state.players.by_id().get(&ids[i]) {
            Some(p) => {
                lines.push(Line::str(p.name.as_str()));
            },
            None => {
                proof {
                    assert(false);
                }
            },
        }
        assert(lines_view(lines@) =~= before.push(plain_line(state@.players[ids@[i as int]].name@)));
        assert(name_lines(ids@.take(i + 1), state@.players) =~= name_lines(
            ids@.take(i as int),
            state@.players,
        ).push(plain_line(state@.players[ids@[i as int]].name@)));
        i = i + 1;
    }
    assert(ids@.take(i as int) =~= ids@);
    writer.tell_lines(player_id, &lines);
}

/// The queues after a player has rolled a die: the player and the others
/// in the room read what was rolled.
pub open spec fn rolled(
    out: Map<u64, Seq<Seq<SpanView>>>,
    w: World,
    p: Player,
    roll: int,
) -> Map<u64, Seq<Seq<SpanView>>> {
    told_all(
        told(out, p.id.value, plain_line("You rolled a "@ + decimal(roll) + "."@)),
        others_in(w, p.room_id.value, p.id.value),
        plain_line(p.name@ + " rolled a "@ + decimal(roll) + "."@),
    )
}

/// Tells a player and the others in the room what the player rolled.
pub fn tell_roll(player: &Player, roll: u32, writer: &mut EventWriter, state: &GameState)
    requires
        state.wf(),
    ensures
        final(writer)@ == rolled(old(writer)@, state@, *player, roll as int),
{
    proof {
        lemma_occupants(*state, player.room_id.value);
    }
    let number = int_to_string(roll as i128);
    let to_self = concat3("You rolled a ", number.as_str(), ".");
    writer.tell(player.id, Line::str(to_self.as_str()));
    let to_others = concat5(player.name.as_str(), " rolled a ", number.as_str(), ".", "");
    assert(to_others@ =~= player.name@ + " rolled a "@ + decimal(roll as int) + "."@) by {
        reveal_strlit("");
    }
    let others = state.players.ids_in_room_except(player.room_id, player.id);
    writer.tell_many(&others, Line::str(to_others.as_str()));
}

/// Rolls a die for a player: each of one to six may come up.
pub fn roll_die(player: &Player, writer: &mut EventWriter, state: &GameState) -> (r: Result<
    (),
    String,
>)
    requires
        state.wf(),
    ensures
        r is Ok,
        exists|roll: int|
            1 <= roll <= 6 && final(writer)@ == #[trigger] rolled(
                old(writer)@,
                state@,
                *player,
                roll,
            ),
{
    let roll = random_in_range(1, 7) as u32;
    tell_roll(player, roll, writer, state);
    assert(writer@ == rolled(old(writer)@, state@, *player, roll as int));
    Ok(())
}

/// A mob fresh from its template: at full health, with the given phase of
/// attack, hostile to no one and without a target.
pub open spec fn fresh_mob(
    id: u64,
    room_id: RoomId,
    template: TemplateView,
    offset: TickDuration,
) -> MobView {
    MobView {
        id: MobId { value: id, phantom: std::marker::PhantomData },
        room_id,
        template,
        hp: template.max_hp,
        attack_offset: offset,
        hostile_to: Set::empty(),
        attack_target: None,
    }
}

/// The world after a mob has been spawned from a template into a room: the
/// mob gets the next identifier.
pub open spec fn spawned(
    w: World,
    room_id: RoomId,
    template: TemplateView,
    offset: TickDuration,
) -> World {
    add_mob(
        World { next_mob_id: (w.next_mob_id + 1) as u64, ..w },
        fresh_mob(w.next_mob_id, room_id, template, offset),
    )
}

/// Spawns a mob from a template into a room, with the given phase of
/// attack.
pub fn spawn_mob(
    room_id: RoomId,
    template: MobTemplate,
    attack_offset: TickDuration,
    state: &mut GameState,
)
    requires
        old(state).wf(),
        template@.wf(),
        old(state)@.next_mob_id < u64::MAX,
    ensures
        final(state).wf(),
        final(state)@ == spawned(old(state)@, room_id, template@, attack_offset),
        final(state).ticks == old(state).ticks,
{
    broadcast use vstd::std_specs::hash::group_hash_axioms;

    let id = state.mob_id_source.next();
    let hp = template.max_hp;
    let mob = MobInstance {
        id,
        room_id,
        template,
        hp,
        attack_offset,
        hostile_to: HashSet::new(),
        attack_target: None,
    };
    assert(mob@ == fresh_mob(old(state)@.next_mob_id, room_id, template@, attack_offset));
    assert(!old(state).mobs.entities().contains_key(id.value)) by {
        if old(state).mobs.entities().contains_key(id.value) {
            assert(old(state).mobs.views().contains_key(id.value));
        }
    }
    state.mobs.insert(mob);
    assert(state.mobs.views() =~= old(state).mobs.views().insert(id.value, mob@));
    assert forall|m: u64| #[trigger] state.mobs.views().contains_key(m) implies state.mobs.views()[m].template.wf()
        && m < state.mob_id_source.next_id by {
        if m != id.value {
            assert(old(state).mobs.views().contains_key(m));
        }
    }
}

/// What a list of rooms with templates holds.
pub open spec fn spawn_list_view(pairs: Seq<(RoomId, MobTemplate)>) -> Seq<(RoomId, TemplateView)> {
    pairs.map_values(|p: (RoomId, MobTemplate)| (p.0, p.1@))
}

/// Whether each phase of attack lies within the period of its template.
pub open spec fn offsets_fit(pairs: Seq<(RoomId, TemplateView)>, offsets: Seq<int>) -> bool {
    &&& offsets.len() == pairs.len()
    &&& forall|i: int|
        0 <= i < pairs.len() ==> 0 <= #[trigger] offsets[i] < pairs[i].1.attack_period.0
}

/// The world after a mob has been spawned for each entry of a list, in
/// order; the mob for an entry gets the phase of attack at the same place.
pub open spec fn spawned_all(w: World, pairs: Seq<(RoomId, TemplateView)>, offsets: Seq<int>) -> World
    decreases pairs.len(),
{
    if pairs.len() == 0 {
        w
    } else {
        spawned(
            spawned_all(w, pairs.drop_last(), offsets),
            pairs.last().0,
            pairs.last().1,
            TickDuration(offsets[pairs.len() - 1] as i64),
        )
    }
}

/// The spawns of a list depend only on the phases at their places.
pub proof fn lemma_spawned_all_offsets(
    w: World,
    pairs: Seq<(RoomId, TemplateView)>,
    a: Seq<int>,
    b: Seq<int>,
)
    requires
        forall|i: int| 0 <= i < pairs.len() ==> a[i] == b[i],
    ensures
        spawned_all(w, pairs, a) == spawned_all(w, pairs, b),
    decreases pairs.len(),
{
    if pairs.len() > 0 {
        lemma_spawned_all_offsets(w, pairs.drop_last(), a, b);
    }
}

/// Spawns a mob for each entry of a list, in order, each with a phase of
/// attack drawn at random within the period of its template.
pub fn spawn_mobs(room_ids_templates: Vec<(RoomId, MobTemplate)>, state: &mut GameState)
    requires
        old(state).wf(),
        forall|i: int|
            0 <= i < room_ids_templates@.len() ==> (#[trigger] room_ids_templates@[i]).1@.wf(),
        old(state)@.next_mob_id + room_ids_templates@.len() <= u64::MAX,
    ensures
        final(state).wf(),
        final(state).ticks == old(state).ticks,
        exists|offsets: Seq<int>|
            offsets_fit(spawn_list_view(room_ids_templates@), offsets) && final(state)@
                == #[trigger] spawned_all(
                old(state)@,
                spawn_list_view(room_ids_templates@),
                offsets,
            ),
{
    let ghost pairs = spawn_list_view(room_ids_templates@);
    let ghost mut offsets: Seq<int> = Seq::empty();
    let mut i: usize = 0;
    while i < room_ids_templates.len()
        invariant
            i <= room_ids_templates@.len(),
            state.wf(),
            state.ticks == old(state).ticks,
            pairs == spawn_list_view(room_ids_templates@),
            forall|j: int|
                0 <= j < room_ids_templates@.len() ==> (#[trigger] room_ids_templates@[j]).1@.wf(),
            old(state)@.next_mob_id + room_ids_templates@.len() <= u64::MAX,
            state@.next_mob_id == old(state)@.next_mob_id + i,
            offsets.len() == i,
            forall|j: int| 0 <= j < i ==> 0 <= #[trigger] offsets[j] < pairs[j].1.attack_period.0,
            state@ == spawned_all(old(state)@, pairs.take(i as int), offsets),
        decreases room_ids_templates@.len() - i,
    {
        let ghost before = offsets;
        let room_id = room_ids_templates[i].0;
        let template = room_ids_templates[i].1.clone();
        assert(room_ids_templates@[i as int].1@.wf());
        let offset = template.attack_period.random_offset();
        proof {
            offsets = offsets.push(offset.0 as int);
            lemma_take_one_more(pairs, i as int);
            lemma_spawned_all_offsets(old(state)@, pairs.take(i as int), before, offsets);
            assert(pairs[i as int] == (room_id, template@));
        }
        spawn_mob(room_id, template, offset, state);
        i = i + 1;
    }
    proof {
        assert(pairs.take(i as int) =~= pairs);
        assert(offsets_fit(pairs, offsets));
    }
}

/// The mobs that the spawn list of a room asks for: one for each entry
/// whose template exists, in the order of the list.
pub open spec fn room_spawns(
    spawns: Seq<MobSpawn>,
    room_id: RoomId,
    templates: Map<u64, MobTemplate>,
) -> Seq<(RoomId, TemplateView)>
    decreases spawns.len(),
{
    if spawns.len() == 0 {
        Seq::empty()
    } else {
        let rest = room_spawns(spawns.drop_last(), room_id, templates);
        let t = spawns.last().mob_template_id.value;
        if templates.contains_key(t) {
            rest.push((room_id, templates[t]@))
        } else {
            rest
        }
    }
}

/// The mobs that the spawn lists of some rooms ask for, room after room.
pub open spec fn rooms_spawns(rooms: Seq<u64>, w: World) -> Seq<(RoomId, TemplateView)>
    decreases rooms.len(),
{
    if rooms.len() == 0 {
        Seq::empty()
    } else {
        rooms_spawns(rooms.drop_last(), w) + room_spawns(
            w.rooms[rooms.last()].mob_spawns@,
            w.rooms[rooms.last()].id,
            w.templates,
        )
    }
}

/// The mobs that the world starts with: those that the spawn lists of its
/// rooms ask for, the rooms taken by ascending identifier.
pub open spec fn initial_spawns(w: World) -> Seq<(RoomId, TemplateView)> {
    rooms_spawns(in_order(w.rooms.dom()), w)
}

/// Spawns the mobs that the world starts with, as far as identifiers can be
/// issued for all of them; none where they cannot.
pub fn initialize(state: &mut GameState)
    requires
        old(state).wf(),
    ensures
        final(state).wf(),
        final(state).ticks == old(state).ticks,
        old(state)@.next_mob_id + initial_spawns(old(state)@).len() > u64::MAX ==> final(state)@
            == old(state)@,
        old(state)@.next_mob_id + initial_spawns(old(state)@).len() <= u64::MAX ==> exists|
            offsets: Seq<int>,
        |
            offsets_fit(initial_spawns(old(state)@), offsets) && final(state)@
                == #[trigger] spawned_all(old(state)@, initial_spawns(old(state)@), offsets),
{
    broadcast use vstd::std_specs::hash::group_hash_axioms;

    let ghost w = state@;
    let room_ids = sorted_keys(&state.rooms);
    proof {
        lemma_in_order_lists(state@.rooms.dom());
    }
    let mut list: Vec<(RoomId, MobTemplate)> = Vec::new();
    let mut i: usize = 0;
    assert(spawn_list_view(list@) =~= rooms_spawns(room_ids@.take(0), w));
    while i < room_ids.len()
        invariant
            i <= room_ids@.len(),
            state.wf(),
            state@ == w,
            lists_in_order(room_ids@, w.rooms.dom()),
            spawn_list_view(list@) == rooms_spawns(room_ids@.take(i as int), w),
            forall|j: int| 0 <= j < list@.len() ==> (#[trigger] list@[j]).1@.wf(),
        decreases room_ids@.len() - i,
    {
        proof {
            lemma_take_one_more(room_ids@, i as int);
            assert(room_ids@.contains(room_ids@[i as int]));
        }
        let ghost before = spawn_list_view(list@);
        match state.rooms.get(&room_ids[i]) {
            Some(room) => {
                let mut k: usize = 0;
                assert(spawn_list_view(list@) =~= before + room_spawns(
                    room.mob_spawns@.take(0),
                    room.id,
                    w.templates,
                ));
                while k < room.mob_spawns.len()
                    invariant
                        k <= room.mob_spawns@.len(),
                        state.wf(),
                        state@ == w,
                        spawn_list_view(list@) == before + room_spawns(
                            room.mob_spawns@.take(k as int),
                            room.id,
                            w.templates,
                        ),
                        forall|j: int| 0 <= j < list@.len() ==> (#[trigger] list@[j]).1@.wf(),
                    decreases room.mob_spawns@.len() - k,
                {
                    let ghost so_far = spawn_list_view(list@);
                    proof {
                        lemma_take_one_more(room.mob_spawns@, k as int);
                    }
                    match state.mob_templates.get(&room.mob_spawns[k].mob_template_id.value) {
                        Some(template) => {
                            let copy = template.clone();
                            list.push((room.id, copy));
                            assert(spawn_list_view(list@) =~= so_far.push((room.id, template@)));
                        },
                        None => {},
                    }
                    k = k + 1;
                }
                assert(room.mob_spawns@.take(k as int) =~= room.mob_spawns@);
            },
            None => {
                proof {
                    assert(false);
                }
            },
        }
        i = i + 1;
    }
    assert(room_ids@.take(i as int) =~= room_ids@);
    assert(spawn_list_view(list@) == initial_spawns(w));
    assert(spawn_list_view(list@).len() == list@.len());
    let fits = (list.len() as u64) <= u64::MAX - state.mob_id_source.next_id;
    if fits {
        spawn_mobs(list, state);
    }
}

/// The line that points a new player to the first commands.
pub open spec fn hint_line() -> Seq<SpanView> {
    seq![
        plain("Try to "@),
        colored("look"@, Color::White),
        plain(" around, or check the "@),
        colored("help"@, Color::White),
        plain(" to get your bearings."@),
    ]
}

/// The world and the queues after a player has connected: the player is
/// welcomed, told how many are online and shown the room; those in
/// the room read that the player appears; and the player is in the world.
pub open spec fn connected(s: Outcome, player: Player) -> Outcome {
    let w = s.world;
    let id = player.id.value;
    let room = player.room_id.value;
    let greeting = seq![
        plain_line("Welcome, "@ + player.name@ + "!"@),
        hint_line(),
        plain_line(player_count_text(w.players.dom().len() as int + 1)),
    ];
    let out1 = told_lines(s.out, id, greeting);
    let out2 = if w.rooms.contains_key(room) {
        told_lines(out1, id, room_lines(w, id, w.rooms[room]))
    } else {
        out1
    };
    Outcome {
        world: add_player(w, player),
        out: told_all(out2, players_in(w, room), plain_line(player.name@ + " appears."@)),
    }
}

/// Takes a new player into the world.
pub fn on_player_connect(player: Player, writer: &mut EventWriter, state: &mut GameState)
    requires
        old(state).wf(),
        !old(state)@.players.contains_key(player.id.value),
    ensures
        final(state).wf(),
        (Outcome { world: final(state)@, out: final(writer)@ }) == connected(
            Outcome { world: old(state)@, out: old(writer)@ },
            player,
        ),
        final(state).ticks == old(state).ticks,
{
    broadcast use vstd::std_specs::hash::group_hash_axioms;

    let player_id = player.id;
    let room_id = player.room_id;
    let count = state.players.by_id().len();
    let number = int_to_string(count as i128 + 1);
    let noun = if count >= 1 {
        String::from_str("players")
    } else {
        String::from_str("player")
    };
    let verb = if count >= 1 {
        "are"
    } else {
        "is"
    };
    let count_text = concat7("There ", verb, " ", number.as_str(), " ", noun.as_str(), " online.");
    assert(count_text@ =~= player_count_text(count + 1)) by {
        reveal_strlit("players");
        reveal_strlit("player");
        reveal_strlit("s");
        assert("players"@ =~= "player"@ + "s"@);
    }
    let mut hint: Vec<LineSpan> = Vec::new();
    hint.push(span("Try to "));
    hint.push(span("look").color(Color::White));
    hint.push(span(" around, or check the "));
    hint.push(span("help").color(Color::White));
    hint.push(span(" to get your bearings."));
    assert(spans_view(hint@) =~= hint_line());
    let welcome = concat3("Welcome, ", player.name.as_str(), "!");
    let mut greeting: Vec<Line> = Vec::new();
    greeting.push(Line::str(welcome.as_str()));
    greeting.push(Line::spans(hint));
    greeting.push(Line::str(count_text.as_str()));
    assert(lines_view(greeting@) =~= seq![
        plain_line("Welcome, "@ + player.name@ + "!"@),
        hint_line(),
        plain_line(player_count_text(count + 1)),
    ]);
    writer.tell_lines(player_id, &greeting);
    match state.rooms.get(&room_id.value) {
        Some(room) => {
            describe_room(player_id, room, writer, state);
        },
        None => {},
    }
    proof {
        lemma_occupants(*state, room_id.value);
    }
    let appears = concat3(player.name.as_str(), " appears.", "");
    assert(appears@ =~= player.name@ + " appears."@) by {
        reveal_strlit("");
    }
    let ids = state.players.ids_in_room(room_id);
    writer.tell_many(&ids, Line::str(appears.as_str()));
    state.players.insert(player);
}

/// The world and the queues after a player has disconnected: the player is
/// gone, and those left in the room read that the player disappears.
/// Nothing changes for a player who is not there.
pub open spec fn disconnected(s: Outcome, player_id: PlayerId) -> Outcome {
    let w = s.world;
    if !w.players.contains_key(player_id.value) {
        s
    } else {
        let p = w.players[player_id.value];
        let w1 = drop_player(w, player_id);
        Outcome {
            world: w1,
            out: told_all(
                s.out,
                players_in(w1, p.room_id.value),
                plain_line(p.name@ + " disappears."@),
            ),
        }
    }
}

/// Takes a player out of the world.
pub fn on_player_disconnect(player_id: PlayerId, writer: &mut EventWriter, state: &mut GameState)
    requires
        old(state).wf(),
    ensures
        final(state).wf(),
        (Outcome { world: final(state)@, out: final(writer)@ }) == disconnected(
            Outcome { world: old(state)@, out: old(writer)@ },
            player_id,
        ),
        final(state).ticks == old(state).ticks,
{
    match state.players.remove(&player_id) {
        Some(player) => {
            proof {
                lemma_occupants(*state, player.room_id.value);
            }
            let text = concat3(player.name.as_str(), " disappears.", "");
            assert(text@ =~= player.name@ + " disappears."@) by {
                reveal_strlit("");
            }
            let ids = state.players.ids_in_room(player.room_id);
            writer.tell_many(&ids, Line::str(text.as_str()));
        },
        None => {
            assert(state@.players =~= old(state)@.players);
        },
    }
}

/// Whether what a command returned, and what it left behind, is what was
/// expected of it: on success the expected world and queues, on failure the
/// expected message and nothing changed.
pub open spec fn agrees(
    r: Result<(), String>,
    expected: Result<Outcome, Seq<char>>,
    before: Outcome,
    after: Outcome,
) -> bool {
    match expected {
        Ok(o) => r is Ok && after == o,
        Err(e) => r is Err && r->Err_0@ == e && after == before,
    }
}

/// The queues after a player has looked around or at something. Looking
/// fails where the player is in no room of the world. Without a word the
/// player is shown the room, and the others read that the player looks
/// around. Else the words, after a leading "at", name what to look at: the
/// player reads the description of the mob or the object, if it has one that
/// shows, and the others read what the player looks at; or the player reads
/// that it is not there.
pub open spec fn looked(
    out: Map<u64, Seq<Seq<SpanView>>>,
    w: World,
    p: Player,
    words: Seq<Seq<char>>,
) -> Result<Map<u64, Seq<Seq<SpanView>>>, Seq<char>> {
    if !w.rooms.contains_key(p.room_id.value) {
        Err("look: Room not found"@)
    } else {
        let room = w.rooms[p.room_id.value];
        let others = others_in(w, room.id.value, p.id.value);
        if words.len() == 0 {
            Ok(
                told_all(
                    told_lines(out, p.id.value, room_lines(w, p.id.value, room)),
                    others,
                    plain_line(p.name@ + " looks around."@),
                ),
            )
        } else {
            let rest = if eq_ignoring_ascii_case(words[0], "at"@) {
                words.remove(0)
            } else {
                words
            };
            match target_choice(w, room, joined_by_space(rest)) {
                TargetChoice::Object(i) => {
                    let object = room.objects@[i];
                    let out1 = match description_text(
                        object.description,
                        room.id.value,
                        w.room_vars,
                    ) {
                        Some(text) => told(out, p.id.value, plain_line(text)),
                        None => out,
                    };
                    Ok(
                        told_all(
                            out1,
                            others,
                            plain_line(p.name@ + " looks at the "@ + object.name@ + "."@),
                        ),
                    )
                },
                TargetChoice::Mob(m) => Ok(
                    told_all(
                        told(out, p.id.value, plain_line(w.mobs[m].template.description)),
                        others,
                        plain_line(p.name@ + " looks at the "@ + w.mobs[m].template.name + "."@),
                    ),
                ),
                TargetChoice::Nothing => Ok(
                    told(out, p.id.value, plain_line("You do not see that here."@)),
                ),
            }
        }
    }
}

/// Lets a player look around, or at what the words name.
pub fn look(player: &Player, words: Vec<String>, writer: &mut EventWriter, state: &GameState) -> (r:
    Result<(), String>)
    requires
        state.wf(),
    ensures
        match looked(old(writer)@, state@, *player, strs(words@)) {
            Ok(out) => r is Ok && final(writer)@ == out,
            Err(e) => r is Err && r->Err_0@ == e && final(writer)@ == old(writer)@,
        },
{
    broadcast use vstd::std_specs::hash::group_hash_axioms;

    let room = match state.rooms.get(&player.room_id.value) {
        Some(room) => room,
        None => {
            return Err(String::from_str("look: Room not found"));
        },
    };
    proof {
        lemma_occupants(*state, room.id.value);
    }
    let others = state.players.ids_in_room_except(room.id, player.id);
    if words.len() == 0 {
        describe_room(player.id, room, writer, state);
        let text = concat3(player.name.as_str(), " looks around.", "");
        assert(text@ =~= player.name@ + " looks around."@) by {
            reveal_strlit("");
        }
        writer.tell_many(&others, Line::str(text.as_str()));
        return Ok(());
    }
    let ghost given = strs(words@);
    let mut rest = words;
    if eq_ignore_ascii_case(rest[0].as_str(), "at") {
        rest.remove(0);
        assert(strs(rest@) =~= given.remove(0));
    }
    let target_str = join_words(&rest);
    let found: Option<(Option<String>, String)> = match resolve_target_in_room(
        target_str.as_str(),
        room,
        &state.mobs,
    ) {
        Some(RoomTarget::RoomObject { room_object }) => Some(
            (eval_room_description(&room_object.description, room.id, state), room_object.name.clone()),
        ),
        Some(RoomTarget::Mob { mob }) => Some(
            (Some(mob.template.description.clone()), mob.template.name.clone()),
        ),
        None => None,
    };
    match found {
        Some((description, name)) => {
            match description {
                Some(text) => {
                    writer.tell(player.id, Line::str(text.as_str()));
                },
                None => {},
            }
            let text = concat5(player.name.as_str(), " looks at the ", name.as_str(), ".", "");
            assert(text@ =~= player.name@ + " looks at the "@ + name@ + "."@) by {
                reveal_strlit("");
            }
            writer.tell_many(&others, Line::str(text.as_str()));
        },
        None => {
            writer.tell(player.id, Line::str("You do not see that here."));
        },
    }
    Ok(())
}

/// The world and the queues after a player has gone through an exit. The
/// move fails where the exit leads to no room of the world. Else the player
/// is in the other room and has no target; a player who had one reads that
/// they flee; those left behind read through which exit the player leaves;
/// those in the other room read from where the player arrives, by the name
/// of the first exit there that leads back, or that the player appears where
/// none does; and the player is shown the other room.
pub open spec fn moved(s: Outcome, player: u64, to: RoomId, exit: Seq<char>) -> Result<
    Outcome,
    Seq<char>,
> {
    let w = s.world;
    if !w.rooms.contains_key(to.value) {
        Err("move: Room not found"@)
    } else {
        let p = w.players[player];
        let to_room = w.rooms[to.value];
        let w1 = put_player(w, Player { room_id: to, attack_target: None, ..p });
        let out1 = if p.attack_target is Some {
            told(s.out, player, plain_line("You flee."@))
        } else {
            s.out
        };
        let out2 = told_all(
            out1,
            players_in(w1, p.room_id.value),
            plain_line(p.name@ + " leaves "@ + exit + "."@),
        );
        let arrival = match first_exit_to(to_room.exits@, p.room_id.value) {
            Some(i) => p.name@ + " arrives from "@ + to_room.exits@[i].0@ + "."@,
            None => p.name@ + " appears."@,
        };
        let out3 = told_all(out2, others_in(w1, to.value, player), plain_line(arrival));
        Ok(
            Outcome { world: w1, out: told_lines(out3, player, room_lines(w1, player, to_room)) },
        )
    }
}

/// Takes a player through an exit into another room.
pub fn move_self(
    player_id: PlayerId,
    to_room_id: RoomId,
    exit: &str,
    writer: &mut EventWriter,
    state: &mut GameState,
) -> (r: Result<(), String>)
    requires
        old(state).wf(),
        old(state)@.players.contains_key(player_id.value),
    ensures
        final(state).wf(),
        final(state).ticks == old(state).ticks,
        agrees(
            r,
            moved(
                Outcome { world: old(state)@, out: old(writer)@ },
                player_id.value,
                to_room_id,
                exit@,
            ),
            Outcome { world: old(state)@, out: old(writer)@ },
            Outcome { world: final(state)@, out: final(writer)@ },
        ),
{
    broadcast use vstd::std_specs::hash::group_hash_axioms;

    if !state.rooms.contains_key(&to_room_id.value) {
        return Err(String::from_str("move: Room not found"));
    }
    let player = match state.players.by_id().get(&player_id.value) {
        Some(p) => p.clone(),
        None => {
            proof {
                assert(false);
            }
            return Err(String::new());
        },
    };
    assert(player.id == player_id);
    let from_room_id = player.room_id;
    let player_name = player.name.clone();
    let fled = player.attack_target.is_some();
    let mut after = player;
    after.room_id = to_room_id;
    after.attack_target = None;
    state.update_player(after);
    if fled {
        writer.tell(player_id, Line::str("You flee."));
    }
    proof {
        lemma_occupants(*state, from_room_id.value);
        lemma_occupants(*state, to_room_id.value);
    }
    let leaves = concat5(player_name.as_str(), " leaves ", exit, ".", "");
    assert(leaves@ =~= player_name@ + " leaves "@ + exit@ + "."@) by {
        reveal_strlit("");
    }
    let left_behind = state.players.ids_in_room(from_room_id);
    writer.tell_many(&left_behind, Line::str(leaves.as_str()));
    match state.rooms.get(&to_room_id.value) {
        Some(to_room) => {
            let arrival = match to_room.exit_direction_to(from_room_id) {
                Some(direction) => concat5(
                    player_name.as_str(),
                    " arrives from ",
                    direction,
                    ".",
                    "",
                ),
                None => concat3(player_name.as_str(), " appears.", ""),
            };
            proof {
                reveal_strlit("");
                match first_exit_to(to_room.exits@, from_room_id.value) {
                    Some(i) => {
                        assert(arrival@ =~= player_name@ + " arrives from "@
                            + to_room.exits@[i].0@ + "."@);
                    },
                    None => {
                        assert(arrival@ =~= player_name@ + " appears."@);
                    },
                }
            }
            let there = state.players.ids_in_room_except(to_room_id, player_id);
            writer.tell_many(&there, Line::str(arrival.as_str()));
            describe_room(player_id, to_room, writer, state);
        },
        None => {
            proof {
                assert(false);
            }
        },
    }
    Ok(())
}

/// Whether every delayed reset in the scripts of the rooms can be scheduled
/// at the world's clock value.
pub open spec fn scripts_fit(w: World) -> bool {
    forall|r: u64, i: int, j: int|
        w.rooms.contains_key(r) && 0 <= i < w.rooms[r].objects@.len() && 0 <= j
            < w.rooms[r].objects@[i].commands@.len() ==> delays_fit(
            (#[trigger] w.rooms[r].objects@[i].commands@[j]).statements@,
            w.ticks,
        )
}

/// The command word that a line of input starts with: its first word in
/// lower case, or the command that this stands for.
pub open spec fn command_word(words: Seq<Seq<char>>) -> Seq<char> {
    resolved(ascii_lowercase(words[0]))
}

/// What a line of input does, given its words and what a die would roll.
/// The line fails where it has no word, or the player is not there. Else
/// its first word, in lower case and with short forms resolved, is the
/// command, and the other words are its arguments: `look` and `kill` with
/// any arguments; `say` and `emote` with some; `who`, `help`, `alias` and
/// `roll` with none. Anything else is an exit of the player's room, a command
/// of an object there, or unknown.
pub open spec fn command_outcome(s: Outcome, player: u64, words: Seq<Seq<char>>, roll: int) -> Result<
    Outcome,
    Seq<char>,
> {
    let w = s.world;
    if words.len() == 0 {
        Err("Empty command"@)
    } else if !w.players.contains_key(player) {
        Err("Self player not found"@)
    } else {
        let head = command_word(words);
        let args = words.remove(0);
        let text = joined_by_space(args);
        let p = w.players[player];
        if head == "look"@ {
            match looked(s.out, w, p, args) {
                Ok(out) => Ok(Outcome { world: w, out }),
                Err(e) => Err(e),
            }
        } else if head == "kill"@ {
            kill_outcome(s, p.id.value, text)
        } else if head == "say"@ && args.len() > 0 {
            Ok(
                Outcome {
                    world: w,
                    out: chat_outcome(
                        s.out,
                        w,
                        p,
                        text,
                        ChatCommand::Say,
                        regex_match(illegal_chat_pattern(), text),
                    ),
                },
            )
        } else if head == "emote"@ && args.len() > 0 {
            Ok(
                Outcome {
                    world: w,
                    out: chat_outcome(
                        s.out,
                        w,
                        p,
                        text,
                        ChatCommand::Emote,
                        regex_match(illegal_chat_pattern(), text),
                    ),
                },
            )
        } else if head == "who"@ && args.len() == 0 {
            Ok(Outcome { world: w, out: told_lines(s.out, player, who_lines(w)) })
        } else if head == "help"@ && args.len() == 0 {
            Ok(Outcome { world: w, out: told_lines(s.out, player, help_lines()) })
        } else if head == "alias"@ && args.len() == 0 {
            Ok(Outcome { world: w, out: told_lines(s.out, player, alias_lines()) })
        } else if head == "roll"@ && args.len() == 0 {
            Ok(Outcome { world: w, out: rolled(s.out, w, p, roll) })
        } else if !w.rooms.contains_key(p.room_id.value) {
            Err("room specific command: Room not found"@)
        } else {
            let room = w.rooms[p.room_id.value];
            match command_choice(room, head, text, w.room_vars) {
                CommandChoice::Exit(to) => moved(s, player, to, head),
                CommandChoice::Command(i, j) => Ok(
                    after_statements(
                        s,
                        room.objects@[i].commands@[j].statements@,
                        player,
                        p.room_id,
                    ),
                ),
                CommandChoice::Nothing => Ok(
                    Outcome { world: w, out: told(s.out, player, plain_line("Unknown command."@)) },
                ),
            }
        }
    }
}

/// What a room makes of a command word.
enum RoomAction {
    Go(RoomId),
    Run(RoomCommand),
    Unknown,
}

/// Carries out a line of input that has been split into words; `roll` is
/// what the die shows if the line asks for a roll.
pub fn on_words(
    player_id: PlayerId,
    words: Vec<String>,
    roll: u32,
    writer: &mut EventWriter,
    state: &mut GameState,
) -> (r: Result<(), String>)
    requires
        old(state).wf(),
        scripts_fit(old(state)@),
    ensures
        final(state).wf(),
        final(state).ticks == old(state).ticks,
        agrees(
            r,
            command_outcome(
                Outcome { world: old(state)@, out: old(writer)@ },
                player_id.value,
                strs(words@),
                roll as int,
            ),
            Outcome { world: old(state)@, out: old(writer)@ },
            Outcome { world: final(state)@, out: final(writer)@ },
        ),
{
    broadcast use vstd::std_specs::hash::group_hash_axioms;

    let ghost given = strs(words@);
    if words.len() == 0 {
        return Err(String::from_str("Empty command"));
    }
    let head = command_head(&words);
    let mut args = words;
    args.remove(0);
    assert(strs(args@) =~= given.remove(0));
    let player = match state.players.by_id().get(&player_id.value) {
        Some(p) => p.clone(),
        None => {
            return Err(String::from_str("Self player not found"));
        },
    };
    assert(player.id == player_id);
    if is_text(&head, "look") {
        return look(&player, args, writer, state);
    }
    if is_text(&head, "kill") {
        return kill(player.id, &args, writer, state);
    }
    if is_text(&head, "say") && args.len() > 0 {
        chat(&player, &args, ChatCommand::Say, writer, state);
        return Ok(());
    }
    if is_text(&head, "emote") && args.len() > 0 {
        chat(&player, &args, ChatCommand::Emote, writer, state);
        return Ok(());
    }
    if is_text(&head, "who") && args.len() == 0 {
        list_players(player_id, writer, state);
        return Ok(());
    }
    if is_text(&head, "help") && args.len() == 0 {
        help(player_id, writer);
        return Ok(());
    }
    if is_text(&head, "alias") && args.len() == 0 {
        alias(player_id, writer);
        return Ok(());
    }
    if is_text(&head, "roll") && args.len() == 0 {
        tell_roll(&player, roll, writer, state);
        return Ok(());
    }
    let action = match resolve_room_specific_command(head.as_str(), &args, player.room_id, state) {
        Ok(Some(RoomSpecificCommand::Exit { to_room_id })) => RoomAction::Go(to_room_id),
        Ok(Some(RoomSpecificCommand::RoomCommand { room_command })) => RoomAction::Run(
            room_command.clone(),
        ),
        Ok(None) => RoomAction::Unknown,
        Err(e) => {
            return Err(e);
        },
    };
    proof {
        let room = state@.rooms[player.room_id.value];
        match command_choice(room, head@, joined_by_space(strs(args@)), state@.room_vars) {
            CommandChoice::Command(i, j) => {
                lemma_first_where(
                    room.objects@,
                    object_offers(
                        head@,
                        joined_by_space(strs(args@)),
                        room.id.value,
                        state@.room_vars,
                    ),
                );
                lemma_first_where(
                    room.objects@[i].commands@,
                    command_usable(head@, room.id.value, state@.room_vars),
                );
                assert(delays_fit(room.objects@[i].commands@[j].statements@, state@.ticks));
            },
            _ => {},
        }
    }
    match action {
        RoomAction::Go(to_room_id) => move_self(player_id, to_room_id, head.as_str(), writer, state),
        RoomAction::Run(room_command) => {
            run_room_command(&room_command, player_id, player.room_id, writer, state);
            Ok(())
        },
        RoomAction::Unknown => {
            writer.tell(player_id, Line::str("Unknown command."));
            Ok(())
        },
    }
}

/// The command word that a line of input starts with.
pub fn command_head(words: &Vec<String>) -> (head: String)
    requires
        words@.len() > 0,
    ensures
        head@ == command_word(strs(words@)),
{
    let lowered = to_ascii_lowercase(words[0].as_str());
    let mut one: Vec<String> = Vec::new();
    one.push(lowered);
    let mut resolved_one = resolve_aliases(one);
    assert(strs(resolved_one@)[0] == resolved_one@[0]@);
    assert(strs(words@)[0] == words@[0]@);
    resolved_one.remove(0)
}

/// Carries out a line of input of a player. The line is split at white
/// space; where it asks for a roll of the die, each of one to six may come
/// up.
pub fn on_command(
    player_id: PlayerId,
    command: &str,
    writer: &mut EventWriter,
    state: &mut GameState,
) -> (r: Result<(), String>)
    requires
        old(state).wf(),
        scripts_fit(old(state)@),
    ensures
        final(state).wf(),
        final(state).ticks == old(state).ticks,
        exists|roll: int|
            1 <= roll <= 6 && agrees(
                r,
                #[trigger] command_outcome(
                    Outcome { world: old(state)@, out: old(writer)@ },
                    player_id.value,
                    whitespace_words(command@),
                    roll,
                ),
                Outcome { world: old(state)@, out: old(writer)@ },
                Outcome { world: final(state)@, out: final(writer)@ },
            ),
{
    let words = split_whitespace(command);
    let rolls = words.len() == 1 && is_text(&command_head(&words), "roll");
    let roll: u32 = if rolls {
        random_in_range(1, 7) as u32
    } else {
        1
    };
    let r = on_words(player_id, words, roll, writer, state);
    assert(agrees(
        r,
        command_outcome(
            Outcome { world: old(state)@, out: old(writer)@ },
            player_id.value,
            whitespace_words(command@),
            roll as int,
        ),
        Outcome { world: old(state)@, out: old(writer)@ },
        Outcome { world: state@, out: writer@ },
    ));
    r
}

/// The world and the queues after a delayed reset has come due: the
/// variable is back at zero, and those in the room read the message. A reset
/// for a room that the world does not have is passed over.
pub open spec fn reset_done(s: Outcome, reset: RoomVarReset) -> Outcome {
    let w = s.world;
    let room = reset.room_id.value;
    if !w.rooms.contains_key(room) {
        s
    } else {
        Outcome {
            world: World { room_vars: with_var(w.room_vars, room, reset.var@, 0), ..w },
            out: told_all(s.out, players_in(w, room), plain_line(reset.message@)),
        }
    }
}

/// `reset_done` for each of the resets, one after the other.
pub open spec fn resets_done(s: Outcome, due: Seq<RoomVarReset>) -> Outcome
    decreases due.len(),
{
    if due.len() == 0 {
        s
    } else {
        reset_done(resets_done(s, due.drop_last()), due.last())
    }
}

/// The world and the queues after a delayed respawn has come due: a mob of
/// the template is spawned into the room with the given phase of attack, and
/// those in the room read that it appears. A respawn for a room or a
/// template that the world does not have is passed over.
pub open spec fn respawn_done(s: Outcome, respawn: MobRespawn, offset: int) -> Outcome {
    let w = s.world;
    let room = respawn.room_id.value;
    let t = respawn.mob_template_id.value;
    if !w.rooms.contains_key(room) || !w.templates.contains_key(t) {
        s
    } else {
        Outcome {
            world: spawned(w, respawn.room_id, w.templates[t]@, TickDuration(offset as i64)),
            out: told_all(
                s.out,
                players_in(w, room),
                plain_line("A "@ + w.templates[t]@.name + " appears."@),
            ),
        }
    }
}

/// `respawn_done` for each of the respawns, one after the other; the mob
/// for a respawn gets the phase of attack at the same place.
pub open spec fn respawns_done(s: Outcome, due: Seq<MobRespawn>, offsets: Seq<int>) -> Outcome
    decreases due.len(),
{
    if due.len() == 0 {
        s
    } else {
        respawn_done(
            respawns_done(s, due.drop_last(), offsets),
            due.last(),
            offsets[due.len() - 1],
        )
    }
}

/// The respawns of a list depend only on the phases at their places.
pub proof fn lemma_respawns_done_offsets(s: Outcome, due: Seq<MobRespawn>, a: Seq<int>, b: Seq<int>)
    requires
        forall|i: int| 0 <= i < due.len() ==> a[i] == b[i],
    ensures
        respawns_done(s, due, a) == respawns_done(s, due, b),
    decreases due.len(),
{
    if due.len() > 0 {
        lemma_respawns_done_offsets(s, due.drop_last(), a, b);
    }
}

/// The world and the queues once the resets that are due have been taken
/// from their schedule.
pub open spec fn resets_taken(s: Outcome) -> Outcome {
    Outcome {
        world: World { resets: not_due(s.world.resets, s.world.ticks.0), ..s.world },
        out: s.out,
    }
}

/// The world and the queues once the respawns that are due have been taken
/// from their schedule.
pub open spec fn respawns_taken(s: Outcome) -> Outcome {
    Outcome {
        world: World { spawns: not_due(s.world.spawns, s.world.ticks.0), ..s.world },
        out: s.out,
    }
}

/// Whether a phase of attack suits a respawn: it is not negative, and it
/// is less than the period of the template where the world has the template.
pub open spec fn phase_fits(templates: Map<u64, MobTemplate>, respawn: MobRespawn, offset: int) -> bool {
    let t = respawn.mob_template_id.value;
    0 <= offset && (templates.contains_key(t) ==> offset < templates[t]@.attack_period.0)
}

/// Whether the phases of attack suit the respawns at their places.
pub open spec fn phases_suit(
    templates: Map<u64, MobTemplate>,
    due: Seq<MobRespawn>,
    offsets: Seq<int>,
) -> bool {
    forall|i: int| 0 <= i < due.len() ==> phase_fits(templates, #[trigger] due[i], offsets[i])
}

/// Whether the phases of attack suit the respawns that are due in a world,
/// as far as these respawns can be carried out.
pub open spec fn phases_fit(w: World, offsets: Seq<int>) -> bool {
    respawns_possible(w) ==> phases_suit(w.templates, due_entries(w.spawns, w.ticks.0), offsets)
}

/// Whether identifiers can be issued for all the respawns that are due.
pub open spec fn respawns_possible(w: World) -> bool {
    w.next_mob_id + due_entries(w.spawns, w.ticks.0).len() <= u64::MAX
}

/// The world and the queues after the sweep of a large tick: the resets
/// that are due at the world's clock value are taken from their schedule and
/// carried out, earliest first; then the respawns likewise, unless
/// identifiers cannot be issued for all of them, in which case they stay
/// scheduled.
pub open spec fn large_tick(s: Outcome, offsets: Seq<int>) -> Outcome {
    let w = s.world;
    let now = w.ticks.0;
    let s1 = resets_done(resets_taken(s), due_entries(w.resets, now));
    if !respawns_possible(w) {
        s1
    } else {
        respawns_done(respawns_taken(s1), due_entries(w.spawns, now), offsets)
    }
}

fn sweep_resets(writer: &mut EventWriter, state: &mut GameState)
    requires
        old(state).wf(),
    ensures
        final(state).wf(),
        final(state).ticks == old(state).ticks,
        final(state)@.spawns == old(state)@.spawns,
        final(state)@.templates == old(state)@.templates,
        final(state)@.next_mob_id == old(state)@.next_mob_id,
        (Outcome { world: final(state)@, out: final(writer)@ }) == resets_done(
            resets_taken(Outcome { world: old(state)@, out: old(writer)@ }),
            due_entries(old(state)@.resets, old(state).ticks.0),
        ),
{
    broadcast use vstd::std_specs::hash::group_hash_axioms;

    let now = state.ticks.0;
    let due = take_due(&mut state.scheduled_room_var_resets, now);
    let ghost start = Outcome { world: state@, out: writer@ };
    let mut i: usize = 0;
    while i < due.len()
        invariant
            i <= due@.len(),
            state.wf(),
            state.ticks == old(state).ticks,
            state@.spawns == old(state)@.spawns,
            state@.templates == old(state)@.templates,
            state@.next_mob_id == old(state)@.next_mob_id,
            (Outcome { world: state@, out: writer@ }) == resets_done(start, due@.take(i as int)),
        decreases due@.len() - i,
    {
        proof {
            lemma_take_one_more(due@, i as int);
        }
        let room_id = due[i].room_id;
        if state.rooms.contains_key(&room_id.value) {
            proof {
                lemma_occupants(*state, room_id.value);
            }
            let ids = state.players.ids_in_room(room_id);
            state.set_room_var(room_id, due[i].var.clone(), 0);
            writer.tell_many(&ids, Line::str(due[i].message.as_str()));
        }
        i = i + 1;
    }
    assert(due@.take(i as int) =~= due@);
}

fn sweep_respawns(writer: &mut EventWriter, state: &mut GameState)
    requires
        old(state).wf(),
        respawns_possible(old(state)@),
    ensures
        final(state).wf(),
        final(state).ticks == old(state).ticks,
        exists|offsets: Seq<int>|
            phases_suit(
                old(state)@.templates,
                due_entries(old(state)@.spawns, old(state).ticks.0),
                offsets,
            ) && (Outcome { world: final(state)@, out: final(writer)@ })
                == #[trigger] respawns_done(
                respawns_taken(Outcome { world: old(state)@, out: old(writer)@ }),
                due_entries(old(state)@.spawns, old(state).ticks.0),
                offsets,
            ),
{
    broadcast use vstd::std_specs::hash::group_hash_axioms;

    let now = state.ticks.0;
    let due = take_due(&mut state.scheduled_mob_spawns, now);
    let ghost start = Outcome { world: state@, out: writer@ };
    let ghost mut offsets: Seq<int> = Seq::empty();
    let mut i: usize = 0;
    while i < due.len()
        invariant
            i <= due@.len(),
            state.wf(),
            state.ticks == old(state).ticks,
            offsets.len() == i,
            state@.templates == start.world.templates,
            forall|j: int|
                0 <= j < i ==> phase_fits(start.world.templates, #[trigger] due@[j], offsets[j]),
            state@.next_mob_id <= start.world.next_mob_id + i,
            start.world.next_mob_id + due@.len() <= u64::MAX,
            (Outcome { world: state@, out: writer@ }) == respawns_done(
                start,
                due@.take(i as int),
                offsets,
            ),
        decreases due@.len() - i,
    {
        let ghost before = offsets;
        let room_id = due[i].room_id;
        let mut drawn: i64 = 0;
        let template: Option<MobTemplate> = if state.rooms.contains_key(&room_id.value) {
            match state.mob_templates.get(&due[i].mob_template_id.value) {
                Some(t) => Some(t.clone()),
                None => None,
            }
        } else {
            None
        };
        match template {
            Some(template) => {
                assert(template@.wf());
                proof {
                    lemma_occupants(*state, room_id.value);
                }
                let text = concat3("A ", template.name.as_str(), " appears.");
                let ids = state.players.ids_in_room(room_id);
                writer.tell_many(&ids, Line::str(text.as_str()));
                let offset = template.attack_period.random_offset();
                drawn = offset.0;
                spawn_mob(room_id, template, offset, state);
            },
            None => {},
        }
        proof {
            offsets = offsets.push(drawn as int);
            lemma_take_one_more(due@, i as int);
            lemma_respawns_done_offsets(start, due@.take(i as int), before, offsets);
        }
        i = i + 1;
    }
    assert(due@.take(i as int) =~= due@);
    assert(start == respawns_taken(Outcome { world: old(state)@, out: old(writer)@ }));
    assert(phases_suit(
        old(state)@.templates,
        due_entries(old(state)@.spawns, old(state).ticks.0),
        offsets,
    ));
    assert((Outcome { world: state@, out: writer@ }) == respawns_done(
        respawns_taken(Outcome { world: old(state)@, out: old(writer)@ }),
        due_entries(old(state)@.spawns, old(state).ticks.0),
        offsets,
    ));
}

/// Carries out the sweep of a large tick.
pub fn on_large_tick(writer: &mut EventWriter, state: &mut GameState)
    requires
        old(state).wf(),
    ensures
        final(state).wf(),
        final(state).ticks == old(state).ticks,
        exists|offsets: Seq<int>|
            phases_fit(old(state)@, offsets) && (Outcome {
                world: final(state)@,
                out: final(writer)@,
            }) == #[trigger] large_tick(Outcome { world: old(state)@, out: old(writer)@ }, offsets),
{
    let ghost start = Outcome { world: state@, out: writer@ };
    sweep_resets(writer, state);
    let ghost swept = Outcome { world: state@, out: writer@ };
    let keys = due_keys(&state.scheduled_mob_spawns, state.ticks.0);
    assert(due_entries(state@.spawns, state.ticks.0).len() == keys@.len());
    let possible = (keys.len() as u64) <= u64::MAX - state.mob_id_source.next_id;
    assert(possible == respawns_possible(start.world));
    if possible {
        sweep_respawns(writer, state);
        proof {
            let offsets = choose|offsets: Seq<int>|
                phases_suit(
                    swept.world.templates,
                    due_entries(swept.world.spawns, swept.world.ticks.0),
                    offsets,
                ) && (Outcome { world: state@, out: writer@ }) == #[trigger] respawns_done(
                    respawns_taken(swept),
                    due_entries(swept.world.spawns, swept.world.ticks.0),
                    offsets,
                );
            assert(phases_fit(start.world, offsets));
            assert((Outcome { world: state@, out: writer@ }) == large_tick(start, offsets));
        }
    } else {
        assert(phases_fit(start.world, Seq::empty()));
        assert((Outcome { world: state@, out: writer@ }) == large_tick(start, Seq::empty()));
    }
}

/// The world and the queues after one tick of the clock up to the sweep,
/// given what the mobs pick: the clock advances; the players whose attack is
/// due attack; the mobs whose attack is due take their turns; and the
/// players heal.
pub open spec fn before_sweep(s: Outcome, picks: Seq<int>) -> Outcome {
    let s0 = Outcome {
        world: World { ticks: Tick((s.world.ticks.0 + 1) as i64), ..s.world },
        out: s.out,
    };
    let s2 = mob_attacks(player_attacks(s0), picks);
    Outcome { world: healed(s2.world), out: s2.out }
}

/// Whether the clock value that a tick leads to is a large tick.
pub open spec fn sweeps(s: Outcome) -> bool {
    on_division(s.world.ticks.0 + 1, LARGE_TICK_FREQUENCY as int, 0)
}

/// The world and the queues after one tick of the clock, given what the
/// mobs pick and with which phases of attack mobs respawn: what comes before
/// the sweep, and on a large tick the sweep of the schedules.
pub open spec fn ticked(s: Outcome, picks: Seq<int>, offsets: Seq<int>) -> Outcome {
    let s3 = before_sweep(s, picks);
    if sweeps(s) {
        large_tick(s3, offsets)
    } else {
        s3
    }
}

/// Whether the phases of attack suit the respawns of a tick of the clock.
pub open spec fn tick_phases_fit(s: Outcome, picks: Seq<int>, offsets: Seq<int>) -> bool {
    sweeps(s) ==> phases_fit(before_sweep(s, picks).world, offsets)
}

/// Advances the world by one tick of the clock. What the mobs pick, and
/// with which phases of attack mobs respawn, is left to chance.
pub fn on_tick(writer: &mut EventWriter, state: &mut GameState)
    requires
        old(state).wf(),
        old(state).ticks.0 + 1 + RESPAWN_DELAY <= i64::MAX,
    ensures
        final(state).wf(),
        final(state).ticks.0 == old(state).ticks.0 + 1,
        exists|picks: Seq<int>, offsets: Seq<int>|
            tick_phases_fit(Outcome { world: old(state)@, out: old(writer)@ }, picks, offsets)
                && (Outcome { world: final(state)@, out: final(writer)@ }) == #[trigger] ticked(
                Outcome { world: old(state)@, out: old(writer)@ },
                picks,
                offsets,
            ),
{
    let ghost start = Outcome { world: state@, out: writer@ };
    state.ticks = state.ticks.increase();
    let ghost s0 = Outcome { world: state@, out: writer@ };
    tick_player_attacks(writer, state);
    let ghost s1 = Outcome { world: state@, out: writer@ };
    tick_mob_attacks(writer, state);
    let ghost picks = choose|picks: Seq<int>|
        (Outcome { world: state@, out: writer@ }) == #[trigger] mob_attacks(s1, picks);
    tick_heal_players(state);
    let ghost s3 = Outcome { world: state@, out: writer@ };
    assert(s3 == before_sweep(start, picks));
    if state.ticks.is_large_tick() {
        on_large_tick(writer, state);
        proof {
            let offsets = choose|offsets: Seq<int>|
                phases_fit(s3.world, offsets) && (Outcome { world: state@, out: writer@ })
                    == #[trigger] large_tick(s3, offsets);
            assert(tick_phases_fit(start, picks, offsets));
            assert((Outcome { world: state@, out: writer@ }) == ticked(start, picks, offsets));
        }
    } else {
        assert(tick_phases_fit(start, picks, Seq::empty()));
        assert((Outcome { world: state@, out: writer@ }) == ticked(start, picks, Seq::empty()));
    }
}

} // verus!
