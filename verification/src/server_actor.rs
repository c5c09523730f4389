use crate::event_writer::{queued, EventWriter};
use crate::game_combat::{PLAYER_ATTACK_PERIOD, RESPAWN_DELAY, RESPAWN_ROOM};
use crate::game_logic::{
    agrees, command_outcome, connected, disconnected, on_command, on_player_connect,
    on_player_disconnect, on_tick, scripts_fit, tick_phases_fit, ticked,
};
use crate::game_state::{GameState, Outcome, World};
use crate::id::{MobId, PlayerId, RoomId};
use crate::line::{clone_lines, lines_view, Line, SpanView};
use crate::mob::MobView;
use crate::order::{in_order, lemma_in_order_lists, lists_in_order, sorted_keys};
use crate::player::Player;
use crate::room_index::bucket_of;
use crate::search::lemma_take_one_more;
use crate::text::{decimal, int_to_string, whitespace_words};
use crate::tick::TickDuration;
use std::collections::HashMap;
use vstd::prelude::*;

verus! {

/// The health that a player starts with.
pub const START_HP: i32 = 100;

/// What can happen to the world: a player connects under a name, a player
/// disconnects, a player sends a line of input, or the clock ticks.
#[derive(Debug)]
pub enum Message {
    PlayerConnected { player_id: PlayerId, player_name: String },
    PlayerDisconnected { player_id: PlayerId },
    PlayerCommand { player_id: PlayerId, command: String },
    Tick,
}

/// The vitals of a player or a mob, as a client shows them.
#[derive(Debug)]
pub struct EntityInfo {
    pub id: String,
    pub name: String,
    pub hp: i32,
    pub max_hp: i32,
}

/// What the vitals of an entity hold.
pub struct EntityInfoView {
    pub id: Seq<char>,
    pub name: Seq<char>,
    pub hp: i32,
    pub max_hp: i32,
}

impl View for EntityInfo {
    type V = EntityInfoView;

    open spec fn view(&self) -> EntityInfoView {
        EntityInfoView { id: self.id@, name: self.name@, hp: self.hp, max_hp: self.max_hp }
    }
}

/// The views of a list of vitals.
pub open spec fn infos_view(infos: Seq<EntityInfo>) -> Seq<EntityInfoView> {
    infos.map_values(|i: EntityInfo| i@)
}

/// Who and what is in a player's room: the player, the other players and
/// the mobs.
#[derive(Debug)]
pub struct RoomInfo {
    pub self_player: EntityInfo,
    pub players: Vec<EntityInfo>,
    pub mobs: Vec<EntityInfo>,
}

/// What a snapshot of a room holds.
pub struct RoomInfoView {
    pub self_player: EntityInfoView,
    pub players: Seq<EntityInfoView>,
    pub mobs: Seq<EntityInfoView>,
}

impl View for RoomInfo {
    type V = RoomInfoView;

    open spec fn view(&self) -> RoomInfoView {
        RoomInfoView {
            self_player: self.self_player@,
            players: infos_view(self.players@),
            mobs: infos_view(self.mobs@),
        }
    }
}

/// What goes out to a player after an event: the lines in their order, and
/// a snapshot of the room where it is stale.
#[derive(Debug)]
pub struct PlayerEvent {
    pub lines: Vec<Line>,
    pub room_info: Option<RoomInfo>,
}

/// What an event for a player holds.
pub struct PlayerEventView {
    pub lines: Seq<Seq<SpanView>>,
    pub room_info: Option<RoomInfoView>,
}

impl View for PlayerEvent {
    type V = PlayerEventView;

    open spec fn view(&self) -> PlayerEventView {
        PlayerEventView {
            lines: lines_view(self.lines@),
            room_info: match self.room_info {
                Some(info) => Some(info@),
                None => None,
            },
        }
    }
}

/// The views of a list of events with their recipients.
pub open spec fn events_view(events: Seq<(PlayerId, PlayerEvent)>) -> Seq<(u64, PlayerEventView)> {
    events.map_values(|e: (PlayerId, PlayerEvent)| (e.0.value, e.1@))
}

/// The vitals of a player.
pub open spec fn player_info(p: Player) -> EntityInfoView {
    EntityInfoView { id: decimal(p.id.value as int), name: p.name@, hp: p.hp, max_hp: p.max_hp }
}

/// The vitals of a mob.
pub open spec fn mob_info(m: MobView) -> EntityInfoView {
    EntityInfoView {
        id: decimal(m.id.value as int),
        name: m.template.name,
        hp: m.hp,
        max_hp: m.template.max_hp,
    }
}

/// The vitals of the players of a bucket but one, in order of arrival.
pub open spec fn other_infos(
    bucket: Seq<PlayerId>,
    players: Map<u64, Player>,
    self_id: u64,
) -> Seq<EntityInfoView>
    decreases bucket.len(),
{
    if bucket.len() == 0 {
        Seq::empty()
    } else {
        let rest = other_infos(bucket.drop_last(), players, self_id);
        let id = bucket.last().value;
        if id != self_id && players.contains_key(id) {
            rest.push(player_info(players[id]))
        } else {
            rest
        }
    }
}

/// The vitals of the mobs of a bucket, in order of arrival.
pub open spec fn mob_infos(bucket: Seq<MobId>, mobs: Map<u64, MobView>) -> Seq<EntityInfoView>
    decreases bucket.len(),
{
    if bucket.len() == 0 {
        Seq::empty()
    } else {
        let rest = mob_infos(bucket.drop_last(), mobs);
        let id = bucket.last().value;
        if mobs.contains_key(id) {
            rest.push(mob_info(mobs[id]))
        } else {
            rest
        }
    }
}

/// The snapshot of the room that a player is in, as that player is to see
/// it.
pub open spec fn room_info_for(w: World, self_id: u64) -> RoomInfoView {
    let p = w.players[self_id];
    RoomInfoView {
        self_player: player_info(p),
        players: other_infos(bucket_of(w.player_buckets, p.room_id.value), w.players, self_id),
        mobs: mob_infos(bucket_of(w.mob_buckets, p.room_id.value), w.mobs),
    }
}

fn info_of_player(p: &Player) -> (info: EntityInfo)
    ensures
        info@ == player_info(*p),
{
    EntityInfo {
        id: int_to_string(p.id.value as i128),
        name: p.name.clone(),
        hp: p.hp,
        max_hp: p.max_hp,
    }
}

fn infos_of_others(self_id: PlayerId, room_id: RoomId, state: &GameState) -> (infos: Vec<EntityInfo>)
    ensures
        infos_view(infos@) == other_infos(
            bucket_of(state@.player_buckets, room_id.value),
            state@.players,
            self_id.value,
        ),
{
    broadcast use vstd::std_specs::hash::group_hash_axioms;

    let ids = state.players.ids_in_room(room_id);
    let mut infos: Vec<EntityInfo> = Vec::new();
    let mut i: usize = 0;
    assert(infos_view(infos@) =~= Seq::<EntityInfoView>::empty());
    while i < ids.len()
        invariant
            i <= ids@.len(),
            ids@ == bucket_of(state@.player_buckets, room_id.value),
            infos_view(infos@) == other_infos(ids@.take(i as int), state@.players, self_id.value),
        decreases ids@.len() - i,
    {
        proof {
            lemma_take_one_more(ids@, i as int);
        }
        if ids[i].value != self_id.value {
            match state.players.by_id().get(&ids[i].value) {
                Some(p) => {
                    let ghost before = infos_view(infos@);
                    let info = info_of_player(p);
                    infos.push(info);
                    assert(infos_view(infos@) =~= before.push(info@));
                },
                None => {},
            }
        }
        i = i + 1;
    }
    assert(ids@.take(i as int) =~= ids@);
    infos
}

fn infos_of_mobs(room_id: RoomId, state: &GameState) -> (infos: Vec<EntityInfo>)
    ensures
        infos_view(infos@) == mob_infos(bucket_of(state@.mob_buckets, room_id.value), state@.mobs),
{
    broadcast use vstd::std_specs::hash::group_hash_axioms;

    let ids = state.mobs.ids_in_room(room_id);
    let mut infos: Vec<EntityInfo> = Vec::new();
    let mut i: usize = 0;
    assert(infos_view(infos@) =~= Seq::<EntityInfoView>::empty());
    while i < ids.len()
        invariant
            i <= ids@.len(),
            ids@ == bucket_of(state@.mob_buckets, room_id.value),
            infos_view(infos@) == mob_infos(ids@.take(i as int), state@.mobs),
        decreases ids@.len() - i,
    {
        proof {
            lemma_take_one_more(ids@, i as int);
        }
        match state.mobs.by_id().get(&ids[i].value) {
            Some(m) => {
                let ghost before = infos_view(infos@);
                let info = EntityInfo {
                    id: int_to_string(m.id.value as i128),
                    name: m.template.name.clone(),
                    hp: m.hp,
                    max_hp: m.template.max_hp,
                };
                assert(info@ == mob_info(m@));
                assert(state@.mobs[ids@[i as int].value] == m@);
                infos.push(info);
                assert(infos_view(infos@) =~= before.push(info@));
            },
            None => {
                assert(!state@.mobs.contains_key(ids@[i as int].value));
            },
        }
        i = i + 1;
    }
    assert(ids@.take(i as int) =~= ids@);
    infos
}

/// The snapshot of the room that a player is in, as that player is to see
/// it.
pub fn room_info(player: &Player, state: &GameState) -> (info: RoomInfo)
    requires
        state@.players.contains_key(player.id.value),
        state@.players[player.id.value] == *player,
    ensures
        info@ == room_info_for(state@, player.id.value),
{
    RoomInfo {
        self_player: info_of_player(player),
        players: infos_of_others(player.id, player.room_id, state),
        mobs: infos_of_mobs(player.room_id, state),
    }
}

/// The views of a list of snapshots with the players that they are for.
pub open spec fn room_infos_view(infos: Seq<(PlayerId, RoomInfo)>) -> Seq<(u64, RoomInfoView)> {
    infos.map_values(|e: (PlayerId, RoomInfo)| (e.0.value, e.1@))
}

/// The snapshots for the players of a bucket, each as that player is to see
/// the room.
pub open spec fn room_infos(bucket: Seq<PlayerId>, w: World) -> Seq<(u64, RoomInfoView)> {
    bucket.map_values(|id: PlayerId| (id.value, room_info_for(w, id.value)))
}

/// The snapshot of a room for each player in it, in order of arrival.
pub fn collect_room_info(room_id: RoomId, state: &GameState) -> (infos: Vec<(PlayerId, RoomInfo)>)
    requires
        state.wf(),
    ensures
        room_infos_view(infos@) == room_infos(
            bucket_of(state@.player_buckets, room_id.value),
            state@,
        ),
{
    broadcast use vstd::std_specs::hash::group_hash_axioms;

    let ids = state.players.ids_in_room(room_id);
    let ghost all = room_infos(ids@, state@);
    let mut infos: Vec<(PlayerId, RoomInfo)> = Vec::new();
    let mut i: usize = 0;
    proof {
        crate::player_coll::lemma_players_filed_once(state.players);
        assert(room_infos_view(infos@) =~= all.take(0));
    }
    while i < ids.len()
        invariant
            i <= ids@.len(),
            state.wf(),
            ids@ == bucket_of(state@.player_buckets, room_id.value),
            all == room_infos(ids@, state@),
            forall|j: int|
                0 <= j < ids@.len() ==> state@.players.contains_key((#[trigger] ids@[j]).value),
            room_infos_view(infos@) == all.take(i as int),
        decreases ids@.len() - i,
    {
        let ghost before = room_infos_view(infos@);
        match state.players.by_id().get(&ids[i].value) {
            Some(p) => {
                assert(p.id.value == ids@[i as int].value);
                let info = room_info(p, state);
                infos.push((ids[i], info));
                assert(room_infos_view(infos@) =~= before.push((ids@[i as int].value, info@)));
            },
            None => {
                proof {
                    assert(false);
                }
            },
        }
        assert(all.take(i + 1) =~= all.take(i as int).push(all[i as int]));
        i = i + 1;
    }
    assert(all.take(i as int) =~= all);
    infos
}

/// The players that something goes out to: those who have a queue, and
/// those whose room is marked as changed.
pub open spec fn awaiting(w: World, out: Map<u64, Seq<Seq<SpanView>>>) -> Set<u64> {
    Set::new(
        |p: u64|
            out.contains_key(p) || (w.players.contains_key(p) && w.changed.contains(
                w.players[p].room_id.value,
            )),
    )
}

/// What goes out to a player: the lines that wait for them, and a snapshot
/// of their room if it is marked as changed.
pub open spec fn event_for(w: World, out: Map<u64, Seq<Seq<SpanView>>>, p: u64) -> PlayerEventView {
    PlayerEventView {
        lines: queued(out, p),
        room_info: if w.players.contains_key(p) && w.changed.contains(
            w.players[p].room_id.value,
        ) {
            Some(room_info_for(w, p))
        } else {
            None
        },
    }
}

/// What goes out after an event, by ascending identifier of the recipient.
pub open spec fn pending_events(w: World, out: Map<u64, Seq<Seq<SpanView>>>) -> Seq<
    (u64, PlayerEventView),
> {
    in_order(awaiting(w, out)).map_values(|p: u64| (p, event_for(w, out, p)))
}

/// The world once all that waited has gone out: no room is marked as
/// changed.
pub open spec fn settled(w: World) -> World {
    World { changed: Set::empty(), ..w }
}

/// Takes what is to go out to the players, and leaves no queue and no mark
/// behind.
pub fn take_player_events(writer: &mut EventWriter, state: &mut GameState) -> (events: Vec<
    (PlayerId, PlayerEvent),
>)
    requires
        old(state).wf(),
    ensures
        final(state).wf(),
        events_view(events@) == pending_events(old(state)@, old(writer)@),
        final(writer)@ == Map::<u64, Seq<Seq<SpanView>>>::empty(),
        final(state)@ == settled(old(state)@),
{
    broadcast use vstd::std_specs::hash::group_hash_axioms;

    let ghost w = state@;
    let ghost out = writer@;
    let mut who: HashMap<u64, bool> = HashMap::new();
    let line_ids = sorted_keys(&writer.lines);
    proof {
        assert(writer@.dom() =~= writer.lines@.dom());
        lemma_in_order_lists(writer.lines@.dom());
    }
    let mut i: usize = 0;
    while i < line_ids.len()
        invariant
            i <= line_ids@.len(),
            forall|p: u64| who@.contains_key(p) <==> line_ids@.take(i as int).contains(p),
        decreases line_ids@.len() - i,
    {
        proof {
            lemma_take_one_more(line_ids@, i as int);
        }
        who.insert(line_ids[i], true);
        i = i + 1;
    }
    assert(line_ids@.take(i as int) =~= line_ids@);
    let player_ids = sorted_keys(state.players.by_id());
    proof {
        lemma_in_order_lists(state@.players.dom());
    }
    let mut k: usize = 0;
    while k < player_ids.len()
        invariant
            k <= player_ids@.len(),
            state@ == w,
            lists_in_order(player_ids@, w.players.dom()),
            forall|p: u64|
                who@.contains_key(p) <==> out.contains_key(p) || (player_ids@.take(
                    k as int,
                ).contains(p) && w.changed.contains(w.players[p].room_id.value)),
        decreases player_ids@.len() - k,
    {
        proof {
            lemma_take_one_more(player_ids@, k as int);
            assert(player_ids@.contains(player_ids@[k as int]));
        }
        match state.players.by_id().get(&player_ids[k]) {
            Some(p) => {
                if state.players.room_info_changed().contains(&p.room_id.value) {
                    who.insert(player_ids[k], true);
                }
            },
            None => {},
        }
        k = k + 1;
    }
    proof {
        assert(player_ids@.take(k as int) =~= player_ids@);
        assert forall|p: u64| who@.dom().contains(p) <==> awaiting(w, out).contains(p) by {
            assert(player_ids@.contains(p) <==> w.players.dom().contains(p));
            assert(who@.contains_key(p) <==> out.contains_key(p) || (player_ids@.contains(p)
                && w.changed.contains(w.players[p].room_id.value)));
        }
        assert(who@.dom() =~= awaiting(w, out));
    }
    let ids = sorted_keys(&who);
    let ghost all = pending_events(w, out);
    let mut events: Vec<(PlayerId, PlayerEvent)> = Vec::new();
    let mut n: usize = 0;
    assert(events_view(events@) =~= all.take(0));
    while n < ids.len()
        invariant
            n <= ids@.len(),
            state@ == w,
            writer@ == out,
            ids@ == in_order(awaiting(w, out)),
            all == pending_events(w, out),
            forall|v: u64| #[trigger] w.players.contains_key(v) ==> w.players[v].id.value == v,
            events_view(events@) == all.take(n as int),
        decreases ids@.len() - n,
    {
        let ghost before = events_view(events@);
        let id = ids[n];
        let lines = match writer.lines.get(&id) {
            Some(queue) => clone_lines(queue),
            None => Vec::new(),
        };
        assert(lines_view(lines@) =~= queued(out, id));
        let room_info = match state.players.by_id().get(&id) {
            Some(p) => {
                if state.players.room_info_changed().contains(&p.room_id.value) {
                    Some(room_info(p, state))
                } else {
                    None
                }
            },
            None => None,
        };
        let event = PlayerEvent { lines, room_info };
        assert(event@ == event_for(w, out, id));
        events.push((PlayerId::new(id), event));
        assert(events_view(events@) =~= before.push((id, event@)));
        assert(all.take(n + 1) =~= all.take(n as int).push(all[n as int]));
        n = n + 1;
    }
    assert(all.take(n as int) =~= all);
    writer.lines.clear();
    assert(writer@ =~= Map::<u64, Seq<Seq<SpanView>>>::empty());
    state.players.clear_room_info_changed();
    events
}

/// The player that connects under a name: in the starting room, at full
/// health, with the given phase of attack and without a target.
pub open spec fn new_player(id: PlayerId, name: String, offset: int) -> Player {
    Player {
        id,
        name,
        room_id: RoomId { value: RESPAWN_ROOM, phantom: std::marker::PhantomData },
        hp: START_HP,
        max_hp: START_HP,
        attack_offset: TickDuration(offset as i64),
        attack_target: None,
    }
}

/// Whether the world can take a message: a player who connects is not
/// there already; for a line of input, every delayed reset in the scripts of
/// the rooms can be scheduled; for a tick, the clock can advance and a
/// respawn can be scheduled.
pub open spec fn acceptable(message: Message, w: World) -> bool {
    match message {
        Message::PlayerConnected { player_id, player_name } => !w.players.contains_key(
            player_id.value,
        ),
        Message::PlayerDisconnected { player_id } => true,
        Message::PlayerCommand { player_id, command } => scripts_fit(w),
        Message::Tick => w.ticks.0 + 1 + RESPAWN_DELAY <= i64::MAX,
    }
}

/// Whether `after` is what a message can make of `before`, with the given
/// error for the log. What is left open is what chance decides: the phase of
/// attack of a new player, the roll of a die, the picks of the mobs and the
/// phases of attack of respawned mobs. A line of input that fails changes
/// nothing.
pub open spec fn handled(
    before: Outcome,
    message: Message,
    after: Outcome,
    error: Option<Seq<char>>,
) -> bool {
    match message {
        Message::PlayerConnected { player_id, player_name } => error is None && exists|
            offset: int,
        |
            0 <= offset < PLAYER_ATTACK_PERIOD && after == connected(
                before,
                #[trigger] new_player(player_id, player_name, offset),
            ),
        Message::PlayerDisconnected { player_id } => error is None && after == disconnected(
            before,
            player_id,
        ),
        Message::PlayerCommand { player_id, command } => exists|roll: int|
            1 <= roll <= 6 && match #[trigger] command_outcome(
                before,
                player_id.value,
                whitespace_words(command@),
                roll,
            ) {
                Ok(o) => error is None && after == o,
                Err(e) => error == Some(e) && after == before,
            },
        Message::Tick => error is None && exists|picks: Seq<int>, offsets: Seq<int>|
            tick_phases_fit(before, picks, offsets) && after == #[trigger] ticked(
                before,
                picks,
                offsets,
            ),
    }
}

/// What an optional string reads.
pub open spec fn error_text(error: Option<String>) -> Option<Seq<char>> {
    match error {
        Some(e) => Some(e@),
        None => None,
    }
}

/// Lets a message act on the world, and returns the error of a line of
/// input that failed.
pub fn handle_message(message: Message, writer: &mut EventWriter, state: &mut GameState) -> (error:
    Option<String>)
    requires
        old(state).wf(),
        acceptable(message, old(state)@),
    ensures
        final(state).wf(),
        handled(
            Outcome { world: old(state)@, out: old(writer)@ },
            message,
            Outcome { world: final(state)@, out: final(writer)@ },
            error_text(error),
        ),
{
    let ghost before = Outcome { world: state@, out: writer@ };
    match message {
        Message::PlayerConnected { player_id, player_name } => {
            let offset = TickDuration(PLAYER_ATTACK_PERIOD).random_offset();
            let player = Player {
                id: player_id,
                name: player_name,
                room_id: RoomId::new(RESPAWN_ROOM),
                hp: START_HP,
                max_hp: START_HP,
                attack_offset: offset,
                attack_target: None,
            };
            assert(player == new_player(player_id, player_name, offset.0 as int));
            on_player_connect(player, writer, state);
            None
        },
        Message::PlayerDisconnected { player_id } => {
            on_player_disconnect(player_id, writer, state);
            None
        },
        Message::PlayerCommand { player_id, command } => {
            let r = on_command(player_id, command.as_str(), writer, state);
            let ghost roll = choose|roll: int|
                1 <= roll <= 6 && agrees(
                    r,
                    #[trigger] command_outcome(
                        before,
                        player_id.value,
                        whitespace_words(command@),
                        roll,
                    ),
                    before,
                    Outcome { world: state@, out: writer@ },
                );
            match r {
                Ok(()) => None,
                Err(e) => Some(e),
            }
        },
        Message::Tick => {
            on_tick(writer, state);
            None
        },
    }
}

/// What a message leaves behind, and what goes out to the players after
/// it.
#[derive(Debug)]
pub struct Processed {
    pub events: Vec<(PlayerId, PlayerEvent)>,
    pub error: Option<String>,
}

/// Works off one message: lets it act on the world, then takes what is to
/// go out to the players.
pub fn process(message: Message, writer: &mut EventWriter, state: &mut GameState) -> (done:
    Processed)
    requires
        old(state).wf(),
        acceptable(message, old(state)@),
    ensures
        final(state).wf(),
        final(writer)@ == Map::<u64, Seq<Seq<SpanView>>>::empty(),
        exists|after: Outcome|
            #[trigger] handled(
                Outcome { world: old(state)@, out: old(writer)@ },
                message,
                after,
                error_text(done.error),
            ) && events_view(done.events@) == pending_events(after.world, after.out)
                && final(state)@ == settled(after.world),
{
    let error = handle_message(message, writer, state);
    let ghost after = Outcome { world: state@, out: writer@ };
    let events = take_player_events(writer, state);
    assert(handled(
        Outcome { world: old(state)@, out: old(writer)@ },
        message,
        after,
        error_text(error),
    ));
    Processed { events, error }
}

} // verus!
