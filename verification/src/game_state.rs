use crate::id::{IdSource, MobId, MobKind, MobTemplateId, PlayerId, RoomId};
use crate::mob::{MobInstance, MobSpawn, MobTemplate, MobView};
use crate::mob_coll::{mob_index_after_change, MobColl};
use crate::named::Named;
use crate::player::Player;
use crate::player_coll::{index_after_change, marks_after_change, PlayerColl};
use crate::room_index::{with_member, without_member};
use crate::room_vars::{var_value, with_var, RoomVars};
use crate::text::strs;
use crate::tick::{Tick, TickDuration};
use std::collections::{BTreeMap, HashMap};
use vstd::prelude::*;

verus! {

/// A test on one variable of the room in which it is evaluated.
#[derive(Debug)]
pub enum Condition {
    Equals(String, i32),
    NotEquals(String, i32),
}

impl Clone for Condition {
    fn clone(&self) -> (r: Self)
        ensures
            r == *self,
    {
        match self {
            Condition::Equals(var, value) => Condition::Equals(var.clone(), *value),
            Condition::NotEquals(var, value) => Condition::NotEquals(var.clone(), *value),
        }
    }
}

/// One step of a room command.
#[derive(Debug)]
pub enum Statement {
    /// Sets a variable of the room.
    SetRoomVar(String, i32),
    /// Schedules the variable to go back to zero after a delay; the message
    /// goes to the room when it does.
    ResetRoomVarAfter(String, TickDuration, String),
    /// A line for the player who gave the command.
    TellSelf(String),
    /// A line for everyone else in the room, after the player's name.
    TellOthers(String),
    /// A line for everyone in the room.
    TellRoom(String),
}

impl Clone for Statement {
    fn clone(&self) -> (r: Self)
        ensures
            r == *self,
    {
        match self {
            Statement::SetRoomVar(var, value) => Statement::SetRoomVar(var.clone(), *value),
            Statement::ResetRoomVarAfter(var, delay, message) => Statement::ResetRoomVarAfter(
                var.clone(),
                *delay,
                message.clone(),
            ),
            Statement::TellSelf(line) => Statement::TellSelf(line.clone()),
            Statement::TellOthers(line) => Statement::TellOthers(line.clone()),
            Statement::TellRoom(line) => Statement::TellRoom(line.clone()),
        }
    }
}

/// A command that an object of a room answers to.
#[derive(Debug)]
pub struct RoomCommand {
    pub command: String,
    pub condition: Option<Condition>,
    pub statements: Vec<Statement>,
}

impl Clone for RoomCommand {
    fn clone(&self) -> (r: Self)
        ensures
            r.command == self.command,
            r.condition == self.condition,
            r.statements@ == self.statements@,
    {
        let mut statements: Vec<Statement> = Vec::new();
        let mut i: usize = 0;
        while i < self.statements.len()
            invariant
                i <= self.statements@.len(),
                statements@ == self.statements@.take(i as int),
            decreases self.statements@.len() - i,
        {
            statements.push(self.statements[i].clone());
            assert(statements@ =~= self.statements@.take(i + 1));
            i = i + 1;
        }
        assert(self.statements@.take(i as int) =~= self.statements@);
        let condition = match &self.condition {
            Some(c) => Some(c.clone()),
            None => None,
        };
        RoomCommand { command: self.command.clone(), condition, statements }
    }
}

/// A piece of a description that shows while its condition holds, or always
/// where it has none.
#[derive(Debug)]
pub struct DynamicDescriptionFragment {
    pub fragment: String,
    pub condition: Option<Condition>,
}

/// The description of a room or an object: a fixed text, or pieces that
/// come and go with the room's variables.
#[derive(Debug)]
pub enum RoomDescription {
    Static(String),
    Dynamic(Vec<DynamicDescriptionFragment>),
}

/// Something in a room that players can look at and use.
#[derive(Debug)]
pub struct RoomObject {
    pub name: String,
    pub aliases: Vec<String>,
    pub description: RoomDescription,
    pub commands: Vec<RoomCommand>,
}

impl Named for RoomObject {
    open spec fn name_text(&self) -> Seq<char> {
        self.name@
    }

    open spec fn alias_texts(&self) -> Seq<Seq<char>> {
        strs(self.aliases@)
    }

    fn get_name(&self) -> (name: &String) {
        &self.name
    }

    fn get_aliases(&self) -> (aliases: &[String]) {
        self.aliases.as_slice()
    }
}

/// Where an exit leads: always, or while a condition holds.
#[derive(Debug)]
pub enum RoomExit {
    Static(RoomId),
    Conditional { condition: Condition, to: RoomId },
}

impl RoomExit {
    /// The room that the exit leads to.
    pub open spec fn destination(&self) -> RoomId {
        match *self {
            RoomExit::Static(to) => to,
            RoomExit::Conditional { condition, to } => to,
        }
    }

    /// The room that the exit leads to.
    pub fn leads_to(&self) -> (to: RoomId)
        ensures
            to == self.destination(),
    {
        match self {
            RoomExit::Static(to) => *to,
            RoomExit::Conditional { condition: _, to } => *to,
        }
    }
}

/// A room of the world. The exits are listed under their names, in the order
/// in which they are shown; of two exits with one name only the first is
/// used.
#[derive(Debug)]
pub struct Room {
    pub id: RoomId,
    pub name: String,
    pub description: RoomDescription,
    pub exits: Vec<(String, RoomExit)>,
    pub objects: Vec<RoomObject>,
    pub mob_spawns: Vec<MobSpawn>,
}

/// The first place in a list of exits that leads to a room, if any.
pub open spec fn first_exit_to(exits: Seq<(String, RoomExit)>, to: u64) -> Option<int>
    decreases exits.len(),
{
    if exits.len() == 0 {
        None
    } else {
        match first_exit_to(exits.drop_last(), to) {
            Some(i) => Some(i),
            None => if exits.last().1.destination().value == to {
                Some(exits.len() - 1)
            } else {
                None
            },
        }
    }
}

/// What `first_exit_to` finds: the least place whose exit leads to the room.
pub proof fn lemma_first_exit_to(exits: Seq<(String, RoomExit)>, to: u64)
    ensures
        match first_exit_to(exits, to) {
            Some(i) => 0 <= i < exits.len() && exits[i].1.destination().value == to && forall|
                j: int,
            | 0 <= j < i ==> (#[trigger] exits[j]).1.destination().value != to,
            None => forall|j: int|
                0 <= j < exits.len() ==> (#[trigger] exits[j]).1.destination().value != to,
        },
    decreases exits.len(),
{
    if exits.len() > 0 {
        lemma_first_exit_to(exits.drop_last(), to);
        assert forall|j: int| 0 <= j < exits.len() - 1 implies exits.drop_last()[j]
            == exits[j] by {}
        match first_exit_to(exits.drop_last(), to) {
            Some(i) => {
                assert(exits.drop_last()[i] == exits[i]);
                assert forall|j: int| 0 <= j < i implies (#[trigger] exits[j]).1.destination().value
                    != to by {
                    assert(exits.drop_last()[j] == exits[j]);
                }
            },
            None => {
                assert forall|j: int| 0 <= j < exits.len() - 1 implies (
                #[trigger] exits[j]).1.destination().value != to by {
                    assert(exits.drop_last()[j] == exits[j]);
                }
            },
        }
    }
}

impl Room {
    /// The name of the first exit that leads to a room, whether or not its
    /// condition holds.
    pub fn exit_direction_to(&self, room_id: RoomId) -> (direction: Option<&str>)
        ensures
            match first_exit_to(self.exits@, room_id.value) {
                Some(i) => direction is Some && direction->0@ == self.exits@[i].0@,
                None => direction is None,
            },
    {
        let mut i: usize = 0;
        while i < self.exits.len()
            invariant
                i <= self.exits@.len(),
                forall|j: int|
                    0 <= j < i ==> (#[trigger] self.exits@[j]).1.destination().value
                        != room_id.value,
            decreases self.exits@.len() - i,
        {
            if self.exits[i].1.leads_to().value == room_id.value {
                proof {
                    lemma_first_exit_to(self.exits@, room_id.value);
                }
                return Some(self.exits[i].0.as_str());
            }
            i = i + 1;
        }
        proof {
            lemma_first_exit_to(self.exits@, room_id.value);
        }
        None
    }
}

/// A delayed reset of a room variable, with the message that goes to the
/// room when it happens.
#[derive(Debug)]
pub struct RoomVarReset {
    pub room_id: RoomId,
    pub var: String,
    pub message: String,
}

/// A delayed respawn of a mob of a template in a room.
#[derive(Debug)]
pub struct MobRespawn {
    pub room_id: RoomId,
    pub mob_template_id: MobTemplateId,
}

/// The tables that are read once at start and never change.
#[derive(Debug)]
pub struct LoadedGameState {
    pub rooms: HashMap<u64, Room>,
    pub mob_templates: HashMap<u64, MobTemplate>,
}

/// The whole state of the world. Each of the two schedules holds one entry
/// per clock value: an event scheduled for a clock value that already has one
/// takes its place.
#[derive(Debug)]
pub struct GameState {
    pub ticks: Tick,
    pub players: PlayerColl,
    pub rooms: HashMap<u64, Room>,
    pub room_vars: RoomVars,
    pub scheduled_room_var_resets: BTreeMap<i64, RoomVarReset>,
    pub mob_templates: HashMap<u64, MobTemplate>,
    pub mobs: MobColl,
    pub mob_id_source: IdSource<MobKind>,
    pub scheduled_mob_spawns: BTreeMap<i64, MobRespawn>,
}

/// What the state of the world holds.
pub struct World {
    pub ticks: Tick,
    pub players: Map<u64, Player>,
    pub player_buckets: Map<u64, Seq<PlayerId>>,
    pub changed: Set<u64>,
    pub rooms: Map<u64, Room>,
    pub room_vars: Map<(u64, Seq<char>), i32>,
    pub resets: Map<i64, RoomVarReset>,
    pub templates: Map<u64, MobTemplate>,
    pub mobs: Map<u64, MobView>,
    pub mob_buckets: Map<u64, Seq<MobId>>,
    pub next_mob_id: u64,
    pub spawns: Map<i64, MobRespawn>,
}

impl View for GameState {
    type V = World;

    open spec fn view(&self) -> World {
        World {
            ticks: self.ticks,
            players: self.players.entities(),
            player_buckets: self.players.buckets(),
            changed: self.players.changed(),
            rooms: self.rooms@,
            room_vars: self.room_vars@,
            resets: self.scheduled_room_var_resets@,
            templates: self.mob_templates@,
            mobs: self.mobs.views(),
            mob_buckets: self.mobs.buckets(),
            next_mob_id: self.mob_id_source.next_id,
            spawns: self.scheduled_mob_spawns@,
        }
    }
}

impl GameState {
    /// The collections and the variable store are in order, the clock has
    /// not run backwards, every room and template is filed under its own
    /// identifier, every template and every live mob can attack, and no live
    /// mob has an identifier that is still to be issued.
    pub open spec fn wf(&self) -> bool {
        &&& self.players.wf()
        &&& self.mobs.wf()
        &&& self.room_vars.wf()
        &&& self.ticks.0 >= 0
        &&& forall|r: u64| #[trigger] self.rooms@.contains_key(r) ==> self.rooms@[r].id.value == r
        &&& forall|t: u64| #[trigger]
            self.mob_templates@.contains_key(t) ==> self.mob_templates@[t]@.wf()
        &&& forall|m: u64| #[trigger]
            self.mobs.views().contains_key(m) ==> self.mobs.views()[m].template.wf() && m
                < self.mob_id_source.next_id
    }

    /// The state at start: the tables as loaded, the clock at zero, no
    /// player, no mob, no variable and nothing scheduled.
    pub fn new(loaded_game_state: LoadedGameState) -> (state: GameState)
        requires
            forall|r: u64| #[trigger]
                loaded_game_state.rooms@.contains_key(r) ==> loaded_game_state.rooms@[r].id.value
                    == r,
            forall|t: u64| #[trigger]
                loaded_game_state.mob_templates@.contains_key(t)
                    ==> loaded_game_state.mob_templates@[t]@.wf(),
        ensures
            state.wf(),
            state@ == (World {
                ticks: Tick(0),
                players: Map::empty(),
                player_buckets: Map::empty(),
                changed: Set::empty(),
                rooms: loaded_game_state.rooms@,
                room_vars: Map::empty(),
                resets: Map::empty(),
                templates: loaded_game_state.mob_templates@,
                mobs: Map::empty(),
                mob_buckets: Map::empty(),
                next_mob_id: 0,
                spawns: Map::empty(),
            }),
    {
        let state = GameState {
            rooms: loaded_game_state.rooms,
            mob_templates: loaded_game_state.mob_templates,
            ticks: Tick::zero(),
            players: PlayerColl::new(),
            room_vars: RoomVars::new(),
            scheduled_room_var_resets: BTreeMap::new(),
            mobs: MobColl::new(),
            mob_id_source: IdSource::new(0),
            scheduled_mob_spawns: BTreeMap::new(),
        };
        assert(state.mobs.views() =~= Map::<u64, MobView>::empty());
        state
    }

    /// Reads a variable of a room; a variable that was never set, or was set
    /// to zero, reads as zero.
    pub fn get_room_var(&self, room_id: RoomId, var: String) -> (value: i32)
        requires
            self.room_vars.wf(),
        ensures
            value == var_value(self@.room_vars, room_id.value, var@),
    {
        self.room_vars.get(room_id, &var)
    }

    /// Sets a variable of a room; setting it to zero removes it from the
    /// store.
    pub fn set_room_var(&mut self, room_id: RoomId, var: String, value: i32)
        requires
            old(self).room_vars.wf(),
        ensures
            final(self).room_vars.wf(),
            final(self)@ == (World {
                room_vars: with_var(old(self)@.room_vars, room_id.value, var@, value),
                ..old(self)@
            }),
            old(self).wf() ==> final(self).wf(),
    {
        self.room_vars.set(room_id, var, value);
    }
}

/// The state of the world together with the lines that wait for the
/// players.
pub struct Outcome {
    pub world: World,
    pub out: Map<u64, Seq<Seq<crate::line::SpanView>>>,
}

/// The players that are in a room.
pub open spec fn players_in(w: World, room: u64) -> Set<u64> {
    Set::new(|p: u64| w.players.contains_key(p) && w.players[p].room_id.value == room)
}

/// The players that are in a room, but for one.
pub open spec fn others_in(w: World, room: u64, except: u64) -> Set<u64> {
    players_in(w, room).remove(except)
}

/// The mobs that are in a room.
pub open spec fn mobs_in(w: World, room: u64) -> Set<u64> {
    Set::new(|m: u64| w.mobs.contains_key(m) && w.mobs[m].room_id.value == room)
}

/// The occupants that the collections report for a room are those of the
/// world that the state stands for.
pub proof fn lemma_occupants(state: GameState, room: u64)
    ensures
        state.players.occupants(room) == players_in(state@, room),
        state.mobs.occupants(room) == mobs_in(state@, room),
{
    assert(state.players.occupants(room) =~= players_in(state@, room));
    assert(state.mobs.occupants(room) =~= mobs_in(state@, room));
}

/// The world after a player who is there has changed to `after`: the room
/// index follows a change of room, and the rooms whose snapshot is stale
/// are marked.
pub open spec fn put_player(w: World, after: Player) -> World {
    let before = w.players[after.id.value];
    World {
        players: w.players.insert(after.id.value, after),
        player_buckets: index_after_change(
            w.player_buckets,
            after.id,
            before.room_id.value,
            after.room_id.value,
        ),
        changed: marks_after_change(w.changed, before, after),
        ..w
    }
}

/// The world after a player has arrived.
pub open spec fn add_player(w: World, player: Player) -> World {
    World {
        players: w.players.insert(player.id.value, player),
        player_buckets: with_member(w.player_buckets, player.id, player.room_id.value),
        changed: w.changed.insert(player.room_id.value),
        ..w
    }
}

/// The world after a player who is there has gone.
pub open spec fn drop_player(w: World, id: PlayerId) -> World {
    let room = w.players[id.value].room_id.value;
    World {
        players: w.players.remove(id.value),
        player_buckets: without_member(w.player_buckets, id, room),
        changed: w.changed.insert(room),
        ..w
    }
}

/// The world after a mob that is there has changed to `after`.
pub open spec fn put_mob(w: World, after: MobView) -> World {
    let before = w.mobs[after.id.value];
    World {
        mobs: w.mobs.insert(after.id.value, after),
        mob_buckets: mob_index_after_change(
            w.mob_buckets,
            after.id,
            before.room_id.value,
            after.room_id.value,
        ),
        ..w
    }
}

/// The world after a mob has appeared.
pub open spec fn add_mob(w: World, mob: MobView) -> World {
    World {
        mobs: w.mobs.insert(mob.id.value, mob),
        mob_buckets: with_member(w.mob_buckets, mob.id, mob.room_id.value),
        ..w
    }
}

/// The world after a mob that is there has gone.
pub open spec fn drop_mob(w: World, id: MobId) -> World {
    let room = w.mobs[id.value].room_id.value;
    World {
        mobs: w.mobs.remove(id.value),
        mob_buckets: without_member(w.mob_buckets, id, room),
        ..w
    }
}

impl GameState {
    /// Replaces a player who is there by a changed copy.
    pub fn update_player(&mut self, after: Player)
        requires
            old(self).wf(),
            old(self)@.players.contains_key(after.id.value),
        ensures
            final(self).wf(),
            final(self)@ == put_player(old(self)@, after),
    {
        let id = after.id;
        let f = move |p: Player| -> (o: (Player, ()))
            ensures
                o.0 == after,
            { (after, ()) };
        self.players.modify(&id, f);
    }

    /// Lets `f` change a mob that is there. The mob keeps its identifier and
    /// its template.
    pub fn change_mob<F: FnOnce(MobInstance) -> (MobInstance, ())>(&mut self, id: MobId, f: F)
        requires
            old(self).wf(),
            old(self)@.mobs.contains_key(id.value),
            f.requires((old(self).mobs.entities()[id.value],)),
            forall|q: MobInstance, t: ()|
                f.ensures((old(self).mobs.entities()[id.value],), (q, t)) ==> q.id == id
                    && q@.template == old(self)@.mobs[id.value].template,
        ensures
            final(self).wf(),
            final(self)@.mobs.contains_key(id.value),
            f.ensures(
                (old(self).mobs.entities()[id.value],),
                (final(self).mobs.entities()[id.value], ()),
            ),
            final(self)@ == put_mob(old(self)@, final(self)@.mobs[id.value]),
    {
        self.mobs.modify(&id, f);
        assert(self.mobs.views() =~= old(self).mobs.views().insert(
            id.value,
            self.mobs.entities()[id.value]@,
        ));
        assert forall|m: u64| #[trigger] self.mobs.views().contains_key(m) implies self.mobs.views()[m].template.wf()
            && m < self.mob_id_source.next_id by {
            assert(old(self).mobs.views().contains_key(m));
        }
    }

    /// Takes a mob that is there out of the world.
    pub fn take_mob(&mut self, id: MobId) -> (mob: MobInstance)
        requires
            old(self).wf(),
            old(self)@.mobs.contains_key(id.value),
        ensures
            final(self).wf(),
            mob == old(self).mobs.entities()[id.value],
            final(self)@ == drop_mob(old(self)@, id),
    {
        let removed = self.mobs.remove(&id);
        assert(self.mobs.views() =~= old(self).mobs.views().remove(id.value));
        assert forall|m: u64| #[trigger] self.mobs.views().contains_key(m) implies self.mobs.views()[m].template.wf()
            && m < self.mob_id_source.next_id by {
            assert(old(self).mobs.views().contains_key(m));
        }
        match removed {
            Some(mob) => mob,
            None => {
                proof {
                    assert(false);
                }
                vstd::pervasive::unreached()
            },
        }
    }
}

} // verus!
