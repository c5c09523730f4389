use crate::event_writer::{told, told_all, told_lines, EventWriter};
use crate::game_state::{
    lemma_occupants, others_in, players_in, Condition, DynamicDescriptionFragment, GameState,
    Outcome, Room, RoomCommand, RoomDescription, RoomExit, RoomObject, RoomVarReset, Statement,
    World,
};
use crate::id::{MobId, PlayerId, RoomId};
use crate::line::{
    colored, lines_view, plain, plain_line, span, spans_view, Color, Line, LineSpan, SpanView,
};
use crate::player::Player;
use crate::tick::{Tick, TickDuration};
use crate::mob::{MobInstance, MobView};
use crate::mob_coll::MobColl;
use crate::named::{answers_to, Named};
use crate::room_index::bucket_of;
use crate::room_vars::{var_value, with_var};
use crate::search::{first_where, lemma_first_where, lemma_first_where_is, lemma_first_where_none};
use crate::text::{join_words, joined_by_space, strs};
use crate::text_util::{and_joined, and_span_vecs, span_lists_view};
use vstd::prelude::*;
use vstd::string::*;

verus! {

/// Whether a condition holds in a room, given the room variables.
pub open spec fn condition_holds(
    c: Condition,
    room: u64,
    vars: Map<(u64, Seq<char>), i32>,
) -> bool {
    match c {
        Condition::Equals(var, value) => var_value(vars, room, var@) == value,
        Condition::NotEquals(var, value) => var_value(vars, room, var@) != value,
    }
}

/// Whether an optional condition lets something pass: one that is absent
/// always does.
pub open spec fn guard_holds(
    c: Option<Condition>,
    room: u64,
    vars: Map<(u64, Seq<char>), i32>,
) -> bool {
    match c {
        Some(c) => condition_holds(c, room, vars),
        None => true,
    }
}

/// Evaluates a condition in a room.
pub fn eval_room_condition(condition: &Condition, room_id: RoomId, state: &GameState) -> (r: bool)
    requires
        state.room_vars.wf(),
    ensures
        r == condition_holds(*condition, room_id.value, state@.room_vars),
{
    match condition {
        Condition::Equals(var, value) => state.get_room_var(room_id, var.clone()) == *value,
        Condition::NotEquals(var, value) => state.get_room_var(room_id, var.clone()) != *value,
    }
}

/// Evaluates an optional condition.
pub fn eval_room_guard(condition: &Option<Condition>, room_id: RoomId, state: &GameState) -> (r:
    bool)
    requires
        state.room_vars.wf(),
    ensures
        r == guard_holds(*condition, room_id.value, state@.room_vars),
{
    match condition {
        Some(c) => eval_room_condition(c, room_id, state),
        None => true,
    }
}

/// The fragments of a dynamic description that show, in order.
pub open spec fn shown_fragments(
    fragments: Seq<DynamicDescriptionFragment>,
    room: u64,
    vars: Map<(u64, Seq<char>), i32>,
) -> Seq<Seq<char>>
    decreases fragments.len(),
{
    if fragments.len() == 0 {
        Seq::empty()
    } else {
        let rest = shown_fragments(fragments.drop_last(), room, vars);
        if guard_holds(fragments.last().condition, room, vars) {
            rest.push(fragments.last().fragment@)
        } else {
            rest
        }
    }
}

/// The text of a description: the fixed text, or the fragments that show,
/// joined by single spaces; nothing where no fragment shows.
pub open spec fn description_text(
    description: RoomDescription,
    room: u64,
    vars: Map<(u64, Seq<char>), i32>,
) -> Option<Seq<char>> {
    match description {
        RoomDescription::Static(text) => Some(text@),
        RoomDescription::Dynamic(fragments) => {
            let shown = shown_fragments(fragments@, room, vars);
            if shown.len() == 0 {
                None
            } else {
                Some(joined_by_space(shown))
            }
        },
    }
}

/// Composes a description as it shows in a room.
pub fn eval_room_description(
    room_description: &RoomDescription,
    room_id: RoomId,
    state: &GameState,
) -> (r: Option<String>)
    requires
        state.room_vars.wf(),
    ensures
        match description_text(*room_description, room_id.value, state@.room_vars) {
            Some(text) => r is Some && r->0@ == text,
            None => r is None,
        },
{
    match room_description {
        RoomDescription::Static(description) => Some(description.clone()),
        RoomDescription::Dynamic(branches) => {
            let mut fragments: Vec<String> = Vec::new();
            let mut i: usize = 0;
            while i < branches.len()
                invariant
                    i <= branches@.len(),
                    state.room_vars.wf(),
                    strs(fragments@) == shown_fragments(
                        branches@.take(i as int),
                        room_id.value,
                        state@.room_vars,
                    ),
                decreases branches@.len() - i,
            {
                let ghost before = strs(fragments@);
                proof {
                    let upto = branches@.take(i + 1);
                    assert(upto.drop_last() =~= branches@.take(i as int));
                    assert(upto.last() == branches@[i as int]);
                }
                if eval_room_guard(&branches[i].condition, room_id, state) {
                    fragments.push(branches[i].fragment.clone());
                    assert(strs(fragments@) =~= before.push(branches@[i as int].fragment@));
                }
                i = i + 1;
            }
            assert(branches@.take(i as int) =~= branches@);
            if fragments.len() == 0 {
                None
            } else {
                Some(join_words(&fragments))
            }
        },
    }
}

/// What a player may mean by a name: a thing of the room, or a mob in it.
pub enum RoomTarget<'a, 'b> {
    RoomObject { room_object: &'a RoomObject },
    Mob { mob: &'b MobInstance },
}

/// What a name refers to in a room: the mob with that identifier value, the
/// object at that place of the room's list, or nothing.
pub enum TargetChoice {
    Mob(u64),
    Object(int),
    Nothing,
}

/// The condition that a mob of the bucket answers to a name.
pub open spec fn mob_answers(mobs: Map<u64, MobView>, target: Seq<char>) -> spec_fn(MobId) -> bool {
    |id: MobId|
        mobs.contains_key(id.value) && answers_to(
            mobs[id.value].template.name,
            mobs[id.value].template.aliases,
            target,
        )
}

/// The condition that an object answers to a name.
pub open spec fn object_answers(target: Seq<char>) -> spec_fn(RoomObject) -> bool {
    |o: RoomObject| answers_to(o.name@, strs(o.aliases@), target)
}

/// What a name refers to in a room. A mob comes before an object of the same
/// name; among mobs the one that has been in the room longest, among objects
/// the one listed first.
pub open spec fn target_choice(world: World, room: Room, target: Seq<char>) -> TargetChoice {
    let bucket = bucket_of(world.mob_buckets, room.id.value);
    match first_where(bucket, mob_answers(world.mobs, target)) {
        Some(i) => TargetChoice::Mob(bucket[i].value),
        None => match first_where(room.objects@, object_answers(target)) {
            Some(i) => TargetChoice::Object(i),
            None => TargetChoice::Nothing,
        },
    }
}

/// Finds what a name refers to in a room.
pub fn resolve_target_in_room<'a, 'b>(target: &str, room: &'a Room, mobs: &'b MobColl) -> (r:
    Option<RoomTarget<'a, 'b>>)
    requires
        mobs.wf(),
    ensures
        match first_where(
            bucket_of(mobs.buckets(), room.id.value),
            mob_answers(mobs.views(), target@),
        ) {
            Some(i) => r matches Some(RoomTarget::Mob { mob }) && mobs.entities().contains_key(
                mob.id.value,
            ) && *mob == mobs.entities()[mob.id.value] && mob.id == bucket_of(
                mobs.buckets(),
                room.id.value,
            )[i],
            None => match first_where(room.objects@, object_answers(target@)) {
                Some(i) => r matches Some(RoomTarget::RoomObject { room_object }) && *room_object
                    == room.objects@[i],
                None => r is None,
            },
        },
{
    broadcast use vstd::std_specs::hash::group_hash_axioms;

    let ids = mobs.ids_in_room(room.id);
    let ghost p = mob_answers(mobs.views(), target@);
    let mut i: usize = 0;
    while i < ids.len()
        invariant
            i <= ids@.len(),
            mobs.wf(),
            ids@ == bucket_of(mobs.buckets(), room.id.value),
            p == mob_answers(mobs.views(), target@),
            forall|j: int| 0 <= j < i ==> !p(#[trigger] ids@[j]),
        decreases ids@.len() - i,
    {
        let id = ids[i];
        match mobs.by_id().get(&id.value) {
            Some(mob) => {
                if mob.template.matches(target) {
                    proof {
                        assert(p(ids@[i as int]));
                        lemma_first_where_is(ids@, p, i as int);
                    }
                    return Some(RoomTarget::Mob { mob });
                }
            },
            None => {},
        }
        i = i + 1;
    }
    proof {
        lemma_first_where_none(ids@, p);
    }
    let ghost q = object_answers(target@);
    let mut k: usize = 0;
    while k < room.objects.len()
        invariant
            k <= room.objects@.len(),
            q == object_answers(target@),
            first_where(
                bucket_of(mobs.buckets(), room.id.value),
                mob_answers(mobs.views(), target@),
            ) is None,
            forall|j: int| 0 <= j < k ==> !q(#[trigger] room.objects@[j]),
        decreases room.objects@.len() - k,
    {
        if room.objects[k].matches(target) {
            proof {
                lemma_first_where_is(room.objects@, q, k as int);
            }
            return Some(RoomTarget::RoomObject { room_object: &room.objects[k] });
        }
        k = k + 1;
    }
    proof {
        lemma_first_where_none(room.objects@, q);
    }
    None
}

/// What a command word means in a room beyond the commands that work
/// everywhere.
pub enum RoomSpecificCommand<'a> {
    Exit { to_room_id: RoomId },
    RoomCommand { room_command: &'a RoomCommand },
}

/// What a command word means in a room: go to a room, run the command at
/// the given place of the object at the given place, or nothing.
pub enum CommandChoice {
    Exit(RoomId),
    Command(int, int),
    Nothing,
}

/// The condition that an exit goes by a name.
pub open spec fn exit_named(command: Seq<char>) -> spec_fn((String, RoomExit)) -> bool {
    |e: (String, RoomExit)| e.0@ == command
}

/// Where the exit of a name leads, if the room has such an exit and it is
/// open.
pub open spec fn open_exit(
    exits: Seq<(String, RoomExit)>,
    command: Seq<char>,
    room: u64,
    vars: Map<(u64, Seq<char>), i32>,
) -> Option<RoomId> {
    match first_where(exits, exit_named(command)) {
        Some(i) => match exits[i].1 {
            RoomExit::Static(to) => Some(to),
            RoomExit::Conditional { condition, to } => if condition_holds(condition, room, vars) {
                Some(to)
            } else {
                None
            },
        },
        None => None,
    }
}

/// The condition that a room command goes by a command word and may run.
pub open spec fn command_usable(
    command: Seq<char>,
    room: u64,
    vars: Map<(u64, Seq<char>), i32>,
) -> spec_fn(RoomCommand) -> bool {
    |c: RoomCommand| c.command@ == command && guard_holds(c.condition, room, vars)
}

/// The condition that an object answers to a name and offers a usable
/// command of a command word.
pub open spec fn object_offers(
    command: Seq<char>,
    args: Seq<char>,
    room: u64,
    vars: Map<(u64, Seq<char>), i32>,
) -> spec_fn(RoomObject) -> bool {
    |o: RoomObject|
        answers_to(o.name@, strs(o.aliases@), args) && first_where(
            o.commands@,
            command_usable(command, room, vars),
        ) is Some
}

/// What a command word with its argument text means in a room: first an
/// open exit of that name; else the first usable command of that word on the
/// first object that answers to the argument text and has one; else nothing.
pub open spec fn command_choice(
    room: Room,
    command: Seq<char>,
    args: Seq<char>,
    vars: Map<(u64, Seq<char>), i32>,
) -> CommandChoice {
    match open_exit(room.exits@, command, room.id.value, vars) {
        Some(to) => CommandChoice::Exit(to),
        None => match first_where(
            room.objects@,
            object_offers(command, args, room.id.value, vars),
        ) {
            Some(i) => CommandChoice::Command(
                i,
                first_where(
                    room.objects@[i].commands@,
                    command_usable(command, room.id.value, vars),
                )->0,
            ),
            None => CommandChoice::Nothing,
        },
    }
}

fn find_usable_command<'a>(
    object: &'a RoomObject,
    command: &String,
    room_id: RoomId,
    state: &GameState,
) -> (r: Option<&'a RoomCommand>)
    requires
        state.room_vars.wf(),
    ensures
        match first_where(
            object.commands@,
            command_usable(command@, room_id.value, state@.room_vars),
        ) {
            Some(i) => r is Some && *r->0 == object.commands@[i],
            None => r is None,
        },
{
    let ghost p = command_usable(command@, room_id.value, state@.room_vars);
    let mut i: usize = 0;
    while i < object.commands.len()
        invariant
            i <= object.commands@.len(),
            state.room_vars.wf(),
            p == command_usable(command@, room_id.value, state@.room_vars),
            forall|j: int| 0 <= j < i ==> !p(#[trigger] object.commands@[j]),
        decreases object.commands@.len() - i,
    {
        let candidate = &object.commands[i];
        if candidate.command.eq(command) && eval_room_guard(
            &candidate.condition,
            room_id,
            state,
        ) {
            proof {
                lemma_first_where_is(object.commands@, p, i as int);
            }
            return Some(candidate);
        }
        i = i + 1;
    }
    proof {
        lemma_first_where_none(object.commands@, p);
    }
    None
}

/// Finds what a command word with its arguments means in a room.
pub fn resolve_room_specific_command<'a>(
    command: &str,
    args: &Vec<String>,
    room_id: RoomId,
    state: &'a GameState,
) -> (r: Result<Option<RoomSpecificCommand<'a>>, String>)
    requires
        state.wf(),
    ensures
        match r {
            Ok(found) => state@.rooms.contains_key(room_id.value) && (match command_choice(
                state@.rooms[room_id.value],
                command@,
                joined_by_space(strs(args@)),
                state@.room_vars,
            ) {
                CommandChoice::Exit(to) => found matches Some(
                    RoomSpecificCommand::Exit { to_room_id },
                ) && to_room_id == to,
                CommandChoice::Command(i, j) => found matches Some(
                    RoomSpecificCommand::RoomCommand { room_command },
                ) && *room_command == state@.rooms[room_id.value].objects@[i].commands@[j],
                CommandChoice::Nothing => found is None,
            }),
            Err(e) => !state@.rooms.contains_key(room_id.value) && e@
                == "room specific command: Room not found"@,
        },
{
    broadcast use vstd::std_specs::hash::group_hash_axioms;

    let room = match state.rooms.get(&room_id.value) {
        Some(room) => room,
        None => {
            return Err(String::from_str("room specific command: Room not found"));
        },
    };
    let args_joined = join_words(args);
    let word = String::from_str(command);
    let ghost vars = state@.room_vars;

    let ghost named = exit_named(command@);
    let mut i: usize = 0;
    let mut exit: Option<RoomId> = None;
    let mut found_exit = false;
    while i < room.exits.len() && !found_exit
        invariant
            i <= room.exits@.len(),
            state.wf(),
            named == exit_named(command@),
            word@ == command@,
            room.id.value == room_id.value,
            vars == state@.room_vars,
            !found_exit ==> exit is None && forall|j: int|
                0 <= j < i ==> !named(#[trigger] room.exits@[j]),
            found_exit ==> exit == open_exit(room.exits@, command@, room_id.value, vars),
        decreases room.exits@.len() - i + (if found_exit { 0int } else { 1int }),
    {
        if room.exits[i].0.eq(&word) {
            proof {
                lemma_first_where_is(room.exits@, named, i as int);
            }
            exit = match &room.exits[i].1 {
                RoomExit::Static(to) => Some(*to),
                RoomExit::Conditional { condition, to } => {
                    if eval_room_condition(condition, room_id, state) {
                        Some(*to)
                    } else {
                        None
                    }
                },
            };
            found_exit = true;
        } else {
            i = i + 1;
        }
    }
    proof {
        if !found_exit {
            lemma_first_where_none(room.exits@, named);
        }
    }
    assert(exit == open_exit(room.exits@, command@, room_id.value, vars));
    match exit {
        Some(to_room_id) => {
            return Ok(Some(RoomSpecificCommand::Exit { to_room_id }));
        },
        None => {},
    }
    let ghost offers = object_offers(command@, args_joined@, room_id.value, vars);
    let mut k: usize = 0;
    while k < room.objects.len()
        invariant
            k <= room.objects@.len(),
            state.wf(),
            vars == state@.room_vars,
            state@.rooms.contains_key(room_id.value),
            *room == state@.rooms[room_id.value],
            args_joined@ == joined_by_space(strs(args@)),
            open_exit(room.exits@, command@, room_id.value, vars) is None,
            offers == object_offers(command@, args_joined@, room_id.value, vars),
            word@ == command@,
            forall|j: int| 0 <= j < k ==> !offers(#[trigger] room.objects@[j]),
        decreases room.objects@.len() - k,
    {
        let object = &room.objects[k];
        if object.matches(args_joined.as_str()) {
            match find_usable_command(object, &word, room_id, state) {
                Some(room_command) => {
                    proof {
                        lemma_first_where_is(room.objects@, offers, k as int);
                    }
                    return Ok(Some(RoomSpecificCommand::RoomCommand { room_command }));
                },
                None => {},
            }
        }
        k = k + 1;
    }
    proof {
        lemma_first_where_none(room.objects@, offers);
    }
    Ok(None)
}

/// The name under which a player speaks; empty for a player who is not
/// there.
pub open spec fn speaker_name(w: World, player: u64) -> Seq<char> {
    if w.players.contains_key(player) {
        w.players[player].name@
    } else {
        Seq::empty()
    }
}

/// Whether the clock value a delay after `ticks` can be represented.
pub open spec fn delay_fits(ticks: Tick, delay: TickDuration) -> bool {
    i64::MIN <= ticks.0 + delay.0 <= i64::MAX
}

/// Whether every delayed reset among the statements can be scheduled at
/// clock value `ticks`.
pub open spec fn delays_fit(statements: Seq<Statement>, ticks: Tick) -> bool {
    forall|i: int|
        0 <= i < statements.len() ==> match #[trigger] statements[i] {
            Statement::ResetRoomVarAfter(var, delay, message) => delay_fits(ticks, delay),
            _ => true,
        }
}

/// The world and the queues after one statement of a room command, given by
/// the player `self_id` in the room `room_id`.
pub open spec fn after_statement(
    s: Outcome,
    statement: Statement,
    self_id: u64,
    room_id: RoomId,
) -> Outcome {
    match statement {
        Statement::SetRoomVar(var, value) => Outcome {
            world: World {
                room_vars: with_var(s.world.room_vars, room_id.value, var@, value),
                ..s.world
            },
            out: s.out,
        },
        Statement::ResetRoomVarAfter(var, delay, message) => Outcome {
            world: World {
                resets: s.world.resets.insert(
                    (s.world.ticks.0 + delay.0) as i64,
                    RoomVarReset { room_id, var, message },
                ),
                ..s.world
            },
            out: s.out,
        },
        Statement::TellSelf(line) => Outcome {
            world: s.world,
            out: told(s.out, self_id, plain_line(line@)),
        },
        Statement::TellOthers(line) => Outcome {
            world: s.world,
            out: told_all(
                s.out,
                others_in(s.world, room_id.value, self_id),
                plain_line(speaker_name(s.world, self_id) + " "@ + line@),
            ),
        },
        Statement::TellRoom(line) => Outcome {
            world: s.world,
            out: told_all(s.out, players_in(s.world, room_id.value), plain_line(line@)),
        },
    }
}

/// The world and the queues after the statements of a room command, one
/// after the other.
pub open spec fn after_statements(
    s: Outcome,
    statements: Seq<Statement>,
    self_id: u64,
    room_id: RoomId,
) -> Outcome
    decreases statements.len(),
{
    if statements.len() == 0 {
        s
    } else {
        after_statement(
            after_statements(s, statements.drop_last(), self_id, room_id),
            statements.last(),
            self_id,
            room_id,
        )
    }
}

/// Runs the statements of a room command for the player who gave it.
pub fn run_room_command(
    room_command: &RoomCommand,
    self_id: PlayerId,
    room_id: RoomId,
    writer: &mut EventWriter,
    state: &mut GameState,
)
    requires
        old(state).wf(),
        delays_fit(room_command.statements@, old(state).ticks),
    ensures
        final(state).wf(),
        final(state).ticks == old(state).ticks,
        (Outcome { world: final(state)@, out: final(writer)@ }) == after_statements(
            Outcome { world: old(state)@, out: old(writer)@ },
            room_command.statements@,
            self_id.value,
            room_id,
        ),
{
    broadcast use vstd::std_specs::hash::group_hash_axioms;
    broadcast use vstd::std_specs::btree::group_btree_axioms;

    let ghost start = Outcome { world: state@, out: writer@ };
    let statements = &room_command.statements;
    let mut i: usize = 0;
    while i < statements.len()
        invariant
            i <= statements@.len(),
            state.wf(),
            state.ticks == old(state).ticks,
            delays_fit(statements@, old(state).ticks),
            (Outcome { world: state@, out: writer@ }) == after_statements(
                start,
                statements@.take(i as int),
                self_id.value,
                room_id,
            ),
        decreases statements@.len() - i,
    {
        proof {
            let upto = statements@.take(i + 1);
            assert(upto.drop_last() =~= statements@.take(i as int));
            assert(upto.last() == statements@[i as int]);
            lemma_occupants(*state, room_id.value);
        }
        match &statements[i] {
            Statement::SetRoomVar(var, value) => {
                state.set_room_var(room_id, var.clone(), *value);
            },
            Statement::TellSelf(line) => {
                writer.tell(self_id, Line::str(line.as_str()));
            },
            Statement::TellOthers(line) => {
                let mut text = match state.players.by_id().get(&self_id.value) {
                    Some(p) => p.name.clone(),
                    None => String::new(),
                };
                text.append(" ");
                text.append(line.as_str());
                let ids = state.players.ids_in_room_except(room_id, self_id);
                writer.tell_many(&ids, Line::str(text.as_str()));
            },
            Statement::TellRoom(line) => {
                let ids = state.players.ids_in_room(room_id);
                writer.tell_many(&ids, Line::str(line.as_str()));
            },
            Statement::ResetRoomVarAfter(var, delay, message) => {
                assert(delay_fits(state.ticks, *delay));
                let at = state.ticks.add(*delay);
                let ghost before = state@;
                state.scheduled_room_var_resets.insert(
                    at.0,
                    RoomVarReset { room_id, var: var.clone(), message: message.clone() },
                );
                assert(state@ == (World {
                    resets: before.resets.insert(
                        at.0,
                        RoomVarReset { room_id, var: *var, message: *message },
                    ),
                    ..before
                }));
            },
        }
        i = i + 1;
    }
    assert(statements@.take(i as int) =~= statements@);
}

/// Whether an exit can be taken.
pub open spec fn exit_open(exit: RoomExit, room: u64, vars: Map<(u64, Seq<char>), i32>) -> bool {
    match exit {
        RoomExit::Static(to) => true,
        RoomExit::Conditional { condition, to } => condition_holds(condition, room, vars),
    }
}

/// The name of the room behind an exit; question marks where there is no
/// such room.
pub open spec fn destination_name(w: World, to: u64) -> Seq<char> {
    if w.rooms.contains_key(to) {
        w.rooms[to].name@
    } else {
        "???"@
    }
}

/// How the other players of a room are listed: each by name, in blue, in
/// order of arrival.
pub open spec fn player_entries(
    bucket: Seq<PlayerId>,
    players: Map<u64, Player>,
    self_id: u64,
) -> Seq<Seq<SpanView>>
    decreases bucket.len(),
{
    if bucket.len() == 0 {
        Seq::empty()
    } else {
        let rest = player_entries(bucket.drop_last(), players, self_id);
        let id = bucket.last().value;
        if id != self_id && players.contains_key(id) {
            rest.push(seq![colored(players[id].name@, Color::Blue)])
        } else {
            rest
        }
    }
}

/// How the mobs of a room are listed: each as "a" and its name in orange,
/// in order of arrival.
pub open spec fn mob_entries(bucket: Seq<MobId>, mobs: Map<u64, MobView>) -> Seq<Seq<SpanView>>
    decreases bucket.len(),
{
    if bucket.len() == 0 {
        Seq::empty()
    } else {
        let rest = mob_entries(bucket.drop_last(), mobs);
        let id = bucket.last().value;
        if mobs.contains_key(id) {
            rest.push(seq![plain("a "@), colored(mobs[id].template.name, Color::Orange)])
        } else {
            rest
        }
    }
}

/// How the open exits of a room are listed: each by its name in blue and
/// the name of the room behind it, in the order of the room's list.
pub open spec fn exit_entries(exits: Seq<(String, RoomExit)>, room: u64, w: World) -> Seq<
    Seq<SpanView>,
>
    decreases exits.len(),
{
    if exits.len() == 0 {
        Seq::empty()
    } else {
        let rest = exit_entries(exits.drop_last(), room, w);
        let (direction, exit) = exits.last();
        if exit_open(exit, room, w.room_vars) {
            rest.push(
                seq![
                    colored(direction@, Color::Blue),
                    plain(" to "@ + destination_name(w, exit.destination().value)),
                ],
            )
        } else {
            rest
        }
    }
}

/// Who and what a player sees in a room: the other players, then the mobs.
pub open spec fn seen_entries(w: World, self_id: u64, room: u64) -> Seq<Seq<SpanView>> {
    player_entries(bucket_of(w.player_buckets, room), w.players, self_id) + mob_entries(
        bucket_of(w.mob_buckets, room),
        w.mobs,
    )
}

/// The lines that describe a room to a player: the name in bold; the
/// description, if any fragment of it shows; who and what else is there, if
/// anyone is; and the exits.
pub open spec fn room_lines(w: World, self_id: u64, room: Room) -> Seq<Seq<SpanView>> {
    let title = seq![SpanView { text: room.name@, bold: Some(true), color: None }];
    let described = match description_text(room.description, room.id.value, w.room_vars) {
        Some(text) => seq![plain_line(text)],
        None => Seq::empty(),
    };
    let seen = seen_entries(w, self_id, room.id.value);
    let company = if seen.len() > 0 {
        seq![seq![plain("You see "@)] + and_joined(seen) + seq![plain(" here."@)]]
    } else {
        Seq::empty()
    };
    let ways = if room.exits@.len() == 0 {
        plain_line("There are no exits here."@)
    } else {
        seq![plain("You can go "@)] + and_joined(exit_entries(room.exits@, room.id.value, w))
            + seq![plain("."@)]
    };
    seq![title] + described + company + seq![ways]
}

fn list_players_seen(self_id: PlayerId, room_id: RoomId, state: &GameState) -> (seen: Vec<
    Vec<LineSpan>,
>)
    ensures
        span_lists_view(seen@) == player_entries(
            bucket_of(state@.player_buckets, room_id.value),
            state@.players,
            self_id.value,
        ),
{
    broadcast use vstd::std_specs::hash::group_hash_axioms;

    let ids = state.players.ids_in_room(room_id);
    let mut seen: Vec<Vec<LineSpan>> = Vec::new();
    let mut i: usize = 0;
    assert(span_lists_view(seen@) =~= Seq::<Seq<SpanView>>::empty());
    while i < ids.len()
        invariant
            i <= ids@.len(),
            ids@ == bucket_of(state@.player_buckets, room_id.value),
            span_lists_view(seen@) == player_entries(
                ids@.take(i as int),
                state@.players,
                self_id.value,
            ),
        decreases ids@.len() - i,
    {
        proof {
            let upto = ids@.take(i + 1);
            assert(upto.drop_last() =~= ids@.take(i as int));
            assert(upto.last() == ids@[i as int]);
        }
        let id = ids[i];
        if id.value != self_id.value {
            match state.players.by_id().get(&id.value) {
                Some(player) => {
                    let ghost before = span_lists_view(seen@);
                    let mut entry: Vec<LineSpan> = Vec::new();
                    entry.push(span(player.name.as_str()).color(Color::Blue));
                    assert(spans_view(entry@) =~= seq![colored(player.name@, Color::Blue)]);
                    seen.push(entry);
                    assert(span_lists_view(seen@) =~= before.push(spans_view(entry@)));
                },
                None => {},
            }
        }
        i = i + 1;
    }
    assert(ids@.take(i as int) =~= ids@);
    seen
}

fn list_mobs_seen(seen: &mut Vec<Vec<LineSpan>>, room_id: RoomId, state: &GameState)
    ensures
        span_lists_view(final(seen)@) == span_lists_view(old(seen)@) + mob_entries(
            bucket_of(state@.mob_buckets, room_id.value),
            state@.mobs,
        ),
{
    broadcast use vstd::std_specs::hash::group_hash_axioms;

    let ids = state.mobs.ids_in_room(room_id);
    let ghost start = span_lists_view(seen@);
    let mut i: usize = 0;
    assert(span_lists_view(seen@) =~= start + Seq::<Seq<SpanView>>::empty());
    while i < ids.len()
        invariant
            i <= ids@.len(),
            ids@ == bucket_of(state@.mob_buckets, room_id.value),
            span_lists_view(seen@) == start + mob_entries(ids@.take(i as int), state@.mobs),
        decreases ids@.len() - i,
    {
        proof {
            let upto = ids@.take(i + 1);
            assert(upto.drop_last() =~= ids@.take(i as int));
            assert(upto.last() == ids@[i as int]);
        }
        let id = ids[i];
        match state.mobs.by_id().get(&id.value) {
            Some(mob) => {
                let ghost before = span_lists_view(seen@);
                let mut entry: Vec<LineSpan> = Vec::new();
                entry.push(span("a "));
                entry.push(span(mob.template.name.as_str()).color(Color::Orange));
                assert(spans_view(entry@) =~= seq![
                    plain("a "@),
                    colored(mob.template.name@, Color::Orange),
                ]);
                seen.push(entry);
                assert(span_lists_view(seen@) =~= before.push(spans_view(entry@)));
                assert(state@.mobs[id.value].template.name == mob.template.name@);
            },
            None => {
                assert(!state@.mobs.contains_key(id.value));
            },
        }
        i = i + 1;
    }
    assert(ids@.take(i as int) =~= ids@);
}

fn list_exits(room: &Room, state: &GameState) -> (ways: Vec<Vec<LineSpan>>)
    requires
        state.room_vars.wf(),
    ensures
        span_lists_view(ways@) == exit_entries(room.exits@, room.id.value, state@),
{
    broadcast use vstd::std_specs::hash::group_hash_axioms;

    let mut ways: Vec<Vec<LineSpan>> = Vec::new();
    let mut i: usize = 0;
    assert(span_lists_view(ways@) =~= Seq::<Seq<SpanView>>::empty());
    while i < room.exits.len()
        invariant
            i <= room.exits@.len(),
            state.room_vars.wf(),
            span_lists_view(ways@) == exit_entries(
                room.exits@.take(i as int),
                room.id.value,
                state@,
            ),
        decreases room.exits@.len() - i,
    {
        proof {
            let upto = room.exits@.take(i + 1);
            assert(upto.drop_last() =~= room.exits@.take(i as int));
            assert(upto.last() == room.exits@[i as int]);
        }
        let open = match &room.exits[i].1 {
            RoomExit::Static(_) => true,
            RoomExit::Conditional { condition, to: _ } => eval_room_condition(
                condition,
                room.id,
                state,
            ),
        };
        if open {
            let to = room.exits[i].1.leads_to();
            let mut text = String::from_str(" to ");
            match state.rooms.get(&to.value) {
                Some(r) => {
                    text.append(r.name.as_str());
                },
                None => {
                    text.append("???");
                },
            }
            let ghost before = span_lists_view(ways@);
            let mut entry: Vec<LineSpan> = Vec::new();
            entry.push(span(room.exits[i].0.as_str()).color(Color::Blue));
            entry.push(span(text.as_str()));
            assert(spans_view(entry@) =~= seq![
                colored(room.exits@[i as int].0@, Color::Blue),
                plain(" to "@ + destination_name(state@, to.value)),
            ]);
            ways.push(entry);
            assert(span_lists_view(ways@) =~= before.push(spans_view(entry@)));
        }
        i = i + 1;
    }
    assert(room.exits@.take(i as int) =~= room.exits@);
    ways
}

/// Tells a player what a room looks like.
pub fn describe_room(self_id: PlayerId, room: &Room, writer: &mut EventWriter, state: &GameState)
    requires
        state.room_vars.wf(),
    ensures
        final(writer)@ == told_lines(
            old(writer)@,
            self_id.value,
            room_lines(state@, self_id.value, *room),
        ),
{
    let mut lines: Vec<Line> = Vec::new();
    lines.push(span(room.name.as_str()).bold().line());
    let ghost title = seq![SpanView { text: room.name@, bold: Some(true), color: None }];
    assert(lines_view(lines@) =~= seq![title]);
    match eval_room_description(&room.description, room.id, state) {
        Some(text) => {
            lines.push(Line::str(text.as_str()));
            assert(lines_view(lines@) =~= seq![title] + seq![plain_line(text@)]);
        },
        None => {
            assert(lines_view(lines@) =~= seq![title] + Seq::<Seq<SpanView>>::empty());
        },
    }
    let ghost described = lines_view(lines@);
    let mut seen = list_players_seen(self_id, room.id, state);
    list_mobs_seen(&mut seen, room.id, state);
    assert(span_lists_view(seen@) == seen_entries(state@, self_id.value, room.id.value));
    if seen.len() > 0 {
        let ghost entries = span_lists_view(seen@);
        let line = Line::str("You see ").extend(and_span_vecs(seen)).push(span(" here."));
        assert(line@ =~= seq![plain("You see "@)] + and_joined(entries) + seq![
            plain(" here."@),
        ]);
        lines.push(line);
        assert(lines_view(lines@) =~= described + seq![line@]);
    } else {
        assert(lines_view(lines@) =~= described + Seq::<Seq<SpanView>>::empty());
    }
    let ghost with_company = lines_view(lines@);
    let last = if room.exits.len() == 0 {
        Line::str("There are no exits here.")
    } else {
        let ways = list_exits(room, state);
        let ghost entries = span_lists_view(ways@);
        let line = Line::str("You can go ").extend(and_span_vecs(ways)).push(span("."));
        assert(line@ =~= seq![plain("You can go "@)] + and_joined(entries) + seq![plain("."@)]);
        line
    };
    lines.push(last);
    assert(lines_view(lines@) =~= with_company + seq![last@]);
    writer.tell_lines(self_id, &lines);
}

} // verus!
