use mud_core::event_writer::EventWriter;
use mud_core::game_combat::{
    mob_turn, tick_mob_attacks, tick_player_attacks, PLAYER_ATTACK_PERIOD, RESPAWN_DELAY,
};
use mud_core::game_logic::{initialize, on_command, on_player_connect};
use mud_core::game_state::{
    GameState, LoadedGameState, Room, RoomDescription, RoomExit,
};
use mud_core::id::Id;
use mud_core::line::Line;
use mud_core::mob::{MobSpawn, MobTemplate};
use mud_core::player::Player;
use mud_core::tick::{Tick, TickDuration};
use std::collections::HashMap;

fn text(line: &Line) -> String {
    line.spans.iter().map(|s| s.text.as_str()).collect()
}

fn lines_of(writer: &EventWriter, player: u64) -> Vec<String> {
    writer.lines.get(&player).map(|v| v.iter().map(text).collect()).unwrap_or_default()
}

fn rat() -> MobTemplate {
    MobTemplate {
        id: Id::new(1),
        name: "rat".to_string(),
        aliases: vec!["rodent".to_string()],
        description: "A grey rat with a notched ear.".to_string(),
        max_hp: 25,
        damage: 40,
        attack_period: TickDuration(8),
    }
}

fn room(id: u64, name: &str, exits: Vec<(&str, u64)>, spawns: Vec<u64>) -> Room {
    Room {
        id: Id::new(id),
        name: name.to_string(),
        description: RoomDescription::Static(format!("This is the {}.", name)),
        exits: exits
            .into_iter()
            .map(|(direction, to)| (direction.to_string(), RoomExit::Static(Id::new(to))))
            .collect(),
        objects: Vec::new(),
        mob_spawns: spawns.into_iter().map(|t| MobSpawn { mob_template_id: Id::new(t) }).collect(),
    }
}

fn world() -> GameState {
    let mut rooms = HashMap::new();
    rooms.insert(0, room(0, "Square", vec![("north", 1), ("down", 2)], vec![]));
    rooms.insert(1, room(1, "Cellar", vec![("south", 0)], vec![1]));
    rooms.insert(2, room(2, "Pit", vec![], vec![]));
    let mut mob_templates = HashMap::new();
    mob_templates.insert(1, rat());
    let mut state = GameState::new(LoadedGameState { rooms, mob_templates });
    initialize(&mut state);
    state
}

fn join(state: &mut GameState, id: u64, name: &str, room: u64) {
    let mut writer = EventWriter::new();
    let player = Player {
        id: Id::new(id),
        name: name.to_string(),
        room_id: Id::new(room),
        hp: 100,
        max_hp: 100,
        attack_offset: TickDuration(0),
        attack_target: None,
    };
    on_player_connect(player, &mut writer, state);
}

fn the_rat(state: &GameState) -> u64 {
    let ids: Vec<u64> = state.mobs.by_id().keys().copied().collect();
    assert_eq!(ids.len(), 1);
    ids[0]
}

#[test]
fn kill_rat_engages_and_tells_both_players() {
    let mut state = world();
    join(&mut state, 1, "Ann", 1);
    join(&mut state, 2, "Bob", 1);
    let mut writer = EventWriter::new();
    let r = on_command(Id::new(1), "kill rat", &mut writer, &mut state);
    assert!(r.is_ok());
    assert_eq!(lines_of(&writer, 1), vec!["You attack the rat.".to_string()]);
    assert_eq!(lines_of(&writer, 2), vec!["Ann attacks the rat.".to_string()]);
    let rat_id = the_rat(&state);
    let mob = state.mobs.by_id().get(&rat_id).unwrap();
    assert!(mob.hostile_to.contains(&1));
    assert!(!mob.hostile_to.contains(&2));
    let ann = state.players.by_id().get(&1).unwrap();
    assert_eq!(ann.attack_target.map(|t| t.value), Some(rat_id));
    let first = &writer.lines.get(&1).unwrap()[0].spans[0];
    assert_eq!(first.color, Some("light-cyan"));
    let second = &writer.lines.get(&2).unwrap()[0].spans[0];
    assert_eq!(second.color, Some("cyan"));
}

#[test]
fn kill_by_alias_and_any_case() {
    let mut state = world();
    join(&mut state, 1, "Ann", 1);
    let mut writer = EventWriter::new();
    assert!(on_command(Id::new(1), "KILL Rodent", &mut writer, &mut state).is_ok());
    assert_eq!(lines_of(&writer, 1), vec!["You attack the rat.".to_string()]);
}

#[test]
fn kill_what_is_not_there() {
    let mut state = world();
    join(&mut state, 1, "Ann", 0);
    let mut writer = EventWriter::new();
    assert!(on_command(Id::new(1), "kill rat", &mut writer, &mut state).is_ok());
    assert_eq!(lines_of(&writer, 1), vec!["You do not see that here.".to_string()]);
    assert!(state.players.by_id().get(&1).unwrap().attack_target.is_none());
}

#[test]
fn repeated_attacks_wear_the_rat_down_and_kill_it() {
    let mut state = world();
    join(&mut state, 1, "Ann", 1);
    join(&mut state, 2, "Bob", 1);
    let mut writer = EventWriter::new();
    on_command(Id::new(1), "kill rat", &mut writer, &mut state).unwrap();
    let rat_id = the_rat(&state);
    state.ticks = Tick(PLAYER_ATTACK_PERIOD);

    let mut writer = EventWriter::new();
    tick_player_attacks(&mut writer, &mut state);
    assert_eq!(state.mobs.by_id().get(&rat_id).unwrap().hp, 15);
    assert_eq!(lines_of(&writer, 1), vec!["You hit the rat for 10 damage.".to_string()]);
    assert_eq!(lines_of(&writer, 2), vec!["Ann hits the rat for 10 damage.".to_string()]);

    let mut writer = EventWriter::new();
    tick_player_attacks(&mut writer, &mut state);
    assert_eq!(state.mobs.by_id().get(&rat_id).unwrap().hp, 5);

    let mut writer = EventWriter::new();
    tick_player_attacks(&mut writer, &mut state);
    assert!(state.mobs.by_id().get(&rat_id).is_none());
    assert!(state.mobs.by_room_id().get(&1).is_none());
    assert_eq!(
        lines_of(&writer, 1),
        vec!["You hit the rat for 10 damage.".to_string(), "The rat dies.".to_string()]
    );
    assert_eq!(
        lines_of(&writer, 2),
        vec!["Ann hits the rat for 10 damage.".to_string(), "The rat dies.".to_string()]
    );
    let due = PLAYER_ATTACK_PERIOD + RESPAWN_DELAY;
    let respawn = state.scheduled_mob_spawns.get(&due).unwrap();
    assert_eq!(respawn.room_id.value, 1);
    assert_eq!(respawn.mob_template_id.value, 1);
    assert_eq!(state.scheduled_mob_spawns.len(), 1);
    assert!(state.players.by_id().get(&1).unwrap().attack_target.is_none());
}

#[test]
fn attack_not_due_changes_nothing() {
    let mut state = world();
    join(&mut state, 1, "Ann", 1);
    let mut writer = EventWriter::new();
    on_command(Id::new(1), "kill rat", &mut writer, &mut state).unwrap();
    let rat_id = the_rat(&state);
    state.ticks = Tick(PLAYER_ATTACK_PERIOD + 1);
    let mut writer = EventWriter::new();
    tick_player_attacks(&mut writer, &mut state);
    assert_eq!(state.mobs.by_id().get(&rat_id).unwrap().hp, 25);
    assert!(writer.lines.is_empty());
}

#[test]
fn hostile_mob_draws_idle_player_into_the_fight() {
    let mut state = world();
    join(&mut state, 1, "Ann", 1);
    join(&mut state, 2, "Bob", 1);
    let mut writer = EventWriter::new();
    on_command(Id::new(1), "kill rat", &mut writer, &mut state).unwrap();
    let rat_id = the_rat(&state);
    // The player loses the target but the rat stays hostile.
    let mut ann = state.players.by_id().get(&1).unwrap().clone();
    ann.attack_target = None;
    state.update_player(ann);
    state.ticks = Tick(PLAYER_ATTACK_PERIOD);
    let mut writer = EventWriter::new();
    tick_player_attacks(&mut writer, &mut state);
    assert_eq!(
        lines_of(&writer, 1),
        vec!["You attack the rat.".to_string(), "You hit the rat for 10 damage.".to_string()]
    );
    assert_eq!(
        state.players.by_id().get(&1).unwrap().attack_target.map(|t| t.value),
        Some(rat_id)
    );
    assert_eq!(state.players.by_id().get(&2).unwrap().attack_target.map(|t| t.value), None);
}

#[test]
fn player_dies_and_wakes_up_in_the_respawn_room() {
    let mut state = world();
    join(&mut state, 1, "Ann", 1);
    join(&mut state, 2, "Bob", 1);
    let mut writer = EventWriter::new();
    on_command(Id::new(1), "kill rat", &mut writer, &mut state).unwrap();
    let rat_id = the_rat(&state);
    let mut ann = state.players.by_id().get(&1).unwrap().clone();
    ann.hp = 40;
    state.update_player(ann);
    let offset = state.mobs.by_id().get(&rat_id).unwrap().attack_offset.0;
    state.ticks = Tick(8 + offset);

    let mut writer = EventWriter::new();
    tick_mob_attacks(&mut writer, &mut state);
    let ann = state.players.by_id().get(&1).unwrap();
    assert_eq!(ann.hp, 100);
    assert_eq!(ann.max_hp, 100);
    assert!(ann.attack_target.is_none());
    assert_eq!(ann.room_id.value, 0);
    let got = lines_of(&writer, 1);
    assert_eq!(got[0], "The rat attacks you.");
    assert_eq!(got[1], "The rat hits you for 40 damage.");
    assert_eq!(got[2], "You die.");
    assert_eq!(got[3], "Square");
    assert_eq!(got[4], "This is the Square.");
    assert_eq!(got[5], "You can go north to Cellar and down to Pit.");
    assert_eq!(got.len(), 6);
    assert_eq!(
        lines_of(&writer, 2),
        vec![
            "The rat attacks Ann.".to_string(),
            "The rat hits Ann for 40 damage.".to_string(),
            "Ann dies.".to_string()
        ]
    );
    let mob = state.mobs.by_id().get(&rat_id).unwrap();
    assert!(mob.hostile_to.is_empty());
    assert!(mob.attack_target.is_none());
    assert_eq!(state.players.by_room_id().get(&0).unwrap().len(), 1);
    assert_eq!(state.players.by_room_id().get(&1).unwrap().len(), 1);
}

#[test]
fn mob_hit_that_does_not_kill_takes_health() {
    let mut state = world();
    join(&mut state, 1, "Ann", 1);
    let mut writer = EventWriter::new();
    on_command(Id::new(1), "kill rat", &mut writer, &mut state).unwrap();
    let rat_id = the_rat(&state);
    let mut writer = EventWriter::new();
    let dead = mob_turn(Id::new(rat_id), 0, &mut writer, &mut state);
    assert!(dead.is_none());
    let ann = state.players.by_id().get(&1).unwrap();
    assert_eq!(ann.hp, 60);
    assert_eq!(ann.room_id.value, 1);
    assert_eq!(
        lines_of(&writer, 1),
        vec!["The rat attacks you.".to_string(), "The rat hits you for 40 damage.".to_string()]
    );
    assert!(state.players.room_info_changed().contains(&1));
}

#[test]
fn say_hello_reaches_speaker_and_room() {
    let mut state = world();
    join(&mut state, 1, "Ann", 0);
    join(&mut state, 2, "Bob", 0);
    join(&mut state, 3, "Cy", 1);
    let mut writer = EventWriter::new();
    assert!(on_command(Id::new(1), "say hello", &mut writer, &mut state).is_ok());
    assert_eq!(lines_of(&writer, 1), vec!["You say, \"Hello.\"".to_string()]);
    assert_eq!(lines_of(&writer, 2), vec!["Ann says, \"Hello.\"".to_string()]);
    assert!(lines_of(&writer, 3).is_empty());
    assert_eq!(writer.lines.get(&1).unwrap()[0].spans[0].color, Some("yellow"));
}

#[test]
fn say_too_long_is_rejected() {
    let mut state = world();
    join(&mut state, 1, "Ann", 0);
    join(&mut state, 2, "Bob", 0);
    let message = "a".repeat(200);
    let mut writer = EventWriter::new();
    assert!(on_command(Id::new(1), &format!("say {}", message), &mut writer, &mut state).is_ok());
    assert_eq!(lines_of(&writer, 1), vec!["That message is too long.".to_string()]);
    assert!(lines_of(&writer, 2).is_empty());
}

#[test]
fn say_at_the_limit_passes() {
    let mut state = world();
    join(&mut state, 1, "Ann", 0);
    let at_limit = "a".repeat(128);
    let mut writer = EventWriter::new();
    on_command(Id::new(1), &format!("say {}", at_limit), &mut writer, &mut state).unwrap();
    assert_eq!(lines_of(&writer, 1), vec![format!("You say, \"A{}.\"", "a".repeat(127))]);
    let over = "a".repeat(129);
    let mut writer = EventWriter::new();
    on_command(Id::new(1), &format!("say {}", over), &mut writer, &mut state).unwrap();
    assert_eq!(lines_of(&writer, 1), vec!["That message is too long.".to_string()]);
}

#[test]
fn moving_north_announces_arrival_from_south() {
    let mut state = world();
    join(&mut state, 1, "Ann", 0);
    join(&mut state, 2, "Bob", 0);
    join(&mut state, 3, "Cy", 1);
    let mut writer = EventWriter::new();
    assert!(on_command(Id::new(1), "north", &mut writer, &mut state).is_ok());
    assert_eq!(state.players.by_id().get(&1).unwrap().room_id.value, 1);
    assert_eq!(lines_of(&writer, 2), vec!["Ann leaves north.".to_string()]);
    assert_eq!(lines_of(&writer, 3), vec!["Ann arrives from south.".to_string()]);
    let got = lines_of(&writer, 1);
    assert_eq!(got[0], "Cellar");
    assert_eq!(got[1], "This is the Cellar.");
    assert_eq!(got[2], "You see Cy and a rat here.");
    assert_eq!(got[3], "You can go south to Square.");
    assert_eq!(got.len(), 4);
}

#[test]
fn moving_without_way_back_announces_appearance() {
    let mut state = world();
    join(&mut state, 1, "Ann", 0);
    join(&mut state, 3, "Cy", 2);
    let mut writer = EventWriter::new();
    assert!(on_command(Id::new(1), "down", &mut writer, &mut state).is_ok());
    assert_eq!(lines_of(&writer, 3), vec!["Ann appears.".to_string()]);
    let got = lines_of(&writer, 1);
    assert_eq!(got[0], "Pit");
    assert_eq!(got[2], "You see Cy here.");
    assert_eq!(got[3], "There are no exits here.");
}

#[test]
fn moving_by_alias_and_fleeing() {
    let mut state = world();
    join(&mut state, 1, "Ann", 1);
    let mut writer = EventWriter::new();
    on_command(Id::new(1), "kill rat", &mut writer, &mut state).unwrap();
    let mut writer = EventWriter::new();
    assert!(on_command(Id::new(1), "s", &mut writer, &mut state).is_ok());
    let got = lines_of(&writer, 1);
    assert_eq!(got[0], "You flee.");
    assert_eq!(got[1], "Square");
    let p = state.players.by_id().get(&1).unwrap();
    assert_eq!(p.room_id.value, 0);
    assert!(p.attack_target.is_none());
    assert!(state.players.by_room_id().get(&1).is_none());
    assert_eq!(state.players.by_room_id().get(&0).unwrap()[0].value, 1);
}
