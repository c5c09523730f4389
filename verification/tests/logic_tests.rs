use mud_core::event_writer::EventWriter;
use mud_core::game_chat::{chat_filtered, ChatCommand};
use mud_core::game_combat::{
    attack_with_mob, attack_with_player, kill, targets_needed, tick_heal_players,
    update_mob_target, update_player_target, PLAYER_HEAL_PERIOD,
};
use mud_core::game_logic::{
    initialize, list_players, look, move_self, on_command, on_large_tick, on_player_connect,
    on_player_disconnect, on_tick, on_words, roll_die, spawn_mob, spawn_mobs, tell_roll,
};
use mud_core::game_room::{
    describe_room, resolve_room_specific_command, resolve_target_in_room, run_room_command,
    RoomSpecificCommand, RoomTarget,
};
use mud_core::game_state::{
    Condition, DynamicDescriptionFragment, GameState, LoadedGameState, MobRespawn, Room,
    RoomCommand, RoomDescription, RoomExit, RoomObject, RoomVarReset, Statement,
};
use mud_core::id::Id;
use mud_core::line::Line;
use mud_core::message_stash::MessageStash;
use mud_core::mob::{MobSpawn, MobTemplate};
use mud_core::player::Player;
use mud_core::server_actor::{
    collect_room_info, handle_message, process, room_info, take_player_events, Message,
};
use mud_core::tick::{Tick, TickDuration};
use std::collections::HashMap;

fn text(line: &Line) -> String {
    line.spans.iter().map(|s| s.text.as_str()).collect()
}

fn lines_of(writer: &EventWriter, player: u64) -> Vec<String> {
    writer.lines.get(&player).map(|v| v.iter().map(text).collect()).unwrap_or_default()
}

fn words(list: &[&str]) -> Vec<String> {
    list.iter().map(|w| w.to_string()).collect()
}

fn template(id: u64, name: &str, max_hp: i32, damage: i32, period: i64) -> MobTemplate {
    MobTemplate {
        id: Id::new(id),
        name: name.to_string(),
        aliases: Vec::new(),
        description: format!("It is a {}.", name),
        max_hp,
        damage,
        attack_period: TickDuration(period),
    }
}

fn lever() -> RoomObject {
    RoomObject {
        name: "lever".to_string(),
        aliases: vec!["handle".to_string()],
        description: RoomDescription::Dynamic(vec![
            DynamicDescriptionFragment { fragment: "A rusty lever.".to_string(), condition: None },
            DynamicDescriptionFragment {
                fragment: "It is pulled down.".to_string(),
                condition: Some(Condition::Equals("lever".to_string(), 1)),
            },
        ]),
        commands: vec![
            RoomCommand {
                command: "pull".to_string(),
                condition: Some(Condition::Equals("lever".to_string(), 1)),
                statements: vec![Statement::TellSelf("It is already down.".to_string())],
            },
            RoomCommand {
                command: "pull".to_string(),
                condition: None,
                statements: vec![
                    Statement::SetRoomVar("lever".to_string(), 1),
                    Statement::TellSelf("You pull the lever.".to_string()),
                    Statement::TellOthers("pulls the lever.".to_string()),
                    Statement::TellRoom("A hatch grinds open.".to_string()),
                    Statement::ResetRoomVarAfter(
                        "lever".to_string(),
                        TickDuration(16),
                        "The hatch falls shut.".to_string(),
                    ),
                ],
            },
        ],
    }
}

fn statue() -> RoomObject {
    RoomObject {
        name: "statue".to_string(),
        aliases: vec!["rat".to_string()],
        description: RoomDescription::Dynamic(vec![DynamicDescriptionFragment {
            fragment: "It glows.".to_string(),
            condition: Some(Condition::Equals("lit".to_string(), 1)),
        }]),
        commands: Vec::new(),
    }
}

fn vault_world() -> GameState {
    let mut rooms = HashMap::new();
    rooms.insert(
        0,
        Room {
            id: Id::new(0),
            name: "Hall".to_string(),
            description: RoomDescription::Static("A long hall.".to_string()),
            exits: vec![
                ("east".to_string(), RoomExit::Static(Id::new(1))),
                (
                    "hatch".to_string(),
                    RoomExit::Conditional {
                        condition: Condition::Equals("lever".to_string(), 1),
                        to: Id::new(2),
                    },
                ),
                ("void".to_string(), RoomExit::Static(Id::new(99))),
            ],
            objects: vec![statue(), lever()],
            mob_spawns: vec![
                MobSpawn { mob_template_id: Id::new(1) },
                MobSpawn { mob_template_id: Id::new(77) },
                MobSpawn { mob_template_id: Id::new(2) },
            ],
        },
    );
    rooms.insert(
        1,
        Room {
            id: Id::new(1),
            name: "Yard".to_string(),
            description: RoomDescription::Dynamic(vec![]),
            exits: vec![("west".to_string(), RoomExit::Static(Id::new(0)))],
            objects: Vec::new(),
            mob_spawns: vec![MobSpawn { mob_template_id: Id::new(2) }],
        },
    );
    rooms.insert(
        2,
        Room {
            id: Id::new(2),
            name: "Vault".to_string(),
            description: RoomDescription::Static("Gold.".to_string()),
            exits: Vec::new(),
            objects: Vec::new(),
            mob_spawns: Vec::new(),
        },
    );
    let mut mob_templates = HashMap::new();
    mob_templates.insert(1, template(1, "rat", 25, 3, 8));
    mob_templates.insert(2, template(2, "bat", 12, 1, 5));
    GameState::new(LoadedGameState { rooms, mob_templates })
}

fn player(id: u64, name: &str, room: u64) -> Player {
    Player {
        id: Id::new(id),
        name: name.to_string(),
        room_id: Id::new(room),
        hp: 100,
        max_hp: 100,
        attack_offset: TickDuration(0),
        attack_target: None,
    }
}

fn join(state: &mut GameState, id: u64, name: &str, room: u64) {
    let mut writer = EventWriter::new();
    on_player_connect(player(id, name, room), &mut writer, state);
}

#[test]
fn initialize_spawns_by_room_then_list_order() {
    let mut state = vault_world();
    initialize(&mut state);
    let mobs = state.mobs.by_id();
    assert_eq!(mobs.len(), 3);
    let of = |id: u64| {
        let m = mobs.get(&id).unwrap();
        (m.room_id.value, m.template.name.clone(), m.hp)
    };
    assert_eq!(of(0), (0, "rat".to_string(), 25));
    assert_eq!(of(1), (0, "bat".to_string(), 12));
    assert_eq!(of(2), (1, "bat".to_string(), 12));
    for m in mobs.values() {
        assert!(0 <= m.attack_offset.0 && m.attack_offset.0 < m.template.attack_period.0);
        assert!(m.hostile_to.is_empty());
        assert!(m.attack_target.is_none());
    }
    assert_eq!(state.mob_id_source.next_id, 3);
    assert_eq!(state.ticks.0, 0);
    assert!(state.players.by_id().is_empty());
}

#[test]
fn spawn_mob_with_given_offset() {
    let mut state = vault_world();
    spawn_mob(Id::new(2), template(5, "owl", 9, 2, 6), TickDuration(4), &mut state);
    let m = state.mobs.by_id().get(&0).unwrap();
    assert_eq!((m.room_id.value, m.hp, m.attack_offset.0), (2, 9, 4));
    spawn_mobs(
        vec![(Id::new(1), template(5, "owl", 9, 2, 6)), (Id::new(1), template(6, "fox", 4, 2, 1))],
        &mut state,
    );
    assert_eq!(state.mobs.ids_in_room(Id::new(1)).iter().map(|i| i.value).collect::<Vec<_>>(), vec![1, 2]);
    assert_eq!(state.mobs.by_id().get(&2).unwrap().attack_offset.0, 0);
}

#[test]
fn connect_greets_describes_and_announces() {
    let mut state = vault_world();
    initialize(&mut state);
    join(&mut state, 7, "Bob", 0);
    let mut writer = EventWriter::new();
    on_player_connect(player(3, "Ann", 0), &mut writer, &mut state);
    assert_eq!(
        lines_of(&writer, 3),
        vec![
            "Welcome, Ann!",
            "Try to look around, or check the help to get your bearings.",
            "There are 2 players online.",
            "Hall",
            "A long hall.",
            "You see Bob, a rat and a bat here.",
            "You can go east to Yard and void to ???.",
        ]
    );
    assert_eq!(lines_of(&writer, 7), vec!["Ann appears."]);
    let hint = &writer.lines.get(&3).unwrap()[1];
    assert_eq!(hint.spans.len(), 5);
    assert_eq!(hint.spans[1].color, Some("white"));
    let seen = &writer.lines.get(&3).unwrap()[5];
    assert_eq!(seen.spans[1].color, Some("blue"));
    assert_eq!(seen.spans[4].color, Some("orange"));
    let title = &writer.lines.get(&3).unwrap()[3];
    assert_eq!(title.spans[0].bold, Some(true));
    assert!(state.players.by_id().contains_key(&3));
}

#[test]
fn first_player_is_told_one_is_online() {
    let mut state = vault_world();
    let mut writer = EventWriter::new();
    on_player_connect(player(3, "Ann", 1), &mut writer, &mut state);
    assert_eq!(
        lines_of(&writer, 3),
        vec![
            "Welcome, Ann!",
            "Try to look around, or check the help to get your bearings.",
            "There is 1 player online.",
            "Yard",
            "You can go west to Hall.",
        ]
    );
}

#[test]
fn connect_into_unknown_room_shows_no_room() {
    let mut state = vault_world();
    let mut writer = EventWriter::new();
    on_player_connect(player(3, "Ann", 50), &mut writer, &mut state);
    assert_eq!(lines_of(&writer, 3).len(), 3);
    assert_eq!(state.players.by_id().get(&3).unwrap().room_id.value, 50);
}

#[test]
fn disconnect_tells_the_room() {
    let mut state = vault_world();
    join(&mut state, 1, "Ann", 0);
    join(&mut state, 2, "Bob", 0);
    join(&mut state, 3, "Cy", 1);
    let mut writer = EventWriter::new();
    on_player_disconnect(Id::new(1), &mut writer, &mut state);
    assert_eq!(lines_of(&writer, 2), vec!["Ann disappears."]);
    assert!(lines_of(&writer, 1).is_empty());
    assert!(lines_of(&writer, 3).is_empty());
    assert!(!state.players.by_id().contains_key(&1));
    let mut writer = EventWriter::new();
    on_player_disconnect(Id::new(1), &mut writer, &mut state);
    assert!(writer.lines.is_empty());
}

#[test]
fn empty_command_and_unknown_player_fail() {
    let mut state = vault_world();
    join(&mut state, 1, "Ann", 0);
    let mut writer = EventWriter::new();
    assert_eq!(on_command(Id::new(1), "   ", &mut writer, &mut state), Err("Empty command".to_string()));
    assert_eq!(on_command(Id::new(1), "", &mut writer, &mut state), Err("Empty command".to_string()));
    assert_eq!(
        on_command(Id::new(2), "look", &mut writer, &mut state),
        Err("Self player not found".to_string())
    );
    assert!(writer.lines.is_empty());
}

#[test]
fn commands_in_a_room_that_does_not_exist_fail() {
    let mut state = vault_world();
    join(&mut state, 1, "Ann", 50);
    let mut writer = EventWriter::new();
    assert_eq!(on_command(Id::new(1), "look", &mut writer, &mut state), Err("look: Room not found".to_string()));
    assert_eq!(
        on_command(Id::new(1), "kill rat", &mut writer, &mut state),
        Err("kill: Room not found".to_string())
    );
    assert_eq!(
        on_command(Id::new(1), "dance", &mut writer, &mut state),
        Err("room specific command: Room not found".to_string())
    );
    assert_eq!(
        kill(Id::new(9), &words(&["rat"]), &mut writer, &mut state),
        Err("kill: Self not found".to_string())
    );
    assert!(writer.lines.is_empty());
}

#[test]
fn exit_to_a_room_that_does_not_exist_fails() {
    let mut state = vault_world();
    join(&mut state, 1, "Ann", 0);
    let mut writer = EventWriter::new();
    assert_eq!(on_command(Id::new(1), "void", &mut writer, &mut state), Err("move: Room not found".to_string()));
    assert_eq!(
        move_self(Id::new(1), Id::new(98), "void", &mut writer, &mut state),
        Err("move: Room not found".to_string())
    );
    assert!(writer.lines.is_empty());
    assert_eq!(state.players.by_id().get(&1).unwrap().room_id.value, 0);
}

#[test]
fn unknown_command_is_told() {
    let mut state = vault_world();
    join(&mut state, 1, "Ann", 0);
    for line in ["dance", "say", "emote", "who now", "help me", "alias x", "roll 2", "push lever"] {
        let mut writer = EventWriter::new();
        assert!(on_command(Id::new(1), line, &mut writer, &mut state).is_ok());
        assert_eq!(lines_of(&writer, 1), vec!["Unknown command."], "{}", line);
    }
}

#[test]
fn look_around_and_at_things() {
    let mut state = vault_world();
    initialize(&mut state);
    join(&mut state, 1, "Ann", 0);
    join(&mut state, 2, "Bob", 0);

    let mut writer = EventWriter::new();
    on_command(Id::new(1), "l", &mut writer, &mut state).unwrap();
    assert_eq!(
        lines_of(&writer, 1),
        vec!["Hall", "A long hall.", "You see Bob, a rat and a bat here.", "You can go east to Yard and void to ???."]
    );
    assert_eq!(lines_of(&writer, 2), vec!["Ann looks around."]);

    let mut writer = EventWriter::new();
    on_command(Id::new(1), "look AT Handle", &mut writer, &mut state).unwrap();
    assert_eq!(lines_of(&writer, 1), vec!["A rusty lever."]);
    assert_eq!(lines_of(&writer, 2), vec!["Ann looks at the lever."]);

    // A mob comes before an object that answers to the same name.
    let mut writer = EventWriter::new();
    on_command(Id::new(1), "look rat", &mut writer, &mut state).unwrap();
    assert_eq!(lines_of(&writer, 1), vec!["It is a rat."]);
    assert_eq!(lines_of(&writer, 2), vec!["Ann looks at the rat."]);

    // An object whose description does not show is still looked at.
    let mut writer = EventWriter::new();
    on_command(Id::new(1), "look statue", &mut writer, &mut state).unwrap();
    assert!(lines_of(&writer, 1).is_empty());
    assert_eq!(lines_of(&writer, 2), vec!["Ann looks at the statue."]);

    let mut writer = EventWriter::new();
    on_command(Id::new(1), "look at", &mut writer, &mut state).unwrap();
    assert_eq!(lines_of(&writer, 1), vec!["You do not see that here."]);
    assert!(lines_of(&writer, 2).is_empty());

    let mut writer = EventWriter::new();
    let ann = state.players.by_id().get(&1).unwrap().clone();
    look(&ann, words(&["bat"]), &mut writer, &state).unwrap();
    assert_eq!(lines_of(&writer, 1), vec!["It is a bat."]);
}

#[test]
fn killing_an_object_is_refused() {
    let mut state = vault_world();
    join(&mut state, 1, "Ann", 0);
    let mut writer = EventWriter::new();
    on_command(Id::new(1), "kill lever", &mut writer, &mut state).unwrap();
    assert_eq!(lines_of(&writer, 1), vec!["You cannot kill that."]);
}

#[test]
fn targets_resolve_mobs_first_then_objects() {
    let mut state = vault_world();
    let room = state.rooms.get(&0).unwrap();
    match resolve_target_in_room("rat", room, &state.mobs) {
        Some(RoomTarget::RoomObject { room_object }) => assert_eq!(room_object.name, "statue"),
        _ => panic!("the statue answers to rat while no rat is there"),
    }
    assert!(resolve_target_in_room("cat", room, &state.mobs).is_none());
    initialize(&mut state);
    let room = state.rooms.get(&0).unwrap();
    match resolve_target_in_room("RAT", room, &state.mobs) {
        Some(RoomTarget::Mob { mob }) => assert_eq!(mob.id.value, 0),
        _ => panic!("the rat comes first"),
    }
    let yard = state.rooms.get(&1).unwrap();
    match resolve_target_in_room("bat", yard, &state.mobs) {
        Some(RoomTarget::Mob { mob }) => assert_eq!(mob.id.value, 2),
        _ => panic!("the bat of the yard"),
    }
    assert!(resolve_target_in_room("rat", yard, &state.mobs).is_none());
}

#[test]
fn room_commands_resolve_in_order() {
    let mut state = vault_world();
    match resolve_room_specific_command("east", &words(&[]), Id::new(0), &state) {
        Ok(Some(RoomSpecificCommand::Exit { to_room_id })) => assert_eq!(to_room_id.value, 1),
        _ => panic!("east is an exit"),
    }
    assert!(matches!(resolve_room_specific_command("hatch", &words(&[]), Id::new(0), &state), Ok(None)));
    assert!(matches!(resolve_room_specific_command("East", &words(&[]), Id::new(0), &state), Ok(None)));
    match resolve_room_specific_command("pull", &words(&["the", "lever"]), Id::new(0), &state) {
        Ok(None) => {}
        _ => panic!("no object is called the lever"),
    }
    match resolve_room_specific_command("pull", &words(&["Lever"]), Id::new(0), &state) {
        Ok(Some(RoomSpecificCommand::RoomCommand { room_command })) => {
            assert_eq!(room_command.statements.len(), 5)
        }
        _ => panic!("pull lever runs the second command while the lever is up"),
    }
    state.set_room_var(Id::new(0), "lever".to_string(), 1);
    match resolve_room_specific_command("pull", &words(&["handle"]), Id::new(0), &state) {
        Ok(Some(RoomSpecificCommand::RoomCommand { room_command })) => {
            assert_eq!(room_command.statements.len(), 1)
        }
        _ => panic!("pull lever runs the first command while the lever is down"),
    }
    match resolve_room_specific_command("hatch", &words(&[]), Id::new(0), &state) {
        Ok(Some(RoomSpecificCommand::Exit { to_room_id })) => assert_eq!(to_room_id.value, 2),
        _ => panic!("the hatch is open while the lever is down"),
    }
    assert!(matches!(
        resolve_room_specific_command("east", &words(&[]), Id::new(44), &state),
        Err(e) if e == "room specific command: Room not found"
    ));
}

#[test]
fn pulling_the_lever_runs_its_statements() {
    let mut state = vault_world();
    join(&mut state, 1, "Ann", 0);
    join(&mut state, 2, "Bob", 0);
    join(&mut state, 3, "Cy", 1);
    state.ticks = Tick(40);
    let mut writer = EventWriter::new();
    on_command(Id::new(1), "pull lever", &mut writer, &mut state).unwrap();
    assert_eq!(lines_of(&writer, 1), vec!["You pull the lever.", "A hatch grinds open."]);
    assert_eq!(lines_of(&writer, 2), vec!["Ann pulls the lever.", "A hatch grinds open."]);
    assert!(lines_of(&writer, 3).is_empty());
    assert_eq!(state.get_room_var(Id::new(0), "lever".to_string()), 1);
    assert_eq!(state.get_room_var(Id::new(1), "lever".to_string()), 0);
    let reset = state.scheduled_room_var_resets.get(&56).unwrap();
    assert_eq!((reset.room_id.value, reset.var.as_str(), reset.message.as_str()), (0, "lever", "The hatch falls shut."));

    let mut writer = EventWriter::new();
    on_command(Id::new(2), "pull handle", &mut writer, &mut state).unwrap();
    assert_eq!(lines_of(&writer, 2), vec!["It is already down."]);
    assert!(lines_of(&writer, 1).is_empty());

    let mut writer = EventWriter::new();
    on_command(Id::new(1), "hatch", &mut writer, &mut state).unwrap();
    assert_eq!(state.players.by_id().get(&1).unwrap().room_id.value, 2);
    assert_eq!(lines_of(&writer, 2), vec!["Ann leaves hatch."]);
    assert_eq!(lines_of(&writer, 1), vec!["Vault", "Gold.", "There are no exits here."]);
}

#[test]
fn tell_others_from_a_player_who_is_not_there_has_no_name() {
    let mut state = vault_world();
    join(&mut state, 2, "Bob", 0);
    let command = RoomCommand {
        command: "hum".to_string(),
        condition: None,
        statements: vec![Statement::TellOthers("hums.".to_string())],
    };
    let mut writer = EventWriter::new();
    run_room_command(&command, Id::new(9), Id::new(0), &mut writer, &mut state);
    assert_eq!(lines_of(&writer, 2), vec![" hums."]);
}

#[test]
fn conditional_exit_shows_only_while_open() {
    let mut state = vault_world();
    let mut writer = EventWriter::new();
    describe_room(Id::new(1), state.rooms.get(&0).unwrap(), &mut writer, &state);
    assert_eq!(lines_of(&writer, 1)[2], "You can go east to Yard and void to ???.");
    state.set_room_var(Id::new(0), "lever".to_string(), 1);
    let mut writer = EventWriter::new();
    describe_room(Id::new(1), state.rooms.get(&0).unwrap(), &mut writer, &state);
    assert_eq!(lines_of(&writer, 1)[2], "You can go east to Yard, hatch to Vault and void to ???.");
}

#[test]
fn large_tick_resets_variables_and_respawns() {
    let mut state = vault_world();
    join(&mut state, 1, "Ann", 0);
    join(&mut state, 2, "Bob", 1);
    state.set_room_var(Id::new(0), "lever".to_string(), 1);
    state.set_room_var(Id::new(1), "lamp".to_string(), 4);
    state.ticks = Tick(64);
    let reset = |room: u64, var: &str, message: &str| RoomVarReset {
        room_id: Id::new(room),
        var: var.to_string(),
        message: message.to_string(),
    };
    state.scheduled_room_var_resets.insert(56, reset(0, "lever", "The hatch falls shut."));
    state.scheduled_room_var_resets.insert(64, reset(0, "other", "Click."));
    state.scheduled_room_var_resets.insert(60, reset(44, "lamp", "Nobody hears this."));
    state.scheduled_room_var_resets.insert(65, reset(1, "lamp", "The lamp dies."));
    let respawn = |room: u64, t: u64| MobRespawn { room_id: Id::new(room), mob_template_id: Id::new(t) };
    state.scheduled_mob_spawns.insert(10, respawn(1, 2));
    state.scheduled_mob_spawns.insert(20, respawn(1, 77));
    state.scheduled_mob_spawns.insert(30, respawn(44, 1));
    state.scheduled_mob_spawns.insert(64, respawn(0, 1));
    state.scheduled_mob_spawns.insert(66, respawn(0, 2));

    let mut writer = EventWriter::new();
    on_large_tick(&mut writer, &mut state);
    assert_eq!(lines_of(&writer, 1), vec!["The hatch falls shut.", "Click.", "A rat appears."]);
    assert_eq!(lines_of(&writer, 2), vec!["A bat appears."]);
    assert_eq!(state.get_room_var(Id::new(0), "lever".to_string()), 0);
    assert_eq!(state.get_room_var(Id::new(1), "lamp".to_string()), 4);
    assert_eq!(state.scheduled_room_var_resets.keys().copied().collect::<Vec<_>>(), vec![65]);
    assert_eq!(state.scheduled_mob_spawns.keys().copied().collect::<Vec<_>>(), vec![66]);
    let mobs = state.mobs.by_id();
    assert_eq!(mobs.len(), 2);
    assert_eq!((mobs.get(&0).unwrap().room_id.value, mobs.get(&0).unwrap().template.name.as_str()), (1, "bat"));
    assert_eq!((mobs.get(&1).unwrap().room_id.value, mobs.get(&1).unwrap().template.name.as_str()), (0, "rat"));
    assert_eq!(mobs.get(&1).unwrap().hp, 25);
}

#[test]
fn later_event_for_the_same_tick_takes_the_place_of_the_earlier() {
    let mut state = vault_world();
    join(&mut state, 1, "Ann", 0);
    state.ticks = Tick(7);
    let call = RoomCommand {
        command: "ring".to_string(),
        condition: None,
        statements: vec![
            Statement::ResetRoomVarAfter("a".to_string(), TickDuration(1), "first".to_string()),
            Statement::ResetRoomVarAfter("b".to_string(), TickDuration(1), "second".to_string()),
        ],
    };
    let mut writer = EventWriter::new();
    run_room_command(&call, Id::new(1), Id::new(0), &mut writer, &mut state);
    assert_eq!(state.scheduled_room_var_resets.len(), 1);
    assert_eq!(state.scheduled_room_var_resets.get(&8).unwrap().message, "second");
}

#[test]
fn tick_advances_the_clock_and_sweeps_on_large_ticks() {
    let mut state = vault_world();
    join(&mut state, 1, "Ann", 0);
    state.scheduled_room_var_resets.insert(
        3,
        RoomVarReset { room_id: Id::new(0), var: "x".to_string(), message: "Tock.".to_string() },
    );
    for expected in 1..8 {
        let mut writer = EventWriter::new();
        on_tick(&mut writer, &mut state);
        assert_eq!(state.ticks.0, expected);
        assert!(writer.lines.is_empty());
    }
    let mut writer = EventWriter::new();
    on_tick(&mut writer, &mut state);
    assert_eq!(state.ticks.0, 8);
    assert_eq!(lines_of(&writer, 1), vec!["Tock."]);
    assert!(state.scheduled_room_var_resets.is_empty());
}

#[test]
fn healing_skips_those_in_combat_and_caps_at_full_health() {
    let mut state = vault_world();
    initialize(&mut state);
    join(&mut state, 1, "Ann", 0);
    join(&mut state, 2, "Bob", 0);
    join(&mut state, 3, "Cy", 1);
    join(&mut state, 4, "Di", 1);
    let mut writer = EventWriter::new();
    on_command(Id::new(1), "kill rat", &mut writer, &mut state).unwrap();
    for (id, hp, max_hp) in [(1u64, 50, 100), (2, 50, 100), (3, 97, 100), (4, 100, 100)] {
        let mut p = state.players.by_id().get(&id).unwrap().clone();
        p.hp = hp;
        p.max_hp = max_hp;
        state.update_player(p);
    }
    state.players.clear_room_info_changed();
    state.ticks = Tick(PLAYER_HEAL_PERIOD + 1);
    tick_heal_players(&mut state);
    assert_eq!(state.players.by_id().get(&2).unwrap().hp, 50);
    state.ticks = Tick(PLAYER_HEAL_PERIOD * 3);
    tick_heal_players(&mut state);
    let hp = |id: u64| state.players.by_id().get(&id).unwrap().hp;
    assert_eq!(hp(1), 50);
    assert_eq!(hp(2), 55);
    assert_eq!(hp(3), 100);
    assert_eq!(hp(4), 100);
    assert!(state.players.room_info_changed().contains(&0));
    assert!(state.players.room_info_changed().contains(&1));
}

#[test]
fn healing_small_and_negative_maxima() {
    let mut state = vault_world();
    join(&mut state, 1, "Ann", 0);
    join(&mut state, 2, "Bob", 0);
    for (id, hp, max_hp) in [(1u64, 3, 19), (2, i32::MIN, -40)] {
        let mut p = state.players.by_id().get(&id).unwrap().clone();
        p.hp = hp;
        p.max_hp = max_hp;
        state.update_player(p);
    }
    state.players.clear_room_info_changed();
    state.ticks = Tick(0);
    tick_heal_players(&mut state);
    assert_eq!(state.players.by_id().get(&1).unwrap().hp, 3);
    assert_eq!(state.players.by_id().get(&2).unwrap().hp, i32::MIN);
    assert!(state.players.room_info_changed().is_empty());
}

#[test]
fn who_lists_by_ascending_identifier() {
    let mut state = vault_world();
    join(&mut state, 9, "Zed", 0);
    join(&mut state, 2, "Bob", 1);
    join(&mut state, 5, "Eve", 2);
    let mut writer = EventWriter::new();
    on_command(Id::new(5), "WHO", &mut writer, &mut state).unwrap();
    assert_eq!(lines_of(&writer, 5), vec!["There are 3 players online.", "Bob", "Eve", "Zed"]);
    let mut writer = EventWriter::new();
    list_players(Id::new(77), &mut writer, &state);
    assert_eq!(lines_of(&writer, 77).len(), 4);
}

#[test]
fn rolling_a_die() {
    let mut state = vault_world();
    join(&mut state, 1, "Ann", 0);
    join(&mut state, 2, "Bob", 0);
    let ann = state.players.by_id().get(&1).unwrap().clone();
    let mut writer = EventWriter::new();
    tell_roll(&ann, 4, &mut writer, &state);
    assert_eq!(lines_of(&writer, 1), vec!["You rolled a 4."]);
    assert_eq!(lines_of(&writer, 2), vec!["Ann rolled a 4."]);
    let mut seen = std::collections::HashSet::new();
    for _ in 0..300 {
        let mut writer = EventWriter::new();
        assert!(roll_die(&ann, &mut writer, &state).is_ok());
        let mine = lines_of(&writer, 1);
        let theirs = lines_of(&writer, 2);
        let roll: u32 = mine[0].trim_start_matches("You rolled a ").trim_end_matches('.').parse().unwrap();
        assert!((1..=6).contains(&roll));
        assert_eq!(theirs, vec![format!("Ann rolled a {}.", roll)]);
        seen.insert(roll);
    }
    assert_eq!(seen.len(), 6);
    let mut writer = EventWriter::new();
    on_command(Id::new(1), "roll", &mut writer, &mut state).unwrap();
    assert!(lines_of(&writer, 1)[0].starts_with("You rolled a "));
    let mut writer = EventWriter::new();
    on_words(Id::new(1), words(&["ROLL"]), 6, &mut writer, &mut state).unwrap();
    assert_eq!(lines_of(&writer, 1), vec!["You rolled a 6."]);
}

#[test]
fn input_is_split_at_any_white_space() {
    let mut state = vault_world();
    join(&mut state, 1, "Ann", 0);
    let mut writer = EventWriter::new();
    on_command(Id::new(1), "  SAY \t hello   there\n", &mut writer, &mut state).unwrap();
    assert_eq!(lines_of(&writer, 1), vec!["You say, \"Hello there.\""]);
}

#[test]
fn chat_forms() {
    let mut state = vault_world();
    join(&mut state, 1, "Ann", 0);
    join(&mut state, 2, "Bob", 0);
    let cases = [
        ("say what?", "You say, \"What?\"", "Ann says, \"What?\""),
        ("\" ok", "You say, \"Ok.\"", "Ann says, \"Ok.\""),
        ("say élan", "You say, \"Élan.\"", "Ann says, \"Élan.\""),
        ("say ßa", "You say, \"SSa.\"", "Ann says, \"SSa.\""),
        ("say 1 2", "You say, \"1 2.\"", "Ann says, \"1 2.\""),
        ("emote waves", "Ann waves.", "Ann waves."),
        (": grins!", "Ann grins!", "Ann grins!"),
        ("emote shrugs…", "Ann shrugs….", "Ann shrugs…."),
    ];
    for (line, to_self, to_others) in cases {
        let mut writer = EventWriter::new();
        on_command(Id::new(1), line, &mut writer, &mut state).unwrap();
        assert_eq!(lines_of(&writer, 1), vec![to_self], "{}", line);
        assert_eq!(lines_of(&writer, 2), vec![to_others], "{}", line);
    }
}

#[test]
fn chat_with_pictographs_is_refused() {
    let mut state = vault_world();
    join(&mut state, 1, "Ann", 0);
    join(&mut state, 2, "Bob", 0);
    for line in ["say hi \u{1F600}", "emote \u{2764} it"] {
        let mut writer = EventWriter::new();
        on_command(Id::new(1), line, &mut writer, &mut state).unwrap();
        assert_eq!(lines_of(&writer, 1), vec!["That message contains illegal characters."]);
        assert!(lines_of(&writer, 2).is_empty());
    }
}

#[test]
fn chat_goes_by_what_the_filter_said() {
    let mut state = vault_world();
    join(&mut state, 1, "Ann", 0);
    let ann = state.players.by_id().get(&1).unwrap().clone();
    let refused = vec!["That message contains illegal characters.".to_string()];
    let mut writer = EventWriter::new();
    chat_filtered(&ann, "hi".to_string(), ChatCommand::Say, Some(true), &mut writer, &state);
    assert_eq!(lines_of(&writer, 1), refused);
    let mut writer = EventWriter::new();
    chat_filtered(&ann, "hi".to_string(), ChatCommand::Say, None, &mut writer, &state);
    assert_eq!(lines_of(&writer, 1), refused);
    let mut writer = EventWriter::new();
    chat_filtered(&ann, "é".repeat(65), ChatCommand::Emote, Some(false), &mut writer, &state);
    assert_eq!(lines_of(&writer, 1), vec!["That message is too long."]);
    let mut writer = EventWriter::new();
    chat_filtered(&ann, String::new(), ChatCommand::Say, Some(false), &mut writer, &state);
    assert_eq!(lines_of(&writer, 1), vec!["You say, \".\""]);
}

#[test]
fn mob_picks_among_hostile_players_in_its_room() {
    let mut state = vault_world();
    initialize(&mut state);
    for (id, name, room) in [(1, "Ann", 0), (2, "Bob", 0), (3, "Cy", 0), (4, "Di", 1)] {
        join(&mut state, id, name, room);
    }
    let rat = Id::new(0);
    assert_eq!(targets_needed(rat, &state), 0);
    state.change_mob(rat, |mut m| {
        m.hostile_to.insert(3);
        m.hostile_to.insert(1);
        m.hostile_to.insert(4);
        m.hostile_to.insert(60);
        (m, ())
    });
    assert_eq!(targets_needed(rat, &state), 2);
    let mut writer = EventWriter::new();
    update_mob_target(rat, 1, &mut writer, &mut state);
    let mob = state.mobs.by_id().get(&0).unwrap();
    assert_eq!(mob.attack_target.map(|t| t.value), Some(3));
    assert!(mob.hostile_to.contains(&4));
    assert!(!mob.hostile_to.contains(&60));
    assert_eq!(lines_of(&writer, 3), vec!["The rat attacks you."]);
    assert_eq!(lines_of(&writer, 1), vec!["The rat attacks Cy."]);
    assert_eq!(lines_of(&writer, 2), vec!["The rat attacks Cy."]);
    assert!(lines_of(&writer, 4).is_empty());
    assert_eq!(targets_needed(rat, &state), 0);

    // The target walks away: the mob turns on the other candidate.
    let mut writer = EventWriter::new();
    on_command(Id::new(3), "east", &mut writer, &mut state).unwrap();
    assert_eq!(targets_needed(rat, &state), 1);
    let mut writer = EventWriter::new();
    update_mob_target(rat, 5, &mut writer, &mut state);
    assert_eq!(state.mobs.by_id().get(&0).unwrap().attack_target.map(|t| t.value), Some(1));

    // Nobody left to turn on.
    on_player_disconnect(Id::new(1), &mut writer, &mut state);
    let mut writer = EventWriter::new();
    update_mob_target(rat, 0, &mut writer, &mut state);
    let mob = state.mobs.by_id().get(&0).unwrap();
    assert!(mob.attack_target.is_none());
    assert!(!mob.hostile_to.contains(&1));
    assert!(writer.lines.is_empty());
}

#[test]
fn single_attacks() {
    let mut state = vault_world();
    initialize(&mut state);
    join(&mut state, 1, "Ann", 0);
    join(&mut state, 2, "Bob", 0);
    let ann = state.players.by_id().get(&1).unwrap().clone();
    let mut writer = EventWriter::new();
    assert!(!attack_with_player(&ann, Id::new(1), &mut writer, &mut state));
    assert_eq!(state.mobs.by_id().get(&1).unwrap().hp, 2);
    assert_eq!(lines_of(&writer, 2), vec!["Ann hits the bat for 10 damage."]);
    let mut writer = EventWriter::new();
    assert!(attack_with_player(&ann, Id::new(1), &mut writer, &mut state));
    assert_eq!(state.mobs.by_id().get(&1).unwrap().hp, 2);
    assert_eq!(lines_of(&writer, 2), vec!["Ann hits the bat for 10 damage.", "The bat dies."]);

    let mut writer = EventWriter::new();
    assert!(!attack_with_mob(Id::new(0), Id::new(2), &mut writer, &mut state));
    assert_eq!(state.players.by_id().get(&2).unwrap().hp, 97);
    assert_eq!(lines_of(&writer, 2), vec!["The rat hits you for 3 damage."]);
    assert_eq!(lines_of(&writer, 1), vec!["The rat hits Bob for 3 damage."]);

    let mut writer = EventWriter::new();
    update_player_target(Id::new(2), &mut writer, &mut state);
    assert!(writer.lines.is_empty());
    assert!(state.players.by_id().get(&2).unwrap().attack_target.is_none());
}

#[test]
fn stash_delivers_in_order() {
    let mut state = vault_world();
    join(&mut state, 1, "Ann", 0);
    join(&mut state, 2, "Bob", 0);
    join(&mut state, 3, "Cy", 1);
    let mut stash = MessageStash::new();
    stash.tell_room(Id::new(0), Line::str("one"));
    stash.tell(Id::new(3), Line::str("two"));
    stash.tell_room_except(Id::new(0), Id::new(1), Line::str("three"));
    stash.tell(Id::new(1), Line::str("four"));
    stash.tell_room(Id::new(9), Line::str("five"));
    let mut writer = EventWriter::new();
    stash.write_into(&mut writer, &state.players);
    assert_eq!(lines_of(&writer, 1), vec!["one", "four"]);
    assert_eq!(lines_of(&writer, 2), vec!["one", "three"]);
    assert_eq!(lines_of(&writer, 3), vec!["two"]);
    assert_eq!(writer.lines.len(), 3);
}

#[test]
fn room_snapshots() {
    let mut state = vault_world();
    initialize(&mut state);
    join(&mut state, 4, "Ann", 0);
    join(&mut state, 2, "Bob", 0);
    join(&mut state, 3, "Cy", 1);
    let mut bob = state.players.by_id().get(&2).unwrap().clone();
    bob.hp = 80;
    state.update_player(bob);
    let infos = collect_room_info(Id::new(0), &state);
    assert_eq!(infos.iter().map(|(id, _)| id.value).collect::<Vec<_>>(), vec![4, 2]);
    let (_, for_ann) = &infos[0];
    assert_eq!(for_ann.self_player.id, "4");
    assert_eq!(for_ann.self_player.name, "Ann");
    assert_eq!((for_ann.self_player.hp, for_ann.self_player.max_hp), (100, 100));
    assert_eq!(for_ann.players.len(), 1);
    assert_eq!((for_ann.players[0].id.as_str(), for_ann.players[0].hp), ("2", 80));
    let mobs: Vec<(&str, &str, i32, i32)> =
        for_ann.mobs.iter().map(|m| (m.id.as_str(), m.name.as_str(), m.hp, m.max_hp)).collect();
    assert_eq!(mobs, vec![("0", "rat", 25, 25), ("1", "bat", 12, 12)]);
    let (_, for_bob) = &infos[1];
    assert_eq!(for_bob.self_player.name, "Bob");
    assert_eq!(for_bob.players[0].name, "Ann");
    assert!(collect_room_info(Id::new(2), &state).is_empty());
    let cy = state.players.by_id().get(&3).unwrap();
    let for_cy = room_info(cy, &state);
    assert!(for_cy.players.is_empty());
    assert_eq!(for_cy.mobs.len(), 1);
}

#[test]
fn flush_sends_lines_and_stale_snapshots_then_clears() {
    let mut state = vault_world();
    join(&mut state, 1, "Ann", 0);
    join(&mut state, 2, "Bob", 0);
    join(&mut state, 3, "Cy", 1);
    let mut writer = EventWriter::new();
    take_player_events(&mut writer, &mut state);
    assert!(take_player_events(&mut writer, &mut state).is_empty());

    on_command(Id::new(1), "say hi", &mut writer, &mut state).unwrap();
    writer.tell(Id::new(40), Line::str("into the void"));
    let mut cy = state.players.by_id().get(&3).unwrap().clone();
    cy.hp = 1;
    state.update_player(cy);
    let events = take_player_events(&mut writer, &mut state);
    assert_eq!(events.iter().map(|(id, _)| id.value).collect::<Vec<_>>(), vec![1, 2, 3, 40]);
    assert_eq!(events[0].1.lines.len(), 1);
    assert!(events[0].1.room_info.is_none());
    assert!(events[1].1.room_info.is_none());
    assert!(events[2].1.lines.is_empty());
    assert_eq!(events[2].1.room_info.as_ref().unwrap().self_player.hp, 1);
    assert_eq!(text(&events[3].1.lines[0]), "into the void");
    assert!(writer.lines.is_empty());
    assert!(state.players.room_info_changed().is_empty());
}

#[test]
fn processing_messages() {
    let mut state = vault_world();
    initialize(&mut state);
    let mut writer = EventWriter::new();
    let done = process(
        Message::PlayerConnected { player_id: Id::new(1), player_name: "Ann".to_string() },
        &mut writer,
        &mut state,
    );
    assert!(done.error.is_none());
    assert_eq!(done.events.len(), 1);
    assert_eq!(done.events[0].0.value, 1);
    assert_eq!(text(&done.events[0].1.lines[0]), "Welcome, Ann!");
    let info = done.events[0].1.room_info.as_ref().unwrap();
    assert_eq!(info.self_player.name, "Ann");
    assert_eq!(info.mobs.len(), 2);
    let ann = state.players.by_id().get(&1).unwrap();
    assert_eq!((ann.room_id.value, ann.hp, ann.max_hp), (0, 100, 100));
    assert!(0 <= ann.attack_offset.0 && ann.attack_offset.0 < 12);
    assert!(ann.attack_target.is_none());

    let done = process(
        Message::PlayerCommand { player_id: Id::new(1), command: "east".to_string() },
        &mut writer,
        &mut state,
    );
    assert!(done.error.is_none());
    assert_eq!(text(&done.events[0].1.lines[0]), "Yard");
    assert_eq!(done.events[0].1.room_info.as_ref().unwrap().mobs.len(), 1);

    let done = process(
        Message::PlayerCommand { player_id: Id::new(1), command: String::new() },
        &mut writer,
        &mut state,
    );
    assert_eq!(done.error, Some("Empty command".to_string()));
    assert!(done.events.is_empty());

    let done = process(Message::Tick, &mut writer, &mut state);
    assert!(done.error.is_none());
    assert_eq!(state.ticks.0, 1);

    let error = handle_message(
        Message::PlayerDisconnected { player_id: Id::new(1) },
        &mut writer,
        &mut state,
    );
    assert!(error.is_none());
    assert!(state.players.by_id().is_empty());
    let events = take_player_events(&mut writer, &mut state);
    assert!(events.is_empty());
}
