pub mod chance;
pub mod event_writer;
pub mod game_alias;
pub mod game_chat;
pub mod game_combat;
pub mod game_help;
pub mod game_logic;
pub mod game_room;
pub mod game_state;
pub mod id;
pub mod line;
pub mod message_stash;
pub mod mob;
pub mod mob_coll;
pub mod named;
pub mod order;
pub mod player;
pub mod player_coll;
pub mod room_index;
pub mod room_vars;
pub mod schedule;
pub mod search;
pub mod server_actor;
pub mod text;
pub mod text_util;
pub mod tick;
