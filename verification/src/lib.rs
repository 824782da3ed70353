use vstd::prelude::*;

pub mod camera;
pub mod config;
pub mod config_file;
pub mod config_text;
pub mod esp;
pub mod flags;
pub mod globals;
pub mod input;
pub mod menu;
pub mod menu_state;
pub mod movement;
pub mod pattern;
pub mod player_db;
pub mod record;
pub mod spectators;
pub mod state;
pub mod text;

verus! {

} // verus!
