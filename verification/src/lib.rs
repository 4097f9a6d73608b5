use vstd::prelude::*;

pub mod ids;
pub mod text;
pub mod string_table;
pub mod changed_map;
pub mod vec_util;
pub mod quest;
pub mod entity;
pub mod loader;
pub mod skill;
pub mod skill_dat;
pub mod skill_load;
pub mod skill_layout;
pub mod skill_reread;
pub mod skill_round_trip;
pub mod skill_save_load;
pub mod steps_editor;
pub mod recipe;
pub mod holder;
pub mod script_runner;
pub mod weapon;

verus! {

} // verus!
