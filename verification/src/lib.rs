//! Per-session replica of a 2-D tile world and the cooperative tasks that
//! drive one player through it.
//!
//! Positions inside the world are integer tile and grid coordinates; every
//! structure is specified over mathematical views and proved against them.

pub mod math;
pub mod objects;
pub mod ordered_map;
pub mod path;
pub mod path_finder;
pub mod player;
pub mod process;
pub mod protocol;
pub mod session;
pub mod stuck_detector;
pub mod task;
pub mod vec2;
pub mod visualization;
pub mod world;
pub mod actions;
pub mod cancel;
pub mod clusterization;
pub mod coords;
pub mod drinker;
pub mod exp_wnd_closer;
pub mod explorer;
pub mod geometry;
pub mod grid;
pub mod map;
pub mod map_db;
pub mod name_index;
pub mod navigator;
pub mod new_character;
