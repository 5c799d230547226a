//! Game logic for a small roguelike: map primitives, objects and their tags, cells,
//! shortest paths, the models of a level and their checks, the value store, the
//! scheduler's time units, the live game and the saved-game framing.
pub mod text;
pub mod random;
pub mod point;
pub mod path_find;
pub mod color;
pub mod time;
pub mod message;
pub mod oid;
pub mod tag;
pub mod object;
pub mod make;
pub mod cell;
pub mod shared;
pub mod codec;
pub mod type_id;
pub mod store;
pub mod game;
pub mod objects;
pub mod relation;
pub mod content;
pub mod old_pov;
pub mod char_to_loc;
pub mod oid_to_obj;
pub mod player;
pub mod player_actions;
pub mod render;
pub mod sound;
pub mod ai;
pub mod persistence;
pub mod scheduler;
pub mod model;
pub mod id_set;
pub mod lookup;
pub mod level;
pub mod melee;
pub mod dig;
