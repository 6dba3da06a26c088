pub mod color;
pub mod character;
pub mod coord;
pub mod dice;
pub mod direction;
pub mod ecs;
pub mod entity;
pub mod error;
pub mod map;
pub mod table;
pub mod terrain;
pub mod tile;
pub mod walk;
pub mod world;
