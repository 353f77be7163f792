pub mod deposits;
pub mod map;
pub mod tiles;
