//! Game rules of PixelMiner: terrain, deposits, inventory, shop, machines.
//!
//! Everything here works on plain values; rendering, input and timing live
//! in the application around the library.

pub mod chance;
pub mod economy;
pub mod machines;
pub mod nearest;
pub mod text;
pub mod ui;
pub mod world;
