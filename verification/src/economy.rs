pub mod resources;
pub mod sell;
pub mod shop;
