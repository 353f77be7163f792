pub mod auto_miner;
pub mod conveyor;
pub mod scout_bot;
