pub mod actions;
pub mod events;
pub mod ids;
pub mod model;
pub mod scheduler;
pub mod spawner;
pub mod tally;
pub mod text;
pub mod trips;
pub mod world;
