pub mod bug;
pub mod constants;
pub mod event;
pub mod fixed;
pub mod gene;
pub mod genetics;
pub mod graph;
pub mod ids;
pub mod laws;
pub mod recorder;
pub mod render;
pub mod reproduction;
pub mod rng;
pub mod simulation;
pub mod snapshot;
pub mod world;

pub use bug::Bug;
pub use gene::{Gene, GeneType};
pub use simulation::Simulation;
pub use world::World;
