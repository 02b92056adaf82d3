pub mod dashboard;
pub mod observer;
pub mod runtime;
pub mod scheduler;
pub mod swarm;
pub mod text;
