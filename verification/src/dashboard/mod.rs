pub mod agent_runtime;
pub mod fixtures;
pub mod swarm_dashboard;
