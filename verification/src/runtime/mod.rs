pub mod adapter;
pub mod events;
pub mod keyed;
pub mod lifecycle;
pub mod mock;
pub mod opencode_log_normalizer;
pub mod opencode_registry;
pub mod types;
