pub mod adapters;
pub mod cli;
pub mod fmt_law;
pub mod json_law;
pub mod minijson;
pub mod note_laws;
pub mod ops;
pub mod out;
pub mod wire;
