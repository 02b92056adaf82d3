pub mod cli;
pub mod graph;
pub mod out;
pub mod route;
pub mod sexpr;
pub mod tasks_file;
