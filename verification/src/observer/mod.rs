pub mod discover;
pub mod gather_law;
pub mod git_read;
pub mod identity_contract;
pub mod iso_parse;
pub mod process_observe;
pub mod scope;
pub mod sexpr;
pub mod snapshot;
pub mod time_util;
