//! Omarchycast search daemon library: matching, ranking, configuration rules,
//! date arithmetic and the providers' query logic. The program around it
//! (sockets, files, processes) lives in `app/`.

pub mod text;
pub mod limits;
pub mod search;
pub mod config;
pub mod sorted;
pub mod ipc;
pub mod hypr;
pub mod files;
pub mod daemon;
pub mod providers;
