pub mod app;
pub mod branch;
pub mod commit;
pub mod commit_detail;
pub mod conflict;
pub mod diff;
pub mod error;
pub mod file_list;
pub mod graph;
pub mod log;
pub mod remote;
pub mod runner;
pub mod stage;
pub mod status;
pub mod text;
pub mod widgets;
