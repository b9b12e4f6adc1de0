//! Decision logic of the scx_teddy scheduler.

pub mod classifier;
pub mod classifier_laws;
pub mod climb_laws;
pub mod control;
pub mod csv;
pub mod csv_laws;
pub mod fd_set;
pub mod finder_laws;
pub mod game_task_finder;
pub mod history_laws;
pub mod run;
pub mod run_laws;
pub mod sched;
pub mod sched_laws;
pub mod select_laws;
pub mod stats_laws;
pub mod stats_map;
pub mod sysfs_laws;
pub mod task_stats;
pub mod text;
pub mod text_laws;
pub mod topology;
pub mod topology_laws;
pub mod tracker;
pub mod watch;
pub mod watch_laws;
pub mod wire;
pub mod wire_laws;
