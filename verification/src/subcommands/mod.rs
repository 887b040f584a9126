//! What the commands of the program compute.

pub mod add;
pub mod interactive;
pub mod is_active;
pub mod report;
pub mod report_table;
pub mod resume;
pub mod watch_i3;
