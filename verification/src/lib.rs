//! Focus: task, planning and waiting-on logic for Markdown task vaults.

pub mod text;
pub mod date;
pub mod task;
pub mod paths;
pub mod config;
pub mod vault;
pub mod groups;
pub mod planner;
pub mod projects;
pub mod waiting;
pub mod notifications;
pub mod tui;
pub mod review;
pub mod task_laws;
pub mod section_laws;
pub mod edit_laws;
pub mod plan_laws;
pub mod scan_laws;
pub mod capture_laws;
pub mod tag_laws;
pub mod view_laws;
pub mod date_laws;
pub mod render_laws;
