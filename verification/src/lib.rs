//! A personal time tracker: entries are opened per project, the most recent
//! open one is closed on stop, and closed entries are summed per project.

pub mod entry;
pub mod message;
pub mod model;
pub mod report;
pub mod store;
pub mod theorems;
pub mod tracker;
