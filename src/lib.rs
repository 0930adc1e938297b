//! Contribution statistics for a team: attributes blamed source lines to
//! author emails over a time window and merges them with issue-tracker
//! activity into per-person statistics.

pub mod table;
pub mod counts;
pub mod text;
pub mod blame;
pub mod scan;
pub mod issue;
pub mod github;
pub mod report;
