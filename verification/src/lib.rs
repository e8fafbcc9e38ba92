//! Verified log-triage library.
//!
//! The library classifies raw log lines (server-error relevance, correlation
//! id extraction, error-message extraction), groups lines by correlation id,
//! derives a representative id and error message per group, and tallies the
//! distinct representative error messages.

pub mod line;
pub mod pipeline;
pub mod progress;
pub mod request;
pub mod scan;
