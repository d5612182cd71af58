//! A weekly class-schedule store: course entries with a verified
//! encode/decode of the active-week list, a course table with
//! create/read/update/delete and atomic bulk insert, and the handler
//! layer that maps store outcomes to response outcomes.

pub mod handlers;
pub mod models;
pub mod store;
pub mod weeks;
