//! A CalDAV aggregation gateway: one virtual calendar collection in front of
//! several independently hosted calendars, all owned by one fixed principal.

pub mod catalog;
pub mod elements;
pub mod filters;
pub mod handlers;
pub mod json;
pub mod propfind;
pub mod text;
pub mod utils;
pub mod xml;
