//! Style rules for the message argument of logging-macro calls, checked on
//! raw text lines.

pub mod args;
pub mod extract;
pub mod report;
pub mod scan;
pub mod text;
pub mod validate;
