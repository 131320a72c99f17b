//! Request parsing and text handling shared by the dashboard, session and proxy code.

pub mod request;
pub mod text;
