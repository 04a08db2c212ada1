//! A searchable history of shell sessions: what is captured, redacted, stored, found,
//! ranked, shown and replayed.

pub mod browse;
pub mod calendar;
pub mod capture;
pub mod cli;
pub mod config;
pub mod index;
pub mod number;
pub mod rank;
pub mod redact;
pub mod replay;
pub mod store;
pub mod text;
pub mod time;
pub mod vector;
