//! Clipboard history: the records, the store that keeps them within a limit,
//! and the text, tag and signature rules that decide what is new and how it is shown.

pub mod limits;
pub mod text;
pub mod digest;
pub mod record;
pub mod capture;
pub mod store;
pub mod laws;
pub mod actions;
