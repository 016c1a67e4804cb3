//! A contact book: contact records with field validation, and an in-memory
//! store with listing by page, substring search, and saving that assigns ids
//! and keeps emails unique.

pub mod contact;
pub mod field_errors;
pub mod laws;
pub mod requests;
pub mod store;
pub mod text;
