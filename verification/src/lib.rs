//! A small password store.
//!
//! The store is a list of named credentials kept in one encrypted file. This
//! crate holds the rules of the store: which operation is refused and why, and
//! what the list looks like afterwards. Running the cipher and touching the
//! file system is left to the caller, who reports what was found as a
//! [`Stored`] value and what became of a write as a [`Written`] value.

pub mod entry;
pub mod error;
pub mod laws;
pub mod password;
pub mod store;
pub mod text;

pub use entry::PasswordEntry;
pub use error::PwError;
pub use password::generate_password;
pub use store::{add, find, get, init, list, read, remove, update, Stored, Written};
