//! The notepad: a text buffer with a cursor, and find-in-text state.
pub mod buffer;
pub mod find;
