//! Paths and persisted state.
pub mod path;
pub mod posix;
pub mod state;
