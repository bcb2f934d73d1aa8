//! A terminal note-taking core: a verified key-sequence matcher that
//! turns raw keypresses into application orders, and a lazily invalidated
//! memo cache that keeps in-memory mirrors of small text files consistent
//! with their on-disk state.

pub mod channel;
pub mod error;
pub mod key;
pub mod matcher;
pub mod memo;
pub mod stash;
