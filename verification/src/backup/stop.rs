//! Stopping a backup.

pub mod post;
