//! Starting a backup.

pub mod post;
