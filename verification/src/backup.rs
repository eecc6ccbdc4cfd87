//! Answers of the secret backup service.

pub mod start;
pub mod stop;
