//! A sequential-reader combinator: two byte sources chained into one logical
//! stream that yields every byte of the first source, then every byte of the
//! second, under a cooperative (suspend/resume) execution model.

pub mod chain;
pub mod drive;
pub mod poll;
pub mod source;
pub mod sources;
