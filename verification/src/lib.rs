//! The decision logic of a small interactive command interpreter: splitting a
//! line into chained commands, and the built-ins that format or filter data.

pub mod dispatch;
pub mod echo;
pub mod listing;
pub mod lookup;
pub mod metadata;
pub mod number;
pub mod render;
pub mod search;
pub mod style;
pub mod text;
