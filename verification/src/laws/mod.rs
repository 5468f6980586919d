//! What holds of the library as a whole.

pub mod fates;
pub mod files;
pub mod folders;
pub mod models;
pub mod names;
pub mod plans;
pub mod questions;
pub mod sessions;
pub mod slots;
pub mod texts;
pub mod turns;
