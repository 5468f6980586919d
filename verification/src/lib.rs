//! Plans and drives the synchronisation of a ROM library with a handheld's SD card.
//!
//! [`screens::start`] asks the first question. Each answer of the user goes to
//! [`session::handle_response`], and each outcome of what a turn asks for to
//! [`session::resume`], until a turn ends with the next question.

pub mod cores;
pub mod json;
pub mod laws;
pub mod library;
pub mod plan;
pub mod protocol;
pub mod screens;
mod seqs;
pub mod session;
mod strings;
pub mod strmap;
pub mod text;
pub mod types;
pub mod version;

pub use screens::start;
pub use session::{can_resume, handle_response, resume};
