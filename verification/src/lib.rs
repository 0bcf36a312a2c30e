//! The logic of a museum companion: it finds out which artwork a visitor stands in
//! front of, keeps the conversation about it, and watches the time.

pub mod audio;
pub mod chunks;
pub mod clock;
pub mod config;
pub mod delivery;
pub mod discord;
pub mod json;
pub mod laws;
pub mod llm;
pub mod matching;
pub mod replies;
pub mod score;
pub mod search;
pub mod session;
pub mod telegram;
pub mod text;
pub mod turns;
pub mod types;
pub mod wav;
