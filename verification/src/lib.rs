//! Core of a terminal chat client: text layout, the streamed-reply decoder,
//! the conversation worker's decisions and the view state they drive.

pub mod client;
pub mod config;
pub mod cursor;
pub mod decoder;
pub mod events;
pub mod history;
pub mod ids;
pub mod json;
pub mod lines;
pub mod screen;
pub mod state;
pub mod strings;
pub mod text;
pub mod theme;
pub mod utf8;
pub mod voice;
pub mod worker;
