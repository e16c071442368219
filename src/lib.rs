//! noterm: terminal input bytes decoded into typed events, and the escape sequences of
//! terminal commands.

pub mod ansi;
pub mod attributes;
pub mod colors;
pub mod cursor;
pub mod events;
pub mod io;
pub mod parser;
pub mod stream;
pub mod style;
pub mod terminal;
