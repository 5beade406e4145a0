//! Verified core of the pigeon notification daemon: the template lexer and
//! renderer, colour handling, configuration resolution, queue and lifecycle
//! decisions, layout geometry and sound file parsing.

pub mod lemmas;
pub mod text;
pub mod lexer;
pub mod string_map;
pub mod name_map;
pub mod notification;
pub mod config;
pub mod daemon;
pub mod render;
pub mod sound;
pub mod layout;
pub mod images;
pub mod cli;
pub mod events;
pub mod history;
