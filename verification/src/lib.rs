//! A verified core for a command-line HTTP request tool: a parser for the
//! `key<operator>value` request-item mini-language, a resolver for the
//! body-encoding mode, an assembler that folds the parsed items into a
//! method/URI/headers/body tuple, and a renderer for the textual preview.

pub mod assemble;
pub mod collab;
pub mod item;
pub mod render;
pub mod strutil;
