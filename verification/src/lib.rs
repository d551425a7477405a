//! baza — 1C infobase management: the logic behind the command-line tool.
pub mod cli;
pub mod commands;
pub mod config;
pub mod onec;
pub mod telegram;
pub mod text;
