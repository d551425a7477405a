//! The decisions of the subcommands: which target `run` opens, which server
//! `dump` uses and with which credentials, which servers `check` asks and what
//! it prints, and what `clean` says.
pub mod check;
pub mod clean;
pub mod dump;
pub mod run;
