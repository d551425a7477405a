//! 1C:Enterprise specifics: connection strings, the infobase list, cache
//! folders and the platform's programs.
pub mod cache;
pub mod connection;
pub mod ibases;
pub mod ibcmd;
pub mod launcher;
