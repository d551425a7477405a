//! Settings: the database servers, platform hints and default credentials.
use vstd::prelude::*;

use crate::text::{decimal, decimal_string};

verus! {

/// Infobase credentials; either part may be absent.
#[derive(Debug)]
pub struct Credentials {
    pub username: Option<String>,
    pub password: Option<String>,
}

/// Platform architecture.
#[derive(Debug, Clone, Copy, PartialEq, Eq, Structural, PartialOrd, Ord, Hash)]
pub enum PlatformArch {
    X86,
    X86_64,
}

/// The kind of database server.
#[derive(Debug, Clone, Copy, PartialEq, Eq, Structural)]
pub enum ServerKind {
    Postgres,
    Mssql,
}

/// A database server that holds infobases.
#[derive(Debug)]
pub struct Server {
    pub kind: ServerKind,
    pub host: String,
    pub port: Option<u16>,
    pub user: String,
    pub password: String,
}

/// The settings file: paths and defaults, and the configured servers in order.
#[derive(Debug)]
pub struct Config {
    pub launcher_path: Option<String>,
    pub ibcmd_path: Option<String>,
    pub default_platform_arch: Option<PlatformArch>,
    pub default_platform_version: Option<String>,
    pub default_ib_username: Option<String>,
    pub default_ib_password: Option<String>,
    pub servers: Vec<Server>,
}

impl Default for Config {
    /// The empty settings: nothing set and no servers.
    fn default() -> (c: Config)
        ensures
            c.launcher_path is None,
            c.ibcmd_path is None,
            c.default_platform_arch is None,
            c.default_platform_version is None,
            c.default_ib_username is None,
            c.default_ib_password is None,
            c.servers@.len() == 0,
    {
        Config {
            launcher_path: None,
            ibcmd_path: None,
            default_platform_arch: None,
            default_platform_version: None,
            default_ib_username: None,
            default_ib_password: None,
            servers: Vec::new(),
        }
    }
}

/// The port a server of this kind listens on unless told otherwise.
pub open spec fn default_port_of(kind: ServerKind) -> u16 {
    match kind {
        ServerKind::Postgres => 5432,
        ServerKind::Mssql => 1433,
    }
}

/// The port to connect to: the one set, else the kind's default.
pub open spec fn effective_port_of(kind: ServerKind, port: Option<u16>) -> u16 {
    match port {
        Some(p) => p,
        None => default_port_of(kind),
    }
}

/// How a server is shown: `host:port`.
pub open spec fn server_text(host: Seq<char>, port: u16) -> Seq<char> {
    host + ":"@ + decimal(port as nat)
}

impl Server {
    /// The port a server of `kind` listens on unless told otherwise:
    /// 5432 for PostgreSQL, 1433 for MS SQL.
    pub fn default_port(kind: ServerKind) -> (p: u16)
        ensures
            p == default_port_of(kind),
    {
        match kind {
            ServerKind::Postgres => 5432,
            ServerKind::Mssql => 1433,
        }
    }

    /// The port to connect to: the configured one, else the kind's default.
    pub fn effective_port(&self) -> (p: u16)
        ensures
            p == effective_port_of(self.kind, self.port),
    {
        match self.port {
            Some(q) => q,
            None => Self::default_port(self.kind),
        }
    }

    /// The server as shown to the user: `host:port`, with the port it is
    /// reached on (the kind's default where none is set).
    pub fn to_string(&self) -> (s: String)
        ensures
            s@ == server_text(self.host@, effective_port_of(self.kind, self.port)),
    {
        let p = self.effective_port();
        self.host.clone().concat(":").concat(decimal_string(p as u64).as_str())
    }
}

} // verus!
