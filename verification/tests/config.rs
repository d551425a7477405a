use baza::config::{Config, Server, ServerKind};
use baza::text::{decimal_string, trimmed, without_line_breaks, bullet_lines};

#[test]
fn server_display_and_ports() {
    let s = Server { kind: ServerKind::Postgres, host: "pg-server".into(), port: None, user: "sa".into(), password: "x".into() };
    assert_eq!(s.to_string(), "pg-server:5432");
    assert_eq!(s.effective_port(), 5432);
    let m = Server { kind: ServerKind::Mssql, host: "sql".into(), port: None, user: "sa".into(), password: "x".into() };
    assert_eq!(m.effective_port(), 1433);
    assert_eq!(m.to_string(), "sql:1433");
    let p = Server { kind: ServerKind::Mssql, host: "sql".into(), port: Some(0), user: "sa".into(), password: "x".into() };
    assert_eq!(p.to_string(), "sql:0");
    assert_eq!(p.effective_port(), 0);
    let q = Server { kind: ServerKind::Postgres, host: "h".into(), port: Some(65535), user: "u".into(), password: "p".into() };
    assert_eq!(q.to_string(), "h:65535");
    assert_eq!(Server::default_port(ServerKind::Postgres), 5432);
}

#[test]
fn default_config_is_empty() {
    let c = Config::default();
    assert!(c.launcher_path.is_none() && c.ibcmd_path.is_none());
    assert!(c.default_platform_arch.is_none() && c.default_platform_version.is_none());
    assert!(c.default_ib_username.is_none() && c.default_ib_password.is_none());
    assert!(c.servers.is_empty());
}

#[test]
fn decimal_rendering() {
    assert_eq!(decimal_string(0), "0");
    assert_eq!(decimal_string(7), "7");
    assert_eq!(decimal_string(10), "10");
    assert_eq!(decimal_string(1467), "1467");
    assert_eq!(decimal_string(u64::MAX), "18446744073709551615");
}

#[test]
fn input_cleanup() {
    assert_eq!(without_line_breaks("File=\"x\"\r\n"), "File=\"x\"");
    assert_eq!(without_line_breaks(" a \n\r\n"), " a ");
    assert_eq!(without_line_breaks(""), "");
    assert_eq!(trimmed("  a b \t\n"), "a b");
    assert_eq!(trimmed("\u{3000}x\u{a0}"), "x");
    assert_eq!(trimmed("   "), "");
    assert_eq!(bullet_lines(&vec!["one".to_string()]), "  - one");
}
