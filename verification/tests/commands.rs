use baza::cli::{DumpArgs, RunArgs};
use baza::commands::check::{check_line, ordered_lines, select_servers, CheckError, CheckOutcome};
use baza::commands::clean::{entry_line, failure_line, freed_verb, removal_prefix, removals, summary_line};
use baza::onec::cache::CacheEntry;
use baza::commands::dump::{find_server, ib_credentials, needs_password_prompt, needs_username_prompt};
use baza::commands::run::{input_source, resolve_target, InputSource, RunError};
use baza::config::{Server, ServerKind};
use baza::onec::connection::Target;

fn run_args(stdin: bool, target: Option<&str>, base: Option<&str>) -> RunArgs {
    RunArgs {
        target: target.map(|s| s.to_string()),
        base: base.map(|s| s.to_string()),
        stdin,
        username: None,
        password: None,
        auth: false,
        designer: false,
        x86: false,
        x86_64: false,
    }
}

#[test]
fn input_sources() {
    assert_eq!(input_source(&run_args(true, None, None)), Some(InputSource::Stdin));
    assert_eq!(input_source(&run_args(false, None, None)), Some(InputSource::Clipboard));
    assert_eq!(input_source(&run_args(false, Some("x"), None)), None);
    assert_eq!(input_source(&run_args(false, None, Some("b"))), None);
}

#[test]
fn resolve_server_and_base() {
    match resolve_target(&run_args(false, Some("myserver"), Some("mybase")), None).unwrap() {
        Target::Server { srvr, refname } => {
            assert_eq!(srvr, "myserver");
            assert_eq!(refname, "mybase");
        }
        other => panic!("unexpected {other:?}"),
    }
}

#[test]
fn resolve_from_argument_stdin_and_clipboard() {
    let t = resolve_target(&run_args(false, Some("File=\"C:\\base\""), None), None).unwrap();
    assert_eq!(t.to_string(), "File=C:\\base");
    let t = resolve_target(&run_args(true, None, None), Some("Srvr=\"srv\";Ref=\"base\"".to_string())).unwrap();
    assert_eq!(t.to_string(), "Srvr=srv;Ref=base");
    let t = resolve_target(&run_args(false, None, None), Some("ws=\"http://srv/base\"".to_string())).unwrap();
    assert_eq!(t.to_string(), "Web=http://srv/base");
}

#[test]
fn resolve_failures() {
    let e = resolve_target(&run_args(false, None, None), Some("  \n".to_string())).unwrap_err();
    assert!(matches!(e, RunError::ClipboardEmpty));
    assert_eq!(e.message(), "no target specified and clipboard is empty");
    assert!(matches!(resolve_target(&run_args(false, None, None), None).unwrap_err(), RunError::ClipboardEmpty));
    let e = resolve_target(&run_args(false, None, Some("b")), None).unwrap_err();
    assert_eq!(e.message(), "base name given without server name");
    let e = resolve_target(&run_args(true, None, None), None).unwrap_err();
    assert!(matches!(e, RunError::StdinUnavailable));
    let e = resolve_target(&run_args(false, Some("Usr=\"x\""), None), None).unwrap_err();
    assert_eq!(e.message(), "connection string contains no recognized target (File, Srvr+Ref, or ws)");
    let e = resolve_target(&run_args(false, Some("File=C:\\x"), None), None).unwrap_err();
    assert_eq!(e.message(), "expected '\"' after '=' for key 'File'");
}

#[test]
fn resolve_bare_path_and_url() {
    match resolve_target(&run_args(false, Some("C:\\bases\\mybase"), None), None).unwrap() {
        Target::File(p) => assert_eq!(p, "C:\\bases\\mybase"),
        other => panic!("unexpected {other:?}"),
    }
    match resolve_target(&run_args(false, Some("http://srv/base"), None), None).unwrap() {
        Target::Web(u) => assert_eq!(u, "http://srv/base"),
        other => panic!("unexpected {other:?}"),
    }
    let t = resolve_target(&run_args(false, Some("HTTPS://srv/base"), None), None).unwrap();
    assert_eq!(t.to_string(), "Web=HTTPS://srv/base");
    let t = resolve_target(&run_args(false, Some("httpx://srv"), None), None).unwrap();
    assert_eq!(t.to_string(), "File=httpx://srv");
}

fn srv(host: &str, port: Option<u16>) -> Server {
    Server { kind: ServerKind::Postgres, host: host.to_string(), port, user: "u".to_string(), password: "p".to_string() }
}

#[test]
fn find_server_takes_first_match() {
    let servers = vec![srv("a", None), srv("b", Some(1)), srv("b", Some(2))];
    assert_eq!(find_server(&servers, "b"), Some(1));
    assert_eq!(find_server(&servers, "c"), None);
}

fn dump_args(u: Option<&str>, p: Option<&str>) -> DumpArgs {
    DumpArgs {
        server: "s".to_string(),
        name: "n".to_string(),
        ib_username: u.map(|s| s.to_string()),
        ib_password: p.map(|s| s.to_string()),
        arch: None,
        platform_version: None,
        out: None,
        verbose: false,
    }
}

#[test]
fn credentials_from_arguments_or_prompts() {
    let a = dump_args(None, None);
    assert!(needs_username_prompt(&a));
    assert!(needs_password_prompt(&a));
    assert!(ib_credentials(&a, None, None).is_none());
    assert!(ib_credentials(&a, Some("admin".to_string()), None).is_none());
    let c = ib_credentials(&a, Some("admin".to_string()), Some("pw".to_string())).unwrap();
    assert_eq!(c.username.as_deref(), Some("admin"));
    assert_eq!(c.password.as_deref(), Some("pw"));
    let a = dump_args(Some("x"), None);
    assert!(!needs_username_prompt(&a));
    assert!(needs_password_prompt(&a));
    let c = ib_credentials(&a, Some("admin".to_string()), Some("pw".to_string())).unwrap();
    assert_eq!(c.username.as_deref(), Some("x"));
    assert_eq!(c.password.as_deref(), Some("pw"));
    assert!(ib_credentials(&a, None, None).is_none());
    let a = dump_args(Some("x"), Some("y"));
    assert!(!needs_username_prompt(&a));
    assert!(!needs_password_prompt(&a));
    let c = ib_credentials(&a, None, None).unwrap();
    assert_eq!(c.username.as_deref(), Some("x"));
    assert_eq!(c.password.as_deref(), Some("y"));
}

#[test]
fn select_servers_filters_by_host() {
    let servers = vec![srv("a", None), srv("b", Some(1)), srv("a", Some(2))];
    let v = select_servers(servers, Some("a".to_string())).unwrap();
    assert_eq!(v.len(), 2);
    assert_eq!(v[0].port, None);
    assert_eq!(v[1].port, Some(2));
    let e = select_servers(vec![srv("a", None)], Some("z".to_string())).unwrap_err();
    assert_eq!(e.message(), "Server not found: 'z'");
    let e = select_servers(vec![], None).unwrap_err();
    assert!(matches!(e, CheckError::NoServers));
    assert_eq!(e.message(), "No servers configured.");
    assert_eq!(select_servers(vec![srv("a", None), srv("b", None)], None).unwrap().len(), 2);
}

#[test]
fn check_lines() {
    let s = srv("pg", Some(5432));
    assert_eq!(check_line(&s, CheckOutcome::Exists(true), false, ""), Some("pg:5432".to_string()));
    assert_eq!(check_line(&s, CheckOutcome::Exists(false), false, ""), None);
    assert_eq!(check_line(&s, CheckOutcome::Size(Some(1234)), true, "1.2 KB"), Some("pg:5432: 1234 bytes".to_string()));
    assert_eq!(check_line(&s, CheckOutcome::Size(Some(1234)), false, "1.2 KB"), Some("pg:5432: 1.2 KB".to_string()));
    assert_eq!(check_line(&s, CheckOutcome::Size(None), false, ""), None);
    assert_eq!(check_line(&s, CheckOutcome::Failed("boom".to_string()), false, ""), Some("error: boom".to_string()));
    assert_eq!(check_line(&srv("h", None), CheckOutcome::Exists(true), false, ""), Some("h:5432".to_string()));
    let m = Server { kind: ServerKind::Mssql, host: "sql".to_string(), port: None, user: "u".to_string(), password: "p".to_string() };
    assert_eq!(check_line(&m, CheckOutcome::Size(Some(5)), true, ""), Some("sql:1433: 5 bytes".to_string()));
}

#[test]
fn sync_lines_follow_server_order() {
    let results = vec![
        (2, Some("c".to_string())),
        (0, Some("a".to_string())),
        (3, None),
        (1, Some("b".to_string())),
    ];
    assert_eq!(ordered_lines(results), vec!["a", "b", "c"]);
    assert_eq!(ordered_lines(vec![(1, Some("x".to_string())), (1, Some("y".to_string())), (0, None)]), vec!["x", "y"]);
}

#[test]
fn clean_words() {
    assert_eq!(removal_prefix(true), "would remove");
    assert_eq!(removal_prefix(false), "removing");
    assert_eq!(freed_verb(true), "would free");
    assert_eq!(freed_verb(false), "freed");
}

#[test]
fn clean_plan_and_lines() {
    let entries = vec![
        CacheEntry { path: "C:/c/a".to_string(), id: "a".to_string() },
        CacheEntry { path: "C:/c/b".to_string(), id: "b".to_string() },
    ];
    assert!(removals(&entries, true).is_empty());
    assert_eq!(removals(&entries, false), vec!["C:/c/a", "C:/c/b"]);
    assert_eq!(entry_line(true, "C:/c/a", "1.0 KB"), "would remove: C:/c/a (1.0 KB)");
    assert_eq!(entry_line(false, "C:/c/a", "1.0 KB"), "removing: C:/c/a (1.0 KB)");
    assert_eq!(summary_line(2, true, "2.0 KB"), "\n2 cache folders, would free 2.0 KB");
    assert_eq!(summary_line(12, false, "0 B"), "\n12 cache folders, freed 0 B");
    assert_eq!(failure_line(0), None);
    assert_eq!(failure_line(3), Some("3 cache folder(s) could not be removed".to_string()));
}
