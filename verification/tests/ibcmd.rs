use baza::config::{Config, Credentials, PlatformArch, Server, ServerKind};
use baza::onec::ibcmd::{
    dated_dump_path, discovery_outcome, pinned_outcome, dump_args, dump_out_path, highest_version,
    ibcmd_source, is_version_format, parse_version, version_less, DiscoveryError, IbcmdSource,
};

#[test]
fn parses_four_part_versions() {
    assert_eq!(parse_version("8.3.19.1467"), Some([8, 3, 19, 1467]));
    assert_eq!(parse_version("0.0.0.0"), Some([0, 0, 0, 0]));
    assert_eq!(parse_version("4294967295.1.2.3"), Some([4294967295, 1, 2, 3]));
}

#[test]
fn rejects_malformed_versions() {
    assert_eq!(parse_version(""), None);
    assert_eq!(parse_version("8.3.19"), None);
    assert_eq!(parse_version("8.3.19.1467.1"), None);
    assert_eq!(parse_version("8.3.19.1467."), None);
    assert_eq!(parse_version("8..19.1467"), None);
    assert_eq!(parse_version("8.3.x.1467"), None);
    assert_eq!(parse_version("8.3.-1.1467"), None);
    assert_eq!(parse_version("4294967296.1.2.3"), None);
    assert_eq!(parse_version("8.3.+.1"), None);
    assert_eq!(parse_version("+8.3.19.1467"), None);
    assert_eq!(parse_version("8.+3.19.1467"), None);
    assert_eq!(parse_version(" 8.3.19.1467"), None);
    assert!(!is_version_format("+8.3.25.1517"));
    assert!(is_version_format("8.3.25.1517"));
    assert!(!is_version_format("8.3.25"));
}

#[test]
fn versions_compare_part_by_part() {
    assert!(version_less(&[8, 3, 19, 1467], &[8, 3, 20, 1]));
    assert!(!version_less(&[8, 3, 20, 1], &[8, 3, 19, 1467]));
    assert!(!version_less(&[8, 3, 20, 1], &[8, 3, 20, 1]));
    let lo = parse_version("8.3.9.100").unwrap();
    let hi = parse_version("8.3.19.1").unwrap();
    assert!(version_less(&lo, &hi));
    assert!(!version_less(&hi, &lo));
}

#[test]
fn version_text_round_trip() {
    for v in [[0u32, 0, 0, 0], [8, 3, 19, 1467], [4294967295, 10, 100, 1000]] {
        let text = format!("{}.{}.{}.{}", v[0], v[1], v[2], v[3]);
        assert_eq!(parse_version(&text), Some(v));
    }
}

#[test]
fn equal_versions_prefer_the_first_architecture() {
    let found = vec![
        ([8, 3, 25, 1517], "C:\\Program Files\\1cv8\\8.3.25.1517\\bin\\ibcmd.exe".to_string()),
        ([8, 3, 9, 100], "C:\\Program Files\\1cv8\\8.3.9.100\\bin\\ibcmd.exe".to_string()),
        ([8, 3, 25, 1517], "C:\\Program Files (x86)\\1cv8\\8.3.25.1517\\bin\\ibcmd.exe".to_string()),
    ];
    assert_eq!(
        discovery_outcome(found, vec![]).unwrap(),
        "C:\\Program Files\\1cv8\\8.3.25.1517\\bin\\ibcmd.exe"
    );
}

#[test]
fn highest_version_takes_first_of_equals() {
    let found = vec![
        ([8, 3, 19, 1467], "a".to_string()),
        ([8, 3, 25, 1517], "b".to_string()),
        ([8, 3, 25, 1517], "c".to_string()),
        ([8, 3, 20, 1], "d".to_string()),
    ];
    assert_eq!(highest_version(&found), Some(1));
    assert_eq!(highest_version(&Vec::new()), None);
    assert_eq!(discovery_outcome(found, vec![]).unwrap(), "b");
}

#[test]
fn discovery_failures() {
    let e = discovery_outcome(vec![], vec![]).unwrap_err();
    assert!(matches!(e, DiscoveryError::NoInstallations));
    assert_eq!(e.message(), "ibcmd.exe not found: no 1C installations discovered");
    let e = discovery_outcome(vec![], vec!["C:\\a\\ibcmd.exe".to_string(), "C:\\b\\ibcmd.exe".to_string()]).unwrap_err();
    assert_eq!(e.message(), "ibcmd.exe not found. Checked:\n  - C:\\a\\ibcmd.exe\n  - C:\\b\\ibcmd.exe");
}

fn cfg() -> Config {
    Config {
        launcher_path: None,
        ibcmd_path: Some("C:\\cfg\\ibcmd.exe".to_string()),
        default_platform_arch: Some(PlatformArch::X86),
        default_platform_version: Some("8.3.25.1517".to_string()),
        default_ib_username: None,
        default_ib_password: None,
        servers: vec![],
    }
}

#[test]
fn ibcmd_source_order() {
    let c = cfg();
    match ibcmd_source(&c, Some(PlatformArch::X86_64), None, Some("env".to_string())).unwrap() {
        IbcmdSource::Discover { archs, pinned } => {
            assert_eq!(archs, vec![PlatformArch::X86_64]);
            assert_eq!(pinned, None);
        }
        other => panic!("unexpected {other:?}"),
    }
    match ibcmd_source(&c, None, Some("8.3.1.2".to_string()), None).unwrap() {
        IbcmdSource::Discover { archs, pinned } => {
            assert_eq!(archs, vec![PlatformArch::X86_64, PlatformArch::X86]);
            assert_eq!(pinned, Some("8.3.1.2".to_string()));
        }
        other => panic!("unexpected {other:?}"),
    }
    let e = ibcmd_source(&c, None, Some("8.3".to_string()), None).unwrap_err();
    assert_eq!(e.version, "8.3");
    assert!(matches!(ibcmd_source(&c, None, None, Some("env".to_string())).unwrap(), IbcmdSource::Env(p) if p == "env"));
    assert!(matches!(ibcmd_source(&c, None, None, None).unwrap(), IbcmdSource::Config(p) if p == "C:\\cfg\\ibcmd.exe"));
    let mut c2 = cfg();
    c2.ibcmd_path = None;
    match ibcmd_source(&c2, None, None, None).unwrap() {
        IbcmdSource::Discover { archs, pinned } => {
            assert_eq!(archs, vec![PlatformArch::X86]);
            assert_eq!(pinned, Some("8.3.25.1517".to_string()));
        }
        other => panic!("unexpected {other:?}"),
    }
    c2.default_platform_version = Some("latest".to_string());
    c2.default_platform_arch = None;
    match ibcmd_source(&c2, None, None, None).unwrap() {
        IbcmdSource::Discover { archs, pinned } => {
            assert_eq!(archs, vec![PlatformArch::X86_64, PlatformArch::X86]);
            assert_eq!(pinned, None);
        }
        other => panic!("unexpected {other:?}"),
    }
}

fn server(kind: ServerKind, port: Option<u16>) -> Server {
    Server { kind, host: "db1".to_string(), port, user: "sa".to_string(), password: "pw".to_string() }
}

#[test]
fn dump_args_postgres_with_port_and_creds() {
    let creds = Credentials { username: Some("admin".to_string()), password: Some("secret".to_string()) };
    let args = dump_args(&server(ServerKind::Postgres, Some(5433)), "acc", &creds);
    assert_eq!(
        args,
        vec![
            "infobase",
            "--dbms=PostgreSQL",
            "--database-server=db1 port=5433",
            "--database-name=\"acc\"",
            "--database-user=\"sa\"",
            "--database-password=\"pw\"",
            "dump",
            "--user=\"admin\"",
            "--password=\"secret\"",
        ]
    );
}

#[test]
fn dump_args_mssql() {
    let creds = Credentials { username: None, password: Some("p".to_string()) };
    let args = dump_args(&server(ServerKind::Mssql, Some(1434)), "acc", &creds);
    assert_eq!(args[1], "--dbms=MSSQLServer");
    assert_eq!(args[2], "--database-server=db1:1434");
    assert_eq!(args.len(), 8);
    assert_eq!(args[7], "--password=\"p\"");
    let none = Credentials { username: None, password: None };
    let args = dump_args(&server(ServerKind::Mssql, None), "acc", &none);
    assert_eq!(args[2], "--database-server=\"db1\"");
    assert_eq!(args.len(), 7);
}

#[test]
fn dump_out_paths() {
    assert_eq!(dump_out_path("acc", Some("C:\\out.dt".to_string())), "C:\\out.dt");
    assert_eq!(dated_dump_path("acc", "05032025"), "./acc_05032025.dt");
    let p = dump_out_path("acc", None);
    assert!(p.starts_with("./acc_"));
    assert!(p.ends_with(".dt"));
    let date = &p["./acc_".len()..p.len() - 3];
    assert_eq!(date.len(), 8);
    assert!(date.chars().all(|c| c.is_ascii_digit()));
    let day: u32 = date[..2].parse().unwrap();
    let month: u32 = date[2..4].parse().unwrap();
    assert!((1..=31).contains(&day));
    assert!((1..=12).contains(&month));
}

#[test]
fn pinned_version_takes_first_existing_candidate() {
    let c = vec![
        ("C:\\a\\ibcmd.exe".to_string(), false),
        ("C:\\b\\ibcmd.exe".to_string(), true),
        ("C:\\c\\ibcmd.exe".to_string(), true),
    ];
    assert_eq!(pinned_outcome(&c).unwrap(), "C:\\b\\ibcmd.exe");
    let none = vec![("C:\\a\\ibcmd.exe".to_string(), false), ("C:\\b\\ibcmd.exe".to_string(), false)];
    let e = pinned_outcome(&none).unwrap_err();
    assert_eq!(e.message(), "ibcmd.exe not found. Checked:\n  - C:\\a\\ibcmd.exe\n  - C:\\b\\ibcmd.exe");
    assert!(matches!(pinned_outcome(&vec![]).unwrap_err(), DiscoveryError::NoInstallations));
}
