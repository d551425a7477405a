use baza::cli::RunArgs;
use baza::onec::connection::Target;
use baza::onec::launcher::{launch_args, launcher_not_found_message, launcher_source, missing_file_message, LauncherSource};

fn run_args() -> RunArgs {
    RunArgs {
        target: None,
        base: None,
        stdin: false,
        username: Some("u".to_string()),
        password: None,
        auth: false,
        designer: false,
        x86: false,
        x86_64: false,
    }
}

#[test]
fn launch_args_for_file_base() {
    let a = run_args();
    let v = launch_args(&a, &Target::File("C:\\b".to_string()), None, None);
    assert_eq!(v, vec!["ENTERPRISE", "/F", "C:\\b", "/N", "u"]);
}

#[test]
fn launch_args_designer_server_with_arch() {
    let mut a = run_args();
    a.designer = true;
    a.x86 = true;
    a.password = Some("p".to_string());
    let t = Target::Server { srvr: "srv".to_string(), refname: "base".to_string() };
    let v = launch_args(&a, &t, None, None);
    assert_eq!(v, vec!["DESIGNER", "/S", "srv/base", "/N", "u", "/P", "p", "/AppArch", "x86"]);
}

#[test]
fn launch_args_prompted_credentials() {
    let mut a = run_args();
    a.auth = true;
    a.x86_64 = true;
    let v = launch_args(&a, &Target::Web("http://h/b".to_string()), Some("typed".to_string()), Some("pw".to_string()));
    assert_eq!(v, vec!["ENTERPRISE", "/WS", "http://h/b", "/N", "typed", "/P", "pw", "/AppArch", "x86_64"]);
    let v = launch_args(&a, &Target::Web("w".to_string()), None, Some("pw".to_string()));
    assert_eq!(v, vec!["ENTERPRISE", "/WS", "w", "/P", "pw", "/AppArch", "x86_64"]);
}

#[test]
fn launcher_source_order() {
    match launcher_source(Some("e".to_string()), Some("c".to_string())) {
        LauncherSource::Explicit { source, path } => {
            assert_eq!(source, "BAZA_LAUNCHER_PATH");
            assert_eq!(path, "e");
        }
        other => panic!("unexpected {other:?}"),
    }
    match launcher_source(None, Some("c".to_string())) {
        LauncherSource::Explicit { source, path } => {
            assert_eq!(source, "config.launcher_path");
            assert_eq!(path, "c");
        }
        other => panic!("unexpected {other:?}"),
    }
    assert!(matches!(launcher_source(None, None), LauncherSource::Standard));
}

#[test]
fn launcher_messages() {
    assert_eq!(missing_file_message("BAZA_LAUNCHER_PATH", "x"), "BAZA_LAUNCHER_PATH points to a non-existent file: x");
    assert_eq!(
        launcher_not_found_message(&vec!["a".to_string(), "b".to_string()]),
        "1cestart.exe not found. Checked:\n  - a\n  - b"
    );
    assert_eq!(launcher_not_found_message(&vec![]), "1cestart.exe not found. Checked:\n");
}
