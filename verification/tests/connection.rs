use baza::onec::connection::{parse, parse_fields, ConnectionError, Target};

fn target_text(s: &str) -> String {
    parse(s).unwrap().to_string()
}

#[test]
fn parses_file_target() {
    match parse("File=\"C:\\base\";").unwrap() {
        Target::File(p) => assert_eq!(p, "C:\\base"),
        other => panic!("unexpected {other:?}"),
    }
}

#[test]
fn parses_server_target() {
    match parse("Srvr=\"srv\";Ref=\"base\"").unwrap() {
        Target::Server { srvr, refname } => {
            assert_eq!(srvr, "srv");
            assert_eq!(refname, "base");
        }
        other => panic!("unexpected {other:?}"),
    }
}

#[test]
fn keys_are_case_sensitive() {
    assert!(matches!(parse("SRVR=\"a\";REF=\"b\";").unwrap_err(), ConnectionError::NoTarget));
    assert!(matches!(parse("file=\"a\";").unwrap_err(), ConnectionError::NoTarget));
    let f = parse_fields("File=\"a\";file=\"b\"").unwrap();
    assert_eq!(f.get(&"File".to_string()), Some("a".to_string()));
    assert_eq!(f.get(&"file".to_string()), Some("b".to_string()));
}

#[test]
fn parses_web_target() {
    assert_eq!(target_text("ws=\"http://host/base\";"), "Web=http://host/base");
}

#[test]
fn file_wins_over_server_and_web() {
    assert_eq!(target_text("ws=\"u\";Srvr=\"s\";Ref=\"r\";File=\"f\";"), "File=f");
    assert_eq!(target_text("ws=\"u\";Srvr=\"s\";Ref=\"r\";"), "Srvr=s;Ref=r");
    assert_eq!(target_text("ws=\"u\";Srvr=\"s\";"), "Web=u");
}

#[test]
fn last_duplicate_key_wins_and_whitespace_is_skipped() {
    assert_eq!(target_text("  File = \"a\" ;; File=\"b\"  "), "File=b");
    assert_eq!(target_text("  File = \"a\" ;; file=\"b\"  "), "File=a");
}

#[test]
fn values_are_verbatim() {
    assert_eq!(target_text("File=\" C:\\a b;c=d \""), "File= C:\\a b;c=d ");
}

#[test]
fn no_target_is_refused() {
    let e = parse("Usr=\"admin\";").unwrap_err();
    assert!(matches!(e, ConnectionError::NoTarget));
    assert_eq!(e.message(), "connection string contains no recognized target (File, Srvr+Ref, or ws)");
    assert!(matches!(parse("").unwrap_err(), ConnectionError::NoTarget));
    assert!(matches!(parse("Srvr=\"s\"").unwrap_err(), ConnectionError::NoTarget));
}

#[test]
fn missing_equals_is_refused_with_snippet() {
    let e = parse("File=\"a\"; garbage").unwrap_err();
    assert_eq!(e.message(), "expected '=' near: garbage");
    let long = "abcdefghijklmnopqrstuvwxyz0123456789";
    let e = parse(long).unwrap_err();
    assert_eq!(e.message(), "expected '=' near: abcdefghijklmnopqrstuvwxyz0123…");
}

#[test]
fn empty_key_is_refused() {
    let e = parse("  =\"x\"").unwrap_err();
    assert_eq!(e.message(), "empty key near: =\"x\"");
}

#[test]
fn missing_quote_is_refused() {
    let e = parse("File= C:\\x").unwrap_err();
    assert_eq!(e.message(), "expected '\"' after '=' for key 'File'");
}

#[test]
fn unterminated_value_is_refused() {
    let e = parse("File=\"C:\\x").unwrap_err();
    assert_eq!(e.message(), "unterminated value for key 'File'");
}

#[test]
fn fields_round_trip() {
    let f = parse_fields("Key=\"v1\";Other Key=\"v 2\";").unwrap();
    assert_eq!(f.get(&"Key".to_string()), Some("v1".to_string()));
    assert_eq!(f.get(&"Other Key".to_string()), Some("v 2".to_string()));
    assert_eq!(f.get(&"key".to_string()), None);
}

#[test]
fn target_display() {
    assert_eq!(Target::File("C:\\b".to_string()).to_string(), "File=C:\\b");
    assert_eq!(Target::Web("http://h".to_string()).to_string(), "Web=http://h");
    assert_eq!(
        Target::Server { srvr: "s".to_string(), refname: "r".to_string() }.to_string(),
        "Srvr=s;Ref=r"
    );
}
