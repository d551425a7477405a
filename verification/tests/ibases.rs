use baza::onec::ibases::{extract_ids, Ibases};

#[test]
fn extracts_ids_from_typical_file() {
    let content = "\
[test base]
Connect=File=\"c:\\foo\"
ID=b703bef2-4068-49f4-a7c3-06729c863e41
OrderInList=1

[another base]
Connect=File=\"c:\\bar\"
ID=7571f760-527e-4eb4-9188-0d3ca6634b05
OrderInList=2
";
    let ids = extract_ids(content);
    assert_eq!(ids.len(), 2);
    assert!(ids.contains("b703bef2-4068-49f4-a7c3-06729c863e41"));
    assert!(ids.contains("7571f760-527e-4eb4-9188-0d3ca6634b05"));
}

#[test]
fn case_normalises_ids() {
    let content = "ID=AAAA1111-BBBB-CCCC-DDDD-EEEEEEEEEEEE";
    let ids = extract_ids(content);
    assert!(ids.contains("aaaa1111-bbbb-cccc-dddd-eeeeeeeeeeee"));
}

#[test]
fn ids_are_trimmed_and_crlf_lines_read() {
    let ids = extract_ids("  ID=  abc \r\nID=abc\r\nID=Def\r\n  [x]\r\n");
    assert_eq!(ids.len(), 2);
    assert!(ids.contains("abc"));
    assert!(ids.contains("def"));
    assert!(!ids.contains("Def"));
}

#[test]
fn no_ids_in_empty_text() {
    assert_eq!(extract_ids("").len(), 0);
    assert_eq!(extract_ids("\n\n[base]\nConnect=File=\"x\"").len(), 0);
}

fn is_uuid_v4_text(s: &str) -> bool {
    let b = s.as_bytes();
    b.len() == 36
        && b.iter().enumerate().all(|(i, c)| match i {
            8 | 13 | 18 | 23 => *c == b'-',
            _ => c.is_ascii_digit() || (b'a'..=b'f').contains(c),
        })
        && b[14] == b'4'
        && [b'8', b'9', b'a', b'b'].contains(&b[19])
}

#[test]
fn register_base_appends_section_with_fresh_id() {
    let mut ib = Ibases::new("ibases.v8i".to_string(), "[old]\r\nID=b703bef2-4068-49f4-a7c3-06729c863e41".to_string());
    let id = ib.register_base("new base", "File=\"C:\\b\"").unwrap();
    assert!(is_uuid_v4_text(&id));
    let expected = format!(
        "[old]\r\nID=b703bef2-4068-49f4-a7c3-06729c863e41\r\n[new base]\r\nConnect=File=\"C:\\b\"\r\nID={id}\r\nOrderInList=-1\r\nFolder=/baza\r\nExternal=0\r\n"
    );
    assert_eq!(ib.content(), &expected);
    let ids = ib.registered_ids();
    assert_eq!(ids.len(), 2);
    assert!(ids.contains(&id));
    assert!(ib.contains_name("new base"));
    assert!(ib.contains_name("old"));
    assert!(!ib.contains_name("other"));
}

#[test]
fn register_folder_keeps_existing_crlf_end() {
    let mut ib = Ibases::new("p".to_string(), "[a]\r\n".to_string());
    let id = ib.register_folder("baza").unwrap();
    assert!(is_uuid_v4_text(&id));
    assert_eq!(
        ib.content(),
        &format!("[a]\r\n[baza]\r\nID={id}\r\nOrderInList=-1\r\nFolder=/\r\nExternal=0\r\n")
    );
    assert!(ib.contains_name("baza"));
}

#[test]
fn unique_ids_differ_from_registered() {
    let ib = Ibases::new("p".to_string(), "ID=7571f760-527e-4eb4-9188-0d3ca6634b05\r\n".to_string());
    let id = ib.unique_id().unwrap();
    assert!(is_uuid_v4_text(&id));
    assert!(!ib.registered_ids().contains(&id));
}

#[test]
fn failed_save_discards_registrations() {
    let mut ib = Ibases::new("p".to_string(), "[a]".to_string());
    ib.register_folder("f").unwrap();
    ib.discard_unsaved();
    assert_eq!(ib.content(), "[a]");
    ib.register_folder("g").unwrap();
    ib.mark_saved();
    let saved = ib.content().clone();
    ib.register_base("h", "ws=\"x\"").unwrap();
    ib.discard_unsaved();
    assert_eq!(ib.content(), &saved);
    assert_eq!(ib.path(), "p");
}

#[test]
fn contains_name_trims_lines() {
    let ib = Ibases::new("p".to_string(), "x\n   [base one]  \r\nID=1".to_string());
    assert!(ib.contains_name("base one"));
    assert!(!ib.contains_name("base"));
}

#[test]
fn id_set_to_vec_lists_each_once() {
    let ids = extract_ids("ID=a\nID=b\nID=A\n");
    let mut v = ids.to_vec();
    v.sort();
    assert_eq!(v, vec!["a".to_string(), "b".to_string()]);
}

#[test]
fn registration_succeeds_where_no_uuid_is_registered() {
    let mut ib = Ibases::new("p".to_string(), String::new());
    assert!(ib.unique_id().is_some());
    let id = ib.register_folder("baza").unwrap();
    assert!(is_uuid_v4_text(&id));
    let mut ib2 = Ibases::new("p".to_string(), "ID=not-a-uuid\r\n".to_string());
    assert!(ib2.register_base("b", "File=\"x\"").is_some());
}

#[test]
fn registered_base_is_a_section_whatever_its_connection_string() {
    let mut ib = Ibases::new("p".to_string(), String::new());
    ib.register_base("multi", "File=\"x\"\n[fake]\nID=zzz").unwrap();
    assert!(ib.contains_name("multi"));
    assert!(ib.contains_name("fake"));
}
