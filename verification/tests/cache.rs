use baza::onec::cache::{cache_entry, looks_like_uuid, orphaned, CacheEntry};
use baza::onec::ibases::IdSet;

#[test]
fn detects_valid_uuid() {
    assert!(looks_like_uuid("7571f760-527e-4eb4-9188-0d3ca6634b05"));
    assert!(looks_like_uuid("b703bef2-4068-49f4-a7c3-06729c863e41"));
}

#[test]
fn rejects_non_uuid() {
    assert!(!looks_like_uuid(""));
    assert!(!looks_like_uuid("Templates"));
    assert!(!looks_like_uuid("7571f760_527e_4eb4_9188_0d3ca6634b05"));
    assert!(!looks_like_uuid("7571f760-527e-4eb4-9188-0d3ca6634b0")); // 35 chars
    assert!(!looks_like_uuid("7571f760-527e-4eb4-9188-0d3ca6634b056")); // 37 chars
    assert!(!looks_like_uuid("xxxxxxxx-527e-4eb4-9188-0d3ca6634b05")); // non-hex
}

#[test]
fn accepts_uppercase_hex() {
    assert!(looks_like_uuid("AAAA1111-BBBB-CCCC-DDDD-EEEEEEEEEEEE"));
}

#[test]
fn rejects_non_ascii_of_uuid_length() {
    assert!(!looks_like_uuid("7571f760-527e-4eb4-9188-0d3ca6634bé"));
}

#[test]
fn cache_entry_lowercases_the_id() {
    let e = cache_entry("C:/cache/AAAA1111-BBBB-CCCC-DDDD-EEEEEEEEEEEE".to_string(), "AAAA1111-BBBB-CCCC-DDDD-EEEEEEEEEEEE").unwrap();
    assert_eq!(e.id, "aaaa1111-bbbb-cccc-dddd-eeeeeeeeeeee");
    assert_eq!(e.path, "C:/cache/AAAA1111-BBBB-CCCC-DDDD-EEEEEEEEEEEE");
    assert!(cache_entry("C:/cache/Templates".to_string(), "Templates").is_none());
}

#[test]
fn orphaned_keeps_unknown_entries_in_order() {
    let mut known = IdSet::new();
    known.insert("b703bef2-4068-49f4-a7c3-06729c863e41".to_string());
    let entries = vec![
        CacheEntry { path: "a".to_string(), id: "7571f760-527e-4eb4-9188-0d3ca6634b05".to_string() },
        CacheEntry { path: "b".to_string(), id: "b703bef2-4068-49f4-a7c3-06729c863e41".to_string() },
        CacheEntry { path: "c".to_string(), id: "aaaa1111-bbbb-cccc-dddd-eeeeeeeeeeee".to_string() },
    ];
    let left = orphaned(entries, &known);
    let paths: Vec<&str> = left.iter().map(|e| e.path.as_str()).collect();
    assert_eq!(paths, vec!["a", "c"]);
}

fn sample_entries() -> Vec<CacheEntry> {
    vec![
        CacheEntry { path: "a".to_string(), id: "7571f760-527e-4eb4-9188-0d3ca6634b05".to_string() },
        CacheEntry { path: "b".to_string(), id: "b703bef2-4068-49f4-a7c3-06729c863e41".to_string() },
        CacheEntry { path: "c".to_string(), id: "aaaa1111-bbbb-cccc-dddd-eeeeeeeeeeee".to_string() },
    ]
}

#[test]
fn more_known_ids_leave_fewer_orphans() {
    let none = IdSet::new();
    let all: Vec<String> = orphaned(sample_entries(), &none).into_iter().map(|e| e.path).collect();
    assert_eq!(all, vec!["a", "b", "c"]);
    let mut one = IdSet::new();
    one.insert("b703bef2-4068-49f4-a7c3-06729c863e41".to_string());
    let mut two = IdSet::new();
    two.insert("b703bef2-4068-49f4-a7c3-06729c863e41".to_string());
    two.insert("7571f760-527e-4eb4-9188-0d3ca6634b05".to_string());
    let under_one: Vec<String> = orphaned(sample_entries(), &one).into_iter().map(|e| e.path).collect();
    let under_two: Vec<String> = orphaned(sample_entries(), &two).into_iter().map(|e| e.path).collect();
    assert_eq!(under_one, vec!["a", "c"]);
    assert_eq!(under_two, vec!["c"]);
}
