//! `clean`: which folders go, and what it says.
use vstd::prelude::*;

use crate::onec::cache::CacheEntry;
use crate::text::{decimal, decimal_string};

verus! {

/// What `clean` says before each folder: whether it is or would be removed.
pub fn removal_prefix(dry_run: bool) -> (s: &'static str)
    ensures
        s@ == if dry_run {
            "would remove"@
        } else {
            "removing"@
        },
{
    if dry_run {
        "would remove"
    } else {
        "removing"
    }
}

/// What `clean` says of the space: freed, or would be freed.
pub fn freed_verb(dry_run: bool) -> (s: &'static str)
    ensures
        s@ == if dry_run {
            "would free"@
        } else {
            "freed"@
        },
{
    if dry_run {
        "would free"
    } else {
        "freed"
    }
}

/// The folders `clean` removes, in the order found: none on a dry run, else
/// the path of every entry.
pub fn removals(entries: &Vec<CacheEntry>, dry_run: bool) -> (r: Vec<String>)
    ensures
        dry_run ==> r@.len() == 0,
        !dry_run ==> r@.len() == entries@.len() && forall|i: int|
            0 <= i < entries@.len() ==> #[trigger] r@[i] == entries@[i].path,
{
    let mut r: Vec<String> = Vec::new();
    if dry_run {
        return r;
    }
    let mut i: usize = 0;
    while i < entries.len()
        invariant
            i <= entries.len(),
            r@.len() == i,
            forall|j: int| 0 <= j < i ==> #[trigger] r@[j] == entries@[j].path,
        decreases entries.len() - i,
    {
        r.push(entries[i].path.clone());
        i = i + 1;
    }
    r
}

/// The line `clean` prints for one folder: `<prefix>: <path> (<size>)`, with
/// `size_text` the size written for people.
pub fn entry_line(dry_run: bool, path: &str, size_text: &str) -> (s: String)
    ensures
        s@ == (if dry_run {
            "would remove"@
        } else {
            "removing"@
        }) + ": "@ + path@ + " ("@ + size_text@ + ")"@,
{
    String::from_str(removal_prefix(dry_run)).concat(": ").concat(path).concat(" (").concat(
        size_text,
    ).concat(")")
}

/// The closing line of `clean`, after an empty one:
/// `<count> cache folders, <verb> <size>`.
pub fn summary_line(count: usize, dry_run: bool, size_text: &str) -> (s: String)
    ensures
        s@ == "\n"@ + decimal(count as nat) + " cache folders, "@ + (if dry_run {
            "would free"@
        } else {
            "freed"@
        }) + " "@ + size_text@,
{
    String::from_str("\n").concat(decimal_string(count as u64).as_str()).concat(
        " cache folders, ",
    ).concat(freed_verb(dry_run)).concat(" ").concat(size_text)
}

/// The line `clean` adds where some folders could not be removed; none where
/// all could.
pub fn failure_line(failed: usize) -> (r: Option<String>)
    ensures
        failed == 0 ==> r is None,
        failed > 0 ==> (r matches Some(s) && s@ == decimal(failed as nat)
            + " cache folder(s) could not be removed"@),
{
    if failed == 0 {
        None
    } else {
        Some(decimal_string(failed as u64).concat(" cache folder(s) could not be removed"))
    }
}

} // verus!
