//! 1C cache folders: which folder names are infobase IDs, and which folders no
//! registered infobase owns.
use vstd::prelude::*;

use crate::onec::ibases::IdSet;
use crate::text::{chars_of, lower, lower_string_of};

verus! {

/// An ASCII hexadecimal digit.
pub open spec fn is_hex_digit(c: char) -> bool {
    ('0' <= c && c <= '9') || ('a' <= c && c <= 'f') || ('A' <= c && c <= 'F')
}

/// 8-4-4-4-12 hexadecimal digits separated by dashes.
pub open spec fn uuid_shaped(s: Seq<char>) -> bool {
    &&& s.len() == 36
    &&& forall|i: int|
        0 <= i < 36 ==> if i == 8 || i == 13 || i == 18 || i == 23 {
            s[i] == '-'
        } else {
            is_hex_digit(s[i])
        }
}

/// Strict UUID check: 8-4-4-4-12 hex chars separated by dashes.
pub fn looks_like_uuid(s: &str) -> (r: bool)
    ensures
        r == uuid_shaped(s@),
{
    let v = chars_of(s);
    if v.len() != 36 {
        return false;
    }
    let mut i: usize = 0;
    while i < 36
        invariant
            v@ == s@,
            v@.len() == 36,
            i <= 36,
            forall|j: int|
                0 <= j < i ==> if j == 8 || j == 13 || j == 18 || j == 23 {
                    v@[j] == '-'
                } else {
                    is_hex_digit(v@[j])
                },
        decreases 36 - i,
    {
        let c = v[i];
        if i == 8 || i == 13 || i == 18 || i == 23 {
            if c != '-' {
                return false;
            }
        } else {
            if !(('0' <= c && c <= '9') || ('a' <= c && c <= 'f') || ('A' <= c && c <= 'F')) {
                return false;
            }
        }
        i = i + 1;
    }
    true
}

/// A 1C cache folder found on disk.
#[derive(Debug)]
pub struct CacheEntry {
    /// Full path to the cache folder.
    pub path: String,
    /// UUID taken from the folder name (lowercase).
    pub id: String,
}

impl View for CacheEntry {
    type V = (Seq<char>, Seq<char>);

    open spec fn view(&self) -> (Seq<char>, Seq<char>) {
        (self.path@, self.id@)
    }
}

/// The cache entry for the folder at `path` called `name`: one where the name
/// looks like a UUID, with the name lowercased as its ID.
pub fn cache_entry(path: String, name: &str) -> (r: Option<CacheEntry>)
    ensures
        r matches Some(e) ==> uuid_shaped(name@) && e@ == (path@, lower(name@)),
        r is None ==> !uuid_shaped(name@),
{
    if looks_like_uuid(name) {
        let v = chars_of(name);
        let id = lower_string_of(&v, 0, v.len());
        assert(v@.subrange(0, v@.len() as int) == name@);
        Some(CacheEntry { path, id })
    } else {
        None
    }
}

/// The entries as pairs of path and ID.
pub open spec fn entries_view(s: Seq<CacheEntry>) -> Seq<(Seq<char>, Seq<char>)> {
    s.map_values(|e: CacheEntry| e@)
}

/// The entries, in order, whose IDs are not in `known`.
pub open spec fn unknown_entries(s: Seq<(Seq<char>, Seq<char>)>, known: Set<Seq<char>>) -> Seq<
    (Seq<char>, Seq<char>),
>
    decreases s.len(),
{
    if s.len() == 0 {
        s
    } else if known.contains(s.last().1) {
        unknown_entries(s.drop_last(), known)
    } else {
        unknown_entries(s.drop_last(), known).push(s.last())
    }
}

/// The cache entries whose IDs are NOT present in the `known` set, in order.
pub fn orphaned(entries: Vec<CacheEntry>, known: &IdSet) -> (r: Vec<CacheEntry>)
    ensures
        entries_view(r@) == unknown_entries(entries_view(entries@), known@),
{
    let ghost all = entries_view(entries@);
    let mut r: Vec<CacheEntry> = Vec::new();
    let n = entries.len();
    let mut rest = entries;
    assert(entries_view(r@) == unknown_entries(all.take(0), known@));
    let mut i: usize = 0;
    while rest.len() > 0
        invariant
            i + rest.len() == all.len(),
            all.len() == n,
            entries_view(rest@) == all.skip(i as int),
            entries_view(r@) == unknown_entries(all.take(i as int), known@),
        decreases rest.len(),
    {
        let ghost before_rest = rest@;
        let e = rest.remove(0);
        assert(e@ == entries_view(before_rest)[0]);
        assert(entries_view(rest@) == entries_view(before_rest).drop_first());
        assert(all.skip(i as int)[0] == all[i as int]);
        assert(all.skip(i + 1) == all.skip(i as int).drop_first());
        assert(all.take(i + 1).drop_last() == all.take(i as int));
        assert(all.take(i + 1).last() == all[i as int]);
        if !known.contains(e.id.as_str()) {
            let ghost before = entries_view(r@);
            r.push(e);
            assert(entries_view(r@) == before.push(e@));
        }
        i = i + 1;
    }
    assert(all.take(i as int) == all);
    r
}

} // verus!

verus! {

/// An entry is reported as orphaned exactly when its ID is not known, and the
/// report keeps the order of the scan.
pub proof fn law_orphaned_exactly_unknown(s: Seq<(Seq<char>, Seq<char>)>, known: Set<Seq<char>>)
    ensures
        forall|k: int|
            0 <= k < unknown_entries(s, known).len() ==> !known.contains(
                (#[trigger] unknown_entries(s, known)[k]).1,
            ) && s.contains(unknown_entries(s, known)[k]),
        forall|k: int|
            0 <= k < s.len() && !known.contains(#[trigger] s[k].1) ==> unknown_entries(
                s,
                known,
            ).contains(s[k]),
    decreases s.len(),
{
    if s.len() > 0 {
        let d = s.drop_last();
        law_orphaned_exactly_unknown(d, known);
        let r0 = unknown_entries(d, known);
        let r = unknown_entries(s, known);
        assert forall|k: int| 0 <= k < r.len() implies !known.contains(#[trigger] r[k].1) && s.contains(
            r[k],
        ) by {
            if k < r0.len() {
                assert(r[k] == r0[k]);
                assert(!known.contains(r0[k].1) && d.contains(r0[k]));
                let m = choose|m: int| 0 <= m < d.len() && d[m] == r0[k];
                assert(s[m] == d[m]);
            } else {
                assert(r[k] == s.last());
                assert(s[s.len() - 1] == s.last());
            }
        }
        assert forall|k: int| 0 <= k < s.len() && !known.contains(#[trigger] s[k].1) implies r.contains(
            s[k],
        ) by {
            if k < d.len() {
                assert(s[k] == d[k]);
                assert(r0.contains(d[k]));
                let m = choose|m: int| 0 <= m < r0.len() && r0[m] == d[k];
                if !known.contains(s.last().1) {
                    assert(r[m] == r0[m]);
                } else {
                    assert(r == r0);
                }
            } else {
                assert(s[k] == s.last());
                assert(r[r.len() - 1] == s.last());
            }
        }
    }
}

/// Knowing more IDs never reports more orphans: where `known` lies within
/// `more`, the orphans under `more` are exactly the orphans under `known` that
/// `more` does not know either, in the same order. With no ID known, every
/// entry is reported, in the order of the scan.
pub proof fn law_orphans_shrink(
    s: Seq<(Seq<char>, Seq<char>)>,
    known: Set<Seq<char>>,
    more: Set<Seq<char>>,
)
    requires
        known.subset_of(more),
    ensures
        unknown_entries(s, more) == unknown_entries(unknown_entries(s, known), more),
        unknown_entries(s, Set::empty()) == s,
    decreases s.len(),
{
    if s.len() > 0 {
        let d = s.drop_last();
        let x = s.last();
        law_orphans_shrink(d, known, more);
        let u = unknown_entries(d, known);
        if !known.contains(x.1) {
            assert(u.push(x).drop_last() == u);
            assert(u.push(x).last() == x);
        }
        assert(d.push(x) == s);
    }
}

} // verus!
