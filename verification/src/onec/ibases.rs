//! The `ibases.v8i` list of registered infobases: reading the registered IDs and
//! names, and registering new folders and bases.
use vstd::prelude::*;

use crate::text::{
    chars_of, is_ws, lower, lower_string_of, starts_with, texts, trim, trim_bounds, trim_end,
    trim_start,
};

verus! {

/// A set of infobase IDs.
pub struct IdSet {
    ids: Vec<String>,
}

impl View for IdSet {
    type V = Set<Seq<char>>;

    closed spec fn view(&self) -> Set<Seq<char>> {
        texts(self.ids@).to_set()
    }
}

impl IdSet {
    #[verifier::type_invariant]
    closed spec fn distinct(self) -> bool {
        texts(self.ids@).no_duplicates()
    }

    /// The empty set.
    pub fn new() -> (s: IdSet)
        ensures
            s@ == Set::<Seq<char>>::empty(),
    {
        let s = IdSet { ids: Vec::new() };
        assert(texts(s.ids@).to_set() =~= Set::<Seq<char>>::empty());
        s
    }

    /// Whether `id` is in the set.
    pub fn contains(&self, id: &str) -> (r: bool)
        ensures
            r == self@.contains(id@),
    {
        let target = String::from_str(id);
        let ghost sv = texts(self.ids@);
        let mut i: usize = 0;
        while i < self.ids.len()
            invariant
                i <= self.ids.len(),
                sv == texts(self.ids@),
                target@ == id@,
                forall|j: int| 0 <= j < i ==> sv[j] != id@,
            decreases self.ids.len() - i,
        {
            if self.ids[i] == target {
                assert(sv[i as int] == id@);
                return true;
            }
            i = i + 1;
        }
        false
    }

    /// Adds `id` to the set.
    pub fn insert(&mut self, id: String)
        ensures
            final(self)@ == old(self)@.insert(id@),
    {
        proof {
            use_type_invariant(&*self);
        }
        if !self.contains(id.as_str()) {
            let ghost before = texts(self.ids@);
            let mut ids: Vec<String> = Vec::new();
            std::mem::swap(&mut ids, &mut self.ids);
            ids.push(id);
            assert(texts(ids@) == before.push(id@));
            assert(before.push(id@) == before + seq![id@]);
            proof {
                Seq::lemma_to_set_insert_commutes(before, id@);
            }
            assert(texts(ids@).to_set() =~= before.to_set().insert(id@));
            self.ids = ids;
        } else {
            assert(old(self)@.insert(id@) =~= old(self)@);
        }
    }

    /// The number of IDs in the set.
    pub fn len(&self) -> (n: usize)
        ensures
            n == self@.len(),
    {
        proof {
            use_type_invariant(self);
            texts(self.ids@).unique_seq_to_set();
        }
        self.ids.len()
    }

    /// The IDs, each once.
    pub fn to_vec(&self) -> (v: Vec<String>)
        ensures
            texts(v@).to_set() == self@,
            texts(v@).no_duplicates(),
    {
        proof {
            use_type_invariant(self);
        }
        let mut v: Vec<String> = Vec::new();
        let mut i: usize = 0;
        while i < self.ids.len()
            invariant
                i <= self.ids.len(),
                texts(v@) == texts(self.ids@).take(i as int),
            decreases self.ids.len() - i,
        {
            v.push(self.ids[i].clone());
            assert(texts(self.ids@).take(i + 1) == texts(self.ids@).take(i as int).push(
                self.ids@[i as int]@,
            ));
            i = i + 1;
        }
        assert(texts(self.ids@).take(self.ids.len() as int) == texts(self.ids@));
        v
    }
}

} // verus!

verus! {

/// The text between line feeds: `s` cut at each `\n`. A carriage return before
/// a feed stays at the end of its piece; every reader of a piece trims it, so a
/// piece reads as the line `str::lines` gives.
pub open spec fn line_pieces(s: Seq<char>) -> Seq<Seq<char>>
    decreases s.len(),
{
    if s.len() == 0 {
        seq![Seq::<char>::empty()]
    } else {
        let p = line_pieces(s.drop_last());
        if s.last() == '\n' {
            p.push(Seq::<char>::empty())
        } else {
            p.update(p.len() - 1, p.last().push(s.last()))
        }
    }
}

pub proof fn lemma_line_pieces_nonempty(s: Seq<char>)
    ensures
        line_pieces(s).len() >= 1,
    decreases s.len(),
{
    if s.len() > 0 {
        lemma_line_pieces_nonempty(s.drop_last());
    }
}

proof fn lemma_pieces_step(s: Seq<char>, k: int)
    requires
        0 <= k < s.len(),
    ensures
        line_pieces(s.take(k + 1)).len() >= line_pieces(s.take(k)).len(),
        forall|j: int|
            0 <= j < line_pieces(s.take(k)).len() - 1 ==> line_pieces(s.take(k + 1))[j]
                == line_pieces(s.take(k))[j],
{
    assert(s.take(k + 1).drop_last() == s.take(k));
    lemma_line_pieces_nonempty(s.take(k));
}

/// Every piece of a prefix but the last is a piece of the whole.
pub proof fn lemma_pieces_prefix(s: Seq<char>, k: int)
    requires
        0 <= k <= s.len(),
    ensures
        line_pieces(s).len() >= line_pieces(s.take(k)).len(),
        forall|j: int|
            0 <= j < line_pieces(s.take(k)).len() - 1 ==> line_pieces(s)[j] == line_pieces(
                s.take(k),
            )[j],
    decreases s.len() - k,
{
    if k < s.len() {
        lemma_pieces_step(s, k);
        lemma_pieces_prefix(s, k + 1);
        lemma_line_pieces_nonempty(s.take(k));
    } else {
        assert(s.take(k) == s);
    }
}

/// The ID a line declares: the rest of a trimmed line after `ID=`, trimmed and
/// ASCII-lowercased.
pub open spec fn line_id(line: Seq<char>) -> Option<Seq<char>> {
    let t = trim(line);
    if starts_with(t, "ID="@) {
        Some(lower(trim(t.skip(3))))
    } else {
        None
    }
}

/// The IDs that the lines declare.
pub open spec fn ids_of(lines: Seq<Seq<char>>) -> Set<Seq<char>> {
    Set::new(|id: Seq<char>| exists|i: int| 0 <= i < lines.len() && line_id(lines[i]) == Some(id))
}

/// The IDs registered in an `ibases.v8i` text, lowercased.
pub open spec fn registered_ids_of(content: Seq<char>) -> Set<Seq<char>> {
    ids_of(line_pieces(content))
}

/// The header line of the section called `name`.
pub open spec fn section_header(name: Seq<char>) -> Seq<char> {
    "["@ + name + "]"@
}

/// Whether some trimmed line of `content` starts with `[name]`.
pub open spec fn has_section(content: Seq<char>, name: Seq<char>) -> bool {
    exists|i: int|
        0 <= i < line_pieces(content).len() && starts_with(
            trim(#[trigger] line_pieces(content)[i]),
            section_header(name),
        )
}

proof fn lemma_ids_of_push(lines: Seq<Seq<char>>, line: Seq<char>)
    ensures
        ids_of(lines.push(line)) == (match line_id(line) {
            Some(id) => ids_of(lines).insert(id),
            None => ids_of(lines),
        }),
{
    let l2 = lines.push(line);
    let rhs = match line_id(line) {
        Some(id) => ids_of(lines).insert(id),
        None => ids_of(lines),
    };
    assert forall|id: Seq<char>| ids_of(l2).contains(id) <==> rhs.contains(id) by {
        if ids_of(l2).contains(id) {
            let i = choose|i: int| 0 <= i < l2.len() && line_id(l2[i]) == Some(id);
            if i < lines.len() {
                assert(line_id(lines[i]) == Some(id));
            }
        }
        if rhs.contains(id) {
            if ids_of(lines).contains(id) {
                let i = choose|i: int| 0 <= i < lines.len() && line_id(lines[i]) == Some(id);
                assert(l2[i] == lines[i]);
            } else {
                assert(l2[lines.len() as int] == line);
            }
        }
    }
    assert(ids_of(l2) =~= rhs);
}

/// The ID the line `v[lo..hi]` declares, if any.
fn id_of_line(v: &Vec<char>, lo: usize, hi: usize) -> (r: Option<String>)
    requires
        lo <= hi <= v.len(),
    ensures
        r matches Some(s) ==> line_id(v@.subrange(lo as int, hi as int)) == Some(s@),
        r is None ==> line_id(v@.subrange(lo as int, hi as int)) is None,
{
    proof {
        reveal_strlit("ID=");
    }
    let (a, b) = trim_bounds(v, lo, hi);
    let ghost t = v@.subrange(a as int, b as int);
    if b - a >= 3 && v[a] == 'I' && v[a + 1] == 'D' && v[a + 2] == '=' {
        assert(t.take(3) == "ID="@);
        let (c, d) = trim_bounds(v, a + 3, b);
        assert(t.skip(3) == v@.subrange(a + 3, b as int));
        Some(lower_string_of(v, c, d))
    } else {
        assert(!starts_with(t, "ID="@)) by {
            if starts_with(t, "ID="@) {
                assert(t.take(3)[0] == 'I' && t.take(3)[1] == 'D' && t.take(3)[2] == '=');
            }
        }
        None
    }
}

/// The infobase IDs registered in `content`, lowercased for comparison without
/// regard to case.
pub fn extract_ids(content: &str) -> (ids: IdSet)
    ensures
        ids@ == registered_ids_of(content@),
{
    let v = chars_of(content);
    let mut ids = IdSet::new();
    let ghost mut done: Seq<Seq<char>> = Seq::empty();
    let mut start: usize = 0;
    let mut i: usize = 0;
    assert(v@.take(0) == Seq::<char>::empty());
    assert(done.push(v@.subrange(0, 0)) == line_pieces(v@.take(0)));
    assert(ids_of(done) =~= Set::<Seq<char>>::empty());
    while i < v.len()
        invariant
            start <= i <= v.len(),
            v@ == content@,
            line_pieces(v@.take(i as int)) == done.push(v@.subrange(start as int, i as int)),
            ids@ == ids_of(done),
        decreases v.len() - i,
    {
        assert(v@.take(i + 1).drop_last() == v@.take(i as int));
        assert(v@.take(i + 1).last() == v@[i as int]);
        if v[i] == '\n' {
            let found = id_of_line(&v, start, i);
            proof {
                lemma_ids_of_push(done, v@.subrange(start as int, i as int));
            }
            if let Some(id) = found {
                ids.insert(id);
            }
            proof {
                done = done.push(v@.subrange(start as int, i as int));
            }
            assert(v@.subrange(i + 1, i + 1) == Seq::<char>::empty());
            start = i + 1;
        } else {
            assert(v@.subrange(start as int, i + 1) == v@.subrange(start as int, i as int).push(
                v@[i as int],
            ));
        }
        i = i + 1;
    }
    assert(v@.take(v.len() as int) == v@);
    let found = id_of_line(&v, start, v.len());
    proof {
        lemma_ids_of_push(done, v@.subrange(start as int, v.len() as int));
    }
    if let Some(id) = found {
        ids.insert(id);
    }
    ids
}

} // verus!

verus! {

/// Whether `v[lo..hi]` starts with `p`.
fn range_starts_with(v: &Vec<char>, lo: usize, hi: usize, p: &Vec<char>) -> (r: bool)
    requires
        lo <= hi <= v.len(),
    ensures
        r == starts_with(v@.subrange(lo as int, hi as int), p@),
{
    let ghost s = v@.subrange(lo as int, hi as int);
    if hi - lo < p.len() {
        return false;
    }
    let mut k: usize = 0;
    while k < p.len()
        invariant
            k <= p.len(),
            lo + p.len() <= hi <= v.len(),
            s == v@.subrange(lo as int, hi as int),
            forall|j: int| 0 <= j < k ==> v@[lo + j] == p@[j],
        decreases p.len() - k,
    {
        if v[lo + k] != p[k] {
            assert(s.take(p.len() as int)[k as int] != p@[k as int]);
            return false;
        }
        k = k + 1;
    }
    assert(s.take(p.len() as int) =~= p@);
    true
}

/// Whether a trimmed line of `content` starts with `[name]`.
pub fn has_section_named(content: &str, name: &str) -> (r: bool)
    ensures
        r == has_section(content@, name@),
{
    let v = chars_of(content);
    let needle = chars_of(String::from_str("[").concat(name).concat("]").as_str());
    let mut start: usize = 0;
    let mut i: usize = 0;
    let ghost mut done: Seq<Seq<char>> = Seq::empty();
    assert(v@.take(0) == Seq::<char>::empty());
    assert(done.push(v@.subrange(0, 0)) == line_pieces(v@.take(0)));
    while i < v.len()
        invariant
            start <= i <= v.len(),
            v@ == content@,
            needle@ == section_header(name@),
            line_pieces(v@.take(i as int)) == done.push(v@.subrange(start as int, i as int)),
            forall|j: int|
                0 <= j < done.len() ==> !starts_with(trim(#[trigger] done[j]), needle@),
        decreases v.len() - i,
    {
        assert(v@.take(i + 1).drop_last() == v@.take(i as int));
        assert(v@.take(i + 1).last() == v@[i as int]);
        if v[i] == '\n' {
            let (a, b) = trim_bounds(&v, start, i);
            if range_starts_with(&v, a, b, &needle) {
                proof {
                    lemma_pieces_prefix(v@, (i + 1) as int);
                    assert(line_pieces(v@.take(i + 1)) == done.push(
                        v@.subrange(start as int, i as int),
                    ).push(Seq::<char>::empty()));
                    let j = done.len() as int;
                    assert(line_pieces(v@)[j] == v@.subrange(start as int, i as int));
                    assert(starts_with(trim(line_pieces(content@)[j]), section_header(name@)));
                }
                return true;
            }
            proof {
                done = done.push(v@.subrange(start as int, i as int));
            }
            assert(v@.subrange(i + 1, i + 1) == Seq::<char>::empty());
            start = i + 1;
        } else {
            assert(v@.subrange(start as int, i + 1) == v@.subrange(start as int, i as int).push(
                v@[i as int],
            ));
        }
        i = i + 1;
    }
    assert(v@.take(v.len() as int) == v@);
    let (a, b) = trim_bounds(&v, start, v.len());
    let r = range_starts_with(&v, a, b, &needle);
    if r {
        assert(line_pieces(v@)[done.len() as int] == v@.subrange(start as int, v.len() as int));
    } else {
        assert forall|j: int| 0 <= j < line_pieces(v@).len() implies !starts_with(
            trim(#[trigger] line_pieces(v@)[j]),
            section_header(name@),
        ) by {
            if j < done.len() {
                assert(line_pieces(v@)[j] == done[j]);
            }
        }
    }
    r
}

} // verus!

verus! {

/// Whether `s` ends with `p`.
pub open spec fn ends_with(s: Seq<char>, p: Seq<char>) -> bool {
    p.len() <= s.len() && s.skip(s.len() - p.len()) == p
}

/// `content`, with a CRLF line end added unless it already ends with one.
pub open spec fn with_line_end(content: Seq<char>) -> Seq<char> {
    if ends_with(content, "\r\n"@) {
        content
    } else {
        content + "\r\n"@
    }
}

/// The section that registers the folder `name` under `id`.
pub open spec fn folder_entry(name: Seq<char>, id: Seq<char>) -> Seq<char> {
    "["@ + name + "]\r\nID="@ + id + "\r\nOrderInList=-1\r\nFolder=/\r\nExternal=0\r\n"@
}

/// The section that registers the base `name` with connection string `connect`
/// under `id`, in the `baza` folder.
pub open spec fn base_entry(name: Seq<char>, connect: Seq<char>, id: Seq<char>) -> Seq<char> {
    "["@ + name + "]\r\nConnect="@ + connect + "\r\nID="@ + id
        + "\r\nOrderInList=-1\r\nFolder=/baza\r\nExternal=0\r\n"@
}

/// No line feed in `s`.
pub open spec fn no_line_feed(s: Seq<char>) -> bool {
    forall|i: int| 0 <= i < s.len() ==> s[i] != '\n'
}

/// No whitespace in `s`.
pub open spec fn no_whitespace(s: Seq<char>) -> bool {
    forall|i: int| 0 <= i < s.len() ==> !is_ws(s[i])
}

proof fn lemma_pieces_concat(a: Seq<char>, b: Seq<char>)
    ensures
        line_pieces(a + b) == line_pieces(a).drop_last() + seq![
            line_pieces(a).last() + line_pieces(b)[0],
        ] + line_pieces(b).drop_first(),
    decreases b.len(),
{
    lemma_line_pieces_nonempty(a);
    lemma_line_pieces_nonempty(b);
    let pa = line_pieces(a);
    let d = pa.drop_last();
    let l = pa.last();
    if b.len() == 0 {
        assert(a + b == a);
        assert(line_pieces(b) == seq![Seq::<char>::empty()]);
        assert(l + Seq::<char>::empty() == l);
        assert(d + seq![l] == pa);
        assert(line_pieces(b).drop_first() == Seq::<Seq<char>>::empty());
        assert(d + seq![l] + Seq::<Seq<char>>::empty() == pa);
    } else {
        let b1 = b.drop_last();
        let c = b.last();
        lemma_pieces_concat(a, b1);
        lemma_line_pieces_nonempty(b1);
        assert((a + b).drop_last() == a + b1);
        assert((a + b).last() == c);
        let p1 = line_pieces(b1);
        let x = line_pieces(a + b1);
        assert(x == d + seq![l + p1[0]] + p1.drop_first());
        if c == '\n' {
            assert(line_pieces(b) == p1.push(Seq::<char>::empty()));
            assert(line_pieces(b)[0] == p1[0]);
            assert(line_pieces(b).drop_first() == p1.drop_first().push(Seq::<char>::empty()));
            assert(line_pieces(a + b) == x.push(Seq::<char>::empty()));
            assert(x.push(Seq::<char>::empty()) == d + seq![l + p1[0]] + p1.drop_first().push(
                Seq::<char>::empty(),
            ));
        } else {
            assert(line_pieces(b) == p1.update(p1.len() - 1, p1.last().push(c)));
            assert(line_pieces(a + b) == x.update(x.len() - 1, x.last().push(c)));
            if p1.len() == 1 {
                assert(line_pieces(b) == seq![p1[0].push(c)]);
                assert((l + p1[0]).push(c) == l + p1[0].push(c));
                assert(x.update(x.len() - 1, x.last().push(c)) == d + seq![l + p1[0].push(c)]
                    + line_pieces(b).drop_first());
            } else {
                assert(line_pieces(b)[0] == p1[0]);
                assert(line_pieces(b).drop_first() == p1.drop_first().update(
                    p1.len() - 2,
                    p1.last().push(c),
                ));
                assert(x.update(x.len() - 1, x.last().push(c)) == d + seq![l + p1[0]]
                    + line_pieces(b).drop_first());
            }
        }
    }
}

proof fn lemma_pieces_single(x: Seq<char>)
    requires
        no_line_feed(x),
    ensures
        line_pieces(x) == seq![x],
    decreases x.len(),
{
    if x.len() > 0 {
        let y = x.drop_last();
        assert(no_line_feed(y)) by {
            assert forall|i: int| 0 <= i < y.len() implies y[i] != '\n' by {
                assert(y[i] == x[i]);
            }
        }
        lemma_pieces_single(y);
        assert(x.last() == x[x.len() - 1]);
        assert(y.push(x.last()) == x);
        assert(x.last() != '\n');
        assert(seq![y].last() == y);
        assert(seq![y].update(0, x) == seq![x]);
        assert(line_pieces(x) == seq![y].update(0, y.push(x.last())));
    } else {
        assert(x == Seq::<char>::empty());
    }
}

proof fn lemma_pieces_line(x: Seq<char>, rest: Seq<char>)
    requires
        no_line_feed(x),
    ensures
        line_pieces(x + seq!['\n'] + rest) == seq![x] + line_pieces(rest),
{
    let a = x + seq!['\n'];
    lemma_pieces_single(x);
    assert(a.drop_last() == x);
    assert(line_pieces(a) == seq![x, Seq::<char>::empty()]);
    lemma_pieces_concat(a, rest);
    lemma_line_pieces_nonempty(rest);
    let p = line_pieces(rest);
    assert(Seq::<char>::empty() + p[0] == p[0]);
    assert(seq![x] + seq![p[0]] + p.drop_first() == seq![x] + p);
}

proof fn lemma_ids_of_concat(p: Seq<Seq<char>>, q: Seq<Seq<char>>)
    ensures
        ids_of(p + q) == ids_of(p).union(ids_of(q)),
{
    assert forall|id: Seq<char>| ids_of(p + q).contains(id) <==> ids_of(p).union(
        ids_of(q),
    ).contains(id) by {
        if ids_of(p + q).contains(id) {
            let i = choose|i: int| 0 <= i < (p + q).len() && line_id((p + q)[i]) == Some(id);
            if i < p.len() {
                assert(line_id(p[i]) == Some(id));
            } else {
                assert(line_id(q[i - p.len()]) == Some(id));
            }
        }
        if ids_of(p).contains(id) {
            let i = choose|i: int| 0 <= i < p.len() && line_id(p[i]) == Some(id);
            assert((p + q)[i] == p[i]);
        }
        if ids_of(q).contains(id) {
            let i = choose|i: int| 0 <= i < q.len() && line_id(q[i]) == Some(id);
            assert((p + q)[p.len() + i] == q[i]);
        }
    }
    assert(ids_of(p + q) =~= ids_of(p).union(ids_of(q)));
}

proof fn lemma_ids_of_empty()
    ensures
        ids_of(Seq::<Seq<char>>::empty()) == Set::<Seq<char>>::empty(),
{
    assert(ids_of(Seq::<Seq<char>>::empty()) =~= Set::<Seq<char>>::empty());
}

proof fn lemma_trim_end_first(s: Seq<char>)
    requires
        s.len() > 0,
        !is_ws(s[0]),
    ensures
        trim_end(s).len() > 0,
        trim_end(s)[0] == s[0],
    decreases s.len(),
{
    if is_ws(s.last()) {
        assert(s.len() > 1);
        assert(s.drop_last()[0] == s[0]);
        lemma_trim_end_first(s.drop_last());
    }
}

/// A line that does not start with `I` (nor with whitespace) declares no ID.
proof fn lemma_line_id_none(l: Seq<char>)
    requires
        l.len() > 0,
        !is_ws(l[0]),
        l[0] != 'I',
    ensures
        line_id(l) is None,
{
    reveal_strlit("ID=");
    assert(trim_start(l) == l);
    lemma_trim_end_first(l);
    let t = trim(l);
    if starts_with(t, "ID="@) {
        assert(t.take(3)[0] == t[0]);
    }
}

proof fn lemma_trim_no_ws(s: Seq<char>)
    requires
        no_whitespace(s),
    ensures
        trim(s) == s,
{
    assert(trim_start(s) == s);
    assert(trim_end(s) == s);
}

proof fn lemma_trim_end_after(p: Seq<char>, x: Seq<char>)
    requires
        p.len() > 0,
        !is_ws(p.last()),
        no_whitespace(x),
    ensures
        trim_end(p + x) == p + x,
{
    if x.len() > 0 {
        assert((p + x).last() == x.last());
    } else {
        assert(p + x == p);
    }
}

/// The line `ID=<id>` (with its CR) declares `lower(id)` when `id` holds no whitespace.
proof fn lemma_line_id_of_id_line(id: Seq<char>)
    requires
        no_whitespace(id),
    ensures
        line_id("ID="@ + id + "\r"@) == Some(lower(id)),
{
    reveal_strlit("ID=");
    reveal_strlit("\r");
    let l = "ID="@ + id + "\r"@;
    let core = "ID="@ + id;
    assert(l == core.push('\r'));
    assert(trim_start(l) == l);
    assert(l.drop_last() == core);
    assert(trim_end(l) == trim_end(core));
    lemma_trim_end_after("ID="@, id);
    assert(trim(l) == core);
    assert(core.take(3) == "ID="@);
    assert(core.skip(3) == id);
    lemma_trim_no_ws(id);
}

proof fn lemma_trim_start_push(l: Seq<char>, c: char)
    requires
        is_ws(c),
    ensures
        trim_start(l.push(c)) == (if trim_start(l).len() == 0 {
            Seq::<char>::empty()
        } else {
            trim_start(l).push(c)
        }),
    decreases l.len(),
{
    let e = Seq::<char>::empty();
    assert(trim_start(e) == e);
    if l.len() == 0 {
        assert(l.push(c) == seq![c]);
        assert(seq![c].drop_first() == e);
        assert(trim_start(l) == e);
    } else {
        assert(l.push(c)[0] == l[0]);
        if is_ws(l[0]) {
            assert(l.push(c).drop_first() == l.drop_first().push(c));
            lemma_trim_start_push(l.drop_first(), c);
        }
    }
}

/// A trailing carriage return does not change what a line declares.
proof fn lemma_line_id_cr(l: Seq<char>)
    ensures
        line_id(l + "\r"@) == line_id(l),
        trim(l + "\r"@) == trim(l),
{
    reveal_strlit("\r");
    assert(l + "\r"@ == l.push('\r'));
    lemma_trim_start_push(l, '\r');
    let ts = trim_start(l);
    if ts.len() > 0 {
        assert(ts.push('\r').drop_last() == ts);
        assert(trim_end(ts.push('\r')) == trim_end(ts));
    } else {
        assert(trim_end(ts) == ts);
    }
    assert(trim(l + "\r"@) == trim(l));
}

/// The lines of the entry for base `name`.
proof fn lemma_base_entry_pieces(name: Seq<char>, connect: Seq<char>, id: Seq<char>)
    requires
        no_line_feed(name),
        no_line_feed(connect),
        no_whitespace(id),
    ensures
        line_pieces(base_entry(name, connect, id)) == seq![
            "["@ + name + "]\r"@,
            "Connect="@ + connect + "\r"@,
            "ID="@ + id + "\r"@,
            "OrderInList=-1\r"@,
            "Folder=/baza\r"@,
            "External=0\r"@,
            Seq::<char>::empty(),
        ],
{
    reveal_strlit("[");
    reveal_strlit("]\r\nConnect=");
    reveal_strlit("\r\nID=");
    reveal_strlit("\r\nOrderInList=-1\r\nFolder=/baza\r\nExternal=0\r\n");
    reveal_strlit("]\r");
    reveal_strlit("Connect=");
    reveal_strlit("\r");
    reveal_strlit("ID=");
    reveal_strlit("OrderInList=-1\r");
    reveal_strlit("Folder=/baza\r");
    reveal_strlit("External=0\r");
    let l1 = "["@ + name + "]\r"@;
    let l2 = "Connect="@ + connect + "\r"@;
    let l3 = "ID="@ + id + "\r"@;
    let l4 = "OrderInList=-1\r"@;
    let l5 = "Folder=/baza\r"@;
    let l6 = "External=0\r"@;
    let nl = seq!['\n'];
    let e: Seq<char> = Seq::empty();
    let r6 = l6 + nl + e;
    let r5 = l5 + nl + r6;
    let r4 = l4 + nl + r5;
    let r3 = l3 + nl + r4;
    let r2 = l2 + nl + r3;
    let r1 = l1 + nl + r2;
    assert(base_entry(name, connect, id) =~= r1);
    assert(no_line_feed(l1));
    assert(no_line_feed(l2));
    assert(no_line_feed(l3)) by {
        assert forall|i: int| 0 <= i < l3.len() implies l3[i] != '\n' by {
            if 3 <= i < 3 + id.len() {
                assert(l3[i] == id[i - 3]);
                assert(!is_ws(id[i - 3]));
            }
        }
    }
    lemma_pieces_line(l6, e);
    lemma_pieces_line(l5, r6);
    lemma_pieces_line(l4, r5);
    lemma_pieces_line(l3, r4);
    lemma_pieces_line(l2, r3);
    lemma_pieces_line(l1, r2);
    assert(line_pieces(e) == seq![e]);
}

/// The first line of the entry for base `name` is its header, whatever the
/// connection string holds.
proof fn lemma_base_entry_head(name: Seq<char>, connect: Seq<char>, id: Seq<char>)
    requires
        no_line_feed(name),
    ensures
        line_pieces(base_entry(name, connect, id)).len() > 0,
        line_pieces(base_entry(name, connect, id))[0] == "["@ + name + "]\r"@,
{
    reveal_strlit("[");
    reveal_strlit("]\r\nConnect=");
    reveal_strlit("]\r");
    reveal_strlit("Connect=");
    let l1 = "["@ + name + "]\r"@;
    let rest = "Connect="@ + connect + "\r\nID="@ + id
        + "\r\nOrderInList=-1\r\nFolder=/baza\r\nExternal=0\r\n"@;
    assert(base_entry(name, connect, id) =~= l1 + seq!['\n'] + rest);
    assert(no_line_feed(l1));
    lemma_pieces_line(l1, rest);
    lemma_line_pieces_nonempty(rest);
}

/// The lines of the entry for folder `name`.
proof fn lemma_folder_entry_pieces(name: Seq<char>, id: Seq<char>)
    requires
        no_line_feed(name),
        no_whitespace(id),
    ensures
        line_pieces(folder_entry(name, id)) == seq![
            "["@ + name + "]\r"@,
            "ID="@ + id + "\r"@,
            "OrderInList=-1\r"@,
            "Folder=/\r"@,
            "External=0\r"@,
            Seq::<char>::empty(),
        ],
{
    reveal_strlit("[");
    reveal_strlit("]\r\nID=");
    reveal_strlit("\r\nOrderInList=-1\r\nFolder=/\r\nExternal=0\r\n");
    reveal_strlit("]\r");
    reveal_strlit("\r");
    reveal_strlit("ID=");
    reveal_strlit("OrderInList=-1\r");
    reveal_strlit("Folder=/\r");
    reveal_strlit("External=0\r");
    let l1 = "["@ + name + "]\r"@;
    let l3 = "ID="@ + id + "\r"@;
    let l4 = "OrderInList=-1\r"@;
    let l5 = "Folder=/\r"@;
    let l6 = "External=0\r"@;
    let nl = seq!['\n'];
    let e: Seq<char> = Seq::empty();
    let r6 = l6 + nl + e;
    let r5 = l5 + nl + r6;
    let r4 = l4 + nl + r5;
    let r3 = l3 + nl + r4;
    let r1 = l1 + nl + r3;
    assert(folder_entry(name, id) =~= r1);
    assert(no_line_feed(l1));
    assert(no_line_feed(l3)) by {
        assert forall|i: int| 0 <= i < l3.len() implies l3[i] != '\n' by {
            if 3 <= i < 3 + id.len() {
                assert(l3[i] == id[i - 3]);
                assert(!is_ws(id[i - 3]));
            }
        }
    }
    lemma_pieces_line(l6, e);
    lemma_pieces_line(l5, r6);
    lemma_pieces_line(l4, r5);
    lemma_pieces_line(l3, r4);
    lemma_pieces_line(l1, r3);
    assert(line_pieces(e) == seq![e]);
}

} // verus!

verus! {

/// The text after registering the folder `name` under `id`.
pub open spec fn spec_register_folder(content: Seq<char>, name: Seq<char>, id: Seq<char>) -> Seq<
    char,
> {
    with_line_end(content) + folder_entry(name, id)
}

/// The text after registering the base `name` (connection string `connect`) under `id`.
pub open spec fn spec_register_base(
    content: Seq<char>,
    name: Seq<char>,
    connect: Seq<char>,
    id: Seq<char>,
) -> Seq<char> {
    with_line_end(content) + base_entry(name, connect, id)
}

/// Appending an entry after a line end keeps every line of `content`, as far as
/// trimming goes (but an empty last one), and adds the entry's lines after them.
proof fn lemma_entry_appended(content: Seq<char>, entry: Seq<char>) -> (p0: Seq<Seq<char>>)
    ensures
        line_pieces(with_line_end(content) + entry) == p0 + line_pieces(entry),
        p0.len() <= line_pieces(content).len(),
        forall|j: int| 0 <= j < p0.len() ==> trim(#[trigger] p0[j]) == trim(line_pieces(content)[j]),
        forall|j: int|
            p0.len() <= j < line_pieces(content).len() ==> #[trigger] line_pieces(content)[j]
                == Seq::<char>::empty(),
        ids_of(p0) == registered_ids_of(content),
{
    reveal_strlit("\r\n");
    reveal_strlit("\r");
    lemma_line_pieces_nonempty(content);
    lemma_line_pieces_nonempty(entry);
    let pc = line_pieces(content);
    let d = pc.drop_last();
    let l = pc.last();
    let pe = line_pieces(entry);
    let e = Seq::<char>::empty();
    assert(pc == d.push(l));
    if ends_with(content, "\r\n"@) {
        assert(content.last() == content.skip(content.len() - 2)[1]);
        assert(content.last() == '\n');
        assert(l == e);
        lemma_pieces_concat(content, entry);
        assert(e + pe[0] == pe[0]);
        assert(d + seq![e + pe[0]] + pe.drop_first() == d + pe);
        assert(trim(e) == e);
        reveal_strlit("ID=");
        assert(line_id(e) is None);
        lemma_ids_of_push(d, e);
        assert forall|j: int| 0 <= j < d.len() implies trim(#[trigger] d[j]) == trim(pc[j]) by {
            assert(d[j] == pc[j]);
        }
        d
    } else {
        let b = "\r\n"@ + entry;
        assert(with_line_end(content) + entry == content + b);
        assert(b == seq!['\r'] + seq!['\n'] + entry);
        assert(no_line_feed(seq!['\r']));
        lemma_pieces_line(seq!['\r'], entry);
        let pb = line_pieces(b);
        assert(pb == seq![seq!['\r']] + pe);
        lemma_pieces_concat(content, b);
        assert(pb[0] == seq!['\r']);
        assert(pb.drop_first() == pe);
        assert(l + seq!['\r'] == l + "\r"@);
        let p0 = d.push(l + "\r"@);
        assert(d + seq![l + seq!['\r']] + pe == p0 + pe);
        lemma_line_id_cr(l);
        lemma_ids_of_push(d, l + "\r"@);
        lemma_ids_of_push(d, l);
        assert forall|j: int| 0 <= j < p0.len() implies trim(#[trigger] p0[j]) == trim(pc[j]) by {
            if j < d.len() {
                assert(p0[j] == pc[j]);
            }
        }
        p0
    }
}

} // verus!

verus! {

proof fn lemma_header_line(name: Seq<char>)
    ensures
        trim("["@ + name + "]\r"@) == section_header(name),
        starts_with(trim("["@ + name + "]\r"@), section_header(name)),
        line_id("["@ + name + "]\r"@) is None,
{
    reveal_strlit("[");
    reveal_strlit("]");
    reveal_strlit("]\r");
    reveal_strlit("\r");
    let h = section_header(name);
    assert("["@ + name + "]\r"@ == h + "\r"@);
    lemma_line_id_cr(h);
    assert(h[0] == '[');
    assert(h.last() == ']');
    assert(trim_start(h) == h);
    assert(trim_end(h) == h);
    assert(h.take(h.len() as int) == h);
    lemma_line_id_none(h);
}

proof fn lemma_base_entry_ids(name: Seq<char>, connect: Seq<char>, id: Seq<char>)
    requires
        no_line_feed(name),
        no_line_feed(connect),
        no_whitespace(id),
    ensures
        ids_of(line_pieces(base_entry(name, connect, id))) == set![lower(id)],
{
    reveal_strlit("Connect=");
    reveal_strlit("\r");
    reveal_strlit("OrderInList=-1\r");
    reveal_strlit("Folder=/baza\r");
    reveal_strlit("External=0\r");
    reveal_strlit("ID=");
    lemma_base_entry_pieces(name, connect, id);
    let l1 = "["@ + name + "]\r"@;
    let l2 = "Connect="@ + connect + "\r"@;
    let l3 = "ID="@ + id + "\r"@;
    let l4 = "OrderInList=-1\r"@;
    let l5 = "Folder=/baza\r"@;
    let l6 = "External=0\r"@;
    let e = Seq::<char>::empty();
    lemma_header_line(name);
    assert(l2[0] == 'C');
    lemma_line_id_none(l2);
    lemma_line_id_of_id_line(id);
    lemma_line_id_none(l4);
    lemma_line_id_none(l5);
    lemma_line_id_none(l6);
    assert(trim(e) == e);
    assert(line_id(e) is None);
    let s0 = Seq::<Seq<char>>::empty();
    lemma_ids_of_empty();
    lemma_ids_of_push(s0, l1);
    lemma_ids_of_push(s0.push(l1), l2);
    lemma_ids_of_push(s0.push(l1).push(l2), l3);
    lemma_ids_of_push(s0.push(l1).push(l2).push(l3), l4);
    lemma_ids_of_push(s0.push(l1).push(l2).push(l3).push(l4), l5);
    lemma_ids_of_push(s0.push(l1).push(l2).push(l3).push(l4).push(l5), l6);
    lemma_ids_of_push(s0.push(l1).push(l2).push(l3).push(l4).push(l5).push(l6), e);
    assert(seq![l1, l2, l3, l4, l5, l6, e] == s0.push(l1).push(l2).push(l3).push(l4).push(l5).push(
        l6,
    ).push(e));
    assert(Set::<Seq<char>>::empty().insert(lower(id)) == set![lower(id)]);
}

proof fn lemma_folder_entry_ids(name: Seq<char>, id: Seq<char>)
    requires
        no_line_feed(name),
        no_whitespace(id),
    ensures
        ids_of(line_pieces(folder_entry(name, id))) == set![lower(id)],
{
    reveal_strlit("\r");
    reveal_strlit("OrderInList=-1\r");
    reveal_strlit("Folder=/\r");
    reveal_strlit("External=0\r");
    reveal_strlit("ID=");
    lemma_folder_entry_pieces(name, id);
    let l1 = "["@ + name + "]\r"@;
    let l3 = "ID="@ + id + "\r"@;
    let l4 = "OrderInList=-1\r"@;
    let l5 = "Folder=/\r"@;
    let l6 = "External=0\r"@;
    let e = Seq::<char>::empty();
    lemma_header_line(name);
    lemma_line_id_of_id_line(id);
    lemma_line_id_none(l4);
    lemma_line_id_none(l5);
    lemma_line_id_none(l6);
    assert(trim(e) == e);
    assert(line_id(e) is None);
    let s0 = Seq::<Seq<char>>::empty();
    lemma_ids_of_empty();
    lemma_ids_of_push(s0, l1);
    lemma_ids_of_push(s0.push(l1), l3);
    lemma_ids_of_push(s0.push(l1).push(l3), l4);
    lemma_ids_of_push(s0.push(l1).push(l3).push(l4), l5);
    lemma_ids_of_push(s0.push(l1).push(l3).push(l4).push(l5), l6);
    lemma_ids_of_push(s0.push(l1).push(l3).push(l4).push(l5).push(l6), e);
    assert(seq![l1, l3, l4, l5, l6, e] == s0.push(l1).push(l3).push(l4).push(l5).push(l6).push(e));
    assert(Set::<Seq<char>>::empty().insert(lower(id)) == set![lower(id)]);
}

/// What appending an entry keeps and adds, for the laws below.
proof fn lemma_after_entry(content: Seq<char>, entry: Seq<char>, name: Seq<char>)
    requires
        line_pieces(entry).len() > 0,
        line_pieces(entry)[0] == "["@ + name + "]\r"@,
    ensures
        registered_ids_of(with_line_end(content) + entry) == registered_ids_of(content).union(
            ids_of(line_pieces(entry)),
        ),
        has_section(with_line_end(content) + entry, name),
        forall|other: Seq<char>| #[trigger]
            has_section(content, other) ==> has_section(with_line_end(content) + entry, other),
        (with_line_end(content) + entry).take(content.len() as int) == content,
{
    reveal_strlit("\r\n");
    let r = with_line_end(content) + entry;
    let p0 = lemma_entry_appended(content, entry);
    let pe = line_pieces(entry);
    lemma_ids_of_concat(p0, pe);
    lemma_header_line(name);
    assert(line_pieces(r)[p0.len() as int] == pe[0]);
    assert(starts_with(trim(line_pieces(r)[p0.len() as int]), section_header(name)));
    assert forall|other: Seq<char>| #[trigger] has_section(content, other) implies has_section(
        r,
        other,
    ) by {
        let pc = line_pieces(content);
        let j = choose|j: int|
            0 <= j < pc.len() && starts_with(trim(#[trigger] pc[j]), section_header(other));
        reveal_strlit("[");
        assert(section_header(other).len() > 0);
        if j >= p0.len() {
            assert(pc[j] == Seq::<char>::empty());
            assert(trim(Seq::<char>::empty()) == Seq::<char>::empty());
        }
        assert(line_pieces(r)[j] == p0[j]);
        assert(starts_with(trim(line_pieces(r)[j]), section_header(other)));
    }
    assert(r.take(content.len() as int) == content);
}

/// Registering a base whose name holds no line feed makes its name a section,
/// keeps every section there was, and leaves the text that was there as it
/// was, whatever the connection string; where the connection string holds no
/// line feed either and the ID no whitespace, it adds exactly that ID
/// (lowercased) to the registered IDs.
pub proof fn law_register_base(content: Seq<char>, name: Seq<char>, connect: Seq<char>, id: Seq<char>)
    requires
        no_line_feed(name),
    ensures
        no_line_feed(connect) && no_whitespace(id) ==> registered_ids_of(
            spec_register_base(content, name, connect, id),
        ) == registered_ids_of(content).insert(lower(id)),
        has_section(spec_register_base(content, name, connect, id), name),
        forall|other: Seq<char>| #[trigger]
            has_section(content, other) ==> has_section(
                spec_register_base(content, name, connect, id),
                other,
            ),
        spec_register_base(content, name, connect, id).take(content.len() as int) == content,
{
    lemma_base_entry_head(name, connect, id);
    lemma_after_entry(content, base_entry(name, connect, id), name);
    if no_line_feed(connect) && no_whitespace(id) {
        lemma_base_entry_ids(name, connect, id);
        assert(registered_ids_of(content).union(set![lower(id)]) =~= registered_ids_of(
            content,
        ).insert(lower(id)));
    }
}

/// Registering a folder whose name holds no line feed, under an ID without
/// whitespace, adds exactly that ID (lowercased) to the registered IDs, makes its
/// name a section, keeps every section there was, and leaves the text that was
/// there as it was.
pub proof fn law_register_folder(content: Seq<char>, name: Seq<char>, id: Seq<char>)
    requires
        no_line_feed(name),
        no_whitespace(id),
    ensures
        registered_ids_of(spec_register_folder(content, name, id)) == registered_ids_of(
            content,
        ).insert(lower(id)),
        has_section(spec_register_folder(content, name, id), name),
        forall|other: Seq<char>| #[trigger]
            has_section(content, other) ==> has_section(
                spec_register_folder(content, name, id),
                other,
            ),
        spec_register_folder(content, name, id).take(content.len() as int) == content,
{
    lemma_folder_entry_pieces(name, id);
    lemma_folder_entry_ids(name, id);
    lemma_after_entry(content, folder_entry(name, id), name);
    assert(registered_ids_of(content).union(set![lower(id)]) =~= registered_ids_of(content).insert(
        lower(id),
    ));
}

} // verus!

verus! {

/// A lowercase hexadecimal digit.
pub open spec fn is_lower_hex(c: char) -> bool {
    ('0' <= c && c <= '9') || ('a' <= c && c <= 'f')
}

/// The hyphenated lowercase text of a version-4 UUID:
/// `xxxxxxxx-xxxx-4xxx-yxxx-xxxxxxxxxxxx` with `y` one of `8`, `9`, `a`, `b`.
pub open spec fn is_v4_uuid_text(s: Seq<char>) -> bool {
    &&& s.len() == 36
    &&& forall|i: int|
        0 <= i < 36 ==> if i == 8 || i == 13 || i == 18 || i == 23 {
            s[i] == '-'
        } else {
            is_lower_hex(s[i])
        }
    &&& s[14] == '4'
    &&& (s[19] == '8' || s[19] == '9' || s[19] == 'a' || s[19] == 'b')
}

/// No ID registered in `content` has the form of a version-4 UUID text, so no
/// fresh random ID can clash with one.
pub open spec fn holds_no_v4_id(content: Seq<char>) -> bool {
    forall|x: Seq<char>| registered_ids_of(content).contains(x) ==> !is_v4_uuid_text(x)
}

/// A fresh random ID: `uuid::Uuid::new_v4()` written with `to_string`. The crate
/// sets the version nibble to 4 and the variant bits to `10`, and writes the 16
/// bytes as hyphenated lowercase hex; which random bits come out is not stated.
/// It panics only where the operating system's random source fails, which no
/// input decides.
#[verifier::external_body]
fn random_uuid_text() -> (s: String)
    ensures
        is_v4_uuid_text(s@),
{
    uuid::Uuid::new_v4().to_string()
}

proof fn lemma_uuid_text_plain(s: Seq<char>)
    requires
        is_v4_uuid_text(s),
    ensures
        no_whitespace(s),
        lower(s) == s,
        no_line_feed(s),
{
    assert forall|i: int| 0 <= i < s.len() implies !is_ws(s[i]) && crate::text::lower_char(s[i])
        == s[i] by {
        assert(0 <= i < 36);
    }
    assert(lower(s) =~= s);
}

/// Whether `s` ends with CR LF.
fn ends_with_crlf(s: &str) -> (r: bool)
    ensures
        r == ends_with(s@, "\r\n"@),
{
    proof {
        reveal_strlit("\r\n");
    }
    let v = chars_of(s);
    let n = v.len();
    if n >= 2 && v[n - 2] == '\r' && v[n - 1] == '\n' {
        assert(v@.skip(n - 2) =~= "\r\n"@);
        true
    } else {
        if n >= 2 {
            assert(v@.skip(n - 2)[0] == v@[n - 2]);
            assert(v@.skip(n - 2)[1] == v@[n - 1]);
        }
        false
    }
}

/// The `ibases.v8i` list: its file path, its text, and how much of the text was
/// last saved.
pub struct Ibases {
    path: String,
    content: String,
    saved_len: usize,
}

impl Ibases {
    #[verifier::type_invariant]
    closed spec fn saved_within(self) -> bool {
        self.saved_len <= self.content@.len()
    }

    /// The path of the list file.
    pub closed spec fn file_path(&self) -> Seq<char> {
        self.path@
    }

    /// The current text.
    pub closed spec fn text(&self) -> Seq<char> {
        self.content@
    }

    /// The text as it was last read or saved.
    pub closed spec fn saved_text(&self) -> Seq<char> {
        self.content@.take(self.saved_len as int)
    }

    /// The list read from `path`, whose text is `content`.
    pub fn new(path: String, content: String) -> (s: Ibases)
        ensures
            s.file_path() == path@,
            s.text() == content@,
            s.saved_text() == content@,
    {
        let n = chars_of(content.as_str()).len();
        let s = Ibases { path, content, saved_len: n };
        assert(s.content@.take(n as int) == s.content@);
        s
    }

    /// The path of the list file.
    pub fn path(&self) -> (p: &String)
        ensures
            p@ == self.file_path(),
    {
        &self.path
    }

    /// The current text.
    pub fn content(&self) -> (c: &String)
        ensures
            c@ == self.text(),
    {
        &self.content
    }

    /// All infobase IDs currently registered, lowercased for comparison without
    /// regard to case.
    pub fn registered_ids(&self) -> (ids: IdSet)
        ensures
            ids@ == registered_ids_of(self.text()),
    {
        extract_ids(self.content.as_str())
    }

    /// A fresh random version-4 UUID that is not registered yet. Draws again
    /// while the drawn ID is registered; `None` only once `u64::MAX` draws all
    /// were. Where no registered ID has the form of such a UUID, the first draw
    /// is taken.
    pub fn unique_id(&self) -> (r: Option<String>)
        ensures
            r matches Some(id) ==> is_v4_uuid_text(id@) && !registered_ids_of(self.text()).contains(
                id@,
            ),
            holds_no_v4_id(self.text()) ==> r is Some,
    {
        let ids = self.registered_ids();
        let mut attempts: u64 = 0;
        while attempts < u64::MAX
            invariant
                ids@ == registered_ids_of(self.text()),
                holds_no_v4_id(self.text()) ==> attempts == 0,
            decreases u64::MAX - attempts,
        {
            let id = random_uuid_text();
            if !ids.contains(id.as_str()) {
                return Some(id);
            }
            attempts = attempts + 1;
        }
        None
    }

    /// Whether a section called `name` is present: some trimmed line starts with `[name]`.
    pub fn contains_name(&self, name: &str) -> (r: bool)
        ensures
            r == has_section(self.text(), name@),
    {
        has_section_named(self.content.as_str(), name)
    }

    /// Registers a new folder `name` under a fresh ID, and returns the ID.
    /// `None` (and nothing changed) only where no fresh ID was found, which
    /// cannot be where no registered ID has the form of a version-4 UUID.
    pub fn register_folder(&mut self, name: &str) -> (r: Option<String>)
        ensures
            final(self).file_path() == old(self).file_path(),
            final(self).saved_text() == old(self).saved_text(),
            r matches Some(id) ==> {
                &&& is_v4_uuid_text(id@)
                &&& !registered_ids_of(old(self).text()).contains(id@)
                &&& final(self).text() == spec_register_folder(old(self).text(), name@, id@)
                &&& no_line_feed(name@) ==> {
                    &&& registered_ids_of(final(self).text()) == registered_ids_of(
                        old(self).text(),
                    ).insert(id@)
                    &&& has_section(final(self).text(), name@)
                }
            },
            r is None ==> final(self).text() == old(self).text(),
            holds_no_v4_id(old(self).text()) ==> r is Some,
    {
        proof {
            use_type_invariant(&*self);
        }
        let id = match self.unique_id() {
            Some(id) => id,
            None => return None,
        };
        let mut c = self.content.clone();
        if !ends_with_crlf(c.as_str()) {
            c.append("\r\n");
        }
        let ghost fixed = c@;
        c.append("[");
        c.append(name);
        c.append("]\r\nID=");
        c.append(id.as_str());
        c.append("\r\nOrderInList=-1\r\nFolder=/\r\nExternal=0\r\n");
        assert(c@ =~= fixed + folder_entry(name@, id@));
        proof {
            lemma_uuid_text_plain(id@);
            if no_line_feed(name@) {
                law_register_folder(self.content@, name@, id@);
            }
        }
        assert(c@.take(self.saved_len as int) =~= self.content@.take(self.saved_len as int));
        self.content = c;
        Some(id)
    }

    /// Registers a new base `name` with connection string `connect` in the
    /// `baza` folder, under a fresh ID, and returns the ID. `None` (and nothing
    /// changed) only where no fresh ID was found, which cannot be where no
    /// registered ID has the form of a version-4 UUID.
    pub fn register_base(&mut self, name: &str, connect: &str) -> (r: Option<String>)
        ensures
            final(self).file_path() == old(self).file_path(),
            final(self).saved_text() == old(self).saved_text(),
            r matches Some(id) ==> {
                &&& is_v4_uuid_text(id@)
                &&& !registered_ids_of(old(self).text()).contains(id@)
                &&& final(self).text() == spec_register_base(
                    old(self).text(),
                    name@,
                    connect@,
                    id@,
                )
                &&& no_line_feed(name@) ==> has_section(final(self).text(), name@)
                &&& no_line_feed(name@) && no_line_feed(connect@) ==> registered_ids_of(
                    final(self).text(),
                ) == registered_ids_of(old(self).text()).insert(id@)
            },
            r is None ==> final(self).text() == old(self).text(),
            holds_no_v4_id(old(self).text()) ==> r is Some,
    {
        proof {
            use_type_invariant(&*self);
        }
        let id = match self.unique_id() {
            Some(id) => id,
            None => return None,
        };
        let mut c = self.content.clone();
        if !ends_with_crlf(c.as_str()) {
            c.append("\r\n");
        }
        let ghost fixed = c@;
        c.append("[");
        c.append(name);
        c.append("]\r\nConnect=");
        c.append(connect);
        c.append("\r\nID=");
        c.append(id.as_str());
        c.append("\r\nOrderInList=-1\r\nFolder=/baza\r\nExternal=0\r\n");
        assert(c@ =~= fixed + base_entry(name@, connect@, id@));
        proof {
            lemma_uuid_text_plain(id@);
            if no_line_feed(name@) {
                law_register_base(self.content@, name@, connect@, id@);
            }
        }
        assert(c@.take(self.saved_len as int) =~= self.content@.take(self.saved_len as int));
        self.content = c;
        Some(id)
    }

    /// Records that the current text was written to the list file.
    pub fn mark_saved(&mut self)
        ensures
            final(self).file_path() == old(self).file_path(),
            final(self).text() == old(self).text(),
            final(self).saved_text() == old(self).text(),
    {
        let n = chars_of(self.content.as_str()).len();
        self.saved_len = n;
        assert(self.content@.take(n as int) =~= self.content@);
    }

    /// Drops what was added since the text was last read or saved, as after a
    /// failed write of the list file.
    pub fn discard_unsaved(&mut self)
        ensures
            final(self).file_path() == old(self).file_path(),
            final(self).text() == old(self).saved_text(),
            final(self).saved_text() == old(self).saved_text(),
    {
        proof {
            use_type_invariant(&*self);
        }
        let kept = self.content.as_str().substring_char(0, self.saved_len).to_owned();
        assert(kept@.take(self.saved_len as int) =~= kept@);
        self.content = kept;
    }
}

} // verus!
