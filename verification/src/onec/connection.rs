//! 1C connection strings: `Key="value";Key="value";`, and the targets they name.
use vstd::prelude::*;

use crate::text::{
    chars_of, is_whitespace, is_ws, push_char, skip_ws, string_of, trim,
    trim_bounds, trim_start,
};

verus! {

/// A target infobase as the contracts see it.
pub enum TargetView {
    File(Seq<char>),
    Web(Seq<char>),
    Server { srvr: Seq<char>, refname: Seq<char> },
}

/// All known shapes of a 1C connection target.
#[derive(Debug, Clone)]
pub enum Target {
    /// File-based infobase, e.g. File="C:\base\"
    File(String),
    /// Web publication, e.g. ws="http://host/base"
    Web(String),
    /// 1C cluster server reference, e.g. Srvr="srv";Ref="base"
    Server { srvr: String, refname: String },
}

impl View for Target {
    type V = TargetView;

    open spec fn view(&self) -> TargetView {
        match self {
            Target::File(p) => TargetView::File(p@),
            Target::Web(u) => TargetView::Web(u@),
            Target::Server { srvr, refname } => TargetView::Server { srvr: srvr@, refname: refname@ },
        }
    }
}

/// How a target is shown to the user.
pub open spec fn target_text(t: TargetView) -> Seq<char> {
    match t {
        TargetView::File(p) => "File="@ + p,
        TargetView::Web(u) => "Web="@ + u,
        TargetView::Server { srvr, refname } => "Srvr="@ + srvr + ";Ref="@ + refname,
    }
}

impl Target {
    /// The target as shown to the user: `File=<path>`, `Web=<url>` or `Srvr=<srvr>;Ref=<ref>`.
    pub fn to_string(&self) -> (s: String)
        ensures
            s@ == target_text(self@),
    {
        match self {
            Target::File(p) => String::from_str("File=").concat(p.as_str()),
            Target::Web(u) => String::from_str("Web=").concat(u.as_str()),
            Target::Server { srvr, refname } => String::from_str("Srvr=").concat(srvr.as_str()).concat(
                ";Ref=",
            ).concat(refname.as_str()),
        }
    }
}

/// A failure to read a connection string, as the contracts see it.
pub enum ParseFailure {
    MissingEquals { near: Seq<char> },
    EmptyKey { near: Seq<char> },
    MissingQuote { key: Seq<char> },
    UnterminatedValue { key: Seq<char> },
    NoTarget,
}

/// Why a connection string was refused.
#[derive(Debug)]
pub enum ConnectionError {
    /// No `=` follows a key; `near` is the start of the rest of the input.
    MissingEquals { near: String },
    /// Nothing but whitespace stands before an `=`.
    EmptyKey { near: String },
    /// The value after `key=` does not start with a quote.
    MissingQuote { key: String },
    /// The value of `key` has no closing quote.
    UnterminatedValue { key: String },
    /// None of `File`, `Srvr`+`Ref`, `ws` is present.
    NoTarget,
}

impl View for ConnectionError {
    type V = ParseFailure;

    open spec fn view(&self) -> ParseFailure {
        match self {
            ConnectionError::MissingEquals { near } => ParseFailure::MissingEquals { near: near@ },
            ConnectionError::EmptyKey { near } => ParseFailure::EmptyKey { near: near@ },
            ConnectionError::MissingQuote { key } => ParseFailure::MissingQuote { key: key@ },
            ConnectionError::UnterminatedValue { key } => ParseFailure::UnterminatedValue {
                key: key@,
            },
            ConnectionError::NoTarget => ParseFailure::NoTarget,
        }
    }
}

/// The message shown for a refused connection string.
pub open spec fn failure_message(e: ParseFailure) -> Seq<char> {
    match e {
        ParseFailure::MissingEquals { near } => "expected '=' near: "@ + near,
        ParseFailure::EmptyKey { near } => "empty key near: "@ + near,
        ParseFailure::MissingQuote { key } => "expected '\"' after '=' for key '"@ + key + "'"@,
        ParseFailure::UnterminatedValue { key } => "unterminated value for key '"@ + key + "'"@,
        ParseFailure::NoTarget => "connection string contains no recognized target (File, Srvr+Ref, or ws)"@,
    }
}

impl ConnectionError {
    /// The message shown to the user.
    pub fn message(&self) -> (s: String)
        ensures
            s@ == failure_message(self@),
    {
        match self {
            ConnectionError::MissingEquals { near } => String::from_str(
                "expected '=' near: ",
            ).concat(near.as_str()),
            ConnectionError::EmptyKey { near } => String::from_str("empty key near: ").concat(
                near.as_str(),
            ),
            ConnectionError::MissingQuote { key } => String::from_str(
                "expected '\"' after '=' for key '",
            ).concat(key.as_str()).concat("'"),
            ConnectionError::UnterminatedValue { key } => String::from_str(
                "unterminated value for key '",
            ).concat(key.as_str()).concat("'"),
            ConnectionError::NoTarget => String::from_str(
                "connection string contains no recognized target (File, Srvr+Ref, or ws)",
            ),
        }
    }
}

/// Characters skipped between fields: `;` and whitespace.
pub open spec fn is_sep(c: char) -> bool {
    c == ';' || is_ws(c)
}

/// `s` without its leading separators.
pub open spec fn skip_seps(s: Seq<char>) -> Seq<char>
    decreases s.len(),
{
    if s.len() > 0 && is_sep(s[0]) {
        skip_seps(s.drop_first())
    } else {
        s
    }
}

/// The index of the first `c` in `s`.
pub open spec fn find_char(s: Seq<char>, c: char) -> Option<int>
    decreases s.len(),
{
    if s.len() == 0 {
        None
    } else if s[0] == c {
        Some(0)
    } else {
        match find_char(s.drop_first(), c) {
            Some(i) => Some(i + 1),
            None => None,
        }
    }
}

/// The first 30 characters of `s`, with an ellipsis where more follow.
pub open spec fn snippet(s: Seq<char>) -> Seq<char> {
    if s.len() > 30 {
        s.take(30).push('…')
    } else {
        s
    }
}

pub proof fn lemma_skip_seps_len(s: Seq<char>)
    ensures
        skip_seps(s).len() <= s.len(),
    decreases s.len(),
{
    if s.len() > 0 && is_sep(s[0]) {
        lemma_skip_seps_len(s.drop_first());
    }
}

pub proof fn lemma_trim_start_len(s: Seq<char>)
    ensures
        trim_start(s).len() <= s.len(),
    decreases s.len(),
{
    if s.len() > 0 && is_ws(s[0]) {
        lemma_trim_start_len(s.drop_first());
    }
}

pub proof fn lemma_find_char_range(s: Seq<char>, c: char)
    ensures
        find_char(s, c) matches Some(i) ==> 0 <= i < s.len() && s[i] == c,
    decreases s.len(),
{
    if s.len() > 0 && s[0] != c {
        lemma_find_char_range(s.drop_first(), c);
    }
}

/// Prepends `done` to a successful result.
pub open spec fn prepend(
    done: Seq<(Seq<char>, Seq<char>)>,
    r: Result<Seq<(Seq<char>, Seq<char>)>, ParseFailure>,
) -> Result<Seq<(Seq<char>, Seq<char>)>, ParseFailure> {
    match r {
        Ok(p) => Ok(done + p),
        Err(e) => Err(e),
    }
}

/// The fields of `rest`, in order; keys and values verbatim, without escape
/// processing.
pub open spec fn spec_fields(rest: Seq<char>) -> Result<Seq<(Seq<char>, Seq<char>)>, ParseFailure>
    decreases rest.len(),
{
    let r = skip_seps(rest);
    if r.len() == 0 {
        Ok(seq![])
    } else {
        match find_char(r, '=') {
            None => Err(ParseFailure::MissingEquals { near: snippet(r) }),
            Some(eq) => {
                let key = trim(r.take(eq));
                if key.len() == 0 {
                    Err(ParseFailure::EmptyKey { near: snippet(r) })
                } else {
                    let after = trim_start(r.skip(eq + 1));
                    if after.len() == 0 || after[0] != '"' {
                        Err(ParseFailure::MissingQuote { key })
                    } else {
                        let body = after.drop_first();
                        match find_char(body, '"') {
                            None => Err(ParseFailure::UnterminatedValue { key }),
                            Some(q) => {
                                proof {
                                    lemma_skip_seps_len(rest);
                                    lemma_find_char_range(r, '=');
                                    lemma_trim_start_len(r.skip(eq + 1));
                                    lemma_find_char_range(body, '"');
                                }
                                prepend(
                                    seq![(key, body.take(q))],
                                    spec_fields(body.skip(q + 1)),
                                )
                            },
                        }
                    }
                }
            },
        }
    }
}

/// The map that inserting `pairs` in order leaves: a later key wins.
pub open spec fn pairs_map(pairs: Seq<(Seq<char>, Seq<char>)>) -> Map<Seq<char>, Seq<char>>
    decreases pairs.len(),
{
    if pairs.len() == 0 {
        Map::empty()
    } else {
        pairs_map(pairs.drop_last()).insert(pairs.last().0, pairs.last().1)
    }
}

/// The fields of a connection string (`Key="value";...`) as a map, or why it is refused.
pub open spec fn spec_parse_fields(s: Seq<char>) -> Result<Map<Seq<char>, Seq<char>>, ParseFailure> {
    match spec_fields(trim(s)) {
        Ok(p) => Ok(pairs_map(p)),
        Err(e) => Err(e),
    }
}

/// The target that a field map names: `File` first, then `Srvr` with `Ref`, then `ws`.
pub open spec fn target_of(m: Map<Seq<char>, Seq<char>>) -> Result<TargetView, ParseFailure> {
    if m.contains_key("File"@) {
        Ok(TargetView::File(m["File"@]))
    } else if m.contains_key("Srvr"@) && m.contains_key("Ref"@) {
        Ok(TargetView::Server { srvr: m["Srvr"@], refname: m["Ref"@] })
    } else if m.contains_key("ws"@) {
        Ok(TargetView::Web(m["ws"@]))
    } else {
        Err(ParseFailure::NoTarget)
    }
}

/// The target that a connection string names, or why it is refused.
pub open spec fn spec_parse(s: Seq<char>) -> Result<TargetView, ParseFailure> {
    match spec_parse_fields(s) {
        Ok(m) => target_of(m),
        Err(e) => Err(e),
    }
}

/// The pairs of strings as sequences of characters.
pub open spec fn pairs_view(p: Seq<(String, String)>) -> Seq<(Seq<char>, Seq<char>)> {
    p.map_values(|x: (String, String)| (x.0@, x.1@))
}

/// The fields of a connection string, keys as written.
pub struct Fields {
    pairs: Vec<(String, String)>,
}

impl View for Fields {
    type V = Map<Seq<char>, Seq<char>>;

    closed spec fn view(&self) -> Map<Seq<char>, Seq<char>> {
        pairs_map(pairs_view(self.pairs@))
    }
}

proof fn lemma_pairs_map_last(p: Seq<(Seq<char>, Seq<char>)>, k: Seq<char>, j: int)
    requires
        0 <= j < p.len(),
        p[j].0 == k,
        forall|l: int| j < l < p.len() ==> p[l].0 != k,
    ensures
        pairs_map(p).contains_key(k),
        pairs_map(p)[k] == p[j].1,
    decreases p.len(),
{
    if j < p.len() - 1 {
        lemma_pairs_map_last(p.drop_last(), k, j);
    }
}

proof fn lemma_pairs_map_absent(p: Seq<(Seq<char>, Seq<char>)>, k: Seq<char>)
    requires
        forall|l: int| 0 <= l < p.len() ==> p[l].0 != k,
    ensures
        !pairs_map(p).contains_key(k),
    decreases p.len(),
{
    if p.len() > 0 {
        lemma_pairs_map_absent(p.drop_last(), k);
    }
}

impl Fields {
    /// The value of `key`; the last one where the key came more than once.
    pub fn get(&self, key: &String) -> (r: Option<String>)
        ensures
            r matches Some(v) ==> self@.contains_key(key@) && v@ == self@[key@],
            r is None ==> !self@.contains_key(key@),
    {
        let ghost pv = pairs_view(self.pairs@);
        let mut i = self.pairs.len();
        while i > 0
            invariant
                i <= self.pairs.len(),
                pv == pairs_view(self.pairs@),
                forall|l: int| i <= l < pv.len() ==> pv[l].0 != key@,
            decreases i,
        {
            if self.pairs[i - 1].0 == *key {
                proof {
                    lemma_pairs_map_last(pv, key@, i - 1);
                }
                return Some(self.pairs[i - 1].1.clone());
            }
            i = i - 1;
        }
        proof {
            lemma_pairs_map_absent(pv, key@);
        }
        None
    }
}

proof fn lemma_find_char(s: Seq<char>, c: char, i: int)
    requires
        0 <= i <= s.len(),
        forall|k: int| 0 <= k < i ==> s[k] != c,
        i < s.len() ==> s[i] == c,
    ensures
        find_char(s, c) == (if i < s.len() {
            Some(i)
        } else {
            None::<int>
        }),
    decreases i,
{
    if i > 0 {
        assert forall|k: int| 0 <= k < i - 1 implies s.drop_first()[k] != c by {
            assert(s.drop_first()[k] == s[k + 1]);
        }
        lemma_find_char(s.drop_first(), c, i - 1);
    }
}

/// The first index in `lo..hi` holding `c`, or `hi`.
pub fn find_in(v: &Vec<char>, c: char, lo: usize, hi: usize) -> (e: usize)
    requires
        lo <= hi <= v.len(),
    ensures
        lo <= e <= hi,
        find_char(v@.subrange(lo as int, hi as int), c) == (if e < hi {
            Some(e - lo)
        } else {
            None::<int>
        }),
{
    let mut e = lo;
    while e < hi && v[e] != c
        invariant
            lo <= e <= hi <= v.len(),
            forall|k: int| lo <= k < e ==> v@[k] != c,
        decreases hi - e,
    {
        e = e + 1;
    }
    proof {
        let s = v@.subrange(lo as int, hi as int);
        lemma_find_char(s, c, e - lo);
    }
    e
}

/// The first index in `lo..hi` that is not a separator, or `hi`.
fn skip_seps_in(v: &Vec<char>, lo: usize, hi: usize) -> (a: usize)
    requires
        lo <= hi <= v.len(),
    ensures
        lo <= a <= hi,
        v@.subrange(a as int, hi as int) == skip_seps(v@.subrange(lo as int, hi as int)),
{
    let mut a = lo;
    while a < hi && (v[a] == ';' || is_whitespace(v[a]))
        invariant
            lo <= a <= hi <= v.len(),
            skip_seps(v@.subrange(lo as int, hi as int)) == skip_seps(
                v@.subrange(a as int, hi as int),
            ),
        decreases hi - a,
    {
        assert(v@.subrange(a as int, hi as int).drop_first() == v@.subrange(a + 1, hi as int));
        a = a + 1;
    }
    a
}

/// `snippet` of `v[lo..hi]`.
fn snippet_of(v: &Vec<char>, lo: usize, hi: usize) -> (s: String)
    requires
        lo <= hi <= v.len(),
    ensures
        s@ == snippet(v@.subrange(lo as int, hi as int)),
{
    if hi - lo > 30 {
        let mut s = string_of(v, lo, lo + 30);
        push_char(&mut s, '…');
        assert(v@.subrange(lo as int, hi as int).take(30) == v@.subrange(lo as int, lo + 30));
        s
    } else {
        string_of(v, lo, hi)
    }
}

/// Reads the raw `Key="value";` format into a map. Values are taken verbatim,
/// with no escape processing; keys are case-sensitive and kept as written, and
/// where a key comes more than once the last value wins.
pub fn parse_fields(input: &str) -> (r: Result<Fields, ConnectionError>)
    ensures
        match spec_parse_fields(input@) {
            Ok(m) => r matches Ok(f) && f@ == m,
            Err(e) => r matches Err(x) && x@ == e,
        },
{
    let v = chars_of(input);
    let (lo, hi) = trim_bounds(&v, 0, v.len());
    assert(v@.subrange(0, v@.len() as int) == input@);
    let mut pairs: Vec<(String, String)> = Vec::new();
    let mut pos = lo;
    assert(pairs_view(pairs@) == Seq::<(Seq<char>, Seq<char>)>::empty());
    loop
        invariant
            lo <= pos <= hi <= v.len(),
            v@.subrange(lo as int, hi as int) == trim(input@),
            spec_fields(v@.subrange(lo as int, hi as int)) == prepend(
                pairs_view(pairs@),
                spec_fields(v@.subrange(pos as int, hi as int)),
            ),
        decreases hi - pos,
    {
        let ghost rest = v@.subrange(pos as int, hi as int);
        let a = skip_seps_in(&v, pos, hi);
        let ghost r = v@.subrange(a as int, hi as int);
        if a == hi {
            assert(pairs_view(pairs@) + Seq::<(Seq<char>, Seq<char>)>::empty() == pairs_view(pairs@));
            return Ok(Fields { pairs });
        }
        let e = find_in(&v, '=', a, hi);
        if e == hi {
            return Err(ConnectionError::MissingEquals { near: snippet_of(&v, a, hi) });
        }
        assert(r.take(e - a) == v@.subrange(a as int, e as int));
        let (ka, kb) = trim_bounds(&v, a, e);
        if ka == kb {
            return Err(ConnectionError::EmptyKey { near: snippet_of(&v, a, hi) });
        }
        assert(r.skip(e - a + 1) == v@.subrange(e + 1, hi as int));
        let q0 = skip_ws(&v, e + 1, hi);
        if q0 == hi || v[q0] != '"' {
            return Err(ConnectionError::MissingQuote { key: string_of(&v, ka, kb) });
        }
        assert(v@.subrange(q0 as int, hi as int).drop_first() == v@.subrange(q0 + 1, hi as int));
        let q = find_in(&v, '"', q0 + 1, hi);
        if q == hi {
            return Err(ConnectionError::UnterminatedValue { key: string_of(&v, ka, kb) });
        }
        let key = string_of(&v, ka, kb);
        let value = string_of(&v, q0 + 1, q);
        let ghost body = v@.subrange(q0 + 1, hi as int);
        assert(body.take(q - q0 - 1) == v@.subrange(q0 + 1, q as int));
        assert(body.skip(q - q0) == v@.subrange(q + 1, hi as int));
        let ghost old_pv = pairs_view(pairs@);
        pairs.push((key, value));
        assert(pairs_view(pairs@) == old_pv + seq![(key@, value@)]);
        assert(old_pv + (seq![(key@, value@)] + spec_fields(v@.subrange(q + 1, hi as int))->Ok_0)
            == pairs_view(pairs@) + spec_fields(v@.subrange(q + 1, hi as int))->Ok_0);
        pos = q + 1;
    }
}

/// Reads a 1C connection string of the form `Key="value";Key="value";` and
/// classifies it by the keys present: `File` names a file base, `Srvr` with
/// `Ref` a server base, `ws` a web publication, in that order of precedence.
/// Keys are case-sensitive.
pub fn parse(input: &str) -> (r: Result<Target, ConnectionError>)
    ensures
        match spec_parse(input@) {
            Ok(t) => r matches Ok(x) && x@ == t,
            Err(e) => r matches Err(x) && x@ == e,
        },
{
    let fields = match parse_fields(input) {
        Ok(f) => f,
        Err(e) => return Err(e),
    };
    if let Some(path) = fields.get(&String::from_str("File")) {
        return Ok(Target::File(path));
    }
    let srvr = fields.get(&String::from_str("Srvr"));
    let refname = fields.get(&String::from_str("Ref"));
    if let (Some(s), Some(r)) = (srvr, refname) {
        return Ok(Target::Server { srvr: s, refname: r });
    }
    if let Some(url) = fields.get(&String::from_str("ws")) {
        return Ok(Target::Web(url));
    }
    Err(ConnectionError::NoTarget)
}

} // verus!

verus! {

/// A key that reads back as itself: not empty, no `=`, not starting with a
/// separator, not ending in whitespace.
pub open spec fn plain_key(k: Seq<char>) -> bool {
    &&& k.len() > 0
    &&& !is_sep(k[0])
    &&& !is_ws(k.last())
    &&& forall|i: int| 0 <= i < k.len() ==> k[i] != '='
}

/// A value that reads back as itself: no quote in it.
pub open spec fn plain_value(v: Seq<char>) -> bool {
    forall|i: int| 0 <= i < v.len() ==> v[i] != '"'
}

/// The connection string `k1="v1";k2="v2";...`.
pub open spec fn render_fields(pairs: Seq<(Seq<char>, Seq<char>)>) -> Seq<char>
    decreases pairs.len(),
{
    if pairs.len() == 0 {
        Seq::empty()
    } else {
        pairs[0].0 + "=\""@ + pairs[0].1 + "\";"@ + render_fields(pairs.drop_first())
    }
}

proof fn lemma_fields_same_start(x: Seq<char>, y: Seq<char>)
    requires
        skip_seps(x) == skip_seps(y),
    ensures
        spec_fields(x) == spec_fields(y),
{
}

proof fn lemma_fields_of_render(pairs: Seq<(Seq<char>, Seq<char>)>)
    requires
        forall|i: int| 0 <= i < pairs.len() ==> plain_key(#[trigger] pairs[i].0) && plain_value(
            pairs[i].1,
        ),
    ensures
        spec_fields(render_fields(pairs)) == Ok::<_, ParseFailure>(pairs),
    decreases pairs.len(),
{
    reveal_strlit("=\"");
    reveal_strlit("\";");
    let s = render_fields(pairs);
    if pairs.len() == 0 {
        assert(pairs == Seq::<(Seq<char>, Seq<char>)>::empty());
    } else {
        let k = pairs[0].0;
        let v = pairs[0].1;
        let tail = pairs.drop_first();
        let rest = render_fields(tail);
        assert(plain_key(k) && plain_value(v));
        assert forall|i: int| 0 <= i < tail.len() implies plain_key(#[trigger] tail[i].0)
            && plain_value(tail[i].1) by {
            assert(tail[i] == pairs[i + 1]);
        }
        lemma_fields_of_render(tail);
        assert(s == k + "=\""@ + v + "\";"@ + rest);
        assert(s[0] == k[0]);
        assert(skip_seps(s) == s);
        let eq = k.len() as int;
        assert(s[eq] == '=');
        assert forall|j: int| 0 <= j < eq implies s[j] != '=' by {
            assert(s[j] == k[j]);
        }
        lemma_find_char(s, '=', eq);
        assert(s.take(eq) == k);
        assert(trim_start(k) == k);
        assert(trim(k) == k);
        let after = s.skip(eq + 1);
        assert(after == seq!['"'] + v + "\";"@ + rest);
        assert(trim_start(after) == after);
        let body = after.drop_first();
        assert(body == v + "\";"@ + rest);
        let q = v.len() as int;
        assert(body[q] == '"');
        assert forall|j: int| 0 <= j < q implies body[j] != '"' by {
            assert(body[j] == v[j]);
        }
        lemma_find_char(body, '"', q);
        assert(body.take(q) == v);
        let next = body.skip(q + 1);
        assert(next == seq![';'] + rest);
        assert(next.drop_first() == rest);
        assert(skip_seps(next) == skip_seps(rest));
        lemma_fields_same_start(next, rest);
        assert(pairs == seq![(k, v)] + tail);
    }
}

proof fn lemma_render_ends_with_semicolon(pairs: Seq<(Seq<char>, Seq<char>)>)
    requires
        pairs.len() > 0,
    ensures
        render_fields(pairs).len() > 0,
        render_fields(pairs).last() == ';',
    decreases pairs.len(),
{
    reveal_strlit("=\"");
    reveal_strlit("\";");
    let tail = pairs.drop_first();
    if tail.len() > 0 {
        lemma_render_ends_with_semicolon(tail);
    } else {
        assert(render_fields(tail) == Seq::<char>::empty());
    }
}

/// A connection string written as `k1="v1";k2="v2";...` from keys and values
/// that read back as themselves gives those fields back, keys as written.
pub proof fn law_fields_roundtrip(pairs: Seq<(Seq<char>, Seq<char>)>)
    requires
        forall|i: int| 0 <= i < pairs.len() ==> plain_key(#[trigger] pairs[i].0) && plain_value(
            pairs[i].1,
        ),
    ensures
        spec_parse_fields(render_fields(pairs)) == Ok::<_, ParseFailure>(pairs_map(pairs)),
{
    reveal_strlit("=\"");
    reveal_strlit("\";");
    let s = render_fields(pairs);
    if pairs.len() > 0 {
        let k = pairs[0].0;
        assert(plain_key(k));
        assert(s == k + "=\""@ + pairs[0].1 + "\";"@ + render_fields(pairs.drop_first()));
        assert(trim_start(s) == s);
        lemma_render_ends_with_semicolon(pairs);
        assert(s.last() == ';');
        assert(trim(s) == s);
    } else {
        assert(trim(s) == s);
    }
    lemma_fields_of_render(pairs);
}

} // verus!
