//! `ibcmd.exe`: platform versions, which installation to use, and the command
//! line that dumps an infobase.
use vstd::prelude::*;

use crate::config::{Config, Credentials, PlatformArch, Server, ServerKind};
use crate::text::{
    bullet_list, bullet_lines, chars_of, decimal, decimal_string, digit_char, lemma_split_nonempty,
    lemma_split_piece, lemma_split_prefix, lemma_split_single, opt_view, split_on, texts,
};

verus! {

/// An ASCII decimal digit.
pub open spec fn is_digit(c: char) -> bool {
    '0' <= c && c <= '9'
}

/// The value of a string of decimal digits.
pub open spec fn digits_value(s: Seq<char>) -> nat
    decreases s.len(),
{
    if s.len() == 0 {
        0
    } else {
        digits_value(s.drop_last()) * 10 + ((s.last() as nat) - 48) as nat
    }
}

/// Every character of `d` is an ASCII digit.
pub open spec fn all_digits(d: Seq<char>) -> bool {
    forall|i: int| 0 <= i < d.len() ==> is_digit(d[i])
}

/// One part of a version: one or more ASCII digits whose value fits in a `u32`.
pub open spec fn parse_u32_spec(d: Seq<char>) -> Option<u32> {
    if d.len() > 0 && all_digits(d) && digits_value(d) <= u32::MAX {
        Some(digits_value(d) as u32)
    } else {
        None
    }
}

/// A platform version: exactly four dot-separated parts, each a `u32`.
pub open spec fn parse_version_spec(s: Seq<char>) -> Option<Seq<u32>> {
    let p = split_on(s, '.');
    if p.len() == 4 && parse_u32_spec(p[0]) is Some && parse_u32_spec(p[1]) is Some
        && parse_u32_spec(p[2]) is Some && parse_u32_spec(p[3]) is Some {
        Some(
            seq![
                parse_u32_spec(p[0])->0,
                parse_u32_spec(p[1])->0,
                parse_u32_spec(p[2])->0,
                parse_u32_spec(p[3])->0,
            ],
        )
    } else {
        None
    }
}

/// `v[lo..hi]` read as a `u32`.
fn parse_u32_range(v: &Vec<char>, lo: usize, hi: usize) -> (r: Option<u32>)
    requires
        lo <= hi <= v.len(),
    ensures
        r == parse_u32_spec(v@.subrange(lo as int, hi as int)),
{
    let ghost d = v@.subrange(lo as int, hi as int);
    if lo == hi {
        return None;
    }
    let mut value: u64 = 0;
    let mut i = lo;
    assert(v@.subrange(lo as int, lo as int) == Seq::<char>::empty());
    while i < hi
        invariant
            lo <= i <= hi <= v.len(),
            d == v@.subrange(lo as int, hi as int),
            d.len() > 0,
            value == digits_value(v@.subrange(lo as int, i as int)),
            value <= u32::MAX,
            forall|k: int| lo <= k < i ==> is_digit(v@[k]),
        decreases hi - i,
    {
        let c = v[i];
        if !('0' <= c && c <= '9') {
            assert(d[i - lo] == c);
            assert(!is_digit(d[i - lo]));
            assert(!all_digits(d));
            return None;
        }
        let digit: u64 = (c as u32 - 48) as u64;
        let ghost prefix = v@.subrange(lo as int, i + 1);
        assert(prefix.drop_last() == v@.subrange(lo as int, i as int));
        assert(prefix.last() == c);
        let next = value * 10 + digit;
        assert(next == digits_value(prefix));
        if next > 4294967295 {
            proof {
                lemma_digits_value_grows(d, i + 1 - lo);
            }
            assert(d.take(i + 1 - lo) == prefix);
            return None;
        }
        value = next;
        i = i + 1;
    }
    assert(v@.subrange(lo as int, i as int) == d);
    Some(value as u32)
}

/// A longer run of digits is worth at least as much as its prefix.
proof fn lemma_digits_value_grows(d: Seq<char>, k: int)
    requires
        0 <= k <= d.len(),
    ensures
        digits_value(d) >= digits_value(d.take(k)),
    decreases d.len() - k,
{
    if k < d.len() {
        lemma_digits_value_grows(d, k + 1);
        assert(d.take(k + 1).drop_last() == d.take(k));
    } else {
        assert(d.take(k) == d);
    }
}

/// Parses a 1C platform version string (`"8.3.19.1467"`) into its four numeric
/// components: exactly four dot-separated parts (`N.N.N.N`), each one or more
/// ASCII digits whose value fits in a `u32`; no sign, no whitespace.
pub fn parse_version(s: &str) -> (r: Option<[u32; 4]>)
    ensures
        match parse_version_spec(s@) {
            Some(p) => r matches Some(a) && a@ == p,
            None => r is None,
        },
{
    let v = chars_of(s);
    let mut vals: Vec<u32> = Vec::new();
    let mut start: usize = 0;
    let mut i: usize = 0;
    let ghost mut done: Seq<Seq<char>> = Seq::empty();
    assert(v@.take(0) == Seq::<char>::empty());
    assert(done.push(v@.subrange(0, 0)) == split_on(v@.take(0), '.'));
    while i < v.len()
        invariant
            start <= i <= v.len(),
            v@ == s@,
            split_on(v@.take(i as int), '.') == done.push(v@.subrange(start as int, i as int)),
            vals@.len() == done.len(),
            vals@.len() <= 4,
            forall|k: int| 0 <= k < done.len() ==> parse_u32_spec(#[trigger] done[k]) == Some(
                vals@[k],
            ),
        decreases v.len() - i,
    {
        assert(v@.take(i + 1).drop_last() == v@.take(i as int));
        assert(v@.take(i + 1).last() == v@[i as int]);
        if v[i] == '.' {
            let ghost next = done.push(v@.subrange(start as int, i as int)).push(
                Seq::<char>::empty(),
            );
            proof {
                lemma_split_prefix(v@, '.', i + 1);
                assert(v@.take(v@.len() as int) == v@);
            }
            if vals.len() == 4 {
                assert(split_on(v@, '.').len() >= 6);
                return None;
            }
            match parse_u32_range(&v, start, i) {
                None => {
                    assert(split_on(v@, '.')[done.len() as int] == v@.subrange(
                        start as int,
                        i as int,
                    ));
                    return None;
                },
                Some(x) => {
                    vals.push(x);
                },
            }
            proof {
                done = done.push(v@.subrange(start as int, i as int));
            }
            assert(v@.subrange(i + 1, i + 1) == Seq::<char>::empty());
            start = i + 1;
        } else {
            assert(v@.subrange(start as int, i + 1) == v@.subrange(start as int, i as int).push(
                v@[i as int],
            ));
        }
        i = i + 1;
    }
    assert(v@.take(v.len() as int) == v@);
    if vals.len() != 3 {
        return None;
    }
    match parse_u32_range(&v, start, v.len()) {
        None => None,
        Some(x) => {
            let r = [vals[0], vals[1], vals[2], x];
            assert(r@ =~= seq![vals@[0], vals@[1], vals@[2], x]);
            Some(r)
        },
    }
}

/// `true` iff `s` is a well-formed four-part numeric version string.
pub fn is_version_format(s: &str) -> (r: bool)
    ensures
        r == parse_version_spec(s@) is Some,
{
    parse_version(s).is_some()
}

} // verus!

verus! {

/// A number's decimal text is a run of digits worth that number.
pub proof fn lemma_decimal_digits(n: nat)
    ensures
        decimal(n).len() > 0,
        all_digits(decimal(n)),
        digits_value(decimal(n)) == n,
    decreases n,
{
    if n < 10 {
        let c = digit_char(n);
        assert(c as nat == n + 48);
        assert(seq![c].drop_last() == Seq::<char>::empty());
        assert(seq![c].last() == c);
        assert(digits_value(seq![c]) == digits_value(Seq::<char>::empty()) * 10 + ((c as nat) - 48) as nat);
        assert(digits_value(seq![c]) == n);
    } else {
        lemma_decimal_digits(n / 10);
        let d = decimal(n / 10);
        let c = digit_char(n % 10);
        assert(c as nat == n % 10 + 48);
        assert(d.push(c).drop_last() == d);
        assert(d.push(c).last() == c);
        assert((n / 10) * 10 + n % 10 == n);
        assert(digits_value(d.push(c)) == digits_value(d) * 10 + ((c as nat) - 48) as nat);
        assert(digits_value(d.push(c)) == (n / 10) * 10 + n % 10);
    }
}

/// A `u32` written in decimal reads back as itself.
proof fn lemma_u32_roundtrip(a: u32)
    ensures
        parse_u32_spec(decimal(a as nat)) == Some(a),
        forall|i: int| 0 <= i < decimal(a as nat).len() ==> decimal(a as nat)[i] != '.',
{
    lemma_decimal_digits(a as nat);
    let d = decimal(a as nat);
}

/// The version text `a.b.c.d`.
pub open spec fn version_text(a: u32, b: u32, c: u32, d: u32) -> Seq<char> {
    decimal(a as nat) + seq!['.'] + decimal(b as nat) + seq!['.'] + decimal(c as nat) + seq!['.']
        + decimal(d as nat)
}

/// Four numbers written as `a.b.c.d` read back as a version of those four
/// numbers.
pub proof fn law_version_roundtrip(a: u32, b: u32, c: u32, d: u32)
    ensures
        parse_version_spec(version_text(a, b, c, d)) == Some(seq![a, b, c, d]),
{
    lemma_u32_roundtrip(a);
    lemma_u32_roundtrip(b);
    lemma_u32_roundtrip(c);
    lemma_u32_roundtrip(d);
    let (da, db, dc, dd) = (decimal(a as nat), decimal(b as nat), decimal(c as nat), decimal(d as nat));
    let r3 = dc + seq!['.'] + dd;
    let r2 = db + seq!['.'] + r3;
    let r1 = da + seq!['.'] + r2;
    assert(version_text(a, b, c, d) =~= r1);
    lemma_split_single(dd, '.');
    lemma_split_piece(dc, '.', dd);
    lemma_split_piece(db, '.', r3);
    lemma_split_piece(da, '.', r2);
    let p = split_on(r1, '.');
    assert(p =~= seq![da, db, dc, dd]);
}

/// Version order: the four parts compared left to right.
pub open spec fn version_lt(a: Seq<u32>, b: Seq<u32>) -> bool {
    ||| a[0] < b[0]
    ||| a[0] == b[0] && a[1] < b[1]
    ||| a[0] == b[0] && a[1] == b[1] && a[2] < b[2]
    ||| a[0] == b[0] && a[1] == b[1] && a[2] == b[2] && a[3] < b[3]
}

/// Whether version `a` comes before version `b`.
pub fn version_less(a: &[u32; 4], b: &[u32; 4]) -> (r: bool)
    ensures
        r == version_lt(a@, b@),
{
    a[0] < b[0] || (a[0] == b[0] && a[1] < b[1]) || (a[0] == b[0] && a[1] == b[1] && a[2] < b[2])
        || (a[0] == b[0] && a[1] == b[1] && a[2] == b[2] && a[3] < b[3])
}

/// The version order is a strict total order on four-part versions: no
/// version comes before itself, it is transitive, and of two different
/// versions one comes before the other.
pub proof fn law_version_order(a: Seq<u32>, b: Seq<u32>, c: Seq<u32>)
    requires
        a.len() == 4,
        b.len() == 4,
        c.len() == 4,
    ensures
        !version_lt(a, a),
        version_lt(a, b) && version_lt(b, c) ==> version_lt(a, c),
        a != b ==> version_lt(a, b) || version_lt(b, a),
        !(version_lt(a, b) && version_lt(b, a)),
{
    if a != b && !version_lt(a, b) && !version_lt(b, a) {
        assert(a =~= b);
    }
}

/// Versions are ordered part by part, left to right, each part compared as a
/// number: `a` comes before `b` exactly when, at the first part where they
/// differ, the part of `a` is the smaller. So of two versions equal in their
/// first three parts, the one with the smaller fourth part comes first.
pub proof fn law_version_lexicographic(a: Seq<u32>, b: Seq<u32>)
    requires
        a.len() == 4,
        b.len() == 4,
    ensures
        version_lt(a, b) <==> exists|k: int|
            0 <= k < 4 && (forall|j: int| 0 <= j < k ==> a[j] == b[j]) && #[trigger] a[k] < b[k],
        a[0] == b[0] && a[1] == b[1] && a[2] == b[2] ==> (version_lt(a, b) <==> a[3] < b[3]),
{
    if version_lt(a, b) {
        if a[0] < b[0] {
            assert(a[0] < b[0]);
        } else if a[1] < b[1] {
            assert(a[1] < b[1]);
        } else if a[2] < b[2] {
            assert(a[2] < b[2]);
        } else {
            assert(a[3] < b[3]);
        }
    }
    if exists|k: int|
        0 <= k < 4 && (forall|j: int| 0 <= j < k ==> a[j] == b[j]) && #[trigger] a[k] < b[k] {
        let k = choose|k: int|
            0 <= k < 4 && (forall|j: int| 0 <= j < k ==> a[j] == b[j]) && #[trigger] a[k] < b[k];
        if k >= 1 {
            assert(a[0] == b[0]);
        }
        if k >= 2 {
            assert(a[1] == b[1]);
        }
        if k >= 3 {
            assert(a[2] == b[2]);
        }
    }
}

/// Whatever the server kind, the dump arguments name the base and pass the
/// server's own database user and password, each in double quotes, in that
/// order after the server: `--database-name="<name>"`,
/// `--database-user="<user>"`, `--database-password="<password>"`.
pub proof fn law_dump_database_credentials(
    kind: ServerKind,
    host: Seq<char>,
    port: Option<u16>,
    user: Seq<char>,
    password: Seq<char>,
    name: Seq<char>,
    ib_user: Option<Seq<char>>,
    ib_password: Option<Seq<char>>,
)
    ensures
        ({
            let args = dump_args_spec(kind, host, port, user, password, name, ib_user, ib_password);
            &&& args.len() >= 7
            &&& args[0] == "infobase"@
            &&& args[3] == "--database-name="@ + seq!['"'] + name + seq!['"']
            &&& args[4] == "--database-user="@ + seq!['"'] + user + seq!['"']
            &&& args[5] == "--database-password="@ + seq!['"'] + password + seq!['"']
            &&& args[6] == "dump"@
        }),
{
    reveal_strlit("\"");
    let args = dump_args_spec(kind, host, port, user, password, name, ib_user, ib_password);
    assert("--database-name="@ + quoted(name) =~= "--database-name="@ + seq!['"'] + name + seq!['"']);
    assert("--database-user="@ + quoted(user) =~= "--database-user="@ + seq!['"'] + user + seq!['"']);
    assert("--database-password="@ + quoted(password) =~= "--database-password="@ + seq!['"']
        + password + seq!['"']);
}

/// The versions of the installations found.
pub open spec fn found_versions(found: Seq<([u32; 4], String)>) -> Seq<Seq<u32>> {
    found.map_values(|f: ([u32; 4], String)| f.0@)
}

/// The index of the highest version, the first one where several are highest
/// (so that of equal versions the architecture searched first wins); `None`
/// where nothing was found.
pub fn highest_version(found: &Vec<([u32; 4], String)>) -> (r: Option<usize>)
    ensures
        r is None <==> found@.len() == 0,
        r matches Some(i) ==> {
            &&& i < found@.len()
            &&& forall|j: int|
                0 <= j < found@.len() ==> !version_lt(
                    found_versions(found@)[i as int],
                    #[trigger] found_versions(found@)[j],
                )
            &&& forall|j: int|
                0 <= j < i ==> version_lt(
                    #[trigger] found_versions(found@)[j],
                    found_versions(found@)[i as int],
                )
        },
{
    if found.len() == 0 {
        return None;
    }
    let ghost fv = found_versions(found@);
    let mut best: usize = 0;
    let mut k: usize = 1;
    while k < found.len()
        invariant
            1 <= k <= found.len(),
            best < k,
            fv == found_versions(found@),
            forall|j: int| 0 <= j < k ==> !version_lt(fv[best as int], #[trigger] fv[j]),
            forall|j: int| 0 <= j < best ==> version_lt(#[trigger] fv[j], fv[best as int]),
        decreases found.len() - k,
    {
        assert(fv[k as int] == found@[k as int].0@);
        assert(fv[best as int] == found@[best as int].0@);
        if version_less(&found[best].0, &found[k].0) {
            assert forall|j: int| 0 <= j < k implies version_lt(#[trigger] fv[j], fv[k as int]) by {
                assert(!version_lt(fv[best as int], fv[j]));
            }
            best = k;
        }
        k = k + 1;
    }
    Some(best)
}

/// Why no `ibcmd.exe` was found.
#[derive(Debug)]
pub enum DiscoveryError {
    /// No installation directory was there to look into.
    NoInstallations,
    /// Installations were there, but none holds `ibcmd.exe`; the paths looked at.
    NotFound { tried: Vec<String> },
}

impl DiscoveryError {
    /// The message shown to the user.
    pub fn message(&self) -> (s: String)
        ensures
            s@ == match self {
                DiscoveryError::NoInstallations => "ibcmd.exe not found: no 1C installations discovered"@,
                DiscoveryError::NotFound { tried } => "ibcmd.exe not found. Checked:\n"@ + bullet_list(
                    texts(tried@),
                ),
            },
    {
        match self {
            DiscoveryError::NoInstallations => String::from_str(
                "ibcmd.exe not found: no 1C installations discovered",
            ),
            DiscoveryError::NotFound { tried } => String::from_str(
                "ibcmd.exe not found. Checked:\n",
            ).concat(bullet_lines(tried).as_str()),
        }
    }
}

/// The path to use once every installation was looked at: that of the highest
/// version found, the first of equal ones; else which failure it is.
pub fn discovery_outcome(found: Vec<([u32; 4], String)>, tried: Vec<String>) -> (r: Result<
    String,
    DiscoveryError,
>)
    ensures
        found@.len() > 0 ==> (r matches Ok(p) && exists|i: int|
            0 <= i < found@.len() && p@ == found@[i].1@ && (forall|j: int|
                0 <= j < found@.len() ==> !version_lt(
                    found_versions(found@)[i],
                    #[trigger] found_versions(found@)[j],
                )) && (forall|j: int|
                0 <= j < i ==> version_lt(
                    #[trigger] found_versions(found@)[j],
                    found_versions(found@)[i],
                ))),
        found@.len() == 0 && tried@.len() == 0 ==> r matches Err(DiscoveryError::NoInstallations),
        found@.len() == 0 && tried@.len() > 0 ==> (r matches Err(DiscoveryError::NotFound { tried: t })
            && t@ == tried@),
{
    match highest_version(&found) {
        Some(i) => Ok(found[i].1.clone()),
        None => {
            if tried.len() == 0 {
                Err(DiscoveryError::NoInstallations)
            } else {
                Err(DiscoveryError::NotFound { tried })
            }
        },
    }
}

/// The paths of the candidates.
pub open spec fn candidate_paths(c: Seq<(String, bool)>) -> Seq<Seq<char>> {
    c.map_values(|x: (String, bool)| x.0@)
}

/// The path a pinned version comes from, given one candidate per architecture
/// searched, in search order, each with whether its file exists: the first
/// candidate whose file exists; else, where there was none, that no
/// installation was there; else that none holds `ibcmd.exe`, with every
/// candidate's path as tried.
pub fn pinned_outcome(candidates: &Vec<(String, bool)>) -> (r: Result<String, DiscoveryError>)
    ensures
        forall|i: int|
            0 <= i < candidates@.len() && #[trigger] candidates@[i].1 && (forall|j: int|
                0 <= j < i ==> !candidates@[j].1) ==> (r matches Ok(p) && p@ == candidates@[i].0@),
        candidates@.len() == 0 ==> r matches Err(DiscoveryError::NoInstallations),
        candidates@.len() > 0 && (forall|i: int| 0 <= i < candidates@.len() ==> !#[trigger] candidates@[i].1)
            ==> (r matches Err(DiscoveryError::NotFound { tried }) && texts(tried@) == candidate_paths(
            candidates@,
        )),
{
    if candidates.len() == 0 {
        return Err(DiscoveryError::NoInstallations);
    }
    let mut tried: Vec<String> = Vec::new();
    let mut i: usize = 0;
    while i < candidates.len()
        invariant
            i <= candidates.len(),
            forall|j: int| 0 <= j < i ==> !candidates@[j].1,
            texts(tried@) == candidate_paths(candidates@).take(i as int),
        decreases candidates.len() - i,
    {
        if candidates[i].1 {
            return Ok(candidates[i].0.clone());
        }
        let ghost before = texts(tried@);
        tried.push(candidates[i].0.clone());
        assert(texts(tried@) == before.push(candidates@[i as int].0@));
        assert(candidate_paths(candidates@).take(i + 1) == candidate_paths(candidates@).take(
            i as int,
        ).push(candidates@[i as int].0@));
        i = i + 1;
    }
    assert(candidate_paths(candidates@).take(i as int) == candidate_paths(candidates@));
    Err(DiscoveryError::NotFound { tried })
}

/// The architectures to search: the given one, else x86_64 then x86.
pub open spec fn archs_for(arch: Option<PlatformArch>) -> Seq<PlatformArch> {
    match arch {
        Some(a) => seq![a],
        None => seq![PlatformArch::X86_64, PlatformArch::X86],
    }
}

fn archs_vec(arch: Option<PlatformArch>) -> (v: Vec<PlatformArch>)
    ensures
        v@ == archs_for(arch),
{
    let mut v: Vec<PlatformArch> = Vec::new();
    match arch {
        Some(a) => v.push(a),
        None => {
            v.push(PlatformArch::X86_64);
            v.push(PlatformArch::X86);
        },
    }
    v
}

/// Where `ibcmd.exe` is to come from.
#[derive(Debug)]
pub enum IbcmdSource {
    /// Search the installations of these architectures, in order; only the
    /// `pinned` version where one is given, else the highest one.
    Discover { archs: Vec<PlatformArch>, pinned: Option<String> },
    /// The path in `BAZA_IBCMD_PATH`, which must name an existing file.
    Env(String),
    /// The path in the settings (`ibcmd_path`), which must name an existing file.
    Config(String),
}

/// A `--platform-version` that is not `N.N.N.N`.
#[derive(Debug)]
pub struct InvalidVersion {
    pub version: String,
}

/// Chooses where `ibcmd.exe` comes from, in order: the architecture and/or
/// version given on the command line (a malformed version is refused);
/// `BAZA_IBCMD_PATH` (`env_path`); `ibcmd_path` from the settings; else a search
/// guided by the settings' default architecture and (well-formed) version.
pub fn ibcmd_source(
    cfg: &Config,
    arch: Option<PlatformArch>,
    version: Option<String>,
    env_path: Option<String>,
) -> (r: Result<IbcmdSource, InvalidVersion>)
    ensures
        (arch is Some || version is Some) ==> match version {
            Some(v) if parse_version_spec(v@) is None => (r matches Err(e) && e.version@ == v@),
            _ => (r matches Ok(IbcmdSource::Discover { archs, pinned }) && archs@ == archs_for(arch)
                && pinned == version),
        },
        (arch is None && version is None && env_path is Some) ==> (r matches Ok(IbcmdSource::Env(p))
            && p == env_path->0),
        (arch is None && version is None && env_path is None && cfg.ibcmd_path is Some) ==> (r matches Ok(
            IbcmdSource::Config(p),
        ) && p == cfg.ibcmd_path->0),
        (arch is None && version is None && env_path is None && cfg.ibcmd_path is None) ==> (r matches Ok(
            IbcmdSource::Discover { archs, pinned },
        ) && archs@ == archs_for(cfg.default_platform_arch) && match cfg.default_platform_version {
            Some(v) if parse_version_spec(v@) is Some => pinned == Some(v),
            _ => pinned is None,
        }),
{
    if arch.is_some() || version.is_some() {
        if let Some(v) = &version {
            if !is_version_format(v.as_str()) {
                return Err(InvalidVersion { version: v.clone() });
            }
        }
        return Ok(IbcmdSource::Discover { archs: archs_vec(arch), pinned: version });
    }
    if let Some(p) = env_path {
        return Ok(IbcmdSource::Env(p));
    }
    if let Some(p) = &cfg.ibcmd_path {
        return Ok(IbcmdSource::Config(p.clone()));
    }
    let pinned = match &cfg.default_platform_version {
        Some(v) => if is_version_format(v.as_str()) {
            Some(v.clone())
        } else {
            None
        },
        None => None,
    };
    Ok(IbcmdSource::Discover { archs: archs_vec(cfg.default_platform_arch), pinned })
}

} // verus!

verus! {

/// What `dump` is asked to do beyond the server and the base.
#[derive(Debug)]
pub struct DumpOptions {
    pub arch: Option<PlatformArch>,
    pub platform_version: Option<String>,
    pub ib_creds: Credentials,
    pub verbose: bool,
    pub out: Option<String>,
}

/// `"` + `s` + `"`.
pub open spec fn quoted(s: Seq<char>) -> Seq<char> {
    "\""@ + s + "\""@
}

/// The `--database-server=` argument.
pub open spec fn database_server_arg(kind: ServerKind, host: Seq<char>, port: Option<u16>) -> Seq<
    char,
> {
    match port {
        Some(p) => "--database-server="@ + host + match kind {
            ServerKind::Postgres => " port="@ + decimal(p as nat),
            ServerKind::Mssql => ":"@ + decimal(p as nat),
        },
        None => "--database-server="@ + quoted(host),
    }
}

/// The arguments of `ibcmd.exe` that dump base `name` from `server`, before the
/// output path; each is passed to the program as it stands, without quoting.
pub open spec fn dump_args_spec(
    kind: ServerKind,
    host: Seq<char>,
    port: Option<u16>,
    user: Seq<char>,
    password: Seq<char>,
    name: Seq<char>,
    ib_user: Option<Seq<char>>,
    ib_password: Option<Seq<char>>,
) -> Seq<Seq<char>> {
    seq![
        "infobase"@,
        "--dbms="@ + match kind {
            ServerKind::Postgres => "PostgreSQL"@,
            ServerKind::Mssql => "MSSQLServer"@,
        },
        database_server_arg(kind, host, port),
        "--database-name="@ + quoted(name),
        "--database-user="@ + quoted(user),
        "--database-password="@ + quoted(password),
        "dump"@,
    ] + match ib_user {
        Some(u) => seq!["--user="@ + quoted(u)],
        None => Seq::empty(),
    } + match ib_password {
        Some(p) => seq!["--password="@ + quoted(p)],
        None => Seq::empty(),
    }
}

fn quote(s: &str) -> (r: String)
    ensures
        r@ == quoted(s@),
{
    String::from_str("\"").concat(s).concat("\"")
}

/// The arguments of `ibcmd.exe` that dump base `name` from `server` with the
/// infobase credentials `creds`, before the output path.
pub fn dump_args(server: &Server, name: &str, creds: &Credentials) -> (args: Vec<String>)
    ensures
        texts(args@) == dump_args_spec(
            server.kind,
            server.host@,
            server.port,
            server.user@,
            server.password@,
            name@,
            opt_view(creds.username),
            opt_view(creds.password),
        ),
{
    let mut args: Vec<String> = Vec::new();
    args.push(String::from_str("infobase"));
    let dbms = match server.kind {
        ServerKind::Postgres => "PostgreSQL",
        ServerKind::Mssql => "MSSQLServer",
    };
    args.push(String::from_str("--dbms=").concat(dbms));
    let db_server = match server.port {
        Some(p) => {
            let tail = match server.kind {
                ServerKind::Postgres => String::from_str(" port=").concat(
                    decimal_string(p as u64).as_str(),
                ),
                ServerKind::Mssql => String::from_str(":").concat(decimal_string(p as u64).as_str()),
            };
            String::from_str("--database-server=").concat(server.host.as_str()).concat(
                tail.as_str(),
            )
        },
        None => String::from_str("--database-server=").concat(quote(server.host.as_str()).as_str()),
    };
    args.push(db_server);
    args.push(String::from_str("--database-name=").concat(quote(name).as_str()));
    args.push(String::from_str("--database-user=").concat(quote(server.user.as_str()).as_str()));
    args.push(
        String::from_str("--database-password=").concat(quote(server.password.as_str()).as_str()),
    );
    args.push(String::from_str("dump"));
    let ghost base = texts(args@);
    if let Some(u) = &creds.username {
        args.push(String::from_str("--user=").concat(quote(u.as_str()).as_str()));
    }
    let ghost with_user = texts(args@);
    if let Some(p) = &creds.password {
        args.push(String::from_str("--password=").concat(quote(p.as_str()).as_str()));
    }
    assert(texts(args@) =~= dump_args_spec(
        server.kind,
        server.host@,
        server.port,
        server.user@,
        server.password@,
        name@,
        opt_view(creds.username),
        opt_view(creds.password),
    ));
    args
}

/// The dump file used where no output path is given: `./<name>_<date>.dt`.
pub open spec fn default_dump_path(name: Seq<char>, date: Seq<char>) -> Seq<char> {
    "./"@ + name + "_"@ + date + ".dt"@
}

/// A year as `%Y` writes it: four digits from 0000 to 9999, else a sign and
/// four digits or more.
pub open spec fn year_text(y: Seq<char>) -> bool {
    ||| y.len() == 4 && all_digits(y)
    ||| y.len() >= 5 && (y[0] == '+' || y[0] == '-') && all_digits(y.drop_first())
}

/// A date as `%d%m%Y` writes it: the day (01 to 31) and the month (01 to 12)
/// in two digits each, then the year.
pub open spec fn date_text(d: Seq<char>) -> bool {
    &&& d.len() >= 8
    &&& all_digits(d.take(4))
    &&& 1 <= digits_value(d.take(2)) <= 31
    &&& 1 <= digits_value(d.subrange(2, 4)) <= 12
    &&& year_text(d.skip(4))
}

/// Today's local date as `chrono::Local::now().format("%d%m%Y")` writes it.
/// The crate writes day and month as two zero-padded digits each, and the year
/// as four zero-padded digits where it lies in 0 to 9999, else with a sign in
/// front. Which date it is, is not stated. It panics only where the system
/// clock or time zone cannot be read (a clock before 1970, for one), which no
/// input decides.
#[verifier::external_body]
fn today_ddmmyyyy() -> (d: String)
    ensures
        date_text(d@),
{
    chrono::Local::now().format("%d%m%Y").to_string()
}

/// `./<name>_<date>.dt`.
pub fn dated_dump_path(name: &str, date: &str) -> (p: String)
    ensures
        p@ == default_dump_path(name@, date@),
{
    String::from_str("./").concat(name).concat("_").concat(date).concat(".dt")
}

/// Where the dump goes: `out` where given, else `./<name>_<today>.dt` in the
/// current directory, with today's local date as `DDMMYYYY`.
pub fn dump_out_path(name: &str, out: Option<String>) -> (p: String)
    ensures
        match out {
            Some(o) => p@ == o@,
            None => exists|d: Seq<char>| date_text(d) && p@ == default_dump_path(name@, d),
        },
{
    match out {
        Some(o) => o,
        None => {
            let date = today_ddmmyyyy();
            dated_dump_path(name, date.as_str())
        },
    }
}

} // verus!
