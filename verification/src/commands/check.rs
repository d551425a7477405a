//! `check`: which servers to ask, and what to print.
use vstd::prelude::*;

use crate::config::{effective_port_of, server_text, Server};
use crate::onec::ibcmd::{all_digits, digits_value, lemma_decimal_digits};
use crate::text::{decimal, decimal_string, opt_view, texts};

verus! {

/// Why `check` has no server to ask.
#[derive(Debug)]
pub enum CheckError {
    /// No servers are configured.
    NoServers,
    /// No configured server has this host.
    ServerNotFound(String),
}

impl CheckError {
    /// The message shown to the user.
    pub fn message(&self) -> (s: String)
        ensures
            self is NoServers ==> s@ == "No servers configured."@,
            self matches CheckError::ServerNotFound(h) ==> s@ == "Server not found: '"@ + h@ + "'"@,
    {
        match self {
            CheckError::NoServers => String::from_str("No servers configured."),
            CheckError::ServerNotFound(h) => String::from_str("Server not found: '").concat(
                h.as_str(),
            ).concat("'"),
        }
    }
}

/// The servers, in order, whose host is `host`.
pub open spec fn servers_on(s: Seq<Server>, host: Seq<char>) -> Seq<Server>
    decreases s.len(),
{
    if s.len() == 0 {
        s
    } else if s.last().host@ == host {
        servers_on(s.drop_last(), host).push(s.last())
    } else {
        servers_on(s.drop_last(), host)
    }
}

/// The servers `check` asks: all configured ones, or those on `host` where one
/// is given; refused where none are configured or none is on `host`.
pub fn select_servers(servers: Vec<Server>, host: Option<String>) -> (r: Result<
    Vec<Server>,
    CheckError,
>)
    ensures
        servers@.len() == 0 ==> (r matches Err(CheckError::NoServers)),
        servers@.len() > 0 && host is None ==> (r matches Ok(v) && v@ == servers@),
        servers@.len() > 0 && host is Some ==> match host {
            Some(h) => if servers_on(servers@, h@).len() == 0 {
                r matches Err(CheckError::ServerNotFound(x)) && x@ == h@
            } else {
                r matches Ok(v) && v@ == servers_on(servers@, h@)
            },
            None => true,
        },
{
    if servers.len() == 0 {
        return Err(CheckError::NoServers);
    }
    let h = match host {
        Some(h) => h,
        None => return Ok(servers),
    };
    let ghost all = servers@;
    let n = servers.len();
    let mut rest = servers;
    let mut kept: Vec<Server> = Vec::new();
    let mut i: usize = 0;
    assert(all.take(0) == Seq::<Server>::empty());
    while rest.len() > 0
        invariant
            i + rest.len() == all.len(),
            all.len() == n,
            rest@ == all.skip(i as int),
            kept@ == servers_on(all.take(i as int), h@),
        decreases rest.len(),
    {
        let ghost before = rest@;
        let s = rest.remove(0);
        assert(s == all[i as int]);
        assert(all.skip(i + 1) == all.skip(i as int).drop_first());
        assert(all.take(i + 1).drop_last() == all.take(i as int));
        assert(all.take(i + 1).last() == all[i as int]);
        if s.host == h {
            kept.push(s);
        }
        i = i + 1;
    }
    assert(all.take(i as int) == all);
    if kept.len() == 0 {
        Err(CheckError::ServerNotFound(h))
    } else {
        Ok(kept)
    }
}

/// What asking a server gave.
#[derive(Debug)]
pub enum CheckOutcome {
    /// Whether the base exists.
    Exists(bool),
    /// The base's size in bytes, where it exists.
    Size(Option<u64>),
    /// The question failed; the error's message.
    Failed(String),
}

/// The line `check` prints for a server, if any.
pub open spec fn check_line_spec(
    server: Seq<char>,
    outcome: CheckOutcome,
    bytes: bool,
    human_size: Seq<char>,
) -> Option<Seq<char>> {
    match outcome {
        CheckOutcome::Exists(true) => Some(server),
        CheckOutcome::Exists(false) => None,
        CheckOutcome::Size(Some(n)) => Some(
            server + ": "@ + if bytes {
                decimal(n as nat) + " bytes"@
            } else {
                human_size
            },
        ),
        CheckOutcome::Size(None) => None,
        CheckOutcome::Failed(m) => Some("error: "@ + m@),
    }
}

/// The line `check` prints for `server`: the server where the base exists; the
/// server and the size where asked for the size (in bytes where `bytes` is set,
/// else as `human_size`, the size written for people); the error where asking
/// failed; nothing where the base is not there.
pub fn check_line(server: &Server, outcome: CheckOutcome, bytes: bool, human_size: &str) -> (r:
    Option<String>)
    ensures
        opt_view(r) == check_line_spec(
            server_text(server.host@, effective_port_of(server.kind, server.port)),
            outcome,
            bytes,
            human_size@,
        ),
{
    match outcome {
        CheckOutcome::Exists(true) => Some(server.to_string()),
        CheckOutcome::Exists(false) => None,
        CheckOutcome::Size(Some(n)) => {
            let size = if bytes {
                decimal_string(n).concat(" bytes")
            } else {
                String::from_str(human_size)
            };
            Some(server.to_string().concat(": ").concat(size.as_str()))
        },
        CheckOutcome::Size(None) => None,
        CheckOutcome::Failed(m) => Some(String::from_str("error: ").concat(m.as_str())),
    }
}

/// The results as pairs of index and line.
pub open spec fn results_view(s: Seq<(usize, Option<String>)>) -> Seq<(usize, Option<Seq<char>>)> {
    s.map_values(|x: (usize, Option<String>)| (x.0, opt_view(x.1)))
}

/// `s` with `x` put after every entry whose index is not above its own.
pub open spec fn insert_by_index(
    s: Seq<(usize, Option<Seq<char>>)>,
    x: (usize, Option<Seq<char>>),
) -> Seq<(usize, Option<Seq<char>>)>
    decreases s.len(),
{
    if s.len() == 0 || s.last().0 <= x.0 {
        s.push(x)
    } else {
        insert_by_index(s.drop_last(), x).push(s.last())
    }
}

/// `s` stably sorted by index.
pub open spec fn sort_by_index(s: Seq<(usize, Option<Seq<char>>)>) -> Seq<(usize, Option<Seq<char>>)>
    decreases s.len(),
{
    if s.len() == 0 {
        s
    } else {
        insert_by_index(sort_by_index(s.drop_last()), s.last())
    }
}

/// The lines present, in order.
pub open spec fn present_lines(s: Seq<(usize, Option<Seq<char>>)>) -> Seq<Seq<char>>
    decreases s.len(),
{
    if s.len() == 0 {
        Seq::empty()
    } else {
        match s.last().1 {
            Some(l) => present_lines(s.drop_last()).push(l),
            None => present_lines(s.drop_last()),
        }
    }
}

/// Inserting at the position after the last entry not above `x`.
proof fn lemma_insert_at(s: Seq<(usize, Option<Seq<char>>)>, x: (usize, Option<Seq<char>>), p: int)
    requires
        0 <= p <= s.len(),
        p > 0 ==> s[p - 1].0 <= x.0,
        forall|j: int| p <= j < s.len() ==> s[j].0 > x.0,
    ensures
        insert_by_index(s, x) == s.take(p) + seq![x] + s.skip(p),
    decreases s.len(),
{
    if p == s.len() {
        assert(s.take(p) == s);
        assert(s.skip(p) == Seq::<(usize, Option<Seq<char>>)>::empty());
        if s.len() > 0 {
            assert(s.last() == s[p - 1]);
        }
    } else {
        assert(s.last().0 > x.0);
        lemma_insert_at(s.drop_last(), x, p);
        assert(s.drop_last().take(p) == s.take(p));
        assert(s.drop_last().skip(p).push(s.last()) == s.skip(p));
        assert(s.take(p) + seq![x] + s.drop_last().skip(p) + seq![s.last()] == s.take(p) + seq![x]
            + s.skip(p));
    }
}

/// The lines `--sync` prints: the results in index order (ties in the order
/// given), those with a line.
pub fn ordered_lines(results: Vec<(usize, Option<String>)>) -> (lines: Vec<String>)
    ensures
        texts(lines@) == present_lines(sort_by_index(results_view(results@))),
{
    let ghost rv = results_view(results@);
    let n = results.len();
    let mut rest = results;
    let mut sorted: Vec<(usize, Option<String>)> = Vec::new();
    let mut i: usize = 0;
    assert(rv.take(0) == Seq::<(usize, Option<Seq<char>>)>::empty());
    while rest.len() > 0
        invariant
            i + rest.len() == n,
            rv.len() == n,
            results_view(rest@) == rv.skip(i as int),
            results_view(sorted@) == sort_by_index(rv.take(i as int)),
        decreases rest.len(),
    {
        let ghost before = rest@;
        let x = rest.remove(0);
        assert(results_view(rest@) == results_view(before).drop_first());
        let ghost xv = (x.0, opt_view(x.1));
        assert(x == before[0]);
        assert(results_view(before)[0] == xv);
        assert(rv.skip(i as int)[0] == rv[i as int]);
        assert(xv == rv[i as int]);
        assert(rv.skip(i + 1) == rv.skip(i as int).drop_first());
        assert(rv.take(i + 1).drop_last() == rv.take(i as int));
        assert(rv.take(i + 1).last() == rv[i as int]);
        let ghost sv = results_view(sorted@);
        let mut p = sorted.len();
        while p > 0 && sorted[p - 1].0 > x.0
            invariant
                p <= sorted.len(),
                sv == results_view(sorted@),
                forall|j: int| p <= j < sv.len() ==> sv[j].0 > x.0,
            decreases p,
        {
            p = p - 1;
        }
        proof {
            lemma_insert_at(sv, xv, p as int);
        }
        sorted.insert(p, x);
        assert(results_view(sorted@) == sv.take(p as int) + seq![xv] + sv.skip(p as int));
        i = i + 1;
    }
    assert(rv.take(i as int) == rv);
    let ghost sv = results_view(sorted@);
    let mut lines: Vec<String> = Vec::new();
    let mut k: usize = 0;
    assert(sv.take(0) == Seq::<(usize, Option<Seq<char>>)>::empty());
    while k < sorted.len()
        invariant
            k <= sorted.len(),
            sv == results_view(sorted@),
            texts(lines@) == present_lines(sv.take(k as int)),
        decreases sorted.len() - k,
    {
        assert(sv.take(k + 1).drop_last() == sv.take(k as int));
        assert(sv.take(k + 1).last() == sv[k as int]);
        if let Some(l) = &sorted[k].1 {
            lines.push(l.clone());
        }
        k = k + 1;
    }
    assert(sv.take(k as int) == sv);
    lines
}

} // verus!

verus! {

/// Sorted by index.
pub open spec fn index_sorted(s: Seq<(usize, Option<Seq<char>>)>) -> bool {
    forall|i: int, j: int| 0 <= i < j < s.len() ==> s[i].0 <= s[j].0
}

proof fn lemma_insert_by_index(s: Seq<(usize, Option<Seq<char>>)>, x: (usize, Option<Seq<char>>))
    requires
        index_sorted(s),
    ensures
        index_sorted(insert_by_index(s, x)),
        insert_by_index(s, x).to_multiset() == s.to_multiset().insert(x),
        insert_by_index(s, x).len() == s.len() + 1,
        forall|k: int|
            0 <= k < insert_by_index(s, x).len() ==> (#[trigger] insert_by_index(s, x)[k] == x
                || s.contains(insert_by_index(s, x)[k])),
    decreases s.len(),
{
    broadcast use vstd::seq_lib::group_to_multiset_ensures;

    if s.len() == 0 || s.last().0 <= x.0 {
        let r = s.push(x);
        assert forall|k: int| 0 <= k < r.len() implies (#[trigger] r[k] == x || s.contains(r[k])) by {
            if k < s.len() {
                assert(r[k] == s[k]);
            }
        }
    } else {
        let d = s.drop_last();
        assert(index_sorted(d));
        lemma_insert_by_index(d, x);
        let r0 = insert_by_index(d, x);
        let r = r0.push(s.last());
        assert(s == d.push(s.last()));
        assert forall|i: int, j: int| 0 <= i < j < r.len() implies r[i].0 <= r[j].0 by {
            if j == r.len() - 1 && i < r0.len() {
                assert(r[i] == r0[i]);
                if r0[i] != x {
                    let m = choose|m: int| 0 <= m < d.len() && d[m] == r0[i];
                    assert(s[m] == d[m]);
                    assert(s[s.len() - 1] == s.last());
                }
            } else {
                assert(r[i] == r0[i]);
                assert(r[j] == r0[j]);
            }
        }
        assert forall|k: int| 0 <= k < r.len() implies (#[trigger] r[k] == x || s.contains(r[k])) by {
            if k < r0.len() {
                assert(r[k] == r0[k]);
                if r0[k] != x {
                    let m = choose|m: int| 0 <= m < d.len() && d[m] == r0[k];
                    assert(s[m] == d[m]);
                }
            } else {
                assert(s[s.len() - 1] == s.last());
            }
        }
        assert(r.to_multiset() =~= s.to_multiset().insert(x));
    }
}

proof fn lemma_sort_by_index(s: Seq<(usize, Option<Seq<char>>)>)
    ensures
        index_sorted(sort_by_index(s)),
        sort_by_index(s).to_multiset() == s.to_multiset(),
    decreases s.len(),
{
    broadcast use vstd::seq_lib::group_to_multiset_ensures;

    if s.len() == 0 {
        assert(sort_by_index(s) == s);
    } else {
        lemma_sort_by_index(s.drop_last());
        lemma_insert_by_index(sort_by_index(s.drop_last()), s.last());
        assert(s == s.drop_last().push(s.last()));
    }
}

/// The results `--sync` prints come out ordered by index (the server's place in
/// the settings), each result exactly once.
pub proof fn law_sync_order(results: Seq<(usize, Option<Seq<char>>)>)
    ensures
        index_sorted(sort_by_index(results)),
        sort_by_index(results).to_multiset() == results.to_multiset(),
{
    lemma_sort_by_index(results);
}

/// With a host given, a configured server is asked exactly when its host is
/// that host, and the servers asked keep the configured order: they are the
/// configured servers filtered by host equality.
pub proof fn law_servers_on_host(s: Seq<Server>, host: Seq<char>)
    ensures
        servers_on(s, host) == s.filter(|x: Server| x.host@ == host),
        forall|i: int| 0 <= i < servers_on(s, host).len() ==> (#[trigger] servers_on(s, host)[i]).host@
            == host,
        forall|j: int| 0 <= j < s.len() && (#[trigger] s[j]).host@ == host ==> servers_on(
            s,
            host,
        ).contains(s[j]),
    decreases s.len(),
{
    broadcast use vstd::seq_lib::group_filter_ensures;

    let pred = |x: Server| x.host@ == host;
    reveal(Seq::filter);
    if s.len() > 0 {
        law_servers_on_host(s.drop_last(), host);
        assert(s.filter(pred) == if pred(s.last()) {
            s.drop_last().filter(pred).push(s.last())
        } else {
            s.drop_last().filter(pred)
        });
    }
}

/// With the size asked for in bytes, the line is the server, `: `, a run of
/// decimal digits that reads back as exactly the size (for every `u64`), and
/// ` bytes`.
pub proof fn law_size_in_bytes(server: Seq<char>, n: u64, human_size: Seq<char>)
    ensures
        check_line_spec(server, CheckOutcome::Size(Some(n)), true, human_size) matches Some(l) && {
            let digits = l.subrange(server.len() + 2int, l.len() - 6);
            &&& l.len() >= server.len() + 9
            &&& l.take(server.len() as int) == server
            &&& l.subrange(server.len() as int, server.len() + 2int) == ": "@
            &&& l.skip(l.len() - 6) == " bytes"@
            &&& all_digits(digits)
            &&& digits_value(digits) == n
        },
{
    reveal_strlit(": ");
    reveal_strlit(" bytes");
    lemma_decimal_digits(n as nat);
    let d = decimal(n as nat);
    let l = server + ": "@ + (d + " bytes"@);
    assert(check_line_spec(server, CheckOutcome::Size(Some(n)), true, human_size) == Some(l));
    assert(l.take(server.len() as int) == server);
    assert(l.subrange(server.len() as int, server.len() + 2int) == ": "@);
    assert(l.skip(l.len() - 6) == " bytes"@);
    assert(l.subrange(server.len() + 2int, l.len() - 6) == d);
}

} // verus!
