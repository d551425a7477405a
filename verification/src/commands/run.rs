//! `run`: which target to open.
use vstd::prelude::*;

use crate::cli::RunArgs;
use crate::onec::connection::{
    find_char, find_in, parse, spec_parse, ConnectionError, ParseFailure, Target, TargetView,
};
use crate::text::{
    chars_of, lower, lower_char, opt_view, starts_with, to_lower_char, trim, trim_bounds,
};

verus! {

/// Where `run` reads a connection string from, beyond its arguments.
#[derive(Debug, Clone, Copy, PartialEq, Eq, Structural)]
pub enum InputSource {
    Stdin,
    Clipboard,
}

/// The outside input `run` needs: stdin where asked for, the clipboard where no
/// target is given, else none.
pub open spec fn input_source_spec(stdin: bool, has_target: bool, has_base: bool) -> Option<
    InputSource,
> {
    if stdin {
        Some(InputSource::Stdin)
    } else if !has_target && !has_base {
        Some(InputSource::Clipboard)
    } else {
        None
    }
}

/// The outside input `run` needs to find its target.
pub fn input_source(args: &RunArgs) -> (r: Option<InputSource>)
    ensures
        r == input_source_spec(args.stdin, args.target is Some, args.base is Some),
{
    if args.stdin {
        Some(InputSource::Stdin)
    } else if args.target.is_none() && args.base.is_none() {
        Some(InputSource::Clipboard)
    } else {
        None
    }
}

/// Why `run` has no target, as the contracts see it.
pub enum RunFailure {
    Parse(ParseFailure),
    ClipboardEmpty,
    BaseWithoutServer,
    StdinUnavailable,
}

/// Why `run` has no target.
#[derive(Debug)]
pub enum RunError {
    /// The connection string was refused.
    Connection(ConnectionError),
    /// No target was given and the clipboard held nothing (or could not be read).
    ClipboardEmpty,
    /// A base name was given without a server name.
    BaseWithoutServer,
    /// Standard input could not be read.
    StdinUnavailable,
}

impl View for RunError {
    type V = RunFailure;

    open spec fn view(&self) -> RunFailure {
        match self {
            RunError::Connection(e) => RunFailure::Parse(e@),
            RunError::ClipboardEmpty => RunFailure::ClipboardEmpty,
            RunError::BaseWithoutServer => RunFailure::BaseWithoutServer,
            RunError::StdinUnavailable => RunFailure::StdinUnavailable,
        }
    }
}

impl RunError {
    /// The message shown to the user.
    pub fn message(&self) -> (s: String)
        ensures
            self matches RunError::Connection(e) ==> s@ == crate::onec::connection::failure_message(e@),
            self is ClipboardEmpty ==> s@ == "no target specified and clipboard is empty"@,
            self is BaseWithoutServer ==> s@ == "base name given without server name"@,
            self is StdinUnavailable ==> s@ == "reading connection string from stdin failed"@,
    {
        match self {
            RunError::Connection(e) => e.message(),
            RunError::ClipboardEmpty => String::from_str("no target specified and clipboard is empty"),
            RunError::BaseWithoutServer => String::from_str("base name given without server name"),
            RunError::StdinUnavailable => String::from_str(
                "reading connection string from stdin failed",
            ),
        }
    }
}

/// A connection string's target, with failures as `run` reports them.
pub open spec fn parsed_target(s: Seq<char>) -> Result<TargetView, RunFailure> {
    match spec_parse(s) {
        Ok(t) => Ok(t),
        Err(e) => Err(RunFailure::Parse(e)),
    }
}

/// Whether `t` names a web publication: it begins with `http://` or
/// `https://`, ASCII case aside.
pub open spec fn is_web_address(t: Seq<char>) -> bool {
    starts_with(lower(t), "http://"@) || starts_with(lower(t), "https://"@)
}

/// The target that a lone `run` argument names: one with no `=` in it is a web
/// publication where it is a web address and a file base otherwise; any other
/// is read as a connection string.
pub open spec fn argument_target(t: Seq<char>) -> Result<TargetView, RunFailure> {
    if find_char(t, '=') == None::<int> {
        if is_web_address(t) {
            Ok(TargetView::Web(t))
        } else {
            Ok(TargetView::File(t))
        }
    } else {
        parsed_target(t)
    }
}

/// The target `run` opens: from stdin where asked for; a server and base where
/// both are given; the target argument given (see `argument_target`); else from the clipboard, which
/// must hold more than whitespace. A base without a server is refused.
/// `input` is what was read from the source that `input_source` names (absent
/// where reading failed).
pub open spec fn resolve_target_spec(
    stdin: bool,
    target: Option<Seq<char>>,
    base: Option<Seq<char>>,
    input: Option<Seq<char>>,
) -> Result<TargetView, RunFailure> {
    if stdin {
        match input {
            Some(s) => parsed_target(s),
            None => Err(RunFailure::StdinUnavailable),
        }
    } else {
        match (target, base) {
            (Some(t), Some(b)) => Ok(TargetView::Server { srvr: t, refname: b }),
            (Some(t), None) => argument_target(t),
            (None, None) => match input {
                Some(s) => if trim(s).len() == 0 {
                    Err(RunFailure::ClipboardEmpty)
                } else {
                    parsed_target(s)
                },
                None => Err(RunFailure::ClipboardEmpty),
            },
            (None, Some(_)) => Err(RunFailure::BaseWithoutServer),
        }
    }
}

fn parse_for_run(s: &str) -> (r: Result<Target, RunError>)
    ensures
        match parsed_target(s@) {
            Ok(t) => r matches Ok(x) && x@ == t,
            Err(e) => r matches Err(x) && x@ == e,
        },
{
    match parse(s) {
        Ok(t) => Ok(t),
        Err(e) => Err(RunError::Connection(e)),
    }
}

/// Whether `v`, ASCII-lowercased, begins with `p`.
fn lower_starts_with(v: &Vec<char>, p: &Vec<char>) -> (r: bool)
    ensures
        r == starts_with(lower(v@), p@),
{
    if p.len() > v.len() {
        return false;
    }
    let mut i: usize = 0;
    while i < p.len()
        invariant
            i <= p.len() <= v.len(),
            forall|k: int| 0 <= k < i ==> lower_char(v@[k]) == p@[k],
        decreases p.len() - i,
    {
        if to_lower_char(v[i]) != p[i] {
            assert(lower(v@).take(p.len() as int)[i as int] != p@[i as int]);
            return false;
        }
        i = i + 1;
    }
    assert(lower(v@).take(p.len() as int) =~= p@);
    true
}

/// The target that a lone `run` argument names (see `argument_target`).
pub fn target_of_argument(t: &String) -> (r: Result<Target, RunError>)
    ensures
        match argument_target(t@) {
            Ok(x) => r matches Ok(y) && y@ == x,
            Err(e) => r matches Err(y) && y@ == e,
        },
{
    let v = chars_of(t.as_str());
    let e = find_in(&v, '=', 0, v.len());
    assert(v@.subrange(0, v@.len() as int) == t@);
    if e == v.len() {
        let http = chars_of("http://");
        let https = chars_of("https://");
        if lower_starts_with(&v, &http) || lower_starts_with(&v, &https) {
            Ok(Target::Web(t.clone()))
        } else {
            Ok(Target::File(t.clone()))
        }
    } else {
        parse_for_run(t.as_str())
    }
}

/// Resolves the target `run` opens (see `resolve_target_spec`).
pub fn resolve_target(args: &RunArgs, input: Option<String>) -> (r: Result<Target, RunError>)
    ensures
        match resolve_target_spec(
            args.stdin,
            opt_view(args.target),
            opt_view(args.base),
            opt_view(input),
        ) {
            Ok(t) => r matches Ok(x) && x@ == t,
            Err(e) => r matches Err(x) && x@ == e,
        },
{
    if args.stdin {
        return match &input {
            Some(s) => parse_for_run(s.as_str()),
            None => Err(RunError::StdinUnavailable),
        };
    }
    match (&args.target, &args.base) {
        (Some(t), Some(b)) => Ok(Target::Server { srvr: t.clone(), refname: b.clone() }),
        (Some(t), None) => target_of_argument(t),
        (None, None) => match &input {
            Some(s) => {
                let v = chars_of(s.as_str());
                let (a, b) = trim_bounds(&v, 0, v.len());
                assert(v@.subrange(0, v@.len() as int) == s@);
                if a == b {
                    Err(RunError::ClipboardEmpty)
                } else {
                    parse_for_run(s.as_str())
                }
            },
            None => Err(RunError::ClipboardEmpty),
        },
        (None, Some(_)) => Err(RunError::BaseWithoutServer),
    }
}

} // verus!
