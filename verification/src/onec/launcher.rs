//! `1cestart.exe`: where it is, and the command line that opens an infobase.
use vstd::prelude::*;

use crate::cli::RunArgs;
use crate::onec::connection::{Target, TargetView};
use crate::text::opt_view;
use crate::text::{bullet_list, bullet_lines, texts};

verus! {

/// The arguments that name the infobase to open.
pub open spec fn target_args(t: TargetView) -> Seq<Seq<char>> {
    match t {
        TargetView::File(p) => seq!["/F"@, p],
        TargetView::Server { srvr, refname } => seq!["/S"@, srvr + "/"@ + refname],
        TargetView::Web(u) => seq!["/WS"@, u],
    }
}

/// `flag value` where a value is there.
pub open spec fn opt_args(flag: Seq<char>, value: Option<Seq<char>>) -> Seq<Seq<char>> {
    match value {
        Some(v) => seq![flag, v],
        None => Seq::empty(),
    }
}

/// The arguments of `1cestart.exe`: the mode, the target, the credentials, then
/// the architectures asked for.
pub open spec fn launch_args_spec(
    designer: bool,
    target: TargetView,
    user: Option<Seq<char>>,
    password: Option<Seq<char>>,
    x86: bool,
    x86_64: bool,
) -> Seq<Seq<char>> {
    seq![
        if designer {
            "DESIGNER"@
        } else {
            "ENTERPRISE"@
        },
    ] + target_args(target) + opt_args("/N"@, user) + opt_args("/P"@, password) + (if x86 {
        seq!["/AppArch"@, "x86"@]
    } else {
        Seq::empty()
    }) + (if x86_64 {
        seq!["/AppArch"@, "x86_64"@]
    } else {
        Seq::empty()
    })
}

fn push_opt(args: &mut Vec<String>, flag: &str, value: &Option<String>)
    ensures
        texts(final(args)@) == texts(old(args)@) + opt_args(flag@, opt_view(*value)),
{
    if let Some(v) = value {
        args.push(String::from_str(flag));
        args.push(v.clone());
    }
    assert(texts(args@) =~= texts(old(args)@) + opt_args(flag@, opt_view(*value)));
}

/// The arguments of `1cestart.exe` that open `target` as `args` asks. Where
/// `args.auth` is set the credentials are those typed at the prompts
/// (`prompted_username`, `prompted_password`, each absent where reading it
/// failed); else those given in `args`.
pub fn launch_args(
    args: &RunArgs,
    target: &Target,
    prompted_username: Option<String>,
    prompted_password: Option<String>,
) -> (v: Vec<String>)
    ensures
        texts(v@) == launch_args_spec(
            args.designer,
            target@,
            if args.auth {
                opt_view(prompted_username)
            } else {
                opt_view(args.username)
            },
            if args.auth {
                opt_view(prompted_password)
            } else {
                opt_view(args.password)
            },
            args.x86,
            args.x86_64,
        ),
{
    let mut v: Vec<String> = Vec::new();
    if args.designer {
        v.push(String::from_str("DESIGNER"));
    } else {
        v.push(String::from_str("ENTERPRISE"));
    }
    match target {
        Target::File(p) => {
            v.push(String::from_str("/F"));
            v.push(p.clone());
        },
        Target::Server { srvr, refname } => {
            v.push(String::from_str("/S"));
            v.push(srvr.clone().concat("/").concat(refname.as_str()));
        },
        Target::Web(u) => {
            v.push(String::from_str("/WS"));
            v.push(u.clone());
        },
    }
    let ghost head = texts(v@);
    assert(head =~= seq![
        if args.designer {
            "DESIGNER"@
        } else {
            "ENTERPRISE"@
        },
    ] + target_args(target@));
    if args.auth {
        push_opt(&mut v, "/N", &prompted_username);
        push_opt(&mut v, "/P", &prompted_password);
    } else {
        push_opt(&mut v, "/N", &args.username);
        push_opt(&mut v, "/P", &args.password);
    }
    let ghost with_auth = texts(v@);
    if args.x86 {
        v.push(String::from_str("/AppArch"));
        v.push(String::from_str("x86"));
    }
    let ghost with_x86 = texts(v@);
    assert(with_x86 =~= with_auth + (if args.x86 {
        seq!["/AppArch"@, "x86"@]
    } else {
        Seq::empty()
    }));
    if args.x86_64 {
        v.push(String::from_str("/AppArch"));
        v.push(String::from_str("x86_64"));
    }
    assert(texts(v@) =~= with_x86 + (if args.x86_64 {
        seq!["/AppArch"@, "x86_64"@]
    } else {
        Seq::empty()
    }));
    v
}

/// Where `1cestart.exe` is to come from.
#[derive(Debug)]
pub enum LauncherSource {
    /// A path that was set explicitly, and where it was set; it must name an
    /// existing file.
    Explicit { source: String, path: String },
    /// The standard installation directories.
    Standard,
}

/// The first path set of `BAZA_LAUNCHER_PATH` (`env_path`) and `launcher_path`
/// from the settings (`cfg_path`); else the standard directories.
pub fn launcher_source(env_path: Option<String>, cfg_path: Option<String>) -> (r: LauncherSource)
    ensures
        env_path matches Some(p) ==> (r matches LauncherSource::Explicit { source, path } && source@
            == "BAZA_LAUNCHER_PATH"@ && path == p),
        env_path is None && cfg_path is Some ==> (r matches LauncherSource::Explicit {
            source,
            path,
        } && source@ == "config.launcher_path"@ && path == cfg_path->0),
        env_path is None && cfg_path is None ==> r is Standard,
{
    match env_path {
        Some(p) => LauncherSource::Explicit { source: String::from_str("BAZA_LAUNCHER_PATH"), path: p },
        None => match cfg_path {
            Some(p) => LauncherSource::Explicit {
                source: String::from_str("config.launcher_path"),
                path: p,
            },
            None => LauncherSource::Standard,
        },
    }
}

/// `<source> points to a non-existent file: <path>`.
pub fn missing_file_message(source: &str, path: &str) -> (s: String)
    ensures
        s@ == source@ + " points to a non-existent file: "@ + path@,
{
    String::from_str(source).concat(" points to a non-existent file: ").concat(path)
}

/// The message where no `1cestart.exe` was found at the paths tried.
pub fn launcher_not_found_message(tried: &Vec<String>) -> (s: String)
    ensures
        s@ == "1cestart.exe not found. Checked:\n"@ + bullet_list(texts(tried@)),
{
    String::from_str("1cestart.exe not found. Checked:\n").concat(bullet_lines(tried).as_str())
}

/// The first argument of `1cestart.exe` is the mode, and it depends on designer
/// mode alone: `DESIGNER` exactly where it is asked for, else `ENTERPRISE`,
/// whatever the target (file, server or web), credentials and architectures.
/// The target's flag comes right after it.
pub proof fn law_launch_mode(
    designer: bool,
    target: TargetView,
    user: Option<Seq<char>>,
    password: Option<Seq<char>>,
    x86: bool,
    x86_64: bool,
)
    ensures
        ({
            let v = launch_args_spec(designer, target, user, password, x86, x86_64);
            &&& v.len() >= 3
            &&& designer ==> v[0] == "DESIGNER"@
            &&& !designer ==> v[0] == "ENTERPRISE"@
            &&& v[1] == match target {
                TargetView::File(_) => "/F"@,
                TargetView::Server { .. } => "/S"@,
                TargetView::Web(_) => "/WS"@,
            }
        }),
{
}

} // verus!
