//! The command line: which tool a run was invoked as, what `phpick` was asked
//! to do, and the exit status passed on from the program it ran.
use vstd::prelude::*;

use crate::text::{ascii_lower_seq, ascii_lowercase, chars_of, opt_view, str_eq, string_from_chars};

verus! {

/// The tool a run acts as, chosen by the name it was invoked under.
pub enum Invocation {
    Phpick,
    Php,
    Composer,
    /// Any other name, in ASCII lower case.
    Unknown(String),
}

/// Classifies the file stem of the running executable (lossily decoded; `None`
/// when there is none), ignoring ASCII case: `phpick`, `php`, `composer`, or
/// another name.
pub fn classify_invocation(stem: Option<&str>) -> (r: Invocation)
    ensures
        ({
            let name = match stem {
                Some(s) => ascii_lower_seq(s@),
                None => Seq::<char>::empty(),
            };
            match r {
                Invocation::Phpick => name == "phpick"@,
                Invocation::Php => name == "php"@,
                Invocation::Composer => name == "composer"@,
                Invocation::Unknown(n) => n@ == name && name != "phpick"@ && name != "php"@ && name
                    != "composer"@,
            }
        }),
{
    let lowered = match stem {
        Some(s) => {
            let cs = chars_of(s);
            let low = ascii_lowercase(cs.as_slice());
            string_from_chars(low.as_slice())
        },
        None => String::new(),
    };
    if str_eq(lowered.as_str(), "phpick") {
        Invocation::Phpick
    } else if str_eq(lowered.as_str(), "php") {
        Invocation::Php
    } else if str_eq(lowered.as_str(), "composer") {
        Invocation::Composer
    } else {
        Invocation::Unknown(lowered)
    }
}

/// What `phpick` was asked to do.
pub enum CliCommand {
    Help,
    Version,
    CheckUpdate,
    Update,
    /// Print the binary for the given version, or for the pinned one.
    Which(Option<String>),
    List,
    Setup,
    /// An argument that names no command.
    Unknown(String),
}

/// The text of an argument; one that is absent or not valid Unicode reads as empty.
pub open spec fn arg_text(args: Seq<Option<String>>, i: int) -> Seq<char> {
    if 0 <= i < args.len() && args[i] is Some {
        args[i].unwrap()@
    } else {
        Seq::empty()
    }
}

/// The command named by the arguments: none, `-h` or `--help` ask for help;
/// `-v`/`--version`; `check-update`; `update`/`self-update`; `which [X.Y]`;
/// `list`/`ls`; `setup`; anything else is unknown.
pub open spec fn command_matches(args: Seq<Option<String>>, c: CliCommand) -> bool {
    let first = arg_text(args, 0);
    match c {
        CliCommand::Help => first == ""@ || first == "-h"@ || first == "--help"@,
        CliCommand::Version => first == "-v"@ || first == "--version"@,
        CliCommand::CheckUpdate => first == "check-update"@,
        CliCommand::Update => first == "update"@ || first == "self-update"@,
        CliCommand::Which(v) => first == "which"@ && opt_view(v) == (if args.len() > 1 {
            opt_view(args[1])
        } else {
            None
        }),
        CliCommand::List => first == "list"@ || first == "ls"@,
        CliCommand::Setup => first == "setup"@,
        CliCommand::Unknown(other) => other@ == first && first != ""@ && first != "-h"@ && first
            != "--help"@ && first != "-v"@ && first != "--version"@ && first != "check-update"@
            && first != "update"@ && first != "self-update"@ && first != "which"@ && first
            != "list"@ && first != "ls"@ && first != "setup"@,
    }
}

/// Reads the command from the arguments after the program name, each given as
/// text (`None` for one that is not valid Unicode).
pub fn parse_cli(args: &Vec<Option<String>>) -> (r: CliCommand)
    ensures
        command_matches(args@, r),
{
    let first: String = if args.len() > 0 {
        match &args[0] {
            Some(s) => s.clone(),
            None => String::new(),
        }
    } else {
        String::new()
    };
    assert(first@ == arg_text(args@, 0));
    let f = first.as_str();
    if str_eq(f, "") || str_eq(f, "-h") || str_eq(f, "--help") {
        CliCommand::Help
    } else if str_eq(f, "-v") || str_eq(f, "--version") {
        CliCommand::Version
    } else if str_eq(f, "check-update") {
        CliCommand::CheckUpdate
    } else if str_eq(f, "update") || str_eq(f, "self-update") {
        CliCommand::Update
    } else if str_eq(f, "which") {
        let v = if args.len() > 1 {
            match &args[1] {
                Some(s) => Some(s.clone()),
                None => None,
            }
        } else {
            None
        };
        CliCommand::Which(v)
    } else if str_eq(f, "list") || str_eq(f, "ls") {
        CliCommand::List
    } else if str_eq(f, "setup") {
        CliCommand::Setup
    } else {
        CliCommand::Unknown(first)
    }
}

/// The exit status passed on from a program that was run: its exit code
/// (`1` when it had none, as when killed by a signal), cut to its low byte.
pub fn exit_status_byte(code: Option<i32>) -> (r: u8)
    ensures
        r == (match code {
            Some(c) => c,
            None => 1,
        }) as u8,
{
    let c: i32 = match code {
        Some(c) => c,
        None => 1,
    };
    c as u8
}

/// Picks the PHP that a shim runs: the binary for the version pinned by the
/// project when one is pinned and found (`find` is asked for it), else the
/// default `php`. The second result is the pinned version that was not found,
/// which the caller warns about.
pub fn select_php<P, F: FnOnce(&str) -> Option<P>>(default_php: P, pinned: Option<String>, find: F) -> (r: (
    P,
    Option<String>,
))
    requires
        forall|v: &str| #[trigger] find.requires((v,)),
    ensures
        match pinned {
            None => r.0 == default_php && r.1 is None,
            Some(v) => exists|arg: &str, found: Option<P>|
                #![trigger find.ensures((arg,), found)]
                arg@ == v@ && find.ensures((arg,), found) && match found {
                    Some(bin) => r.0 == bin && r.1 is None,
                    None => r.0 == default_php && opt_view(r.1) == Some(v@),
                },
        },
{
    match pinned {
        None => (default_php, None),
        Some(v) => {
            let found = find(v.as_str());
            match found {
                Some(bin) => (bin, None),
                None => (default_php, Some(v)),
            }
        },
    }
}

} // verus!
