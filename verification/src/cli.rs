//! The command line: `--help`, `--once [--format json|text]`, or the
//! interactive screen.

use vstd::prelude::*;
use crate::config::string_views;
use crate::keys::first_pos;
use crate::text::str_eq;

verus! {

/// What the program was asked to do.
#[derive(Debug)]
pub enum Command {
    /// Print the usage text.
    Help,
    /// Check every host once and print the results in this format.
    Once(String),
    /// `--once` with a format other than `text` or `json`.
    BadFormat,
    /// Run the interactive screen.
    Tui,
}

pub open spec fn has_arg(args: Seq<Seq<char>>, a: Seq<char>) -> bool {
    exists|i: int| 0 <= i < args.len() && #[trigger] args[i] == a
}

/// The format named after `--once` at `pos`: the argument after a
/// following `--format`, else `text`.
pub open spec fn once_format(args: Seq<Seq<char>>, pos: int) -> Seq<char> {
    if pos + 1 < args.len() && args[pos + 1] == "--format"@ && pos + 2 < args.len() {
        args[pos + 2]
    } else {
        "text"@
    }
}

/// `--help` or `-h` anywhere asks for help; else the first `--once` asks
/// for one pass in a format that must be `text` or `json`; else the
/// screen runs.
pub open spec fn command_kind(args: Seq<Seq<char>>) -> Option<Option<Seq<char>>> {
    if has_arg(args, "--help"@) || has_arg(args, "-h"@) {
        None
    } else {
        match first_pos(args, "--once"@, 0) {
            Some(p) => Some(Some(once_format(args, p))),
            None => Some(None),
        }
    }
}

fn find_arg(args: &Vec<String>, a: &str) -> (r: Option<usize>)
    ensures
        match first_pos(string_views(args@), a@, 0) {
            Some(p) => r == Some(p as usize) && 0 <= p < args.len() && string_views(args@)[p] == a@,
            None => r is None && !has_arg(string_views(args@), a@),
        },
{
    let ghost s = string_views(args@);
    proof {
        lemma_first_pos(s, a@, 0);
    }
    let mut i: usize = 0;
    while i < args.len()
        invariant
            0 <= i <= args.len(),
            s == string_views(args@),
            first_pos(s, a@, 0) == first_pos(s, a@, i as int),
            forall|k: int| 0 <= k < i ==> s[k] != a@,
        decreases args.len() - i,
    {
        if str_eq(args[i].as_str(), a) {
            return Some(i);
        }
        i += 1;
    }
    None
}

proof fn lemma_first_pos(gs: Seq<Seq<char>>, g: Seq<char>, i: int)
    requires
        0 <= i,
    ensures
        first_pos(gs, g, i) matches Some(p) ==> i <= p < gs.len() && gs[p] == g,
        first_pos(gs, g, i) is None ==> forall|k: int| i <= k < gs.len() ==> gs[k] != g,
    decreases gs.len() - i,
{
    if i < gs.len() && gs[i] != g {
        lemma_first_pos(gs, g, i + 1);
    }
}

/// Reads the command line (the program name first).
pub fn parse_args(args: &Vec<String>) -> (c: Command)
    ensures
        match command_kind(string_views(args@)) {
            None => c is Help,
            Some(None) => c is Tui,
            Some(Some(f)) => if f == "text"@ || f == "json"@ {
                c matches Command::Once(g) && g@ == f
            } else {
                c is BadFormat
            },
        },
{
    let ghost s = string_views(args@);
    let h1 = find_arg(args, "--help");
    let h2 = find_arg(args, "-h");
    if h1.is_some() || h2.is_some() {
        proof {
            match h1 {
                Some(p) => {
                    assert(s[p as int] == "--help"@);
                },
                None => {},
            }
            match h2 {
                Some(p) => {
                    assert(s[p as int] == "-h"@);
                },
                None => {},
            }
        }
        return Command::Help;
    }
    let pos = match find_arg(args, "--once") {
        Some(p) => p,
        None => {
            return Command::Tui;
        },
    };
    let format = if pos + 1 < args.len() && pos + 2 < args.len() && str_eq(
        args[pos + 1].as_str(),
        "--format",
    ) {
        assert(s[pos + 2] == args@[pos + 2]@);
        args[pos + 2].clone()
    } else {
        "text".to_string()
    };
    assert(format@ == once_format(s, pos as int));
    if str_eq(format.as_str(), "text") || str_eq(format.as_str(), "json") {
        Command::Once(format)
    } else {
        Command::BadFormat
    }
}

} // verus!
