//! What an invocation of the program asks for, and the texts it is answered
//! with.

use vstd::prelude::*;
use vstd::string::*;

use crate::text::{join, joined};

verus! {

/// What the program can do, and nothing it cannot.
pub const HELP: &'static str =
    "agent-sessions - one dashboard for every agentic session and worktree

usage:
  agent-sessions --version    version, and the executable that is actually running
  agent-sessions --help       this text
";

/// What an invocation asks for.
#[derive(Debug, PartialEq, Eq)]
pub enum Request {
    Help,
    Version,
    /// A wrong invocation: loud, so a guessed subcommand or a stale hook
    /// entry is corrected rather than silently ignored.
    UsageError(String),
}

/// The value of a [`Request`], with its text as characters.
pub enum RequestView {
    Help,
    Version,
    UsageError(Seq<char>),
}

impl DeepView for Request {
    type V = RequestView;

    open spec fn deep_view(&self) -> RequestView {
        match *self {
            Request::Help => RequestView::Help,
            Request::Version => RequestView::Version,
            Request::UsageError(message) => RequestView::UsageError(message@),
        }
    }
}

/// What an invocation asks for: `--help` before `--version`, and either of
/// them before anything beside it. Subcommands arrive together with the
/// behaviour behind them; anything that has not shipped yet is a usage error,
/// never a silent no-op. `free` is what is left of the arguments, none where
/// one of them is not text.
pub open spec fn request_of(help: bool, version: bool, free: Option<Seq<Seq<char>>>) -> (
    RequestView
) {
    if help {
        RequestView::Help
    } else if version {
        RequestView::Version
    } else {
        RequestView::UsageError(
            match free {
                None => "argument is not valid UTF-8"@,
                Some(free) => if free.len() == 0 {
                    "no command given"@
                } else {
                    "unexpected arguments: "@ + joined(free, " "@)
                },
            },
        )
    }
}

/// What an invocation asks for.
pub fn request(help: bool, version: bool, free: &Option<Vec<String>>) -> (r: Request)
    ensures
        r.deep_view() == request_of(help, version, free.deep_view()),
{
    if help {
        return Request::Help;
    }
    if version {
        return Request::Version;
    }
    match free {
        None => Request::UsageError("argument is not valid UTF-8".to_owned()),
        Some(free) => {
            assert(free.deep_view().len() == free@.len());
            if free.len() == 0 {
                Request::UsageError("no command given".to_owned())
            } else {
                let mut message = "unexpected arguments: ".to_owned();
                message.append(join(free, " ").as_str());
                Request::UsageError(message)
            }
        },
    }
}

/// The version, and the executable that is actually running: a dev checkout
/// deliberately shadows the installed binary through PATH, and a shadow you
/// cannot see is a shadow that wastes an afternoon.
pub fn version_text(version: &str, exe: &Result<String, String>) -> (r: String)
    ensures
        r@ == match *exe {
            Ok(path) => "agent-sessions "@ + version@ + " (running from "@ + path@ + ")"@,
            Err(e) => "agent-sessions "@ + version@ + " (running from an unknown path: "@ + e@
                + ")"@,
        },
{
    let mut out = "agent-sessions ".to_owned();
    out.append(version);
    match exe {
        Ok(path) => {
            out.append(" (running from ");
            out.append(path.as_str());
        },
        Err(e) => {
            out.append(" (running from an unknown path: ");
            out.append(e.as_str());
        },
    }
    out.append(")");
    out
}

/// `--help` and `--version` answer whatever stands beside them, and every
/// other invocation is a usage error.
pub proof fn law_nothing_is_silently_ignored(
    help: bool,
    version: bool,
    free: Option<Seq<Seq<char>>>,
)
    ensures
        help ==> request_of(help, version, free) is Help,
        !help && version ==> request_of(help, version, free) is Version,
        !help && !version ==> request_of(help, version, free) is UsageError,
{
}

/// A wrong invocation is told what is wrong with it: that it gave nothing to
/// do, which arguments were not expected, or that one of them is no text.
pub proof fn law_a_usage_error_says_what_is_wrong(free: Seq<Seq<char>>, word: Seq<char>)
    ensures
        request_of(false, false, None) == RequestView::UsageError("argument is not valid UTF-8"@),
        request_of(false, false, Some(seq![])) == RequestView::UsageError("no command given"@),
        request_of(false, false, Some(seq![word])) == RequestView::UsageError(
            "unexpected arguments: "@ + word,
        ),
        free.len() > 0 ==> request_of(false, false, Some(free)) == RequestView::UsageError(
            "unexpected arguments: "@ + joined(free, " "@),
        ),
{
    assert(joined(seq![word], " "@) == word);
}

}
