//! What running an outside program, or asking the file system, comes back
//! with, and how a caller's function for it is spoken of in contracts.

use vstd::prelude::*;
use vstd::string::*;

verus! {

/// How an outside program is started: its name, its arguments, the variables
/// taken out of the inherited environment, and those set in it.
#[derive(Debug)]
pub struct Invocation {
    pub program: String,
    pub args: Vec<String>,
    pub removed: Vec<String>,
    pub set: Vec<(String, String)>,
}

/// Set one more variable.
pub fn set_var(set: &mut Vec<(String, String)>, name: &str, value: &str)
    ensures
        final(set).deep_view() == old(set).deep_view().push((name@, value@)),
{
    set.push((name.to_owned(), value.to_owned()));
    assert(set.deep_view() =~= old(set).deep_view().push((name@, value@)));
}

/// A program that ran to its end. `code` is its exit status, `None` when a
/// signal ended it.
#[derive(Debug, PartialEq, Eq)]
pub struct Output {
    pub code: Option<i32>,
    pub stdout: String,
    pub stderr: String,
}

impl Clone for Output {
    fn clone(&self) -> (r: Output)
        ensures
            r == *self,
    {
        Output { code: self.code, stdout: self.stdout.clone(), stderr: self.stderr.clone() }
    }
}

/// A program's output, or why it could not be started.
pub type Reply = Result<Output, String>;

impl Output {
    /// Exit status zero.
    pub open spec fn succeeded(self) -> bool {
        self.code == Some(0i32)
    }

    /// Whether the exit status is zero.
    pub fn success(&self) -> (r: bool)
        ensures
            r == self.succeeded(),
    {
        match self.code {
            Some(code) => code == 0,
            None => false,
        }
    }
}

/// `ask` may be called with any text.
pub open spec fn accepts_any<T, F: Fn(&String) -> T>(ask: F) -> bool {
    forall|arg: String| #[trigger] call_requires(ask, (&arg,))
}

/// `reply` is something `ask` may answer to the text `arg`.
pub open spec fn answers<T, F: Fn(&String) -> T>(ask: F, arg: Seq<char>, reply: T) -> bool {
    exists|s: String| s@ == arg && #[trigger] call_ensures(ask, (&s,), reply)
}

}
