//! Asking a forge through its command line.

use vstd::prelude::*;
use vstd::string::*;

use crate::command::{accepts_any, answers, Output};
use crate::forge::{
    cli_for, cli_of, parse_remote, remote_parts, unknown_status, Cli, ForgeStatus, StatusView,
    WorkItem,
};
use crate::forge::page::{
    empty_page, gh_answer, glab_answer, is_empty_page, read_gh, read_glab, said_view,
};
use crate::json::{json_items, json_value};
use crate::text::{list, print_i32, signed_decimal, trim, trimmed};

verus! {

// ---------------------------------------------------------------------------
// Running a CLI
// ---------------------------------------------------------------------------

/// What one try at starting a CLI comes to.
#[derive(Debug)]
pub enum Attempt {
    /// It ran to its end.
    Ran(Output),
    /// Its file was still open for writing, so it did not start; the hold
    /// lasts microseconds, and another try may find it gone.
    Busy(String),
    /// It did not start.
    Failed(String),
}

/// How often a busy file is tried again.
pub const RETRIES: u8 = 5;

/// The forge is only ever asked for lists of pull requests or merge requests.
pub open spec fn is_list_query(args: Seq<Seq<char>>) -> bool {
    args.len() >= 2 && args[1] == "list"@ && (args[0] == "pr"@ || args[0] == "mr"@)
}

/// `attempt` takes every list query. Nothing else is asked of it, so nothing
/// else is ever handed to it.
pub open spec fn accepts_queries<A: Fn(&String, &Vec<String>) -> Attempt>(attempt: A) -> bool {
    forall|exe: String, args: Vec<String>|
        is_list_query(args.deep_view()) ==> #[trigger] call_requires(attempt, (&exe, &args))
}

/// `outcome` is what one try may come to.
pub open spec fn comes_to<A: Fn(&String, &Vec<String>) -> Attempt>(
    attempt: A,
    exe: Seq<char>,
    args: Seq<Seq<char>>,
    outcome: Attempt,
) -> bool {
    exists|e: String, a: Vec<String>|
        e@ == exe && a.deep_view() == args && #[trigger] call_ensures(attempt, (&e, &a), outcome)
}

/// `last` is the outcome that counts: the first that is not busy, or the last
/// try's when there are no more.
pub open spec fn ends_with<A: Fn(&String, &Vec<String>) -> Attempt>(
    attempt: A,
    exe: Seq<char>,
    args: Seq<Seq<char>>,
    retries: nat,
    last: Attempt,
) -> bool
    decreases retries,
{
    exists|outcome: Attempt|
        #[trigger] comes_to(attempt, exe, args, outcome) && if outcome is Busy && retries > 0 {
            ends_with(attempt, exe, args, (retries - 1) as nat, last)
        } else {
            last == outcome
        }
}

/// An exit status as it is reported.
pub open spec fn code_text(code: Option<i32>) -> Seq<char> {
    match code {
        Some(code) => "Some("@ + signed_decimal(code as int) + ")"@,
        None => "None"@,
    }
}

/// What a CLI said: its output, or why there is none.
pub open spec fn report(exe: Seq<char>, last: Attempt) -> Result<Seq<char>, Seq<char>> {
    match last {
        Attempt::Ran(out) => if out.succeeded() {
            Ok(out.stdout@)
        } else {
            Err(exe + " exited "@ + code_text(out.code) + ": "@ + trimmed(out.stderr@))
        },
        Attempt::Busy(e) => Err(exe + ": "@ + e@),
        Attempt::Failed(e) => Err(exe + ": "@ + e@),
    }
}

/// `said` is what running the CLI may give.
pub open spec fn runs<A: Fn(&String, &Vec<String>) -> Attempt>(
    attempt: A,
    exe: Seq<char>,
    args: Seq<Seq<char>>,
    said: Result<Seq<char>, Seq<char>>,
) -> bool {
    exists|last: Attempt|
        #[trigger] ends_with(attempt, exe, args, RETRIES as nat, last) && said == report(exe, last)
}

fn try_for<A: Fn(&String, &Vec<String>) -> Attempt>(
    attempt: &A,
    exe: &String,
    args: &Vec<String>,
    retries: u8,
) -> (r: Attempt)
    requires
        accepts_queries(*attempt),
        is_list_query(args.deep_view()),
    ensures
        ends_with(*attempt, exe@, args.deep_view(), retries as nat, r),
    decreases retries,
{
    let outcome = attempt(exe, args);
    assert(comes_to(*attempt, exe@, args.deep_view(), outcome));
    let busy = match &outcome {
        Attempt::Busy(_) => true,
        _ => false,
    };
    if busy && retries > 0 {
        try_for(attempt, exe, args, retries - 1)
    } else {
        outcome
    }
}

/// What a finished run says.
pub fn read_attempt(exe: &str, last: Attempt) -> (r: Result<String, String>)
    ensures
        said_view(r) == report(exe@, last),
{
    match last {
        Attempt::Ran(out) => {
            if out.success() {
                Ok(out.stdout)
            } else {
                let mut reason = exe.to_owned();
                reason.append(" exited ");
                match out.code {
                    Some(code) => {
                        let mut text = "Some(".to_owned();
                        text.append(print_i32(code).as_str());
                        text.append(")");
                        reason.append(text.as_str());
                    },
                    None => reason.append("None"),
                }
                reason.append(": ");
                reason.append(trim(out.stderr.as_str()).as_str());
                Err(reason)
            }
        },
        Attempt::Busy(e) => Err(not_started(exe, e.as_str())),
        Attempt::Failed(e) => Err(not_started(exe, e.as_str())),
    }
}

fn not_started(exe: &str, e: &str) -> (r: String)
    ensures
        r@ == exe@ + ": "@ + e@,
{
    let mut reason = exe.to_owned();
    reason.append(": ");
    reason.append(e);
    reason
}

// ---------------------------------------------------------------------------
// Asking a forge
// ---------------------------------------------------------------------------

/// The `gh`/`glab` probe. `locate` finds a program's executable on the search
/// path the forge is given, and `attempt` tries to run it there.
pub struct Forge<L, A> {
    pub locate: L,
    pub attempt: A,
}

/// `gh pr list --head` answers both existence and state, without the
/// exit-code ambiguity `gh pr view` has for branches with no PR.
pub open spec fn gh_argv(repo: Seq<char>, branch: Seq<char>, state: Seq<char>) -> Seq<Seq<char>> {
    seq![
        "pr"@,
        "list"@,
        "--repo"@,
        repo,
        "--head"@,
        branch,
        "--state"@,
        state,
        "--json"@,
        "number,state,url,statusCheckRollup"@,
        "--limit"@,
        "20"@,
    ]
}

/// `glab mr list --source-branch` answers existence and state, of open merge
/// requests or of all.
pub open spec fn glab_argv(repo: Seq<char>, branch: Seq<char>, all: bool) -> Seq<Seq<char>> {
    seq!["mr"@, "list"@, "--repo"@, repo, "--source-branch"@, branch] + (if all {
        seq!["--all"@]
    } else {
        seq![]
    }) + seq!["--output"@, "json"@, "--per-page"@, "20"@]
}

/// The repository as both CLIs take it: host and path.
pub open spec fn repo_arg(host: Seq<char>, path: Seq<char>) -> Seq<char> {
    host + "/"@ + path
}

/// `r` is what `gh` may be found to say: the open items are asked for first,
/// and only an empty answer sends the second query, for items of any state.
pub open spec fn asks_gh<A: Fn(&String, &Vec<String>) -> Attempt>(
    attempt: A,
    exe: Seq<char>,
    repo: Seq<char>,
    branch: Seq<char>,
    r: StatusView,
) -> bool {
    exists|open: Result<Seq<char>, Seq<char>>|
        #[trigger] runs(attempt, exe, gh_argv(repo, branch, "open"@), open) && if is_empty_page(
            "gh"@,
            open,
        ) {
            exists|all: Result<Seq<char>, Seq<char>>|
                #[trigger] runs(attempt, exe, gh_argv(repo, branch, "all"@), all) && r
                    == gh_answer(all)
        } else {
            r == gh_answer(open)
        }
}

/// `r` is what `glab` may be found to say, in the same two steps.
pub open spec fn asks_glab<A: Fn(&String, &Vec<String>) -> Attempt>(
    attempt: A,
    exe: Seq<char>,
    repo: Seq<char>,
    branch: Seq<char>,
    r: StatusView,
) -> bool {
    exists|open: Result<Seq<char>, Seq<char>>|
        #[trigger] runs(attempt, exe, glab_argv(repo, branch, false), open) && if is_empty_page(
            "glab"@,
            open,
        ) {
            exists|all: Result<Seq<char>, Seq<char>>|
                #[trigger] runs(attempt, exe, glab_argv(repo, branch, true), all) && r
                    == glab_answer(all)
        } else {
            r == glab_answer(open)
        }
}

/// The program of a CLI.
pub open spec fn program_of(cli: Cli) -> Seq<char> {
    match cli {
        Cli::Gh => "gh"@,
        Cli::Glab => "glab"@,
    }
}

/// `r` is what a CLI that serves the host may be found to say.
pub open spec fn asks_cli<
    L: Fn(&String) -> Option<String>,
    A: Fn(&String, &Vec<String>) -> Attempt,
>(
    forge: Forge<L, A>,
    cli: Cli,
    repo: Seq<char>,
    branch: Seq<char>,
    r: StatusView,
) -> bool {
    exists|exe: Option<String>|
        #[trigger] answers(forge.locate, program_of(cli), exe) && match exe {
            None => r == unknown_status(program_of(cli) + " is not on PATH"@),
            Some(exe) => match cli {
                Cli::Gh => asks_gh(forge.attempt, exe@, repo, branch, r),
                Cli::Glab => asks_glab(forge.attempt, exe@, repo, branch, r),
            },
        }
}

/// `r` is what the forge may be found to say of the branch.
pub open spec fn asks<
    L: Fn(&String) -> Option<String>,
    A: Fn(&String, &Vec<String>) -> Attempt,
>(forge: Forge<L, A>, remote_url: Seq<char>, branch: Seq<char>, r: StatusView) -> bool {
    match remote_parts(remote_url) {
        None => r == unknown_status("not a forge remote: "@ + remote_url),
        Some((host, path)) => match cli_of(host) {
            None => r == unknown_status("no forge CLI known for host "@ + host),
            Some(cli) => asks_cli(forge, cli, repo_arg(host, path), branch, r),
        },
    }
}

impl<L: Fn(&String) -> Option<String>, A: Fn(&String, &Vec<String>) -> Attempt> Forge<L, A> {
    /// The functions take what the forge hands them.
    pub open spec fn is_ready(self) -> bool {
        accepts_any(self.locate) && accepts_queries(self.attempt)
    }

    /// The work-item state of `branch` on `remote_url`. Every failure mode -
    /// no CLI for the host, executable absent, non-zero exit, unparseable
    /// output - is `Unknown`, never a guess.
    pub fn status(&self, remote_url: &str, branch: &str) -> (r: ForgeStatus)
        requires
            self.is_ready(),
        ensures
            asks(*self, remote_url@, branch@, r.deep_view()),
    {
        let Some((host, path)) = parse_remote(remote_url) else {
            let mut reason = "not a forge remote: ".to_owned();
            reason.append(remote_url);
            return ForgeStatus::unknown(reason);
        };
        let Some(cli) = cli_for(host.as_str()) else {
            let mut reason = "no forge CLI known for host ".to_owned();
            reason.append(host.as_str());
            return ForgeStatus::unknown(reason);
        };
        let mut repo = host.clone();
        repo.append("/");
        repo.append(path.as_str());
        let program = match cli {
            Cli::Gh => "gh".to_owned(),
            Cli::Glab => "glab".to_owned(),
        };
        let exe = (self.locate)(&program);
        assert(answers(self.locate, program_of(cli), exe));
        match &exe {
            None => {
                let mut reason = program;
                reason.append(" is not on PATH");
                ForgeStatus::unknown(reason)
            },
            Some(exe) => match cli {
                Cli::Gh => self.gh(exe, repo.as_str(), branch),
                Cli::Glab => self.glab(exe, repo.as_str(), branch),
            },
        }
    }

    fn run(&self, exe: &String, args: &Vec<String>) -> (r: Result<String, String>)
        requires
            self.is_ready(),
            is_list_query(args.deep_view()),
        ensures
            runs(self.attempt, exe@, args.deep_view(), said_view(r)),
    {
        let last = try_for(&self.attempt, exe, args, RETRIES);
        assert(ends_with(self.attempt, exe@, args.deep_view(), RETRIES as nat, last));
        read_attempt(exe.as_str(), last)
    }

    fn gh(&self, exe: &String, repo: &str, branch: &str) -> (r: ForgeStatus)
        requires
            self.is_ready(),
        ensures
            asks_gh(self.attempt, exe@, repo@, branch@, r.deep_view()),
    {
        let args = gh_args(repo, branch, "open");
        let open = self.run(exe, &args);
        let ghost first = said_view(open);
        assert(runs(self.attempt, exe@, gh_argv(repo@, branch@, "open"@), first));
        if empty_page("gh", &open) {
            let args = gh_args(repo, branch, "all");
            let all = self.run(exe, &args);
            assert(runs(self.attempt, exe@, gh_argv(repo@, branch@, "all"@), said_view(all)));
            read_gh(&all)
        } else {
            read_gh(&open)
        }
    }

    fn glab(&self, exe: &String, repo: &str, branch: &str) -> (r: ForgeStatus)
        requires
            self.is_ready(),
        ensures
            asks_glab(self.attempt, exe@, repo@, branch@, r.deep_view()),
    {
        let args = glab_args(repo, branch, false);
        let open = self.run(exe, &args);
        let ghost first = said_view(open);
        assert(runs(self.attempt, exe@, glab_argv(repo@, branch@, false), first));
        if empty_page("glab", &open) {
            let args = glab_args(repo, branch, true);
            let all = self.run(exe, &args);
            assert(runs(self.attempt, exe@, glab_argv(repo@, branch@, true), said_view(all)));
            read_glab(&all)
        } else {
            read_glab(&open)
        }
    }
}

fn gh_args(repo: &str, branch: &str, state: &str) -> (r: Vec<String>)
    ensures
        r.deep_view() == gh_argv(repo@, branch@, state@),
        is_list_query(r.deep_view()),
{
    let r = list(
        &[
            "pr",
            "list",
            "--repo",
            repo,
            "--head",
            branch,
            "--state",
            state,
            "--json",
            "number,state,url,statusCheckRollup",
            "--limit",
            "20",
        ],
    );
    assert(r.deep_view() =~= gh_argv(repo@, branch@, state@));
    r
}

fn glab_args(repo: &str, branch: &str, all: bool) -> (r: Vec<String>)
    ensures
        r.deep_view() == glab_argv(repo@, branch@, all),
        is_list_query(r.deep_view()),
{
    let r = if all {
        list(
            &[
                "mr",
                "list",
                "--repo",
                repo,
                "--source-branch",
                branch,
                "--all",
                "--output",
                "json",
                "--per-page",
                "20",
            ],
        )
    } else {
        list(
            &[
                "mr",
                "list",
                "--repo",
                repo,
                "--source-branch",
                branch,
                "--output",
                "json",
                "--per-page",
                "20",
            ],
        )
    };
    assert(r.deep_view() =~= glab_argv(repo@, branch@, all));
    r
}

// ---------------------------------------------------------------------------
// What asking promises
// ---------------------------------------------------------------------------

/// That there is no work item is only claimed where both queries, for open
/// items and for items of any state, came back empty.
pub proof fn law_no_item_takes_two_empty_pages<A: Fn(&String, &Vec<String>) -> Attempt>(
    attempt: A,
    exe: Seq<char>,
    repo: Seq<char>,
    branch: Seq<char>,
    gh: StatusView,
    glab: StatusView,
)
    requires
        asks_gh(attempt, exe, repo, branch, gh),
        asks_glab(attempt, exe, repo, branch, glab),
    ensures
        gh.item == WorkItem::NotExisting ==> both_empty(
            attempt,
            exe,
            "gh"@,
            gh_argv(repo, branch, "open"@),
            gh_argv(repo, branch, "all"@),
        ),
        glab.item == WorkItem::NotExisting ==> both_empty(
            attempt,
            exe,
            "glab"@,
            glab_argv(repo, branch, false),
            glab_argv(repo, branch, true),
        ),
{
    if gh.item == WorkItem::NotExisting {
        let open = choose|open: Result<Seq<char>, Seq<char>>|
            #[trigger] runs(attempt, exe, gh_argv(repo, branch, "open"@), open)
                && if is_empty_page("gh"@, open) {
                exists|all: Result<Seq<char>, Seq<char>>|
                    #[trigger] runs(attempt, exe, gh_argv(repo, branch, "all"@), all) && gh
                        == gh_answer(all)
            } else {
                gh == gh_answer(open)
            };
        lemma_no_item_is_an_empty_page(open);
        let all = choose|all: Result<Seq<char>, Seq<char>>|
            #[trigger] runs(attempt, exe, gh_argv(repo, branch, "all"@), all) && gh == gh_answer(
                all,
            );
        lemma_no_item_is_an_empty_page(all);
    }
    if glab.item == WorkItem::NotExisting {
        let open = choose|open: Result<Seq<char>, Seq<char>>|
            #[trigger] runs(attempt, exe, glab_argv(repo, branch, false), open)
                && if is_empty_page("glab"@, open) {
                exists|all: Result<Seq<char>, Seq<char>>|
                    #[trigger] runs(attempt, exe, glab_argv(repo, branch, true), all) && glab
                        == glab_answer(all)
            } else {
                glab == glab_answer(open)
            };
        lemma_no_item_is_an_empty_page(open);
        let all = choose|all: Result<Seq<char>, Seq<char>>|
            #[trigger] runs(attempt, exe, glab_argv(repo, branch, true), all) && glab
                == glab_answer(all);
        lemma_no_item_is_an_empty_page(all);
    }
}

/// Both queries may come back with an empty page.
pub open spec fn both_empty<A: Fn(&String, &Vec<String>) -> Attempt>(
    attempt: A,
    exe: Seq<char>,
    program: Seq<char>,
    first: Seq<Seq<char>>,
    second: Seq<Seq<char>>,
) -> bool {
    exists|open: Result<Seq<char>, Seq<char>>, all: Result<Seq<char>, Seq<char>>|
        #[trigger] runs(attempt, exe, first, open) && #[trigger] runs(attempt, exe, second, all)
            && is_empty_page(program, open) && is_empty_page(program, all)
}

proof fn lemma_no_item_is_an_empty_page(said: Result<Seq<char>, Seq<char>>)
    ensures
        gh_answer(said).item == WorkItem::NotExisting ==> is_empty_page("gh"@, said),
        glab_answer(said).item == WorkItem::NotExisting ==> is_empty_page("glab"@, said),
{
}

/// The CLI that serves a remote, if one does.
pub open spec fn served_by(remote_url: Seq<char>) -> Option<Cli> {
    match remote_parts(remote_url) {
        Some((host, _)) => cli_of(host),
        None => None,
    }
}

/// A remote that no CLI serves, and one whose CLI is not installed, leave the
/// work item unknown with a reason; none of them is an error.
pub proof fn law_unserved_remotes_are_unknown<
    L: Fn(&String) -> Option<String>,
    A: Fn(&String, &Vec<String>) -> Attempt,
>(forge: Forge<L, A>, remote_url: Seq<char>, branch: Seq<char>, r: StatusView)
    requires
        asks(forge, remote_url, branch, r),
        match served_by(remote_url) {
            None => true,
            Some(cli) => forall|exe: Option<String>| #[trigger]
                answers(forge.locate, program_of(cli), exe) ==> exe is None,
        },
    ensures
        r.item == WorkItem::Unknown,
        r.reason is Some,
{
}

/// Whenever it is run so, the CLI succeeds and prints `text`.
pub open spec fn always_says<A: Fn(&String, &Vec<String>) -> Attempt>(
    attempt: A,
    exe: Seq<char>,
    args: Seq<Seq<char>>,
    text: Seq<char>,
) -> bool {
    forall|e: String, a: Vec<String>, outcome: Attempt|
        e@ == exe && a.deep_view() == args && #[trigger] call_ensures(attempt, (&e, &a), outcome)
            ==> (outcome matches Attempt::Ran(out) && out.code == Some(0i32) && out.stdout@ == text)
}

/// Whenever it is run so, the CLI does not start or does not succeed.
pub open spec fn always_fails<A: Fn(&String, &Vec<String>) -> Attempt>(
    attempt: A,
    exe: Seq<char>,
    args: Seq<Seq<char>>,
) -> bool {
    forall|e: String, a: Vec<String>, outcome: Attempt|
        e@ == exe && a.deep_view() == args && #[trigger] call_ensures(attempt, (&e, &a), outcome)
            ==> (outcome matches Attempt::Ran(out) ==> out.code != Some(0i32))
}

proof fn lemma_last_came<A: Fn(&String, &Vec<String>) -> Attempt>(
    attempt: A,
    exe: Seq<char>,
    args: Seq<Seq<char>>,
    retries: nat,
    last: Attempt,
)
    requires
        ends_with(attempt, exe, args, retries, last),
    ensures
        comes_to(attempt, exe, args, last),
    decreases retries,
{
    let outcome = choose|outcome: Attempt|
        #[trigger] comes_to(attempt, exe, args, outcome) && if outcome is Busy && retries > 0 {
            ends_with(attempt, exe, args, (retries - 1) as nat, last)
        } else {
            last == outcome
        };
    if outcome is Busy && retries > 0 {
        lemma_last_came(attempt, exe, args, (retries - 1) as nat, last);
    }
}

/// What a CLI is taken to say is what it printed when it succeeded; a failure
/// is told by its exit status and message, or by why it did not start.
pub proof fn law_a_run_says_what_it_printed<A: Fn(&String, &Vec<String>) -> Attempt>(
    attempt: A,
    exe: Seq<char>,
    args: Seq<Seq<char>>,
    said: Result<Seq<char>, Seq<char>>,
    text: Seq<char>,
)
    requires
        runs(attempt, exe, args, said),
    ensures
        always_says(attempt, exe, args, text) ==> said == Ok::<Seq<char>, Seq<char>>(text),
        always_fails(attempt, exe, args) ==> said is Err,
        exists|e: String, a: Vec<String>, outcome: Attempt|
            e@ == exe && a.deep_view() == args && #[trigger] call_ensures(
                attempt,
                (&e, &a),
                outcome,
            ) && match outcome {
                Attempt::Ran(out) => match out.code {
                    Some(code) => if code == 0 {
                        said == Ok::<Seq<char>, Seq<char>>(out.stdout@)
                    } else {
                        said == Err::<Seq<char>, Seq<char>>(
                            exe + " exited "@ + ("Some("@ + signed_decimal(code as int) + ")"@)
                                + ": "@ + trimmed(out.stderr@),
                        )
                    },
                    None => said == Err::<Seq<char>, Seq<char>>(
                        exe + " exited "@ + "None"@ + ": "@ + trimmed(out.stderr@),
                    ),
                },
                Attempt::Busy(e) => said == Err::<Seq<char>, Seq<char>>(exe + ": "@ + e@),
                Attempt::Failed(e) => said == Err::<Seq<char>, Seq<char>>(exe + ": "@ + e@),
            },
{
    let last = choose|last: Attempt|
        #[trigger] ends_with(attempt, exe, args, RETRIES as nat, last) && said == report(exe, last);
    lemma_last_came(attempt, exe, args, RETRIES as nat, last);
    let (e, a) = choose|e: String, a: Vec<String>|
        e@ == exe && a.deep_view() == args && #[trigger] call_ensures(attempt, (&e, &a), last);
    assert(call_ensures(attempt, (&e, &a), last));
}

/// A busy file is tried again, five times over: whatever the sixth try comes
/// to may be what counts, and any try that is not busy is.
pub proof fn law_a_busy_file_is_tried_again<A: Fn(&String, &Vec<String>) -> Attempt>(
    attempt: A,
    exe: Seq<char>,
    args: Seq<Seq<char>>,
    busy: Attempt,
    last: Attempt,
)
    requires
        busy is Busy,
        comes_to(attempt, exe, args, busy),
        comes_to(attempt, exe, args, last),
    ensures
        runs(attempt, exe, args, report(exe, last)),
        RETRIES == 5,
        last !is Busy && (forall|outcome: Attempt|
            comes_to(attempt, exe, args, outcome) ==> outcome is Busy || outcome == last)
            ==> forall|said: Result<Seq<char>, Seq<char>>| #[trigger]
            runs(attempt, exe, args, said) ==> said == report(exe, last) || exists|again: Attempt|
                again is Busy && said == #[trigger] report(exe, again),
{
    lemma_busy_then(attempt, exe, args, busy, last, RETRIES as nat);
    assert forall|said: Result<Seq<char>, Seq<char>>| #[trigger]
        runs(attempt, exe, args, said) && last !is Busy && (forall|outcome: Attempt|
            comes_to(attempt, exe, args, outcome) ==> outcome is Busy || outcome
                == last) implies said == report(exe, last) || exists|again: Attempt|
        again is Busy && said == #[trigger] report(exe, again) by {
        let end = choose|end: Attempt|
            #[trigger] ends_with(attempt, exe, args, RETRIES as nat, end) && said == report(
                exe,
                end,
            );
        lemma_last_came(attempt, exe, args, RETRIES as nat, end);
    }
}

proof fn lemma_busy_then<A: Fn(&String, &Vec<String>) -> Attempt>(
    attempt: A,
    exe: Seq<char>,
    args: Seq<Seq<char>>,
    busy: Attempt,
    last: Attempt,
    retries: nat,
)
    requires
        busy is Busy,
        comes_to(attempt, exe, args, busy),
        comes_to(attempt, exe, args, last),
    ensures
        ends_with(attempt, exe, args, retries, last),
    decreases retries,
{
    if retries > 0 {
        lemma_busy_then(attempt, exe, args, busy, last, (retries - 1) as nat);
    }
}

/// A repository that `gh` serves is asked by host and path for the open pull
/// requests of the branch. What they say counts, unless there are none: then
/// the pull requests of any state are asked for, and those count. A query that
/// fails leaves the work item unknown.
pub proof fn law_gh_is_asked_for_open_items_first<
    L: Fn(&String) -> Option<String>,
    A: Fn(&String, &Vec<String>) -> Attempt,
>(
    forge: Forge<L, A>,
    remote_url: Seq<char>,
    host: Seq<char>,
    path: Seq<char>,
    branch: Seq<char>,
    exe: Seq<char>,
    open_page: Seq<char>,
    any_page: Seq<char>,
    r: StatusView,
)
    requires
        asks(forge, remote_url, branch, r),
        remote_parts(remote_url) == Some((host, path)),
        cli_of(host) == Some(Cli::Gh),
        forall|found: Option<String>| #[trigger]
            answers(forge.locate, "gh"@, found) ==> found is Some && found->0@ == exe,
    ensures
        ({
            let repo = host + "/"@ + path;
            let open = seq![
                "pr"@,
                "list"@,
                "--repo"@,
                repo,
                "--head"@,
                branch,
                "--state"@,
                "open"@,
                "--json"@,
                "number,state,url,statusCheckRollup"@,
                "--limit"@,
                "20"@,
            ];
            let any = seq![
                "pr"@,
                "list"@,
                "--repo"@,
                repo,
                "--head"@,
                branch,
                "--state"@,
                "all"@,
                "--json"@,
                "number,state,url,statusCheckRollup"@,
                "--limit"@,
                "20"@,
            ];
            let none_open = json_value(open_page) is Ok && json_items(
                json_value(open_page)->Ok_0,
            ) == Some(Seq::<Seq<char>>::empty());
            &&& always_fails(forge.attempt, exe, open) ==> r.item == WorkItem::Unknown
                && r.reason is Some
            &&& always_says(forge.attempt, exe, open, open_page) ==> {
                &&& !none_open ==> r == gh_answer(Ok(open_page))
                &&& none_open && always_says(forge.attempt, exe, any, any_page) ==> r == gh_answer(
                    Ok(any_page),
                )
                &&& none_open && always_fails(forge.attempt, exe, any) ==> r.item
                    == WorkItem::Unknown && r.reason is Some
            }
        }),
{
    let repo = repo_arg(host, path);
    let open = gh_argv(repo, branch, "open"@);
    let any = gh_argv(repo, branch, "all"@);
    assert(asks_gh(forge.attempt, exe, repo, branch, r));
    assert forall|said: Result<Seq<char>, Seq<char>>| #[trigger]
        runs(forge.attempt, exe, open, said) implies (always_says(
        forge.attempt,
        exe,
        open,
        open_page,
    ) ==> said == Ok::<Seq<char>, Seq<char>>(open_page)) && (always_fails(
        forge.attempt,
        exe,
        open,
    ) ==> said is Err) by {
        law_a_run_says_what_it_printed(forge.attempt, exe, open, said, open_page);
    }
    assert forall|said: Result<Seq<char>, Seq<char>>| #[trigger]
        runs(forge.attempt, exe, any, said) implies (always_says(
        forge.attempt,
        exe,
        any,
        any_page,
    ) ==> said == Ok::<Seq<char>, Seq<char>>(any_page)) && (always_fails(
        forge.attempt,
        exe,
        any,
    ) ==> said is Err) by {
        law_a_run_says_what_it_printed(forge.attempt, exe, any, said, any_page);
    }
    lemma_empty_page(open_page);
}

proof fn lemma_empty_page(text: Seq<char>)
    ensures
        ({
            let empty = json_value(text) is Ok && json_items(json_value(text)->Ok_0) == Some(
                Seq::<Seq<char>>::empty(),
            );
            &&& is_empty_page("gh"@, Ok(text)) == empty
            &&& is_empty_page("glab"@, Ok(text)) == empty
        }),
{
    if json_value(text) is Ok && json_items(json_value(text)->Ok_0) is Some {
        let items = json_items(json_value(text)->Ok_0)->0;
        if items.len() == 0 {
            assert(items =~= Seq::<Seq<char>>::empty());
        }
    }
}

/// A repository that `glab` serves is asked by host and path for the open
/// merge requests of the branch, and for all of them where none is open, in
/// the same way.
pub proof fn law_glab_is_asked_for_open_items_first<
    L: Fn(&String) -> Option<String>,
    A: Fn(&String, &Vec<String>) -> Attempt,
>(
    forge: Forge<L, A>,
    remote_url: Seq<char>,
    host: Seq<char>,
    path: Seq<char>,
    branch: Seq<char>,
    exe: Seq<char>,
    open_page: Seq<char>,
    any_page: Seq<char>,
    r: StatusView,
)
    requires
        asks(forge, remote_url, branch, r),
        remote_parts(remote_url) == Some((host, path)),
        cli_of(host) == Some(Cli::Glab),
        forall|found: Option<String>| #[trigger]
            answers(forge.locate, "glab"@, found) ==> found is Some && found->0@ == exe,
    ensures
        ({
            let repo = host + "/"@ + path;
            let open = seq![
                "mr"@,
                "list"@,
                "--repo"@,
                repo,
                "--source-branch"@,
                branch,
                "--output"@,
                "json"@,
                "--per-page"@,
                "20"@,
            ];
            let any = seq![
                "mr"@,
                "list"@,
                "--repo"@,
                repo,
                "--source-branch"@,
                branch,
                "--all"@,
                "--output"@,
                "json"@,
                "--per-page"@,
                "20"@,
            ];
            let none_open = json_value(open_page) is Ok && json_items(
                json_value(open_page)->Ok_0,
            ) == Some(Seq::<Seq<char>>::empty());
            &&& always_fails(forge.attempt, exe, open) ==> r.item == WorkItem::Unknown
                && r.reason is Some
            &&& always_says(forge.attempt, exe, open, open_page) ==> {
                &&& !none_open ==> r == glab_answer(Ok(open_page))
                &&& none_open && always_says(forge.attempt, exe, any, any_page) ==> r
                    == glab_answer(Ok(any_page))
                &&& none_open && always_fails(forge.attempt, exe, any) ==> r.item
                    == WorkItem::Unknown && r.reason is Some
            }
        }),
{
    let repo = repo_arg(host, path);
    let open = glab_argv(repo, branch, false);
    let any = glab_argv(repo, branch, true);
    assert(open =~= seq![
        "mr"@,
        "list"@,
        "--repo"@,
        repo,
        "--source-branch"@,
        branch,
        "--output"@,
        "json"@,
        "--per-page"@,
        "20"@,
    ]);
    assert(any =~= seq![
        "mr"@,
        "list"@,
        "--repo"@,
        repo,
        "--source-branch"@,
        branch,
        "--all"@,
        "--output"@,
        "json"@,
        "--per-page"@,
        "20"@,
    ]);
    assert(asks_glab(forge.attempt, exe, repo, branch, r));
    assert forall|said: Result<Seq<char>, Seq<char>>| #[trigger]
        runs(forge.attempt, exe, open, said) implies (always_says(
        forge.attempt,
        exe,
        open,
        open_page,
    ) ==> said == Ok::<Seq<char>, Seq<char>>(open_page)) && (always_fails(
        forge.attempt,
        exe,
        open,
    ) ==> said is Err) by {
        law_a_run_says_what_it_printed(forge.attempt, exe, open, said, open_page);
    }
    assert forall|said: Result<Seq<char>, Seq<char>>| #[trigger]
        runs(forge.attempt, exe, any, said) implies (always_says(
        forge.attempt,
        exe,
        any,
        any_page,
    ) ==> said == Ok::<Seq<char>, Seq<char>>(any_page)) && (always_fails(
        forge.attempt,
        exe,
        any,
    ) ==> said is Err) by {
        law_a_run_says_what_it_printed(forge.attempt, exe, any, said, any_page);
    }
    lemma_empty_page(open_page);
}

/// A remote that no CLI can be asked of says why: it is no forge remote, no
/// CLI serves its host, or the one that does is not installed.
pub proof fn law_an_unserved_remote_says_why<
    L: Fn(&String) -> Option<String>,
    A: Fn(&String, &Vec<String>) -> Attempt,
>(forge: Forge<L, A>, remote_url: Seq<char>, branch: Seq<char>, r: StatusView)
    requires
        asks(forge, remote_url, branch, r),
    ensures
        remote_parts(remote_url) is None ==> r.reason == Some("not a forge remote: "@ + remote_url),
        remote_parts(remote_url) matches Some((host, _)) ==> {
            &&& cli_of(host) is None ==> r.reason == Some("no forge CLI known for host "@ + host)
            &&& cli_of(host) == Some(Cli::Gh) && (forall|found: Option<String>| #[trigger]
                answers(forge.locate, "gh"@, found) ==> found is None) ==> r.reason == Some(
                "gh"@ + " is not on PATH"@,
            )
            &&& cli_of(host) == Some(Cli::Glab) && (forall|found: Option<String>| #[trigger]
                answers(forge.locate, "glab"@, found) ==> found is None) ==> r.reason == Some(
                "glab"@ + " is not on PATH"@,
            )
        },
{
}

}
