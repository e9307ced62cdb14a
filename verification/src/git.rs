//! Read-only Git substrate: path resolution, worktree and branch inventory,
//! and the low-level facts the state vector is built from.
//!
//! Git itself is run by a function the caller supplies: it takes the global
//! arguments and the arguments of one invocation and comes back with the
//! program's output. Every read in this module goes through [`git`], which
//! refuses argv outside a read-only allowlist, and all the module asks of the
//! supplied function is that it takes what the allowlist admits. This module
//! observes repositories; it never mutates them - no fetch, no prune, no
//! config write.

pub mod argv;
pub mod commit;
pub mod remote;
pub mod resolve;
pub mod worktree;

use vstd::prelude::*;
use vstd::string::*;

use crate::command::Reply;
use crate::path::{file_name, last_component, parent, parent_dir};
use crate::text::{
    decimal, join, joined, lemma_after_last, lemma_after_last_is, list, print_i32, same,
    signed_decimal, trim, trimmed,
};

pub use crate::git::argv::{
    ancestor_argv, branches_argv, changed_argv, check_argv, common_dir_argv, config_argv,
    count_argv, git_command, head_name_argv, head_sha_argv, law_a_refusal_names_the_argv,
    law_every_invocation_is_read_only, law_every_read_is_admitted, law_only_reads_are_admitted,
    law_reads_run_isolated, match_argv, merge_base_argv, mutating_flag, positionals, read_only,
    read_only_config, read_only_remote, read_only_subcommand, read_only_symbolic_ref,
    read_only_worktree, reading_flag, refusal, remote_head_argv, remote_refs_argv, remotes_argv,
    removed_vars, set_vars, status_argv, symref_argv, toplevel_argv, unreachable_argv, verify_argv,
    worktrees_argv,
};
pub use crate::git::commit::{
    activity, batch, count_of, count_outcome, dirty_of, entry_epoch, entry_text, filled,
    found_identical, has_activity, has_dirt, last_filled,
    law_a_checkout_is_dirty_when_status_lists_anything, law_a_match_covers_every_path,
    law_a_ref_is_here_when_it_verifies, law_activity_is_the_last_entry_or_the_log, merge_base_of,
    reflog_epoch, yes_or_no, PATHS_PER_DIFF,
};
pub use crate::git::remote::{
    advertised_branch, advertises, branch_merge_key, branch_names, branch_remote_key, config_value,
    first_advertised, in_order, law_a_key_has_the_value_git_prints,
    law_a_local_head_is_where_it_points, law_a_remote_head_is_what_it_advertises,
    law_a_remote_lists_its_refs, law_an_upstream_takes_both_keys,
    law_branches_and_remotes_are_those_listed, remote_head_of, remote_names, remote_prefix,
    remote_refs_of, remote_url_key, symref_branch, upstream_pair, RemoteHead, RemoteHeadView,
    UpstreamConfig, UpstreamConfigView,
};
pub use crate::git::resolve::{
    always_leads, checks_out, claims, discovers, finds_checkout, has_canonical, has_head,
    law_a_path_in_a_repository_resolves_to_its_checkout,
    law_a_path_in_no_repository_is_a_project_space, law_head_is_its_branch_or_its_commit,
    law_paths_to_one_place_are_one_repo, names_repo, places, resolve, resolves, Checkout, Resolved,
    ResolvedView,
};
pub use crate::git::worktree::{
    admin_id, admin_name, admin_target, branch_head, described, has_admin_id, has_worktrees,
    law_a_worktree_listing_reads_back, law_other_fields_say_nothing,
    law_the_admin_id_is_where_the_git_file_leads, law_the_first_record_is_main,
    law_worktrees_are_those_listed, located, null_sha, opened, parse_worktrees, records,
    target_has_id, Worktree, WorktreeView,
};

verus! {

/// A Git read that failed. `code` distinguishes "the answer is no" (a
/// non-zero exit on a read that can legitimately fail, like
/// `merge-base --is-ancestor`) from "could not ask" (spawn, usage errors).
#[derive(Debug)]
pub struct Error {
    pub argv: String,
    pub code: Option<i32>,
    pub detail: String,
}

/// The value of an [`Error`], with its text as characters.
pub struct ErrorView {
    pub argv: Seq<char>,
    pub code: Option<i32>,
    pub detail: Seq<char>,
}

impl DeepView for Error {
    type V = ErrorView;

    open spec fn deep_view(&self) -> ErrorView {
        ErrorView { argv: self.argv@, code: self.code, detail: self.detail@ }
    }
}

impl ErrorView {
    /// The failure in words.
    pub open spec fn text(self) -> Seq<char> {
        match self.code {
            Some(code) => "`git "@ + self.argv + "` exited "@ + signed_decimal(code as int)
                + ": "@ + self.detail,
            None => "`git "@ + self.argv + "`: "@ + self.detail,
        }
    }
}

impl Error {
    /// The failure in words: the argv, the exit code if there is one, and the
    /// detail.
    pub fn to_string(&self) -> (r: String)
        ensures
            r@ == self.deep_view().text(),
    {
        let mut out = "`git ".to_owned();
        out.append(self.argv.as_str());
        match self.code {
            Some(code) => {
                out.append("` exited ");
                out.append(print_i32(code).as_str());
                out.append(": ");
            },
            None => out.append("`: "),
        }
        out.append(self.detail.as_str());
        out
    }

    /// A file system question that failed.
    pub fn io(what: &str, path: &str, error: &str) -> (r: Error)
        ensures
            r.deep_view() == io_error(what@, path@, error@),
    {
        let mut argv = what.to_owned();
        argv.append(" ");
        argv.append(path);
        Error { argv, code: None, detail: error.to_owned() }
    }
}

/// A file system question that failed.
pub open spec fn io_error(what: Seq<char>, path: Seq<char>, error: Seq<char>) -> ErrorView {
    ErrorView { argv: what + " "@ + path, code: None, detail: error }
}

/// The outcome of a read with its text as characters.
pub open spec fn outcome<T: DeepView>(r: Result<T, Error>) -> Result<T::V, ErrorView> {
    match r {
        Ok(value) => Ok(value.deep_view()),
        Err(e) => Err(e.deep_view()),
    }
}

// ---------------------------------------------------------------------------
// Running Git
// ---------------------------------------------------------------------------

/// `run` takes every invocation the allowlist admits. Nothing else is asked of
/// it, so nothing else is ever handed to it.
pub open spec fn accepts_reads<G: Fn(&Vec<String>, &Vec<String>) -> Reply>(run: G) -> bool {
    forall|global: Vec<String>, args: Vec<String>|
        read_only(args.deep_view()) ==> #[trigger] call_requires(run, (&global, &args))
}

/// `reply` is something `run` may come back with from `git <global> <args>`.
pub open spec fn replies<G: Fn(&Vec<String>, &Vec<String>) -> Reply>(
    run: G,
    global: Seq<Seq<char>>,
    args: Seq<Seq<char>>,
    reply: Reply,
) -> bool {
    exists|g: Vec<String>, a: Vec<String>|
        g.deep_view() == global && a.deep_view() == args && #[trigger] call_ensures(
            run,
            (&g, &a),
            reply,
        )
}

/// What a reply to `git <global> <args>` says: its standard output, or why
/// the read failed.
pub open spec fn interpreted(
    global: Seq<Seq<char>>,
    args: Seq<Seq<char>>,
    reply: Reply,
) -> Result<Seq<char>, ErrorView> {
    let argv = joined(global + args, " "@);
    match reply {
        Ok(out) => if out.succeeded() {
            Ok(out.stdout@)
        } else {
            Err(ErrorView { argv, code: out.code, detail: trimmed(out.stderr@) })
        },
        Err(spawn) => Err(ErrorView { argv, code: None, detail: spawn@ }),
    }
}

/// `said` is what `git <global> <args>` may say: the interpretation of a reply
/// of `run`, or a refusal before `run` is ever asked.
pub open spec fn says<G: Fn(&Vec<String>, &Vec<String>) -> Reply>(
    run: G,
    global: Seq<Seq<char>>,
    args: Seq<Seq<char>>,
    said: Result<Seq<char>, ErrorView>,
) -> bool {
    if read_only(args) {
        exists|reply: Reply|
            #[trigger] replies(run, global, args, reply) && said == interpreted(
                global,
                args,
                reply,
            )
    } else {
        said == Err::<Seq<char>, ErrorView>(refusal(args))
    }
}

/// One list after the other.
fn both(global: &Vec<String>, args: &Vec<String>) -> (r: Vec<String>)
    ensures
        r.deep_view() == global.deep_view() + args.deep_view(),
{
    let mut words: Vec<String> = Vec::new();
    let mut i: usize = 0;
    while i < global.len()
        invariant
            i <= global@.len(),
            words.deep_view() =~= global.deep_view().take(i as int),
        decreases global@.len() - i,
    {
        let ghost before = words.deep_view();
        words.push(global[i].clone());
        assert(words.deep_view() =~= before.push(global@[i as int]@));
        i += 1;
    }
    let mut j: usize = 0;
    while j < args.len()
        invariant
            j <= args@.len(),
            words.deep_view() =~= global.deep_view() + args.deep_view().take(j as int),
        decreases args@.len() - j,
    {
        let ghost before = words.deep_view();
        words.push(args[j].clone());
        assert(words.deep_view() =~= before.push(args@[j as int]@));
        j += 1;
    }
    assert(words.deep_view() =~= global.deep_view() + args.deep_view());
    words
}

/// Reject argv that would mutate a repository, run the read, return stdout.
pub fn git<G: Fn(&Vec<String>, &Vec<String>) -> Reply>(
    run: &G,
    global: &Vec<String>,
    args: &Vec<String>,
) -> (r: Result<String, Error>)
    requires
        accepts_reads(*run),
    ensures
        says(*run, global.deep_view(), args.deep_view(), outcome(r)),
{
    if let Err(e) = check_argv(args) {
        return Err(e);
    }
    let reply = run(global, args);
    assert(replies(*run, global.deep_view(), args.deep_view(), reply));
    let words = both(global, args);
    let argv = join(&words, " ");
    match reply {
        Ok(out) => {
            if out.success() {
                Ok(out.stdout)
            } else {
                Err(Error { argv, code: out.code, detail: trim(out.stderr.as_str()) })
            }
        },
        Err(spawn) => Err(Error { argv, code: None, detail: spawn }),
    }
}

/// The global arguments of a read in the directory `dir`.
pub open spec fn dir_globals(dir: Seq<char>) -> Seq<Seq<char>> {
    seq!["-C"@, dir]
}

fn in_dir<G: Fn(&Vec<String>, &Vec<String>) -> Reply>(
    run: &G,
    dir: &str,
    args: &[&str],
) -> (r: Result<String, Error>)
    requires
        accepts_reads(*run),
    ensures
        says(*run, dir_globals(dir@), args.deep_view(), outcome(r)),
{
    let global = list(&["-C", dir]);
    assert(global.deep_view() =~= dir_globals(dir@));
    git(run, &global, &list(args))
}

/// What a worktree's HEAD points at.
#[derive(Debug, PartialEq, Eq)]
pub enum Head {
    /// `refs/heads/<name>`; the branch is checked out here.
    Branch(String),
    /// A commit reachable from no ref; unique commits die with the worktree.
    Detached(String),
    /// The symbolic target exists but no commit does yet.
    Unborn(String),
}

/// The value of a [`Head`], with its text as characters.
pub enum HeadView {
    Branch(Seq<char>),
    Detached(Seq<char>),
    Unborn(Seq<char>),
}

impl DeepView for Head {
    type V = HeadView;

    open spec fn deep_view(&self) -> HeadView {
        match *self {
            Head::Branch(name) => HeadView::Branch(name@),
            Head::Detached(sha) => HeadView::Detached(sha@),
            Head::Unborn(name) => HeadView::Unborn(name@),
        }
    }
}

impl Clone for Head {
    fn clone(&self) -> (r: Head)
        ensures
            r == *self,
    {
        match self {
            Head::Branch(name) => Head::Branch(name.clone()),
            Head::Detached(sha) => Head::Detached(sha.clone()),
            Head::Unborn(name) => Head::Unborn(name.clone()),
        }
    }
}

/// A repository, identified by its canonical `$GIT_COMMON_DIR`. Symlinked or
/// otherwise differently-spelled paths to the same repository resolve to the
/// same `Repo`, which is what makes the id safe to key on.
#[derive(Debug, PartialEq, Eq)]
pub struct Repo {
    common_dir: String,
}

impl DeepView for Repo {
    type V = Seq<char>;

    closed spec fn deep_view(&self) -> Seq<char> {
        self.common_dir@
    }
}

impl Clone for Repo {
    fn clone(&self) -> (r: Repo)
        ensures
            r == *self,
    {
        Repo { common_dir: self.common_dir.clone() }
    }
}

/// The directory repo-scoped reads run from: the worktree root for a
/// non-bare repo (the parent of its `.git` dir), the repository dir itself
/// for a bare one.
pub open spec fn repo_dir_of(common_dir: Seq<char>) -> Seq<char> {
    if last_component(common_dir) == Some(".git"@) {
        match parent_dir(common_dir) {
            Some(dir) => dir,
            None => common_dir,
        }
    } else {
        common_dir
    }
}

/// The global arguments of a read in the repository at `common_dir`: they
/// make it behave as if launched inside, so that remote names, `.` remotes
/// and relative-path remote URLs resolve against the repository.
pub open spec fn repo_globals(common_dir: Seq<char>) -> Seq<Seq<char>> {
    seq!["-C"@, repo_dir_of(common_dir), "--git-dir="@ + common_dir]
}

impl Repo {
    /// The canonical `$GIT_COMMON_DIR`; the repository's identity.
    pub fn common_dir(&self) -> (r: &str)
        ensures
            r@ == self.deep_view(),
    {
        self.common_dir.as_str()
    }

    /// The directory repo-scoped reads run from. Remote URLs spelled `.` or
    /// relative to the repository resolve against this directory, not the
    /// caller's cwd.
    fn repo_dir(&self) -> (r: String)
        ensures
            r@ == repo_dir_of(self.deep_view()),
    {
        let common = self.common_dir();
        let dotgit = match file_name(common) {
            Some(name) => same(name.as_str(), ".git"),
            None => false,
        };
        if dotgit {
            match parent(common) {
                Some(dir) => dir,
                None => common.to_owned(),
            }
        } else {
            common.to_owned()
        }
    }

    /// `said` is what `git <args>` may say in this repository.
    pub open spec fn reads<G: Fn(&Vec<String>, &Vec<String>) -> Reply>(
        self,
        run: G,
        args: Seq<Seq<char>>,
        said: Result<Seq<char>, ErrorView>,
    ) -> bool {
        says(run, repo_globals(self.deep_view()), args, said)
    }
}

fn in_repo<G: Fn(&Vec<String>, &Vec<String>) -> Reply>(
    run: &G,
    repo: &Repo,
    args: &[&str],
) -> (r: Result<String, Error>)
    requires
        accepts_reads(*run),
    ensures
        repo.reads(*run, args.deep_view(), outcome(r)),
{
    let dir = repo.repo_dir();
    let mut git_dir = "--git-dir=".to_owned();
    git_dir.append(repo.common_dir());
    let global = list(&["-C", dir.as_str(), git_dir.as_str()]);
    assert(global.deep_view() =~= repo_globals(repo.deep_view()));
    git(run, &global, &list(args))
}

/// Whether the failure is an exit status of one.
fn exited_one(e: &Error) -> (r: bool)
    ensures
        r == (e.code == Some(1i32)),
{
    match e.code {
        Some(code) => code == 1,
        None => false,
    }
}

// ---------------------------------------------------------------------------
// What running Git promises
// ---------------------------------------------------------------------------

/// A mutation is refused before Git is run: whatever is said of an argv
/// outside the allowlist is the refusal.
pub proof fn law_mutations_are_refused<G: Fn(&Vec<String>, &Vec<String>) -> Reply>(
    run: G,
    global: Seq<Seq<char>>,
    args: Seq<Seq<char>>,
    said: Result<Seq<char>, ErrorView>,
)
    requires
        says(run, global, args, said),
        !read_only(args),
    ensures
        said == Err::<Seq<char>, ErrorView>(refusal(args)),
{
}

/// Whenever it is asked, `git <global> <args>` ends with this exit status.
pub open spec fn always_exits<G: Fn(&Vec<String>, &Vec<String>) -> Reply>(
    run: G,
    global: Seq<Seq<char>>,
    args: Seq<Seq<char>>,
    code: int,
) -> bool {
    forall|g: Vec<String>, a: Vec<String>, reply: Reply|
        g.deep_view() == global && a.deep_view() == args && #[trigger] call_ensures(
            run,
            (&g, &a),
            reply,
        ) ==> (reply matches Ok(out) && out.code is Some && out.code->0 == code)
}

/// Whenever it is asked, `git <global> <args>` succeeds and prints `text`.
pub open spec fn always_prints<G: Fn(&Vec<String>, &Vec<String>) -> Reply>(
    run: G,
    global: Seq<Seq<char>>,
    args: Seq<Seq<char>>,
    text: Seq<char>,
) -> bool {
    forall|g: Vec<String>, a: Vec<String>, reply: Reply|
        g.deep_view() == global && a.deep_view() == args && #[trigger] call_ensures(
            run,
            (&g, &a),
            reply,
        ) ==> (reply matches Ok(out) && out.code == Some(0i32) && out.stdout@ == text)
}

/// `git <global> <args>` never answers: it does not start, a signal ends it,
/// or its exit status is neither a yes nor a no.
pub open spec fn never_answers<G: Fn(&Vec<String>, &Vec<String>) -> Reply>(
    run: G,
    global: Seq<Seq<char>>,
    args: Seq<Seq<char>>,
) -> bool {
    forall|g: Vec<String>, a: Vec<String>, reply: Reply|
        g.deep_view() == global && a.deep_view() == args && #[trigger] call_ensures(
            run,
            (&g, &a),
            reply,
        ) ==> (reply matches Ok(out) ==> out.code != Some(0i32) && out.code != Some(1i32))
}

/// A read that is let through says what Git printed when Git succeeded, and
/// fails with Git's exit status and message, or with why it did not start,
/// when it did not.
pub proof fn law_a_read_says_what_git_printed<G: Fn(&Vec<String>, &Vec<String>) -> Reply>(
    run: G,
    global: Seq<Seq<char>>,
    args: Seq<Seq<char>>,
    said: Result<Seq<char>, ErrorView>,
    text: Seq<char>,
    code: int,
)
    requires
        says(run, global, args, said),
        read_only(args),
    ensures
        always_prints(run, global, args, text) ==> said == Ok::<Seq<char>, ErrorView>(text),
        always_exits(run, global, args, 0) ==> said is Ok,
        always_exits(run, global, args, code) && code != 0 ==> said is Err && said->Err_0.code
            is Some && said->Err_0.code->0 == code,
        never_answers(run, global, args) ==> said is Err && said->Err_0.code != Some(0i32)
            && said->Err_0.code != Some(1i32),
        said is Err ==> said->Err_0.argv == joined(global + args, " "@),
        exists|g: Vec<String>, a: Vec<String>, reply: Reply|
            g.deep_view() == global && a.deep_view() == args && #[trigger] call_ensures(
                run,
                (&g, &a),
                reply,
            ) && match reply {
                Ok(out) => if out.code == Some(0i32) {
                    said == Ok::<Seq<char>, ErrorView>(out.stdout@)
                } else {
                    said matches Err(e) && e.code == out.code && e.detail == trimmed(out.stderr@)
                },
                Err(spawn) => said matches Err(e) && e.code is None && e.detail == spawn@,
            },
{
    let reply = choose|reply: Reply|
        #[trigger] replies(run, global, args, reply) && said == interpreted(global, args, reply);
    let (g, a) = choose|g: Vec<String>, a: Vec<String>|
        g.deep_view() == global && a.deep_view() == args && #[trigger] call_ensures(
            run,
            (&g, &a),
            reply,
        );
    assert(call_ensures(run, (&g, &a), reply));
}

/// A repository's reads run in the directory its `.git` stands in, or in the
/// repository itself when it is bare, and always name the repository.
pub proof fn law_reads_run_inside_the_repository(root: Seq<char>, common_dir: Seq<char>)
    ensures
        root.len() > 0 ==> repo_globals(root + "/.git"@) == seq![
            "-C"@,
            root,
            "--git-dir="@ + (root + "/.git"@),
        ],
        (common_dir.len() < 5 || common_dir.skip(common_dir.len() - 5) != "/.git"@) && common_dir
            != ".git"@ ==> repo_globals(common_dir) == seq![
            "-C"@,
            common_dir,
            "--git-dir="@ + common_dir,
        ],
{
    reveal_strlit("/.git");
    reveal_strlit(".git");
    let whole = root + "/.git"@;
    let at = root.len() as int;
    assert(whole[at] == '/');
    assert forall|i: int| at < i < whole.len() implies #[trigger] whole[i] != '/' by {
        assert(whole[i] == "/.git"@[i - at]);
    }
    lemma_after_last_is(whole, '/', at);
    assert(whole.skip(at + 1) =~= ".git"@);
    assert(whole.take(at) =~= root);
    lemma_after_last(common_dir, '/');
    if last_component(common_dir) == Some(".git"@) {
        if common_dir.len() == 4 {
            assert(common_dir.skip(0) =~= common_dir);
        } else {
            let tail = common_dir.skip(common_dir.len() - 5);
            assert(common_dir.skip(common_dir.len() - 4) =~= ".git"@);
            assert(tail.skip(1) =~= ".git"@);
            assert forall|i: int| 0 <= i < 5 implies tail[i] == "/.git"@[i] by {
                if i > 0 {
                    assert(tail.skip(1)[i - 1] == tail[i]);
                }
            }
            assert(tail =~= "/.git"@);
        }
    }
}

/// Whenever it is asked, `git <global> <args>` fails with this exit status and
/// message.
pub open spec fn always_complains<G: Fn(&Vec<String>, &Vec<String>) -> Reply>(
    run: G,
    global: Seq<Seq<char>>,
    args: Seq<Seq<char>>,
    code: int,
    message: Seq<char>,
) -> bool {
    forall|g: Vec<String>, a: Vec<String>, reply: Reply|
        g.deep_view() == global && a.deep_view() == args && #[trigger] call_ensures(
            run,
            (&g, &a),
            reply,
        ) ==> (reply matches Ok(out) && out.code is Some && out.code->0 == code && out.stderr@
            == message)
}

/// Nothing that a read may say is anything but what Git answered.
pub(crate) proof fn lemma_says<G: Fn(&Vec<String>, &Vec<String>) -> Reply>(
    run: G,
    global: Seq<Seq<char>>,
    asked: Seq<Seq<char>>,
)
    requires
        read_only(asked),
    ensures
        forall|said: Result<Seq<char>, ErrorView>| #[trigger]
            says(run, global, asked, said) ==> {
                &&& always_exits(run, global, asked, 0) ==> said is Ok
                &&& forall|code: int|
                    code != 0 && #[trigger] always_exits(run, global, asked, code) ==> said is Err
                        && said->Err_0.code is Some && said->Err_0.code->0 == code
                &&& forall|code: int, message: Seq<char>|
                    code != 0 && #[trigger] always_complains(run, global, asked, code, message)
                        ==> said is Err && said->Err_0.code is Some && said->Err_0.code->0 == code
                        && said->Err_0.detail == trimmed(message)
                &&& never_answers(run, global, asked) ==> said is Err && said->Err_0.code != Some(
                    1i32,
                )
                &&& forall|text: Seq<char>| #[trigger]
                    always_prints(run, global, asked, text) ==> said == Ok::<Seq<char>, ErrorView>(
                        text,
                    )
            },
{
    assert forall|said: Result<Seq<char>, ErrorView>| #[trigger]
        says(run, global, asked, said) implies {
        &&& always_exits(run, global, asked, 0) ==> said is Ok
        &&& forall|code: int|
            code != 0 && #[trigger] always_exits(run, global, asked, code) ==> said is Err
                && said->Err_0.code is Some && said->Err_0.code->0 == code
        &&& forall|code: int, message: Seq<char>|
            code != 0 && #[trigger] always_complains(run, global, asked, code, message) ==> said
                is Err && said->Err_0.code is Some && said->Err_0.code->0 == code
                && said->Err_0.detail == trimmed(message)
        &&& never_answers(run, global, asked) ==> said is Err && said->Err_0.code != Some(1i32)
        &&& forall|text: Seq<char>| #[trigger]
            always_prints(run, global, asked, text) ==> said == Ok::<Seq<char>, ErrorView>(text)
    } by {
        let reply = choose|reply: Reply|
            #[trigger] replies(run, global, asked, reply) && said == interpreted(
                global,
                asked,
                reply,
            );
        let (g, a) = choose|g: Vec<String>, a: Vec<String>|
            g.deep_view() == global && a.deep_view() == asked && #[trigger] call_ensures(
                run,
                (&g, &a),
                reply,
            );
        assert(call_ensures(run, (&g, &a), reply));
    }
}

/// A failed read is told by its argv, its exit status where there is one, and
/// its message.
pub proof fn law_a_failure_is_told_in_full(e: ErrorView)
    ensures
        e.code is None ==> e.text() == "`git "@ + e.argv + "`: "@ + e.detail,
        e.code matches Some(code) ==> (if code >= 0 {
            e.text() == "`git "@ + e.argv + "` exited "@ + decimal(code as nat) + ": "@ + e.detail
        } else {
            e.text() == "`git "@ + e.argv + "` exited "@ + (seq!['-'] + decimal((-code) as nat))
                + ": "@ + e.detail
        }),
{
}

}
