//! Which argv may be handed to Git: the read-only allowlist, the invocations
//! this library makes, and the environment they run in.

use vstd::prelude::*;
use vstd::string::*;

use crate::command::{set_var, Invocation};
use crate::git::{both, Error, ErrorView};
use crate::git::remote::{branch_merge_key, branch_remote_key, remote_prefix, remote_url_key};
use crate::text::{begins, join, joined, list, same, starts_with};

verus! {

// ---------------------------------------------------------------------------
// The read-only boundary
// ---------------------------------------------------------------------------

/// Subcommands that never write, whatever their arguments.
pub open spec fn read_only_subcommand(sub: Seq<char>) -> bool {
    ||| sub == "rev-parse"@
    ||| sub == "status"@
    ||| sub == "rev-list"@
    ||| sub == "merge-base"@
    ||| sub == "diff"@
    ||| sub == "ls-remote"@
    ||| sub == "for-each-ref"@
    ||| sub == "log"@
    ||| sub == "show"@
    ||| sub == "show-ref"@
    ||| sub == "cat-file"@
    ||| sub == "ls-tree"@
    ||| sub == "ls-files"@
    ||| sub == "name-rev"@
    ||| sub == "describe"@
}

/// `git config` flags that write.
pub open spec fn mutating_flag(arg: Seq<char>) -> bool {
    ||| arg == "--add"@
    ||| arg == "--unset"@
    ||| arg == "--unset-all"@
    ||| arg == "--replace-all"@
    ||| arg == "--rename-section"@
    ||| arg == "--remove-section"@
    ||| arg == "-e"@
    ||| arg == "--edit"@
}

/// `git config` flags that make the invocation a read.
pub open spec fn reading_flag(arg: Seq<char>) -> bool {
    begins(arg, "--get"@) || arg == "--list"@ || arg == "-l"@
}

/// `git config` reads: a `--get*`/`--list` flag must be present (which rules
/// out the positional `config <key> <value>` set form) and no mutating flag
/// may appear.
pub open spec fn read_only_config(rest: Seq<Seq<char>>) -> bool {
    &&& exists|i: int| 0 <= i < rest.len() && reading_flag(#[trigger] rest[i])
    &&& forall|i: int| 0 <= i < rest.len() ==> !mutating_flag(#[trigger] rest[i])
}

/// How many arguments are not flags.
pub open spec fn positionals(rest: Seq<Seq<char>>) -> nat
    decreases rest.len(),
{
    if rest.len() == 0 {
        0
    } else {
        positionals(rest.drop_last()) + if begins(rest.last(), "-"@) {
            0nat
        } else {
            1nat
        }
    }
}

/// `symbolic-ref <name>` is a read; `symbolic-ref <name> <ref>` writes and
/// `-d`/`--delete` removes.
pub open spec fn read_only_symbolic_ref(rest: Seq<Seq<char>>) -> bool {
    &&& forall|i: int|
        0 <= i < rest.len() ==> #[trigger] rest[i] != "-d"@ && rest[i] != "--delete"@
    &&& positionals(rest) == 1
}

/// `worktree list`, in any of its forms.
pub open spec fn read_only_worktree(rest: Seq<Seq<char>>) -> bool {
    ||| rest == seq!["list"@]
    ||| rest == seq!["list"@, "--porcelain"@]
    ||| rest == seq!["list"@, "--porcelain"@, "-z"@]
}

/// `remote`, listing names or showing one URL.
pub open spec fn read_only_remote(rest: Seq<Seq<char>>) -> bool {
    ||| rest.len() == 0
    ||| rest == seq!["-v"@]
    ||| rest == seq!["--verbose"@]
    ||| rest.len() == 2 && rest[0] == "get-url"@
}

/// The allowlist: the argv that can only read.
pub open spec fn read_only(args: Seq<Seq<char>>) -> bool {
    args.len() > 0 && {
        let sub = args[0];
        let rest = args.drop_first();
        ||| read_only_subcommand(sub)
        ||| sub == "worktree"@ && read_only_worktree(rest)
        ||| sub == "remote"@ && read_only_remote(rest)
        ||| sub == "config"@ && read_only_config(rest)
        ||| sub == "symbolic-ref"@ && read_only_symbolic_ref(rest)
    }
}

/// What an argv outside the allowlist is answered with.
pub open spec fn refusal(args: Seq<Seq<char>>) -> ErrorView {
    if args.len() == 0 {
        ErrorView { argv: seq![], code: None, detail: "empty argv"@ }
    } else {
        ErrorView {
            argv: joined(args, " "@),
            code: None,
            detail: "argv is not a read-only Git invocation"@,
        }
    }
}

fn is_read_only_subcommand(sub: &str) -> (r: bool)
    ensures
        r == read_only_subcommand(sub@),
{
    same(sub, "rev-parse") || same(sub, "status") || same(sub, "rev-list") || same(
        sub,
        "merge-base",
    ) || same(sub, "diff") || same(sub, "ls-remote") || same(sub, "for-each-ref") || same(
        sub,
        "log",
    ) || same(sub, "show") || same(sub, "show-ref") || same(sub, "cat-file") || same(
        sub,
        "ls-tree",
    ) || same(sub, "ls-files") || same(sub, "name-rev") || same(sub, "describe")
}

fn is_mutating_flag(arg: &str) -> (r: bool)
    ensures
        r == mutating_flag(arg@),
{
    same(arg, "--add") || same(arg, "--unset") || same(arg, "--unset-all") || same(
        arg,
        "--replace-all",
    ) || same(arg, "--rename-section") || same(arg, "--remove-section") || same(arg, "-e") || same(
        arg,
        "--edit",
    )
}

/// Whether `args[1..]` makes a `git config` that reads.
fn is_read_only_config(args: &Vec<String>) -> (r: bool)
    requires
        args@.len() > 0,
    ensures
        r == read_only_config(args.deep_view().drop_first()),
{
    let ghost rest = args.deep_view().drop_first();
    let mut reads = false;
    let mut i: usize = 1;
    while i < args.len()
        invariant
            1 <= i <= args@.len(),
            rest == args.deep_view().drop_first(),
            reads == exists|j: int| 0 <= j < i - 1 && reading_flag(#[trigger] rest[j]),
            forall|j: int| 0 <= j < i - 1 ==> !mutating_flag(#[trigger] rest[j]),
        decreases args@.len() - i,
    {
        let arg = args[i].as_str();
        assert(rest[i - 1] == arg@);
        if is_mutating_flag(arg) {
            return false;
        }
        if starts_with(arg, "--get") || same(arg, "--list") || same(arg, "-l") {
            reads = true;
        }
        i += 1;
    }
    reads
}

/// Whether `args[1..]` makes a `git symbolic-ref` that reads.
fn is_read_only_symbolic_ref(args: &Vec<String>) -> (r: bool)
    requires
        args@.len() > 0,
    ensures
        r == read_only_symbolic_ref(args.deep_view().drop_first()),
{
    let ghost rest = args.deep_view().drop_first();
    let mut count: usize = 0;
    let mut i: usize = 1;
    assert(rest.take(0) =~= seq![]);
    while i < args.len()
        invariant
            1 <= i <= args@.len(),
            rest == args.deep_view().drop_first(),
            count < i,
            count == positionals(rest.take(i - 1)),
            forall|j: int|
                0 <= j < i - 1 ==> #[trigger] rest[j] != "-d"@ && rest[j] != "--delete"@,
        decreases args@.len() - i,
    {
        let arg = args[i].as_str();
        assert(rest[i - 1] == arg@);
        assert(rest.take(i as int).drop_last() =~= rest.take(i - 1));
        if same(arg, "-d") || same(arg, "--delete") {
            return false;
        }
        if !starts_with(arg, "-") {
            count += 1;
        }
        i += 1;
    }
    assert(rest.take(i - 1) =~= rest);
    count == 1
}

/// Whether `args[1..]` is exactly `words`.
fn rest_is(args: &Vec<String>, words: &[&str]) -> (r: bool)
    requires
        args@.len() > 0,
    ensures
        r == (args.deep_view().drop_first() == words.deep_view()),
{
    let ghost rest = args.deep_view().drop_first();
    assert(rest.len() == args@.len() - 1);
    assert(words.deep_view().len() == words@.len());
    if args.len() - 1 != words.len() {
        return false;
    }
    let mut i: usize = 0;
    while i < words.len()
        invariant
            args@.len() == words@.len() + 1,
            rest == args.deep_view().drop_first(),
            i <= words@.len(),
            forall|j: int| 0 <= j < i ==> rest[j] == words.deep_view()[j],
        decreases words@.len() - i,
    {
        assert(rest[i as int] == args@[i + 1]@);
        assert(words.deep_view()[i as int] == words@[i as int]@);
        if !same(args[i + 1].as_str(), words[i]) {
            return false;
        }
        i += 1;
    }
    assert(rest =~= words.deep_view());
    true
}

fn is_read_only_worktree(args: &Vec<String>) -> (r: bool)
    requires
        args@.len() > 0,
    ensures
        r == read_only_worktree(args.deep_view().drop_first()),
{
    let plain: &[&str] = &["list"];
    let porcelain: &[&str] = &["list", "--porcelain"];
    let terminated: &[&str] = &["list", "--porcelain", "-z"];
    assert(plain.deep_view() =~= seq!["list"@]);
    assert(porcelain.deep_view() =~= seq!["list"@, "--porcelain"@]);
    assert(terminated.deep_view() =~= seq!["list"@, "--porcelain"@, "-z"@]);
    rest_is(args, plain) || rest_is(args, porcelain) || rest_is(args, terminated)
}

fn is_read_only_remote(args: &Vec<String>) -> (r: bool)
    requires
        args@.len() > 0,
    ensures
        r == read_only_remote(args.deep_view().drop_first()),
{
    let short: &[&str] = &["-v"];
    let long: &[&str] = &["--verbose"];
    assert(short.deep_view() =~= seq!["-v"@]);
    assert(long.deep_view() =~= seq!["--verbose"@]);
    assert(args.deep_view().drop_first().len() == args@.len() - 1);
    args.len() == 1 || rest_is(args, short) || rest_is(args, long) || (args.len() == 3 && same(
        args[1].as_str(),
        "get-url",
    ))
}

/// `args[0]` is the subcommand; the allowlist admits only read forms. A
/// mutation that somehow reaches this module fails here, loudly.
pub fn check_argv(args: &Vec<String>) -> (r: Result<(), Error>)
    ensures
        r is Ok <==> read_only(args.deep_view()),
        r matches Err(e) ==> e.deep_view() == refusal(args.deep_view()),
{
    if args.len() == 0 {
        let argv = String::new();
        assert(argv@ =~= seq![]);
        return Err(Error { argv, code: None, detail: "empty argv".to_owned() });
    }
    let sub = args[0].as_str();
    assert(args.deep_view()[0] == sub@);
    let allowed = is_read_only_subcommand(sub) || (same(sub, "worktree") && is_read_only_worktree(
        args,
    )) || (same(sub, "remote") && is_read_only_remote(args)) || (same(sub, "config")
        && is_read_only_config(args)) || (same(sub, "symbolic-ref") && is_read_only_symbolic_ref(
        args,
    ));
    if allowed {
        Ok(())
    } else {
        Err(
            Error {
                argv: join(args, " "),
                code: None,
                detail: "argv is not a read-only Git invocation".to_owned(),
            },
        )
    }
}

// ---------------------------------------------------------------------------
// The invocations this library makes
// ---------------------------------------------------------------------------

pub open spec fn worktrees_argv() -> Seq<Seq<char>> {
    seq!["worktree"@, "list"@, "--porcelain"@, "-z"@]
}

pub open spec fn branches_argv() -> Seq<Seq<char>> {
    seq!["for-each-ref"@, "--format=%(refname)"@, "refs/heads/"@]
}

pub open spec fn remotes_argv() -> Seq<Seq<char>> {
    seq!["remote"@]
}

/// `--local` matters twice over: without it a broken repository silently
/// reads global config, and a key a user set globally would leak into
/// repository evidence.
pub open spec fn config_argv(key: Seq<char>) -> Seq<Seq<char>> {
    seq!["config"@, "--local"@, "--get"@, key]
}

pub open spec fn symref_argv(reference: Seq<char>) -> Seq<Seq<char>> {
    seq!["symbolic-ref"@, "-q"@, reference]
}

pub open spec fn remote_head_argv(remote: Seq<char>) -> Seq<Seq<char>> {
    seq!["ls-remote"@, "--symref"@, remote, "HEAD"@]
}

pub open spec fn remote_refs_argv(remote: Seq<char>) -> Seq<Seq<char>> {
    seq!["ls-remote"@, remote]
}

pub open spec fn verify_argv(refname: Seq<char>) -> Seq<Seq<char>> {
    seq!["rev-parse"@, "--verify"@, "-q"@, refname]
}

pub open spec fn count_argv(range: Seq<char>) -> Seq<Seq<char>> {
    seq!["rev-list"@, "--count"@, range]
}

/// `--not --all` does not work here: `--all` takes in every worktree's
/// per-worktree HEAD, so a detached worktree's own commits would always read
/// as reachable.
pub open spec fn unreachable_argv(head: Seq<char>) -> Seq<Seq<char>> {
    seq!["rev-list"@, "--count"@, head, "--not"@, "--glob=refs/*"@]
}

pub open spec fn ancestor_argv(ancestor: Seq<char>, descendant: Seq<char>) -> Seq<Seq<char>> {
    seq!["merge-base"@, "--is-ancestor"@, ancestor, descendant]
}

pub open spec fn merge_base_argv(a: Seq<char>, b: Seq<char>) -> Seq<Seq<char>> {
    seq!["merge-base"@, a, b]
}

pub open spec fn changed_argv(from: Seq<char>, to: Seq<char>) -> Seq<Seq<char>> {
    seq!["diff"@, "--name-only"@, "-z"@, from, to]
}

pub open spec fn match_argv(
    a: Seq<char>,
    b: Seq<char>,
    paths: Seq<Seq<char>>,
) -> Seq<Seq<char>> {
    seq!["diff"@, "--quiet"@, a, b, "--"@] + paths
}

/// Untracked files are listed one by one, so configuration hiding them cannot
/// make a dirty tree look disposable.
pub open spec fn status_argv() -> Seq<Seq<char>> {
    seq!["status"@, "--porcelain"@, "--untracked-files=all"@]
}

pub open spec fn common_dir_argv() -> Seq<Seq<char>> {
    seq!["rev-parse"@, "--path-format=absolute"@, "--git-common-dir"@]
}

pub open spec fn toplevel_argv() -> Seq<Seq<char>> {
    seq!["rev-parse"@, "--show-toplevel"@]
}

pub open spec fn head_name_argv() -> Seq<Seq<char>> {
    seq!["symbolic-ref"@, "-q"@, "--short"@, "HEAD"@]
}

pub open spec fn head_sha_argv() -> Seq<Seq<char>> {
    seq!["rev-parse"@, "HEAD"@]
}

// ---------------------------------------------------------------------------
// Isolation
// ---------------------------------------------------------------------------

/// Environment that must never leak into a Git read. `GIT_DIR` and friends
/// override directory discovery (`-C` loses to `GIT_DIR`), so a caller
/// running inside a hook or an exported-GIT_DIR shell would silently read the
/// wrong repository.
pub open spec fn removed_vars() -> Seq<Seq<char>> {
    seq![
        "GIT_DIR"@,
        "GIT_WORK_TREE"@,
        "GIT_INDEX_FILE"@,
        "GIT_OBJECT_DIRECTORY"@,
        "GIT_ALTERNATE_OBJECT_DIRECTORIES"@,
        "GIT_COMMON_DIR"@,
        "GIT_NAMESPACE"@,
        "GIT_QUARANTINE_PATH"@,
        "GIT_CEILING_DIRECTORIES"@,
        "GIT_DISCOVERY_ACROSS_FILESYSTEM"@,
        "GIT_CONFIG_PARAMETERS"@,
        "GIT_CONFIG_COUNT"@,
    ]
}

/// `GIT_OPTIONAL_LOCKS=0` keeps a background read from contending for
/// `.git/index.lock`. `LC_ALL=C` keeps diagnostics in one language, because
/// [`Repo::discover`] recognizes "not a git repository" by message.
/// `GIT_TERMINAL_PROMPT=0` turns a remote that wants credentials into an
/// error instead of a collector that hangs on a prompt nobody answers, and
/// ssh gets the same treatment through `SSH_ASKPASS_REQUIRE` and batch mode;
/// a caller's own `GIT_SSH_COMMAND` is respected. Filenames fed back as
/// pathspecs are data, not patterns, which is `GIT_LITERAL_PATHSPECS`.
pub open spec fn set_vars(ssh_command: Option<Seq<char>>) -> Seq<(Seq<char>, Seq<char>)> {
    seq![
        ("GIT_OPTIONAL_LOCKS"@, "0"@),
        ("LC_ALL"@, "C"@),
        ("GIT_TERMINAL_PROMPT"@, "0"@),
        ("GIT_LITERAL_PATHSPECS"@, "1"@),
        ("SSH_ASKPASS_REQUIRE"@, "never"@),
        (
            "GIT_SSH_COMMAND"@,
            match ssh_command {
                Some(command) => command,
                None => "ssh -oBatchMode=yes"@,
            },
        ),
    ]
}

/// How `git <global> <args>` is started: isolated from the ambient git
/// environment and locale. `ssh_command` is the caller's `GIT_SSH_COMMAND`.
pub fn git_command(global: &Vec<String>, args: &Vec<String>, ssh_command: Option<&str>) -> (r:
    Invocation)
    ensures
        r.program@ == "git"@,
        r.args.deep_view() == global.deep_view() + args.deep_view(),
        r.removed.deep_view() == removed_vars(),
        r.set.deep_view() == set_vars(ssh_command.deep_view()),
{
    let removed = list(
        &[
            "GIT_DIR",
            "GIT_WORK_TREE",
            "GIT_INDEX_FILE",
            "GIT_OBJECT_DIRECTORY",
            "GIT_ALTERNATE_OBJECT_DIRECTORIES",
            "GIT_COMMON_DIR",
            "GIT_NAMESPACE",
            "GIT_QUARANTINE_PATH",
            "GIT_CEILING_DIRECTORIES",
            "GIT_DISCOVERY_ACROSS_FILESYSTEM",
            "GIT_CONFIG_PARAMETERS",
            "GIT_CONFIG_COUNT",
        ],
    );
    assert(removed.deep_view() =~= removed_vars());
    let mut set: Vec<(String, String)> = Vec::new();
    set_var(&mut set, "GIT_OPTIONAL_LOCKS", "0");
    set_var(&mut set, "LC_ALL", "C");
    set_var(&mut set, "GIT_TERMINAL_PROMPT", "0");
    set_var(&mut set, "GIT_LITERAL_PATHSPECS", "1");
    set_var(&mut set, "SSH_ASKPASS_REQUIRE", "never");
    match ssh_command {
        Some(command) => set_var(&mut set, "GIT_SSH_COMMAND", command),
        None => set_var(&mut set, "GIT_SSH_COMMAND", "ssh -oBatchMode=yes"),
    }
    assert(set.deep_view() =~= set_vars(ssh_command.deep_view()));
    Invocation { program: "git".to_owned(), args: both(global, args), removed, set }
}

// ---------------------------------------------------------------------------
// What the boundary promises
// ---------------------------------------------------------------------------

/// No invocation this module makes is outside the allowlist, whatever the
/// branch, remote, ref or path names it is made with: every read is let
/// through, and nothing but reads is ever run.
pub proof fn law_every_invocation_is_read_only(
    a: Seq<char>,
    b: Seq<char>,
    paths: Seq<Seq<char>>,
)
    ensures
        read_only(worktrees_argv()),
        read_only(branches_argv()),
        read_only(remotes_argv()),
        read_only(config_argv(remote_url_key(a))),
        read_only(config_argv(branch_remote_key(a))),
        read_only(config_argv(branch_merge_key(a))),
        read_only(symref_argv(remote_prefix(a) + "HEAD"@)),
        read_only(remote_head_argv(a)),
        read_only(remote_refs_argv(a)),
        read_only(verify_argv(a)),
        read_only(count_argv(a)),
        read_only(unreachable_argv(a)),
        read_only(ancestor_argv(a, b)),
        read_only(merge_base_argv(a, b)),
        read_only(changed_argv(a, b)),
        read_only(match_argv(a, b, paths)),
        read_only(status_argv()),
        read_only(common_dir_argv()),
        read_only(toplevel_argv()),
        read_only(head_name_argv()),
        read_only(head_sha_argv()),
{
    assert(worktrees_argv().drop_first() =~= seq!["list"@, "--porcelain"@, "-z"@]);
    reveal_strlit("remote.");
    reveal_strlit("branch.");
    lemma_config_is_read_only(remote_url_key(a));
    lemma_config_is_read_only(branch_remote_key(a));
    lemma_config_is_read_only(branch_merge_key(a));
    reveal_with_fuel(positionals, 4);
    reveal_strlit("-q");
    reveal_strlit("-d");
    reveal_strlit("--delete");
    reveal_strlit("--short");
    reveal_strlit("HEAD");
    reveal_strlit("-");
    reveal_strlit("refs/remotes/");
    let reference = remote_prefix(a) + "HEAD"@;
    assert(reference[0] == 'r');
    assert("-q"@[0] == '-' && "--short"@[0] == '-' && "HEAD"@[0] == 'H');
    assert("-q"@[1] == 'q' && "-d"@[1] == 'd');
    assert(begins("-q"@, "-"@)) by {
        assert("-q"@.take(1) =~= "-"@);
    }
    assert(begins("--short"@, "-"@)) by {
        assert("--short"@.take(1) =~= "-"@);
    }
    assert(!begins("HEAD"@, "-"@)) by {
        assert("HEAD"@.take(1)[0] == 'H');
        assert("-"@[0] == '-');
    }
    assert(!begins(reference, "-"@)) by {
        assert(reference.take(1)[0] == 'r');
        assert("-"@[0] == '-');
    }
    let named = symref_argv(reference).drop_first();
    assert(named =~= seq!["-q"@, reference]);
    assert(named.drop_last() =~= seq!["-q"@]);
    assert(named.drop_last().drop_last() =~= seq![]);
    let head = head_name_argv().drop_first();
    assert(head =~= seq!["-q"@, "--short"@, "HEAD"@]);
    assert(head.drop_last() =~= seq!["-q"@, "--short"@]);
    assert(head.drop_last().drop_last() =~= seq!["-q"@]);
    assert(head.drop_last().drop_last().drop_last() =~= seq![]);
}

pub(crate) proof fn lemma_config_is_read_only(key: Seq<char>)
    requires
        key.len() > 0,
        key[0] != '-',
    ensures
        read_only(config_argv(key)),
{
    let rest = config_argv(key).drop_first();
    assert(rest =~= seq!["--local"@, "--get"@, key]);
    assert(reading_flag(rest[1])) by {
        assert("--get"@.take("--get"@.len() as int) =~= "--get"@);
    }
    reveal_strlit("--add");
    reveal_strlit("--unset");
    reveal_strlit("--unset-all");
    reveal_strlit("--replace-all");
    reveal_strlit("--rename-section");
    reveal_strlit("--remove-section");
    reveal_strlit("-e");
    reveal_strlit("--edit");
    reveal_strlit("--local");
    reveal_strlit("--get");
    assert("--local"@.len() == 7 && "--get"@.len() == 5);
    assert("--add"@.len() == 5 && "--unset"@.len() == 7 && "--unset-all"@.len() == 11
        && "--replace-all"@.len() == 13 && "--rename-section"@.len() == 16
        && "--remove-section"@.len() == 16 && "-e"@.len() == 2 && "--edit"@.len() == 6);
    assert("--local"@[2] == 'l' && "--unset"@[2] == 'u');
    assert("--get"@[2] == 'g' && "--add"@[2] == 'a');
    assert("--add"@[0] == '-' && "--unset"@[0] == '-' && "--unset-all"@[0] == '-'
        && "--replace-all"@[0] == '-' && "--rename-section"@[0] == '-'
        && "--remove-section"@[0] == '-' && "-e"@[0] == '-' && "--edit"@[0] == '-');
    assert forall|i: int| 0 <= i < rest.len() implies !mutating_flag(#[trigger] rest[i]) by {
        assert(i == 0 || i == 1 || i == 2);
        assert(!mutating_flag("--local"@));
        assert(!mutating_flag("--get"@));
        assert(!mutating_flag(key));
    }
}

/// The subcommands that the allowlist admits with any arguments, and the read
/// forms of the four others. Whatever writes - any other subcommand, another
/// form of `worktree` or `remote`, a `config` that sets, unsets or edits, a
/// `symbolic-ref` that sets or deletes - is outside it.
pub proof fn law_only_reads_are_admitted(args: Seq<Seq<char>>)
    ensures
        args.len() == 0 ==> !read_only(args),
        args.len() > 0 && read_only(args) ==> {
            let sub = args[0];
            let rest = args.drop_first();
            ||| sub == "rev-parse"@ || sub == "status"@ || sub == "rev-list"@ || sub
                == "merge-base"@ || sub == "diff"@ || sub == "ls-remote"@ || sub == "for-each-ref"@
                || sub == "log"@ || sub == "show"@ || sub == "show-ref"@ || sub == "cat-file"@
                || sub == "ls-tree"@ || sub == "ls-files"@ || sub == "name-rev"@ || sub
                == "describe"@
            ||| sub == "worktree"@ && rest.len() > 0 && rest[0] == "list"@ && forall|i: int|
                0 < i < rest.len() ==> #[trigger] rest[i] == "--porcelain"@ || rest[i] == "-z"@
            ||| sub == "remote"@ && (rest.len() == 0 || (rest.len() == 1 && (rest[0] == "-v"@
                || rest[0] == "--verbose"@)) || (rest.len() == 2 && rest[0] == "get-url"@))
            ||| sub == "config"@ && (exists|i: int|
                0 <= i < rest.len() && ("--get"@.is_prefix_of(#[trigger] rest[i]) || rest[i]
                    == "--list"@ || rest[i] == "-l"@)) && (forall|i: int|
                0 <= i < rest.len() ==> #[trigger] rest[i] != "--add"@ && rest[i] != "--unset"@
                    && rest[i] != "--unset-all"@ && rest[i] != "--replace-all"@ && rest[i]
                    != "--rename-section"@ && rest[i] != "--remove-section"@ && rest[i] != "-e"@
                    && rest[i] != "--edit"@)
            ||| sub == "symbolic-ref"@ && (forall|i: int|
                0 <= i < rest.len() ==> #[trigger] rest[i] != "-d"@ && rest[i] != "--delete"@)
                && !exists|i: int, j: int|
                0 <= i < j < rest.len() && !"-"@.is_prefix_of(#[trigger] rest[i])
                    && !"-"@.is_prefix_of(#[trigger] rest[j])
        },
{
    if args.len() > 0 && read_only(args) {
        let sub = args[0];
        let rest = args.drop_first();
        if sub == "config"@ && read_only_config(rest) {
            let i = choose|i: int| 0 <= i < rest.len() && reading_flag(#[trigger] rest[i]);
            if begins(rest[i], "--get"@) {
                assert("--get"@.is_prefix_of(rest[i])) by {
                    assert(rest[i].subrange(0, "--get"@.len() as int) =~= rest[i].take(
                        "--get"@.len() as int,
                    ));
                }
            }
        }
        if sub == "symbolic-ref"@ && read_only_symbolic_ref(rest) {
            if exists|i: int, j: int|
                0 <= i < j < rest.len() && !"-"@.is_prefix_of(#[trigger] rest[i])
                    && !"-"@.is_prefix_of(#[trigger] rest[j]) {
                let (i, j) = choose|i: int, j: int|
                    0 <= i < j < rest.len() && !"-"@.is_prefix_of(#[trigger] rest[i])
                        && !"-"@.is_prefix_of(#[trigger] rest[j]);
                lemma_positionals(rest, i, j);
            }
        }
    }
}

proof fn lemma_positionals(rest: Seq<Seq<char>>, i: int, j: int)
    ensures
        0 <= i < rest.len() && !"-"@.is_prefix_of(rest[i]) ==> positionals(rest) >= 1,
        0 <= i < j < rest.len() && !"-"@.is_prefix_of(rest[i]) && !"-"@.is_prefix_of(rest[j])
            ==> positionals(rest) >= 2,
    decreases rest.len(),
{
    if rest.len() > 0 {
        let last = rest.len() - 1;
        lemma_positionals(rest.drop_last(), i, j);
        if j == last {
            lemma_positionals(rest.drop_last(), i, i);
        }
        assert(begins(rest[last], "-"@) ==> "-"@.is_prefix_of(rest[last])) by {
            if begins(rest[last], "-"@) {
                assert(rest[last].subrange(0, "-"@.len() as int) =~= rest[last].take(
                    "-"@.len() as int,
                ));
            }
        }
        if 0 <= i < last {
            assert(rest.drop_last()[i] == rest[i]);
        }
        if 0 <= j < last {
            assert(rest.drop_last()[j] == rest[j]);
        }
    }
}

/// What is not admitted is answered without asking Git, by what was refused.
pub proof fn law_a_refusal_names_the_argv(args: Seq<Seq<char>>)
    requires
        !read_only(args),
    ensures
        refusal(args).code is None,
        args.len() > 0 ==> refusal(args).argv == joined(args, " "@) && refusal(args).detail
            == "argv is not a read-only Git invocation"@,
        args.len() == 0 ==> refusal(args).detail == "empty argv"@,
{
}

/// Every read form is admitted, whatever else it is given.
pub proof fn law_every_read_is_admitted(rest: Seq<Seq<char>>, key: Seq<char>)
    ensures
        read_only(seq!["rev-parse"@] + rest),
        read_only(seq!["status"@] + rest),
        read_only(seq!["rev-list"@] + rest),
        read_only(seq!["merge-base"@] + rest),
        read_only(seq!["diff"@] + rest),
        read_only(seq!["ls-remote"@] + rest),
        read_only(seq!["for-each-ref"@] + rest),
        read_only(seq!["log"@] + rest),
        read_only(seq!["show"@] + rest),
        read_only(seq!["show-ref"@] + rest),
        read_only(seq!["cat-file"@] + rest),
        read_only(seq!["ls-tree"@] + rest),
        read_only(seq!["ls-files"@] + rest),
        read_only(seq!["name-rev"@] + rest),
        read_only(seq!["describe"@] + rest),
        read_only(seq!["worktree"@, "list"@]),
        read_only(seq!["worktree"@, "list"@, "--porcelain"@]),
        read_only(seq!["worktree"@, "list"@, "--porcelain"@, "-z"@]),
        read_only(seq!["remote"@]),
        read_only(seq!["remote"@, "-v"@]),
        read_only(seq!["remote"@, "--verbose"@]),
        read_only(seq!["remote"@, "get-url"@, key]),
{
    assert(seq!["worktree"@, "list"@].drop_first() =~= seq!["list"@]);
    assert(seq!["worktree"@, "list"@, "--porcelain"@].drop_first() =~= seq![
        "list"@,
        "--porcelain"@,
    ]);
    assert(seq!["worktree"@, "list"@, "--porcelain"@, "-z"@].drop_first() =~= seq![
        "list"@,
        "--porcelain"@,
        "-z"@,
    ]);
    assert(seq!["remote"@, "-v"@].drop_first() =~= seq!["-v"@]);
    assert(seq!["remote"@, "--verbose"@].drop_first() =~= seq!["--verbose"@]);
    assert(seq!["remote"@, "get-url"@, key].drop_first() =~= seq!["get-url"@, key]);
}

/// No variable that could lead a read to another repository reaches Git, and
/// every read runs without locks, prompts, a locale or patterns in its paths;
/// an ssh command of the caller's own is kept.
pub proof fn law_reads_run_isolated(command: Seq<char>)
    ensures
        removed_vars().contains("GIT_DIR"@),
        removed_vars().contains("GIT_WORK_TREE"@),
        removed_vars().contains("GIT_INDEX_FILE"@),
        removed_vars().contains("GIT_OBJECT_DIRECTORY"@),
        removed_vars().contains("GIT_ALTERNATE_OBJECT_DIRECTORIES"@),
        removed_vars().contains("GIT_COMMON_DIR"@),
        removed_vars().contains("GIT_NAMESPACE"@),
        removed_vars().contains("GIT_QUARANTINE_PATH"@),
        removed_vars().contains("GIT_CEILING_DIRECTORIES"@),
        removed_vars().contains("GIT_DISCOVERY_ACROSS_FILESYSTEM"@),
        removed_vars().contains("GIT_CONFIG_PARAMETERS"@),
        removed_vars().contains("GIT_CONFIG_COUNT"@),
        removed_vars().len() == 12,
        set_vars(None).contains(("GIT_OPTIONAL_LOCKS"@, "0"@)),
        set_vars(None).contains(("LC_ALL"@, "C"@)),
        set_vars(None).contains(("GIT_TERMINAL_PROMPT"@, "0"@)),
        set_vars(None).contains(("GIT_LITERAL_PATHSPECS"@, "1"@)),
        set_vars(None).contains(("SSH_ASKPASS_REQUIRE"@, "never"@)),
        set_vars(None).contains(("GIT_SSH_COMMAND"@, "ssh -oBatchMode=yes"@)),
        set_vars(Some(command)).contains(("GIT_SSH_COMMAND"@, command)),
        set_vars(None).len() == 6,
        set_vars(Some(command)).len() == 6,
        forall|i: int| 0 <= i < 5 ==> set_vars(Some(command))[i] == set_vars(None)[i],
{
    let gone = removed_vars();
    assert(gone[0] == "GIT_DIR"@ && gone[1] == "GIT_WORK_TREE"@ && gone[2] == "GIT_INDEX_FILE"@
        && gone[3] == "GIT_OBJECT_DIRECTORY"@ && gone[4] == "GIT_ALTERNATE_OBJECT_DIRECTORIES"@
        && gone[5] == "GIT_COMMON_DIR"@ && gone[6] == "GIT_NAMESPACE"@ && gone[7]
        == "GIT_QUARANTINE_PATH"@ && gone[8] == "GIT_CEILING_DIRECTORIES"@ && gone[9]
        == "GIT_DISCOVERY_ACROSS_FILESYSTEM"@ && gone[10] == "GIT_CONFIG_PARAMETERS"@ && gone[11]
        == "GIT_CONFIG_COUNT"@);
    let set = set_vars(None);
    assert(set[0] == ("GIT_OPTIONAL_LOCKS"@, "0"@) && set[1] == ("LC_ALL"@, "C"@) && set[2] == (
        "GIT_TERMINAL_PROMPT"@,
        "0"@,
    ) && set[3] == ("GIT_LITERAL_PATHSPECS"@, "1"@) && set[4] == (
        "SSH_ASKPASS_REQUIRE"@,
        "never"@,
    ) && set[5] == ("GIT_SSH_COMMAND"@, "ssh -oBatchMode=yes"@));
    assert(set_vars(Some(command))[5] == ("GIT_SSH_COMMAND"@, command));
}

}
