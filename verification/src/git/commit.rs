//! Commits and content: counts, ancestry, changed paths, activity.

use vstd::prelude::*;
use vstd::string::*;

use crate::command::{accepts_any, answers, Reply};
use crate::evidence::{Evidence, EvidenceView};
use crate::git::{
    accepts_reads, always_exits, always_prints, dir_globals, exited_one, git, in_dir, in_repo,
    lemma_says, never_answers, outcome, repo_globals, says, Error, ErrorView, Repo,
};
use crate::git::argv::{
    ancestor_argv, changed_argv, count_argv, match_argv, merge_base_argv, status_argv,
    unreachable_argv, verify_argv,
};
use crate::path;
use crate::path::below;
use crate::text::{
    are_gaps, decimal, is_digit, is_space, is_word, law_lines_read_back, law_words_read_back,
    lemma_first_piece, lemma_number_reads_back, lemma_trimmed_line, line_list, lines, list,
    number_fault, parse_u64, pieces, spaced, split, terminated, trim, trim_right, trimmed,
    u64_fault, unsigned, word_list, words,
};
use crate::time::{NANOS_PER_SEC, Timestamp};

verus! {

// ---------------------------------------------------------------------------
// Commits and content
// ---------------------------------------------------------------------------

/// The outcome of a count with its text as characters.
pub open spec fn count_outcome(r: Result<u64, Error>) -> Result<u64, ErrorView> {
    match r {
        Ok(n) => Ok(n),
        Err(e) => Err(e.deep_view()),
    }
}

/// A count that Git printed, or why it is not one.
pub open spec fn count_of(range: Seq<char>, said: Result<Seq<char>, ErrorView>) -> Result<
    u64,
    ErrorView,
> {
    match said {
        Err(e) => Err(e),
        Ok(text) => match unsigned(trimmed(text), u64::MAX as nat) {
            Some(n) => Ok(n as u64),
            None => Err(
                ErrorView {
                    argv: "rev-list --count "@ + range,
                    code: None,
                    detail: "unparseable count: "@ + number_fault(
                        trimmed(text),
                        u64::MAX as nat,
                    ),
                },
            ),
        },
    }
}

/// Three-valued because the comparison itself can fail, and a failed
/// comparison is not "no".
pub open spec fn yes_or_no(said: Result<Seq<char>, ErrorView>, what: Seq<char>) -> EvidenceView<
    bool,
> {
    match said {
        Ok(_) => EvidenceView::Known(true),
        Err(e) => if e.code == Some(1i32) {
            EvidenceView::Known(false)
        } else {
            EvidenceView::Unknown(what + ": "@ + e.text())
        },
    }
}

/// The merge base; exit 1 means the histories share no ancestor.
pub open spec fn merge_base_of(said: Result<Seq<char>, ErrorView>) -> Result<
    Option<Seq<char>>,
    ErrorView,
> {
    match said {
        Ok(sha) => Ok(Some(trimmed(sha))),
        Err(e) => if e.code == Some(1i32) {
            Ok(None)
        } else {
            Err(e)
        },
    }
}

/// The non-empty fields of a NUL-separated list.
pub open spec fn filled(fields: Seq<Seq<char>>) -> Seq<Seq<char>>
    decreases fields.len(),
{
    if fields.len() == 0 {
        seq![]
    } else if fields.last().len() > 0 {
        filled(fields.drop_last()).push(fields.last())
    } else {
        filled(fields.drop_last())
    }
}

/// Paths are compared in batches of at most this many: argv length is finite.
pub const PATHS_PER_DIFF: usize = 200;

/// How many of `n` paths the next batch takes.
pub open spec fn batch(n: nat) -> nat {
    if n <= PATHS_PER_DIFF {
        n
    } else {
        PATHS_PER_DIFF as nat
    }
}

/// Dirty means tracked *or* untracked changes.
pub open spec fn dirty_of(said: Result<Seq<char>, ErrorView>) -> EvidenceView<bool> {
    match said {
        Ok(text) => EvidenceView::Known(trimmed(text).len() > 0),
        Err(e) => EvidenceView::Unknown("git status: "@ + e.text()),
    }
}

impl Repo {
    /// `r` is whether the ref may be read as resolving.
    pub open spec fn may_have_ref<G: Fn(&Vec<String>, &Vec<String>) -> Reply>(
        self,
        run: G,
        refname: Seq<char>,
        r: bool,
    ) -> bool {
        exists|said: Result<Seq<char>, ErrorView>|
            #[trigger] self.reads(run, verify_argv(refname), said) && r == (said matches Ok(text)
                && trimmed(text).len() > 0)
    }

    /// `r` is what the commits of `range` may be counted as.
    pub open spec fn has_count<G: Fn(&Vec<String>, &Vec<String>) -> Reply>(
        self,
        run: G,
        range: Seq<char>,
        r: Result<u64, ErrorView>,
    ) -> bool {
        exists|said: Result<Seq<char>, ErrorView>|
            #[trigger] self.reads(run, count_argv(range), said) && r == count_of(range, said)
    }

    /// `r` is what the commits of `head` that no ref reaches may be counted as.
    pub open spec fn has_unreachable<G: Fn(&Vec<String>, &Vec<String>) -> Reply>(
        self,
        run: G,
        head: Seq<char>,
        r: Result<u64, ErrorView>,
    ) -> bool {
        exists|said: Result<Seq<char>, ErrorView>|
            #[trigger] self.reads(run, unreachable_argv(head), said) && r == count_of(
                head + " --not --glob=refs/*"@,
                said,
            )
    }

    /// `r` is what the ancestry may be read as.
    pub open spec fn has_ancestry<G: Fn(&Vec<String>, &Vec<String>) -> Reply>(
        self,
        run: G,
        ancestor: Seq<char>,
        descendant: Seq<char>,
        r: EvidenceView<bool>,
    ) -> bool {
        exists|said: Result<Seq<char>, ErrorView>|
            #[trigger] self.reads(run, ancestor_argv(ancestor, descendant), said) && r
                == yes_or_no(said, "merge-base --is-ancestor"@)
    }

    /// `r` is what the merge base may be read as.
    pub open spec fn has_merge_base<G: Fn(&Vec<String>, &Vec<String>) -> Reply>(
        self,
        run: G,
        a: Seq<char>,
        b: Seq<char>,
        r: Result<Option<Seq<char>>, ErrorView>,
    ) -> bool {
        exists|said: Result<Seq<char>, ErrorView>|
            #[trigger] self.reads(run, merge_base_argv(a, b), said) && r == merge_base_of(said)
    }

    /// `r` is what the changed paths may be read as.
    pub open spec fn has_changes<G: Fn(&Vec<String>, &Vec<String>) -> Reply>(
        self,
        run: G,
        from: Seq<char>,
        to: Seq<char>,
        r: Result<Seq<Seq<char>>, ErrorView>,
    ) -> bool {
        exists|said: Result<Seq<char>, ErrorView>|
            #[trigger] self.reads(run, changed_argv(from, to), said) && r == match said {
                Ok(text) => Ok(filled(pieces(text, '\0'))),
                Err(e) => Err(e),
            }
    }

    /// `r` is what the comparison of `paths` may come to: batch after batch,
    /// up to the first that is not proven identical.
    pub open spec fn has_match<G: Fn(&Vec<String>, &Vec<String>) -> Reply>(
        self,
        run: G,
        a: Seq<char>,
        b: Seq<char>,
        paths: Seq<Seq<char>>,
        r: EvidenceView<bool>,
    ) -> bool
        decreases paths.len(),
    {
        let n = batch(paths.len()) as int;
        if paths.len() == 0 {
            r == EvidenceView::Known(true)
        } else {
            exists|said: Result<Seq<char>, ErrorView>|
                #[trigger] self.reads(run, match_argv(a, b, paths.take(n)), said) && if said is Ok {
                    self.has_match(run, a, b, paths.skip(n), r)
                } else {
                    r == yes_or_no(said, "diff --quiet"@)
                }
        }
    }

    /// Whether `refname` resolves locally (`rev-parse --verify -q`).
    pub fn has_ref<G: Fn(&Vec<String>, &Vec<String>) -> Reply>(&self, run: &G, refname: &str) -> (r:
        bool)
        requires
            accepts_reads(*run),
        ensures
            self.may_have_ref(*run, refname@, r),
    {
        let args: &[&str] = &["rev-parse", "--verify", "-q", refname];
        assert(args.deep_view() =~= verify_argv(refname@));
        let said = in_repo(run, self, args);
        assert(self.reads(*run, verify_argv(refname@), outcome(said)));
        match said {
            Ok(text) => !trim(text.as_str()).as_str().is_empty(),
            Err(_) => false,
        }
    }

    /// `rev-list --count <a>..<b>`.
    pub fn rev_list_count<G: Fn(&Vec<String>, &Vec<String>) -> Reply>(
        &self,
        run: &G,
        from_exclusive: &str,
        to: &str,
    ) -> (r: Result<u64, Error>)
        requires
            accepts_reads(*run),
        ensures
            self.has_count(*run, from_exclusive@ + ".."@ + to@, count_outcome(r)),
    {
        let mut range = from_exclusive.to_owned();
        range.append("..");
        range.append(to);
        let args: &[&str] = &["rev-list", "--count", range.as_str()];
        assert(args.deep_view() =~= count_argv(range@));
        let said = in_repo(run, self, args);
        assert(self.reads(*run, count_argv(range@), outcome(said)));
        read_count(range.as_str(), said)
    }

    /// `rev-list --count <head> --not --glob=refs/*`: commits reachable
    /// from `head` that no ref reaches - branch, tag, remote-tracking,
    /// stash, anything under `refs/`. Commits a *different* worktree's HEAD
    /// alone keeps pinned therefore count as unique - literally reachable
    /// from no ref - and fail closed.
    pub fn unreachable_commits<G: Fn(&Vec<String>, &Vec<String>) -> Reply>(
        &self,
        run: &G,
        head: &str,
    ) -> (r: Result<u64, Error>)
        requires
            accepts_reads(*run),
        ensures
            self.has_unreachable(*run, head@, count_outcome(r)),
    {
        let args: &[&str] = &["rev-list", "--count", head, "--not", "--glob=refs/*"];
        assert(args.deep_view() =~= unreachable_argv(head@));
        let said = in_repo(run, self, args);
        assert(self.reads(*run, unreachable_argv(head@), outcome(said)));
        let mut range = head.to_owned();
        range.append(" --not --glob=refs/*");
        read_count(range.as_str(), said)
    }

    /// `merge-base --is-ancestor`: three-valued because the comparison itself
    /// can fail, and a failed comparison is not "no".
    pub fn is_ancestor<G: Fn(&Vec<String>, &Vec<String>) -> Reply>(
        &self,
        run: &G,
        ancestor: &str,
        descendant: &str,
    ) -> (r: Evidence<bool>)
        requires
            accepts_reads(*run),
        ensures
            self.has_ancestry(*run, ancestor@, descendant@, r.deep_view()),
    {
        let args: &[&str] = &["merge-base", "--is-ancestor", ancestor, descendant];
        assert(args.deep_view() =~= ancestor_argv(ancestor@, descendant@));
        let said = in_repo(run, self, args);
        assert(self.reads(*run, ancestor_argv(ancestor@, descendant@), outcome(said)));
        read_yes_or_no(said, "merge-base --is-ancestor")
    }

    /// `merge-base`; `Ok(None)` when the histories share no ancestor.
    pub fn merge_base<G: Fn(&Vec<String>, &Vec<String>) -> Reply>(
        &self,
        run: &G,
        a: &str,
        b: &str,
    ) -> (r: Result<Option<String>, Error>)
        requires
            accepts_reads(*run),
        ensures
            self.has_merge_base(*run, a@, b@, outcome(r)),
    {
        let args: &[&str] = &["merge-base", a, b];
        assert(args.deep_view() =~= merge_base_argv(a@, b@));
        let said = in_repo(run, self, args);
        assert(self.reads(*run, merge_base_argv(a@, b@), outcome(said)));
        match said {
            Ok(sha) => Ok(Some(trim(sha.as_str()))),
            Err(e) => {
                if exited_one(&e) {
                    Ok(None)
                } else {
                    Err(e)
                }
            },
        }
    }

    /// Paths whose content differs between `from` and `to`
    /// (`diff --name-only -z`).
    pub fn changed_paths<G: Fn(&Vec<String>, &Vec<String>) -> Reply>(
        &self,
        run: &G,
        from: &str,
        to: &str,
    ) -> (r: Result<Vec<String>, Error>)
        requires
            accepts_reads(*run),
        ensures
            self.has_changes(*run, from@, to@, outcome(r)),
    {
        let args: &[&str] = &["diff", "--name-only", "-z", from, to];
        assert(args.deep_view() =~= changed_argv(from@, to@));
        let said = in_repo(run, self, args);
        assert(self.reads(*run, changed_argv(from@, to@), outcome(said)));
        let text = match said {
            Ok(text) => text,
            Err(e) => return Err(e),
        };
        let fields = split(text.as_str(), '\0');
        let ghost all = fields.deep_view();
        let mut paths: Vec<String> = Vec::new();
        let mut i: usize = 0;
        assert(paths.deep_view() =~= seq![]);
        while i < fields.len()
            invariant
                i <= fields@.len(),
                all == fields.deep_view(),
                paths.deep_view() == filled(all.take(i as int)),
            decreases fields@.len() - i,
        {
            assert(all.take(i + 1).drop_last() =~= all.take(i as int));
            assert(all.take(i + 1).last() == fields@[i as int]@);
            if !fields[i].as_str().is_empty() {
                let ghost before = paths.deep_view();
                paths.push(fields[i].clone());
                assert(paths.deep_view() =~= before.push(fields@[i as int]@));
            }
            i += 1;
        }
        assert(all.take(i as int) =~= all);
        Ok(paths)
    }

    /// Whether every one of `paths` has identical content at `a` and `b`
    /// (`diff --quiet a b -- <paths>`). Unknown when the comparison fails.
    pub fn paths_match<G: Fn(&Vec<String>, &Vec<String>) -> Reply>(
        &self,
        run: &G,
        a: &str,
        b: &str,
        paths: &Vec<String>,
    ) -> (r: Evidence<bool>)
        requires
            accepts_reads(*run),
        ensures
            self.has_match(*run, a@, b@, paths.deep_view(), r.deep_view()),
    {
        assert(paths.deep_view().skip(0) =~= paths.deep_view());
        self.paths_match_from(run, a, b, paths, 0)
    }

    /// [`Repo::paths_match`] for the paths from position `from` on.
    fn paths_match_from<G: Fn(&Vec<String>, &Vec<String>) -> Reply>(
        &self,
        run: &G,
        a: &str,
        b: &str,
        paths: &Vec<String>,
        from: usize,
    ) -> (r: Evidence<bool>)
        requires
            accepts_reads(*run),
            from <= paths@.len(),
        ensures
            self.has_match(*run, a@, b@, paths.deep_view().skip(from as int), r.deep_view()),
        decreases paths@.len() - from,
    {
        let ghost all = paths.deep_view();
        let ghost left = all.skip(from as int);
        let count: usize = if paths.len() - from <= PATHS_PER_DIFF {
            paths.len() - from
        } else {
            PATHS_PER_DIFF
        };
        if count == 0 {
            return Evidence::Known(true);
        }
        let to: usize = from + count;
        let mut args: Vec<String> = list(&["diff", "--quiet", a, b, "--"]);
        let mut i: usize = from;
        assert(args.deep_view() =~= match_argv(a@, b@, seq![]));
        while i < to
            invariant
                from <= i <= to <= paths@.len(),
                all == paths.deep_view(),
                args.deep_view() =~= match_argv(a@, b@, all.subrange(from as int, i as int)),
            decreases to - i,
        {
            let ghost before = args.deep_view();
            args.push(paths[i].clone());
            assert(args.deep_view() =~= before.push(paths@[i as int]@));
            i += 1;
        }
        let dir = self.repo_dir();
        let mut git_dir = "--git-dir=".to_owned();
        git_dir.append(self.common_dir());
        let global = list(&["-C", dir.as_str(), git_dir.as_str()]);
        assert(global.deep_view() =~= repo_globals(self.deep_view()));
        let said = git(run, &global, &args);
        assert(left.take(count as int) =~= all.subrange(from as int, to as int));
        assert(self.reads(*run, match_argv(a@, b@, left.take(count as int)), outcome(said)));
        match said {
            Ok(_) => {
                assert(left.skip(count as int) =~= all.skip(to as int));
                let r = self.paths_match_from(run, a, b, paths, to);
                assert(batch(left.len()) == count);
                assert(self.has_match(*run, a@, b@, left.skip(count as int), r.deep_view()));
                r
            },
            Err(e) => {
                assert(batch(left.len()) == count);
                read_yes_or_no(Err(e), "diff --quiet")
            },
        }
    }

    /// `status --porcelain --untracked-files=all`: dirty means tracked *or*
    /// untracked changes, so configuration hiding untracked files cannot make
    /// a dirty tree look disposable.
    pub fn dirty<G: Fn(&Vec<String>, &Vec<String>) -> Reply>(&self, run: &G, checkout: &str) -> (r:
        Evidence<bool>)
        requires
            accepts_reads(*run),
        ensures
            has_dirt(*run, checkout@, r.deep_view()),
    {
        let args: &[&str] = &["status", "--porcelain", "--untracked-files=all"];
        assert(args.deep_view() =~= status_argv());
        let said = in_dir(run, checkout, args);
        assert(says(*run, dir_globals(checkout@), status_argv(), outcome(said)));
        match said {
            Ok(text) => Evidence::Known(!trim(text.as_str()).as_str().is_empty()),
            Err(e) => {
                let mut reason = "git status: ".to_owned();
                reason.append(e.to_string().as_str());
                Evidence::Unknown(reason)
            },
        }
    }
}

/// `r` is what the checkout may be read as: dirty or not.
pub open spec fn has_dirt<G: Fn(&Vec<String>, &Vec<String>) -> Reply>(
    run: G,
    checkout: Seq<char>,
    r: EvidenceView<bool>,
) -> bool {
    exists|said: Result<Seq<char>, ErrorView>|
        #[trigger] says(run, dir_globals(checkout), status_argv(), said) && r == dirty_of(said)
}

fn read_count(range: &str, said: Result<String, Error>) -> (r: Result<u64, Error>)
    ensures
        count_outcome(r) == count_of(range@, outcome(said)),
{
    match said {
        Err(e) => Err(e),
        Ok(text) => {
            let digits = trim(text.as_str());
            match parse_u64(digits.as_str()) {
                Some(n) => Ok(n),
                None => {
                    let mut argv = "rev-list --count ".to_owned();
                    argv.append(range);
                    let mut detail = "unparseable count: ".to_owned();
                    detail.append(u64_fault(digits.as_str()));
                    Err(Error { argv, code: None, detail })
                },
            }
        },
    }
}

fn read_yes_or_no(said: Result<String, Error>, what: &str) -> (r: Evidence<bool>)
    ensures
        r.deep_view() == yes_or_no(outcome(said), what@),
{
    match said {
        Ok(_) => Evidence::Known(true),
        Err(e) => {
            if exited_one(&e) {
                Evidence::Known(false)
            } else {
                let mut reason = what.to_owned();
                reason.append(": ");
                reason.append(e.to_string().as_str());
                Evidence::Unknown(reason)
            }
        },
    }
}

// ---------------------------------------------------------------------------
// Activity
// ---------------------------------------------------------------------------

/// The last line that is not blank.
pub open spec fn last_filled(lines: Seq<Seq<char>>) -> Option<Seq<char>>
    decreases lines.len(),
{
    if lines.len() == 0 {
        None
    } else if trimmed(lines.last()).len() > 0 {
        Some(lines.last())
    } else {
        last_filled(lines.drop_last())
    }
}

/// The epoch of one reflog entry, `<old> <new> <ident> <epoch> <tz>\t<msg>`:
/// the second word before the tab when read from the right, which is robust
/// against spaces inside the identity. An epoch no clock can hold is none.
pub open spec fn entry_epoch(entry: Seq<char>) -> Option<nat> {
    let words = word_list(pieces(entry, '\t')[0]);
    if words.len() < 2 {
        None
    } else {
        unsigned(words[words.len() - 2], i64::MAX as nat)
    }
}

/// The epoch of a reflog's last entry.
pub open spec fn reflog_epoch(text: Seq<char>) -> Option<nat> {
    match last_filled(line_list(text)) {
        Some(entry) => entry_epoch(entry),
        None => None,
    }
}

/// The later of a reflog entry's time and the log file's own.
pub open spec fn activity(epoch: nat, modified: Option<Timestamp>) -> Timestamp {
    let entry = Timestamp { nanos: (epoch * NANOS_PER_SEC as nat) as i128 };
    match modified {
        Some(at) if at.nanos >= entry.nanos => at,
        _ => entry,
    }
}

/// `r` is what the log at `path` may say of the last activity.
pub open spec fn has_activity<
    R: Fn(&String) -> Option<String>,
    M: Fn(&String) -> Option<Timestamp>,
>(read: R, modified: M, path: Seq<char>, r: Option<Timestamp>) -> bool {
    exists|text: Option<String>|
        #[trigger] answers(read, path, text) && match text {
            None => r is None,
            Some(text) => match reflog_epoch(text@) {
                None => r is None,
                Some(epoch) => exists|at: Option<Timestamp>|
                    #[trigger] answers(modified, path, at) && r == Some(activity(epoch, at)),
            },
        }
}

impl Repo {
    /// Last entry time of a worktree's HEAD reflog, or of a branch reflog,
    /// taken with the log file's mtime: the newest of the two is the activity
    /// signal. `read` gives the text of a readable file, `modified` its mtime.
    pub fn reflog_activity<
        R: Fn(&String) -> Option<String>,
        M: Fn(&String) -> Option<Timestamp>,
    >(&self, read: &R, modified: &M, log: &str) -> (r: Option<Timestamp>)
        requires
            accepts_any(*read),
            accepts_any(*modified),
        ensures
            has_activity(*read, *modified, below(self.deep_view(), log@), r),
    {
        let path = path::join(self.common_dir(), log);
        let text = read(&path);
        assert(answers(*read, path@, text));
        let Some(text) = text else {
            return None;
        };
        let found = lines(text.as_str());
        let ghost all = found.deep_view();
        let mut i: usize = found.len();
        assert(all.take(i as int) =~= all);
        while i > 0 && trim(found[i - 1].as_str()).as_str().is_empty()
            invariant
                i <= found@.len(),
                all == found.deep_view(),
                last_filled(all) == last_filled(all.take(i as int)),
            decreases i,
        {
            assert(all.take(i as int).drop_last() =~= all.take(i - 1));
            assert(all.take(i as int).last() == found@[i - 1]@);
            i -= 1;
        }
        if i == 0 {
            return None;
        }
        assert(all.take(i as int).last() == found@[i - 1]@);
        let Some(epoch) = read_epoch(found[i - 1].as_str()) else {
            return None;
        };
        assert(reflog_epoch(text@) == Some(epoch as nat));
        let entry = Timestamp::from_secs(epoch);
        let at = modified(&path);
        assert(answers(*modified, path@, at));
        let r = match at {
            Some(at) => at.later(entry),
            None => entry,
        };
        assert(r == activity(epoch as nat, at));
        Some(r)
    }
}

/// The epoch of one reflog entry.
fn read_epoch(entry: &str) -> (r: Option<u64>)
    ensures
        r is Some <==> entry_epoch(entry@) is Some,
        r is Some ==> r->0 == entry_epoch(entry@)->0,
{
    let fields = split(entry, '\t');
    let head = fields[0].as_str();
    assert(fields.deep_view()[0] == head@);
    let found = words(head);
    if found.len() < 2 {
        return None;
    }
    let word = found[found.len() - 2].as_str();
    assert(found.deep_view()[found@.len() - 2] == word@);
    match parse_u64(word) {
        Some(n) => {
            if n <= 0x7fff_ffff_ffff_ffff {
                Some(n)
            } else {
                None
            }
        },
        None => None,
    }
}

// ---------------------------------------------------------------------------
// What a comparison promises
// ---------------------------------------------------------------------------

/// The path was in a batch that Git found identical at both commits.
pub open spec fn found_identical<G: Fn(&Vec<String>, &Vec<String>) -> Reply>(
    repo: Repo,
    run: G,
    a: Seq<char>,
    b: Seq<char>,
    path: Seq<char>,
) -> bool {
    exists|paths: Seq<Seq<char>>, said: Result<Seq<char>, ErrorView>|
        paths.contains(path) && said is Ok && #[trigger] repo.reads(
            run,
            match_argv(a, b, paths),
            said,
        )
}

/// Content is only said to match where every single path was compared and
/// found identical.
pub proof fn law_a_match_covers_every_path<G: Fn(&Vec<String>, &Vec<String>) -> Reply>(
    repo: Repo,
    run: G,
    a: Seq<char>,
    b: Seq<char>,
    paths: Seq<Seq<char>>,
    i: int,
)
    requires
        repo.has_match(run, a, b, paths, EvidenceView::Known(true)),
        0 <= i < paths.len(),
    ensures
        found_identical(repo, run, a, b, paths[i]),
    decreases paths.len(),
{
    let n = batch(paths.len()) as int;
    let said = choose|said: Result<Seq<char>, ErrorView>|
        #[trigger] repo.reads(run, match_argv(a, b, paths.take(n)), said) && if said is Ok {
            repo.has_match(run, a, b, paths.skip(n), EvidenceView::Known(true))
        } else {
            EvidenceView::Known(true) == yes_or_no(said, "diff --quiet"@)
        };
    assert(said is Ok);
    if i < n {
        assert(paths.take(n)[i] == paths[i]);
        assert(paths.take(n).contains(paths[i]));
    } else {
        assert(paths.skip(n)[i - n] == paths[i]);
        law_a_match_covers_every_path(repo, run, a, b, paths.skip(n), i - n);
    }
}

/// A checkout is dirty when Git's status, untracked files included, lists
/// anything, clean when it lists nothing, and neither when Git fails.
pub proof fn law_a_checkout_is_dirty_when_status_lists_anything<
    G: Fn(&Vec<String>, &Vec<String>) -> Reply,
>(run: G, checkout: Seq<char>, text: Seq<char>, code: int, r: EvidenceView<bool>)
    requires
        has_dirt(run, checkout, r),
    ensures
        ({
            let global = seq!["-C"@, checkout];
            let asked = seq!["status"@, "--porcelain"@, "--untracked-files=all"@];
            &&& always_prints(run, global, asked, seq![]) ==> r == EvidenceView::Known(false)
            &&& always_prints(run, global, asked, text) && (exists|i: int|
                0 <= i < text.len() && !is_space(#[trigger] text[i])) ==> r == EvidenceView::Known(
                true,
            )
            &&& code != 0 && always_exits(run, global, asked, code) ==> r is Unknown
            &&& never_answers(run, global, asked) ==> r is Unknown
        }),
{
    lemma_says(run, dir_globals(checkout), status_argv());
    let none = Seq::<char>::empty();
    assert(trimmed(none) =~= none);
    if exists|i: int| 0 <= i < text.len() && !is_space(#[trigger] text[i]) {
        let i = choose|i: int| 0 <= i < text.len() && !is_space(#[trigger] text[i]);
        lemma_something_is_left(text, i);
    }
}

proof fn lemma_something_is_left(text: Seq<char>, i: int)
    requires
        0 <= i < text.len(),
        !is_space(text[i]),
    ensures
        trimmed(text).len() > 0,
    decreases text.len(),
{
    if is_space(text[0]) {
        assert(text.drop_first()[i - 1] == text[i]);
        lemma_something_is_left(text.drop_first(), i - 1);
    } else {
        lemma_start_is_left(text);
    }
}

proof fn lemma_start_is_left(text: Seq<char>)
    requires
        text.len() > 0,
        !is_space(text[0]),
    ensures
        trim_right(text).len() > 0,
    decreases text.len(),
{
    if is_space(text.last()) {
        assert(text.drop_last()[0] == text[0]);
        lemma_start_is_left(text.drop_last());
    }
}

/// A ref is here when Git verifies it, and is not when Git does not.
pub proof fn law_a_ref_is_here_when_it_verifies<G: Fn(&Vec<String>, &Vec<String>) -> Reply>(
    run: G,
    repo: Repo,
    refname: Seq<char>,
    sha: Seq<char>,
    code: int,
    r: bool,
)
    requires
        repo.may_have_ref(run, refname, r),
        is_word(sha),
    ensures
        ({
            let global = repo_globals(repo.deep_view());
            let asked = seq!["rev-parse"@, "--verify"@, "-q"@, refname];
            &&& always_prints(run, global, asked, sha.push('\n')) ==> r
            &&& code != 0 && always_exits(run, global, asked, code) ==> !r
            &&& never_answers(run, global, asked) ==> !r
        }),
{
    lemma_says(run, repo_globals(repo.deep_view()), verify_argv(refname));
    lemma_trimmed_line(sha);
}

/// The last activity is the later of the last reflog entry's time and the
/// log's own; a log that is not there says nothing.
pub proof fn law_activity_is_the_last_entry_or_the_log<
    R: Fn(&String) -> Option<String>,
    M: Fn(&String) -> Option<Timestamp>,
>(
    read: R,
    modified: M,
    path: Seq<char>,
    old: Seq<char>,
    new: Seq<char>,
    who: Seq<char>,
    epoch: u64,
    zone: Seq<char>,
    message: Seq<char>,
    earlier: Seq<Seq<char>>,
    at: Option<Timestamp>,
    r: Option<Timestamp>,
)
    requires
        has_activity(read, modified, path, r),
        is_word(old),
        is_word(new),
        is_word(who),
        is_word(zone),
        epoch <= i64::MAX,
        !message.contains('\n'),
        !message.contains('\r'),
        forall|i: int|
            0 <= i < earlier.len() ==> !(#[trigger] earlier[i]).contains('\n')
                && !earlier[i].contains('\r'),
        forall|s: String, found: Option<Timestamp>|
            s@ == path && #[trigger] call_ensures(modified, (&s,), found) ==> found == at,
    ensures
        ({
            let entry = entry_text(old, new, who, epoch, zone, message);
            let missing = forall|s: String, text: Option<String>|
                s@ == path && #[trigger] call_ensures(read, (&s,), text) ==> text is None;
            let logged = forall|s: String, text: Option<String>|
                s@ == path && #[trigger] call_ensures(read, (&s,), text) ==> text is Some
                    && text->0@ == terminated(earlier.push(entry), '\n');
            let then = epoch as int * 1_000_000_000;
            &&& missing ==> r is None
            &&& logged && at is None ==> r is Some && r->0.nanos == then
            &&& logged && at is Some && at->0.nanos >= then ==> r == at
            &&& logged && at is Some && at->0.nanos < then ==> r is Some && r->0.nanos == then
        }),
{
    let entry = entry_text(old, new, who, epoch, zone, message);
    let words = seq![old, new, who, decimal(epoch as nat), zone];
    let gaps = seq![seq![], seq![' '], seq![' '], seq![' '], seq![' '], seq![]];
    let lead = spaced(words, gaps);
    lemma_number_reads_back(epoch as nat, i64::MAX as nat);
    assert(is_word(decimal(epoch as nat)));
    assert(is_space(' ') && is_space('\n') && is_space('\r') && is_space('\t'));
    assert(are_gaps(gaps, 5));
    law_words_read_back(words, gaps);
    lemma_lead(words, gaps, '\t');
    lemma_lead(words, gaps, '\n');
    lemma_lead(words, gaps, '\r');
    lemma_first_piece(lead, '\t', message);
    assert(pieces(entry, '\t')[0] == lead);
    assert(entry_epoch(entry) == Some(epoch as nat));
    assert(!entry.contains('\n') && !entry.contains('\r')) by {
        assert forall|k: int| 0 <= k < entry.len() implies entry[k] != '\n' && entry[k] != '\r' by {
            if k < lead.len() {
                assert(lead.contains(lead[k]));
            } else if k > lead.len() {
                assert(message.contains(message[k - lead.len() - 1]));
            }
        }
    }
    let all = earlier.push(entry);
    assert forall|i: int| 0 <= i < all.len() implies !(#[trigger] all[i]).contains('\n')
        && !all[i].contains('\r') by {
        if i < earlier.len() {
            assert(!earlier[i].contains('\n'));
        }
    }
    law_lines_read_back(all, false);
    assert(all.last() == entry);
    assert(lead.len() > 0 && lead[0] == old[0]) by {
        reveal_with_fuel(spaced, 2);
    }
    assert(!is_space(old[0]));
    assert(entry[0] == old[0]);
    lemma_something_is_left(entry, 0);
    assert(reflog_epoch(terminated(all, '\n')) == Some(epoch as nat));
    let text = choose|text: Option<String>|
        #[trigger] answers(read, path, text) && match text {
            None => r is None,
            Some(text) => match reflog_epoch(text@) {
                None => r is None,
                Some(epoch) => exists|at: Option<Timestamp>|
                    #[trigger] answers(modified, path, at) && r == Some(activity(epoch, at)),
            },
        };
    let s = choose|s: String| s@ == path && #[trigger] call_ensures(read, (&s,), text);
    assert(call_ensures(read, (&s,), text));
    if text is Some && text->0@ == terminated(all, '\n') {
        let found = choose|found: Option<Timestamp>|
            #[trigger] answers(modified, path, found) && r == Some(activity(epoch as nat, found));
        let t = choose|t: String| t@ == path && #[trigger] call_ensures(modified, (&t,), found);
        assert(call_ensures(modified, (&t,), found));
    }
}

/// One reflog entry as Git writes it.
pub open spec fn entry_text(
    old: Seq<char>,
    new: Seq<char>,
    who: Seq<char>,
    epoch: u64,
    zone: Seq<char>,
    message: Seq<char>,
) -> Seq<char> {
    spaced(
        seq![old, new, who, decimal(epoch as nat), zone],
        seq![seq![], seq![' '], seq![' '], seq![' '], seq![' '], seq![]],
    ).push('\t') + message
}

proof fn lemma_lead(words: Seq<Seq<char>>, gaps: Seq<Seq<char>>, c: char)
    requires
        is_space(c),
        gaps.len() == words.len() + 1,
        forall|i: int| 0 <= i < words.len() ==> is_word(#[trigger] words[i]),
        forall|i: int| 0 <= i < gaps.len() ==> !(#[trigger] gaps[i]).contains(c),
    ensures
        !spaced(words, gaps).contains(c),
    decreases words.len(),
{
    let whole = spaced(words, gaps);
    assert(!gaps[0].contains(c));
    if words.len() > 0 {
        let later = words.drop_first();
        let around = gaps.drop_first();
        assert forall|i: int| 0 <= i < later.len() implies is_word(#[trigger] later[i]) by {
            assert(is_word(words[i + 1]));
        }
        assert forall|i: int| 0 <= i < around.len() implies !(#[trigger] around[i]).contains(c) by {
            assert(!gaps[i + 1].contains(c));
        }
        lemma_lead(later, around, c);
        let rest = spaced(later, around);
        assert forall|i: int| 0 <= i < whole.len() implies whole[i] != c by {
            let g = gaps[0].len() as int;
            let w = words[0].len() as int;
            if i < g {
                assert(gaps[0].contains(gaps[0][i]));
            } else if i < g + w {
                assert(!is_space(words[0][i - g]));
            } else {
                assert(rest.contains(rest[i - g - w]));
            }
        }
    }
}

}
