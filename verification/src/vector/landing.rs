//! Whether the work on a branch has landed on its base or its remote.

use vstd::prelude::*;
use vstd::string::*;

use crate::command::Reply;
use crate::evidence::{Evidence, EvidenceView};
use crate::git::{
    accepts_reads, always_exits, always_prints, batch, count_outcome, filled,
    law_a_read_says_what_git_printed, match_argv, never_answers, outcome, read_only, repo_globals,
    yes_or_no, ErrorView, Repo,
};
use crate::text::{
    concat, decimal, is_digit, is_word, lemma_number_reads_back, lemma_terminated,
    lemma_trimmed_line, pieces, terminated, trimmed, unsigned,
};
use crate::vector::{Base, BaseView, Landed, UpstreamState, UpstreamView};

verus! {

// ---------------------------------------------------------------------------
// Commits
// ---------------------------------------------------------------------------

/// A count, or what went wrong with it.
pub open spec fn counted_or(count: Result<u64, ErrorView>, what: Seq<char>) -> EvidenceView<u64> {
    match count {
        Ok(n) => EvidenceView::Known(n),
        Err(e) => EvidenceView::Unknown(what + ": "@ + e.text()),
    }
}

fn count_or(count: Result<u64, crate::git::Error>, what: &str) -> (r: Evidence<u64>)
    ensures
        r.deep_view() == counted_or(count_outcome(count), what@),
{
    match count {
        Ok(n) => Evidence::Known(n),
        Err(e) => {
            let mut reason = concat(what, ": ");
            reason.append(e.to_string().as_str());
            Evidence::Unknown(reason)
        },
    }
}

/// `r` is what the commits of `to` that `from` does not have may be counted as.
pub open spec fn counts_range<G: Fn(&Vec<String>, &Vec<String>) -> Reply>(
    run: G,
    repo: Repo,
    from: Seq<char>,
    to: Seq<char>,
    what: Seq<char>,
    r: EvidenceView<u64>,
) -> bool {
    exists|count: Result<u64, ErrorView>|
        #[trigger] repo.has_count(run, from + ".."@ + to, count) && r == counted_or(count, what)
}

fn count_range<G: Fn(&Vec<String>, &Vec<String>) -> Reply>(
    run: &G,
    repo: &Repo,
    from: &str,
    to: &str,
    what: &str,
) -> (r: Evidence<u64>)
    requires
        accepts_reads(*run),
    ensures
        counts_range(*run, *repo, from@, to@, what@, r.deep_view()),
{
    let count = repo.rev_list_count(run, from, to);
    count_or(count, what)
}

/// What cannot be compared without a base.
pub open spec fn no_base(reason: Seq<char>) -> Seq<char> {
    "no proven base ("@ + reason + ")"@
}

fn without_base(reason: &str) -> (r: String)
    ensures
        r@ == no_base(reason@),
{
    let mut out = concat("no proven base (", reason);
    out.append(")");
    out
}

/// `r` is what the commits of `head` past the base may be counted as.
pub open spec fn finds_ahead<G: Fn(&Vec<String>, &Vec<String>) -> Reply>(
    run: G,
    repo: Repo,
    head: Seq<char>,
    base: EvidenceView<BaseView>,
    r: EvidenceView<u64>,
) -> bool {
    match base {
        EvidenceView::Unknown(reason) => r == EvidenceView::<u64>::Unknown(no_base(reason)),
        EvidenceView::Known(base) => counts_range(
            run,
            repo,
            base.local_ref,
            head,
            "rev-list"@,
            r,
        ),
    }
}

/// Commits of `head` that the base does not have.
pub fn commits_ahead<G: Fn(&Vec<String>, &Vec<String>) -> Reply>(
    run: &G,
    repo: &Repo,
    head: &str,
    base: &Evidence<Base>,
) -> (r: Evidence<u64>)
    requires
        accepts_reads(*run),
    ensures
        finds_ahead(*run, *repo, head@, base.deep_view(), r.deep_view()),
{
    match base {
        Evidence::Unknown(reason) => Evidence::Unknown(without_base(reason.as_str())),
        Evidence::Known(base) => {
            count_range(run, repo, base.local_ref.as_str(), head, "rev-list")
        },
    }
}

/// What identical content at HEAD and on the base comes to.
pub open spec fn landed_by_content(same: EvidenceView<bool>) -> EvidenceView<Landed> {
    match same {
        EvidenceView::Known(true) => EvidenceView::Known(Landed::ContentMerged),
        EvidenceView::Known(false) => EvidenceView::Known(Landed::No),
        EvidenceView::Unknown(reason) => EvidenceView::Unknown(reason),
    }
}

/// `r` is what `head` may be found to be, given the paths it changed: no delta
/// at all is not landed.
pub open spec fn finds_content<G: Fn(&Vec<String>, &Vec<String>) -> Reply>(
    run: G,
    repo: Repo,
    head: Seq<char>,
    local_ref: Seq<char>,
    paths: Seq<Seq<char>>,
    r: EvidenceView<Landed>,
) -> bool {
    if paths.len() == 0 {
        r == EvidenceView::Known(Landed::No)
    } else {
        exists|same: EvidenceView<bool>|
            #[trigger] repo.has_match(run, head, local_ref, paths, same) && r == landed_by_content(
                same,
            )
    }
}

/// `r` is what `head` may be found to be, given where it left the base.
pub open spec fn finds_delta<G: Fn(&Vec<String>, &Vec<String>) -> Reply>(
    run: G,
    repo: Repo,
    head: Seq<char>,
    local_ref: Seq<char>,
    merge_base: Seq<char>,
    r: EvidenceView<Landed>,
) -> bool {
    exists|paths: Result<Seq<Seq<char>>, ErrorView>|
        #[trigger] repo.has_changes(run, merge_base, head, paths) && match paths {
            Ok(paths) => finds_content(run, repo, head, local_ref, paths, r),
            Err(e) => r == EvidenceView::<Landed>::Unknown("diff --name-only: "@ + e.text()),
        }
}

/// `r` is what a `head` that is no ancestor of the base may be found to be:
/// unrelated histories cannot have landed.
pub open spec fn finds_squashed<G: Fn(&Vec<String>, &Vec<String>) -> Reply>(
    run: G,
    repo: Repo,
    head: Seq<char>,
    local_ref: Seq<char>,
    r: EvidenceView<Landed>,
) -> bool {
    exists|merge_base: Result<Option<Seq<char>>, ErrorView>|
        #[trigger] repo.has_merge_base(run, head, local_ref, merge_base) && match merge_base {
            Ok(Some(sha)) => finds_delta(run, repo, head, local_ref, sha, r),
            Ok(None) => r == EvidenceView::Known(Landed::No),
            Err(e) => r == EvidenceView::<Landed>::Unknown("merge-base: "@ + e.text()),
        }
}

/// `r` is what may be found of whether `head` landed on a proven base.
pub open spec fn finds_landed_on<G: Fn(&Vec<String>, &Vec<String>) -> Reply>(
    run: G,
    repo: Repo,
    head: Seq<char>,
    local_ref: Seq<char>,
    r: EvidenceView<Landed>,
) -> bool {
    exists|ancestor: EvidenceView<bool>|
        #[trigger] repo.has_ancestry(run, head, local_ref, ancestor) && match ancestor {
            EvidenceView::Known(true) => r == EvidenceView::Known(Landed::AncestorMerged),
            EvidenceView::Known(false) => finds_squashed(run, repo, head, local_ref, r),
            EvidenceView::Unknown(reason) => r == EvidenceView::<Landed>::Unknown(reason),
        }
}

/// `r` is what may be found of whether `head` landed on the base.
pub open spec fn finds_landed<G: Fn(&Vec<String>, &Vec<String>) -> Reply>(
    run: G,
    repo: Repo,
    head: Seq<char>,
    base: EvidenceView<BaseView>,
    r: EvidenceView<Landed>,
) -> bool {
    match base {
        EvidenceView::Unknown(reason) => r == EvidenceView::<Landed>::Unknown(no_base(reason)),
        EvidenceView::Known(base) => finds_landed_on(run, repo, head, base.local_ref, r),
    }
}

/// Ancestry first; when HEAD is no ancestor, the squash/rebase shape is
/// checked by requiring every path HEAD changed relative to the merge base
/// to be identical on the base. No delta at all is not landed.
pub fn landed<G: Fn(&Vec<String>, &Vec<String>) -> Reply>(
    run: &G,
    repo: &Repo,
    head: &str,
    base: &Evidence<Base>,
) -> (r: Evidence<Landed>)
    requires
        accepts_reads(*run),
    ensures
        finds_landed(*run, *repo, head@, base.deep_view(), r.deep_view()),
{
    let base = match base {
        Evidence::Known(base) => base,
        Evidence::Unknown(reason) => {
            return Evidence::Unknown(without_base(reason.as_str()));
        },
    };
    let local_ref = base.local_ref.as_str();
    let ancestor = repo.is_ancestor(run, head, local_ref);
    assert(repo.has_ancestry(*run, head@, local_ref@, ancestor.deep_view()));
    match ancestor {
        Evidence::Known(true) => Evidence::Known(Landed::AncestorMerged),
        Evidence::Unknown(reason) => Evidence::Unknown(reason),
        Evidence::Known(false) => squashed(run, repo, head, local_ref),
    }
}

fn squashed<G: Fn(&Vec<String>, &Vec<String>) -> Reply>(
    run: &G,
    repo: &Repo,
    head: &str,
    local_ref: &str,
) -> (r: Evidence<Landed>)
    requires
        accepts_reads(*run),
    ensures
        finds_squashed(*run, *repo, head@, local_ref@, r.deep_view()),
{
    let merge_base = repo.merge_base(run, head, local_ref);
    let ghost base_view = outcome(merge_base);
    assert(repo.has_merge_base(*run, head@, local_ref@, base_view));
    let sha = match merge_base {
        Ok(Some(sha)) => sha,
        Ok(None) => return Evidence::Known(Landed::No),
        Err(e) => return Evidence::Unknown(concat("merge-base: ", e.to_string().as_str())),
    };
    let changed = repo.changed_paths(run, sha.as_str(), head);
    let ghost paths_view = outcome(changed);
    assert(repo.has_changes(*run, sha@, head@, paths_view));
    let r = match changed {
        Ok(paths) => {
            if paths.is_empty() {
                Evidence::Known(Landed::No)
            } else {
                let found = repo.paths_match(run, head, local_ref, &paths);
                assert(repo.has_match(
                    *run,
                    head@,
                    local_ref@,
                    paths.deep_view(),
                    found.deep_view(),
                ));
                let r = match found {
                    Evidence::Known(true) => Evidence::Known(Landed::ContentMerged),
                    Evidence::Known(false) => Evidence::Known(Landed::No),
                    Evidence::Unknown(reason) => Evidence::Unknown(reason),
                };
                assert(finds_content(
                    *run,
                    *repo,
                    head@,
                    local_ref@,
                    paths.deep_view(),
                    r.deep_view(),
                ));
                r
            }
        },
        Err(e) => Evidence::Unknown(concat("diff --name-only: ", e.to_string().as_str())),
    };
    assert(finds_delta(*run, *repo, head@, local_ref@, sha@, r.deep_view()));
    r
}

/// `r` is what the unpushed commits may be counted as. A branch that was never
/// pushed has no upstream at all, so every commit past the base is unpushed
/// by definition; a detached HEAD is held to the commits no ref reaches.
/// `@{u}` resolves through the refspec, which is why it handles a merge ref
/// naming a different remote branch.
pub open spec fn finds_unpushed<G: Fn(&Vec<String>, &Vec<String>) -> Reply>(
    run: G,
    repo: Repo,
    head: Seq<char>,
    branch: Option<Seq<char>>,
    upstream: UpstreamView,
    ahead: EvidenceView<u64>,
    r: EvidenceView<u64>,
) -> bool {
    match upstream {
        UpstreamView::NeverPushed => r == ahead,
        UpstreamView::NotApplicable => exists|count: Result<u64, ErrorView>|
            #[trigger] repo.has_unreachable(run, head, count) && r == counted_or(
                count,
                "rev-list"@,
            ),
        _ => match branch {
            Some(branch) => counts_range(
                run,
                repo,
                branch + "@{u}"@,
                "refs/heads/"@ + branch,
                "unpushed count via @{u}"@,
                r,
            ),
            None => r == EvidenceView::<u64>::Unknown("no branch for an upstream"@),
        },
    }
}

/// Commits the configured upstream does not have.
pub fn unpushed_commits<G: Fn(&Vec<String>, &Vec<String>) -> Reply>(
    run: &G,
    repo: &Repo,
    head: &str,
    branch: Option<&str>,
    upstream: &UpstreamState,
    ahead: &Evidence<u64>,
) -> (r: Evidence<u64>)
    requires
        accepts_reads(*run),
    ensures
        finds_unpushed(
            *run,
            *repo,
            head@,
            branch.deep_view(),
            upstream.deep_view(),
            ahead.deep_view(),
            r.deep_view(),
        ),
{
    match upstream {
        UpstreamState::NeverPushed => match ahead {
            Evidence::Known(n) => Evidence::Known(*n),
            Evidence::Unknown(reason) => Evidence::Unknown(reason.clone()),
        },
        UpstreamState::NotApplicable => {
            let count = repo.unreachable_commits(run, head);
            count_or(count, "rev-list")
        },
        _ => match branch {
            Some(branch) => {
                let upstream_ref = concat(branch, "@{u}");
                let tip = concat("refs/heads/", branch);
                count_range(
                    run,
                    repo,
                    upstream_ref.as_str(),
                    tip.as_str(),
                    "unpushed count via @{u}",
                )
            },
            None => Evidence::Unknown("no branch for an upstream".to_owned()),
        },
    }
}

// ---------------------------------------------------------------------------
// What a landing promises
// ---------------------------------------------------------------------------

/// A landing is proven, never guessed: by ancestry where Git says so, and by
/// content only where the histories are related, something changed since they
/// parted, and all of it is identical on the base.
pub proof fn law_landing_is_proven<G: Fn(&Vec<String>, &Vec<String>) -> Reply>(
    run: G,
    repo: Repo,
    head: Seq<char>,
    base: EvidenceView<BaseView>,
    r: EvidenceView<Landed>,
)
    requires
        finds_landed(run, repo, head, base, r),
    ensures
        r is Known ==> base is Known,
        r == EvidenceView::Known(Landed::AncestorMerged) ==> repo.has_ancestry(
            run,
            head,
            base->Known_0.local_ref,
            EvidenceView::Known(true),
        ),
        r == EvidenceView::Known(Landed::ContentMerged) ==> landed_in_content(
            run,
            repo,
            head,
            base->Known_0.local_ref,
        ),
{
    if r == EvidenceView::Known(Landed::ContentMerged) {
        let local_ref = base->Known_0.local_ref;
        let merge_base = choose|merge_base: Result<Option<Seq<char>>, ErrorView>|
            #[trigger] repo.has_merge_base(run, head, local_ref, merge_base) && match merge_base {
                Ok(Some(sha)) => finds_delta(run, repo, head, local_ref, sha, r),
                Ok(None) => r == EvidenceView::Known(Landed::No),
                Err(e) => r == EvidenceView::<Landed>::Unknown("merge-base: "@ + e.text()),
            };
        let sha = merge_base->Ok_0->0;
        let paths = choose|paths: Result<Seq<Seq<char>>, ErrorView>|
            #[trigger] repo.has_changes(run, sha, head, paths) && match paths {
                Ok(paths) => finds_content(run, repo, head, local_ref, paths, r),
                Err(e) => r == EvidenceView::<Landed>::Unknown("diff --name-only: "@ + e.text()),
            };
        assert(changed_alike(run, repo, head, local_ref, sha, paths->Ok_0));
    }
}

/// What `head` changed since `sha` may be found to be `paths`, all of them
/// identical on the base.
pub open spec fn changed_alike<G: Fn(&Vec<String>, &Vec<String>) -> Reply>(
    run: G,
    repo: Repo,
    head: Seq<char>,
    local_ref: Seq<char>,
    sha: Seq<char>,
    paths: Seq<Seq<char>>,
) -> bool {
    &&& repo.has_merge_base(run, head, local_ref, Ok(Some(sha)))
    &&& repo.has_changes(run, sha, head, Ok(paths))
    &&& paths.len() > 0
    &&& repo.has_match(run, head, local_ref, paths, EvidenceView::Known(true))
}

/// `head` may be found to have landed by content.
pub open spec fn landed_in_content<G: Fn(&Vec<String>, &Vec<String>) -> Reply>(
    run: G,
    repo: Repo,
    head: Seq<char>,
    local_ref: Seq<char>,
) -> bool {
    exists|sha: Seq<char>, paths: Seq<Seq<char>>|
        #[trigger] changed_alike(run, repo, head, local_ref, sha, paths)
}

/// One of the paths differs.
pub open spec fn one_differs(paths: Seq<Seq<char>>, differs: spec_fn(Seq<char>) -> bool) -> bool {
    exists|i: int| 0 <= i < paths.len() && differs(#[trigger] paths[i])
}

/// What `head` changed and the base does not have is told path by path:
/// whenever some of `paths` are compared, Git says that they differ when one
/// of them does, and that they are identical otherwise.
pub open spec fn compares_by_path<G: Fn(&Vec<String>, &Vec<String>) -> Reply>(
    run: G,
    repo: Repo,
    head: Seq<char>,
    local_ref: Seq<char>,
    paths: Seq<Seq<char>>,
    differs: spec_fn(Seq<char>) -> bool,
) -> bool {
    let global = repo_globals(repo.deep_view());
    let asked = seq!["diff"@, "--quiet"@, head, local_ref, "--"@];
    forall|some: Seq<Seq<char>>|
        some.len() > 0 && (forall|i: int|
            0 <= i < some.len() ==> paths.contains(#[trigger] some[i])) ==> if #[trigger]
        one_differs(some, differs) {
            always_exits(run, global, asked + some, 1)
        } else {
            always_exits(run, global, asked + some, 0)
        }
}

/// Ancestry decides first: where Git says that `head` is an ancestor of the
/// base it has landed, and where Git cannot say, nothing is known.
pub proof fn law_an_ancestor_has_landed<G: Fn(&Vec<String>, &Vec<String>) -> Reply>(
    run: G,
    repo: Repo,
    head: Seq<char>,
    base: BaseView,
    r: EvidenceView<Landed>,
)
    requires
        finds_landed(run, repo, head, EvidenceView::Known(base), r),
    ensures
        ({
            let asked = seq!["merge-base"@, "--is-ancestor"@, head, base.local_ref];
            let global = repo_globals(repo.deep_view());
            &&& always_exits(run, global, asked, 0) ==> r == EvidenceView::Known(
                Landed::AncestorMerged,
            )
            &&& always_exits(run, global, asked, 1) ==> r != EvidenceView::Known(
                Landed::AncestorMerged,
            )
            &&& never_answers(run, global, asked) ==> r is Unknown
        }),
{
    let asked = seq!["merge-base"@, "--is-ancestor"@, head, base.local_ref];
    lemma_answer(run, repo, asked);
    lemma_squashed_is_no_ancestor(run, repo, head, base.local_ref, r);
}

/// Nothing that a read in the repository may say is anything but what Git
/// answered.
proof fn lemma_answer<G: Fn(&Vec<String>, &Vec<String>) -> Reply>(
    run: G,
    repo: Repo,
    asked: Seq<Seq<char>>,
)
    requires
        read_only(asked),
    ensures
        ({
            let global = repo_globals(repo.deep_view());
            forall|said: Result<Seq<char>, ErrorView>| #[trigger]
                repo.reads(run, asked, said) ==> {
                    &&& always_exits(run, global, asked, 0) ==> said is Ok
                    &&& forall|code: int|
                        code != 0 && #[trigger] always_exits(run, global, asked, code) ==> said
                            is Err && said->Err_0.code is Some && said->Err_0.code->0 == code
                    &&& never_answers(run, global, asked) ==> said is Err && said->Err_0.code
                        != Some(1i32)
                    &&& forall|text: Seq<char>| #[trigger]
                        always_prints(run, global, asked, text) ==> said == Ok::<
                            Seq<char>,
                            ErrorView,
                        >(text)
                }
        }),
{
    let global = repo_globals(repo.deep_view());
    assert forall|said: Result<Seq<char>, ErrorView>| #[trigger]
        repo.reads(run, asked, said) implies {
        &&& always_exits(run, global, asked, 0) ==> said is Ok
        &&& forall|code: int|
            code != 0 && #[trigger] always_exits(run, global, asked, code) ==> said is Err
                && said->Err_0.code is Some && said->Err_0.code->0 == code
        &&& never_answers(run, global, asked) ==> said is Err && said->Err_0.code != Some(1i32)
        &&& forall|text: Seq<char>| #[trigger]
            always_prints(run, global, asked, text) ==> said == Ok::<Seq<char>, ErrorView>(text)
    } by {
        law_a_read_says_what_git_printed(run, global, asked, said, seq![], 0);
        assert forall|code: int|
            code != 0 && #[trigger] always_exits(run, global, asked, code) implies said is Err
            && said->Err_0.code is Some && said->Err_0.code->0 == code by {
            law_a_read_says_what_git_printed(run, global, asked, said, seq![], code);
        }
        assert forall|text: Seq<char>| #[trigger]
            always_prints(run, global, asked, text) implies said == Ok::<Seq<char>, ErrorView>(
            text,
        ) by {
            law_a_read_says_what_git_printed(run, global, asked, said, text, 0);
        }
    }
}

proof fn lemma_squashed_is_no_ancestor<G: Fn(&Vec<String>, &Vec<String>) -> Reply>(
    run: G,
    repo: Repo,
    head: Seq<char>,
    local_ref: Seq<char>,
    r: EvidenceView<Landed>,
)
    ensures
        finds_squashed(run, repo, head, local_ref, r) ==> r != EvidenceView::Known(
            Landed::AncestorMerged,
        ),
{
}

/// A branch that Git says is no ancestor landed by content exactly when every
/// path it changed since it left the base is identical there, however many
/// they are; one path that differs is enough for not landed.
pub proof fn law_identical_content_has_landed<G: Fn(&Vec<String>, &Vec<String>) -> Reply>(
    run: G,
    repo: Repo,
    head: Seq<char>,
    base: BaseView,
    sha: Seq<char>,
    paths: Seq<Seq<char>>,
    differs: spec_fn(Seq<char>) -> bool,
    r: EvidenceView<Landed>,
)
    requires
        finds_landed(run, repo, head, EvidenceView::Known(base), r),
        always_exits(
            run,
            repo_globals(repo.deep_view()),
            seq!["merge-base"@, "--is-ancestor"@, head, base.local_ref],
            1,
        ),
        is_word(sha),
        always_prints(
            run,
            repo_globals(repo.deep_view()),
            seq!["merge-base"@, head, base.local_ref],
            sha.push('\n'),
        ),
        paths.len() > 0,
        forall|i: int|
            0 <= i < paths.len() ==> (#[trigger] paths[i]).len() > 0 && !paths[i].contains('\0'),
        always_prints(
            run,
            repo_globals(repo.deep_view()),
            seq!["diff"@, "--name-only"@, "-z"@, sha, head],
            terminated(paths, '\0'),
        ),
        compares_by_path(run, repo, head, base.local_ref, paths, differs),
    ensures
        (forall|i: int| 0 <= i < paths.len() ==> !differs(#[trigger] paths[i])) ==> r
            == EvidenceView::Known(Landed::ContentMerged),
        (exists|i: int| 0 <= i < paths.len() && differs(#[trigger] paths[i])) ==> r
            == EvidenceView::Known(Landed::No),
{
    let local_ref = base.local_ref;
    let ancestor = seq!["merge-base"@, "--is-ancestor"@, head, local_ref];
    let parted = seq!["merge-base"@, head, local_ref];
    let changed = seq!["diff"@, "--name-only"@, "-z"@, sha, head];
    lemma_answer(run, repo, ancestor);
    lemma_answer(run, repo, parted);
    lemma_answer(run, repo, changed);
    lemma_trimmed_line(sha);
    lemma_terminated(paths, '\0');
    lemma_filled_keeps(paths);
    let all = pieces(terminated(paths, '\0'), '\0');
    assert(all.drop_last() =~= paths);
    assert(filled(all) == paths);
    assert(finds_squashed(run, repo, head, local_ref, r));
    assert(finds_delta(run, repo, head, local_ref, sha, r));
    assert(finds_content(run, repo, head, local_ref, paths, r));
    let same = choose|same: EvidenceView<bool>|
        #[trigger] repo.has_match(run, head, local_ref, paths, same) && r == landed_by_content(
            same,
        );
    lemma_match_by_path(run, repo, head, local_ref, paths, differs, paths, same);
}

proof fn lemma_filled_keeps(paths: Seq<Seq<char>>)
    requires
        forall|i: int| 0 <= i < paths.len() ==> (#[trigger] paths[i]).len() > 0,
    ensures
        filled(paths) == paths,
    decreases paths.len(),
{
    if paths.len() > 0 {
        lemma_filled_keeps(paths.drop_last());
        assert(paths.drop_last().push(paths.last()) =~= paths);
    } else {
        assert(paths =~= seq![]);
    }
}

proof fn lemma_match_by_path<G: Fn(&Vec<String>, &Vec<String>) -> Reply>(
    run: G,
    repo: Repo,
    head: Seq<char>,
    local_ref: Seq<char>,
    all: Seq<Seq<char>>,
    differs: spec_fn(Seq<char>) -> bool,
    paths: Seq<Seq<char>>,
    same: EvidenceView<bool>,
)
    requires
        compares_by_path(run, repo, head, local_ref, all, differs),
        forall|i: int| 0 <= i < paths.len() ==> all.contains(#[trigger] paths[i]),
        repo.has_match(run, head, local_ref, paths, same),
    ensures
        same == EvidenceView::Known(
            !exists|i: int| 0 <= i < paths.len() && differs(#[trigger] paths[i]),
        ),
    decreases paths.len(),
{
    if paths.len() > 0 {
        let n = batch(paths.len()) as int;
        let some = paths.take(n);
        let rest = paths.skip(n);
        let asked = seq!["diff"@, "--quiet"@, head, local_ref, "--"@] + some;
        assert(asked == match_argv(head, local_ref, some));
        lemma_answer(run, repo, asked);
        assert forall|i: int| 0 <= i < some.len() implies all.contains(#[trigger] some[i]) by {
            assert(all.contains(paths[i]));
        }
        let said = choose|said: Result<Seq<char>, ErrorView>|
            #[trigger] repo.reads(run, match_argv(head, local_ref, some), said) && if said is Ok {
                repo.has_match(run, head, local_ref, rest, same)
            } else {
                same == yes_or_no(said, "diff --quiet"@)
            };
        let hit = one_differs(some, differs);
        assert(always_exits(run, repo_globals(repo.deep_view()), asked, 0) || hit);
        if hit {
            let i = choose|i: int| 0 <= i < some.len() && differs(#[trigger] some[i]);
            assert(differs(paths[i]));
        } else {
            assert forall|i: int| 0 <= i < rest.len() implies all.contains(#[trigger] rest[i]) by {
                assert(all.contains(paths[i + n]));
            }
            lemma_match_by_path(run, repo, head, local_ref, all, differs, rest, same);
            if exists|i: int| 0 <= i < paths.len() && differs(#[trigger] paths[i]) {
                let i = choose|i: int| 0 <= i < paths.len() && differs(#[trigger] paths[i]);
                if i < n {
                    assert(differs(some[i]));
                } else {
                    assert(differs(rest[i - n]));
                }
            }
            if exists|i: int| 0 <= i < rest.len() && differs(#[trigger] rest[i]) {
                let i = choose|i: int| 0 <= i < rest.len() && differs(#[trigger] rest[i]);
                assert(differs(paths[i + n]));
            }
        }
    }
}

/// A branch that Git says is no ancestor has not landed where the histories
/// are unrelated or nothing changed since they parted, and where Git cannot
/// say, nothing is known.
pub proof fn law_unrelated_or_unchanged_has_not_landed<
    G: Fn(&Vec<String>, &Vec<String>) -> Reply,
>(
    run: G,
    repo: Repo,
    head: Seq<char>,
    base: BaseView,
    sha: Seq<char>,
    failure: int,
    r: EvidenceView<Landed>,
)
    requires
        finds_landed(run, repo, head, EvidenceView::Known(base), r),
        always_exits(
            run,
            repo_globals(repo.deep_view()),
            seq!["merge-base"@, "--is-ancestor"@, head, base.local_ref],
            1,
        ),
        is_word(sha),
    ensures
        ({
            let global = repo_globals(repo.deep_view());
            let parted = seq!["merge-base"@, head, base.local_ref];
            let changed = seq!["diff"@, "--name-only"@, "-z"@, sha, head];
            &&& always_exits(run, global, parted, 1) ==> r == EvidenceView::Known(Landed::No)
            &&& never_answers(run, global, parted) ==> r is Unknown
            &&& always_prints(run, global, parted, sha.push('\n')) ==> {
                &&& always_prints(run, global, changed, seq![]) ==> r == EvidenceView::Known(
                    Landed::No,
                )
                &&& never_answers(run, global, changed) ==> r is Unknown
                &&& failure != 0 && always_exits(run, global, changed, failure) ==> r is Unknown
            }
        }),
{
    let global = repo_globals(repo.deep_view());
    let local_ref = base.local_ref;
    let ancestor = seq!["merge-base"@, "--is-ancestor"@, head, local_ref];
    let parted = seq!["merge-base"@, head, local_ref];
    let changed = seq!["diff"@, "--name-only"@, "-z"@, sha, head];
    lemma_answer(run, repo, ancestor);
    lemma_answer(run, repo, parted);
    lemma_answer(run, repo, changed);
    lemma_trimmed_line(sha);
    let none = Seq::<char>::empty();
    assert(pieces(none, '\0') =~= seq![none]);
    assert(seq![none].drop_last() =~= seq![]);
    assert(filled(seq![none]) =~= seq![]) by {
        reveal_with_fuel(filled, 2);
    }
    assert(finds_squashed(run, repo, head, local_ref, r));
    if always_prints(run, global, parted, sha.push('\n')) {
        assert(finds_delta(run, repo, head, local_ref, sha, r));
    }
}

/// Commits past the base are what Git counts from the base to `head`, and
/// unknown where Git does not count.
pub proof fn law_commits_ahead_are_counted_from_the_base<
    G: Fn(&Vec<String>, &Vec<String>) -> Reply,
>(
    run: G,
    repo: Repo,
    head: Seq<char>,
    base: BaseView,
    n: u64,
    junk: Seq<char>,
    code: int,
    r: EvidenceView<u64>,
)
    requires
        finds_ahead(run, repo, head, EvidenceView::Known(base), r),
        junk.len() == 0 || (is_word(junk) && !is_digit(junk[0]) && junk[0] != '+'),
    ensures
        ({
            let asked = seq!["rev-list"@, "--count"@, base.local_ref + ".."@ + head];
            let global = repo_globals(repo.deep_view());
            &&& always_prints(run, global, asked, decimal(n as nat).push('\n')) ==> r
                == EvidenceView::Known(n)
            &&& always_prints(run, global, asked, junk) ==> r is Unknown
            &&& code != 0 && always_exits(run, global, asked, code) ==> r is Unknown
            &&& never_answers(run, global, asked) ==> r is Unknown
        }),
{
    lemma_answer(run, repo, seq!["rev-list"@, "--count"@, base.local_ref + ".."@ + head]);
    lemma_count_line(n);
    lemma_no_count(junk);
}

/// What is unpushed is counted against the upstream that the branch is
/// configured with, whether or not the remote still has it; for a branch
/// without one it is everything past the base, and for a detached HEAD
/// everything that no ref reaches. Where Git does not count, it is unknown.
pub proof fn law_unpushed_is_counted_against_the_upstream<
    G: Fn(&Vec<String>, &Vec<String>) -> Reply,
>(
    run: G,
    repo: Repo,
    head: Seq<char>,
    branch: Seq<char>,
    upstream: UpstreamView,
    ahead: EvidenceView<u64>,
    n: u64,
    junk: Seq<char>,
    code: int,
    r: EvidenceView<u64>,
)
    requires
        junk.len() == 0 || (is_word(junk) && !is_digit(junk[0]) && junk[0] != '+'),
        upstream is NotApplicable ==> finds_unpushed(run, repo, head, None, upstream, ahead, r),
        upstream !is NotApplicable ==> finds_unpushed(
            run,
            repo,
            head,
            Some(branch),
            upstream,
            ahead,
            r,
        ),
    ensures
        ({
            let global = repo_globals(repo.deep_view());
            let asked = if upstream is NotApplicable {
                seq!["rev-list"@, "--count"@, head, "--not"@, "--glob=refs/*"@]
            } else {
                seq!["rev-list"@, "--count"@, branch + "@{u}"@ + ".."@ + ("refs/heads/"@ + branch)]
            };
            if upstream is NeverPushed {
                r == ahead
            } else {
                &&& always_prints(run, global, asked, decimal(n as nat).push('\n')) ==> r
                    == EvidenceView::Known(n)
                &&& always_prints(run, global, asked, junk) ==> r is Unknown
                &&& code != 0 && always_exits(run, global, asked, code) ==> r is Unknown
                &&& never_answers(run, global, asked) ==> r is Unknown
            }
        }),
{
    lemma_answer(run, repo, seq!["rev-list"@, "--count"@, head, "--not"@, "--glob=refs/*"@]);
    lemma_answer(
        run,
        repo,
        seq!["rev-list"@, "--count"@, branch + "@{u}"@ + ".."@ + ("refs/heads/"@ + branch)],
    );
    lemma_count_line(n);
    lemma_no_count(junk);
}

proof fn lemma_no_count(junk: Seq<char>)
    requires
        junk.len() == 0 || (is_word(junk) && !is_digit(junk[0]) && junk[0] != '+'),
    ensures
        unsigned(trimmed(junk), u64::MAX as nat) is None,
{
    if junk.len() == 0 {
        assert(trimmed(junk) =~= junk);
    } else {
        lemma_trimmed_line(junk);
    }
}

proof fn lemma_count_line(n: u64)
    ensures
        unsigned(trimmed(decimal(n as nat).push('\n')), u64::MAX as nat) == Some(n as nat),
{
    lemma_number_reads_back(n as nat, u64::MAX as nat);
    assert(is_word(decimal(n as nat)));
    lemma_trimmed_line(decimal(n as nat));
}

/// Without a proven base neither the commits past it nor a landing on it are
/// known, and both say why there is none.
pub proof fn law_nothing_is_compared_without_a_base<G: Fn(&Vec<String>, &Vec<String>) -> Reply>(
    run: G,
    repo: Repo,
    head: Seq<char>,
    why: Seq<char>,
    ahead: EvidenceView<u64>,
    r: EvidenceView<Landed>,
)
    requires
        finds_ahead(run, repo, head, EvidenceView::Unknown(why), ahead),
        finds_landed(run, repo, head, EvidenceView::Unknown(why), r),
    ensures
        ahead == EvidenceView::<u64>::Unknown("no proven base ("@ + why + ")"@),
        r == EvidenceView::<Landed>::Unknown("no proven base ("@ + why + ")"@),
{
}

/// What `head` changed since `sha` may be found to be `paths`, and those to be
/// none or not all alike on the base.
pub open spec fn changed_otherwise<G: Fn(&Vec<String>, &Vec<String>) -> Reply>(
    run: G,
    repo: Repo,
    head: Seq<char>,
    local_ref: Seq<char>,
    sha: Seq<char>,
    paths: Seq<Seq<char>>,
) -> bool {
    &&& repo.has_merge_base(run, head, local_ref, Ok(Some(sha)))
    &&& repo.has_changes(run, sha, head, Ok(paths))
    &&& paths.len() == 0 || repo.has_match(run, head, local_ref, paths, EvidenceView::Known(false))
}

/// That a branch has not landed is proven too: Git says that it is no ancestor,
/// and that the histories are unrelated, that nothing changed since they
/// parted, or that some of it differs on the base.
pub proof fn law_not_landed_is_proven<G: Fn(&Vec<String>, &Vec<String>) -> Reply>(
    run: G,
    repo: Repo,
    head: Seq<char>,
    base: BaseView,
    r: EvidenceView<Landed>,
)
    requires
        finds_landed(run, repo, head, EvidenceView::Known(base), r),
        r == EvidenceView::Known(Landed::No),
    ensures
        repo.has_ancestry(run, head, base.local_ref, EvidenceView::Known(false)),
        repo.has_merge_base(run, head, base.local_ref, Ok(None)) || exists|
            sha: Seq<char>,
            paths: Seq<Seq<char>>,
        | #[trigger] changed_otherwise(run, repo, head, base.local_ref, sha, paths),
{
    let local_ref = base.local_ref;
    let merge_base = choose|merge_base: Result<Option<Seq<char>>, ErrorView>|
        #[trigger] repo.has_merge_base(run, head, local_ref, merge_base) && match merge_base {
            Ok(Some(sha)) => finds_delta(run, repo, head, local_ref, sha, r),
            Ok(None) => r == EvidenceView::Known(Landed::No),
            Err(e) => r == EvidenceView::<Landed>::Unknown("merge-base: "@ + e.text()),
        };
    if merge_base->Ok_0 is Some {
        let sha = merge_base->Ok_0->0;
        let paths = choose|paths: Result<Seq<Seq<char>>, ErrorView>|
            #[trigger] repo.has_changes(run, sha, head, paths) && match paths {
                Ok(paths) => finds_content(run, repo, head, local_ref, paths, r),
                Err(e) => r == EvidenceView::<Landed>::Unknown("diff --name-only: "@ + e.text()),
            };
        assert(changed_otherwise(run, repo, head, local_ref, sha, paths->Ok_0));
    }
}

/// A comparison that Git cannot make leaves the landing unknown: it is neither
/// a match nor a difference.
pub proof fn law_a_failed_comparison_proves_nothing<G: Fn(&Vec<String>, &Vec<String>) -> Reply>(
    run: G,
    repo: Repo,
    head: Seq<char>,
    local_ref: Seq<char>,
    paths: Seq<Seq<char>>,
    r: EvidenceView<Landed>,
)
    requires
        finds_content(run, repo, head, local_ref, paths, r),
        paths.len() > 0,
        forall|asked: Seq<Seq<char>>|
            asked.len() > 5 && asked.take(5) == seq![
                "diff"@,
                "--quiet"@,
                head,
                local_ref,
                "--"@,
            ] ==> #[trigger] never_answers(run, repo_globals(repo.deep_view()), asked),
    ensures
        r is Unknown,
{
    let n = batch(paths.len()) as int;
    let some = paths.take(n);
    let asked = seq!["diff"@, "--quiet"@, head, local_ref, "--"@] + some;
    lemma_answer(run, repo, asked);
    assert(asked.take(5) =~= seq!["diff"@, "--quiet"@, head, local_ref, "--"@]);
    assert(never_answers(run, repo_globals(repo.deep_view()), asked));
    let same = choose|same: EvidenceView<bool>|
        #[trigger] repo.has_match(run, head, local_ref, paths, same) && r == landed_by_content(
            same,
        );
    let said = choose|said: Result<Seq<char>, ErrorView>|
        #[trigger] repo.reads(run, match_argv(head, local_ref, some), said) && if said is Ok {
            repo.has_match(run, head, local_ref, paths.skip(n), same)
        } else {
            same == yes_or_no(said, "diff --quiet"@)
        };
    assert(said is Err);
}

}
