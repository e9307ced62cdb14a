//! What a path resolves to: a checkout, a repository, or a project space.

use vstd::prelude::*;
use vstd::string::*;

use crate::command::{accepts_any, answers, Reply};
use crate::git::{
    accepts_reads, always_complains, always_exits, always_prints, dir_globals, exited_one, in_dir,
    io_error, lemma_says, never_answers, outcome, says, Error, ErrorView, Head, HeadView, Repo,
};
use crate::git::argv::{
    common_dir_argv, head_name_argv, head_sha_argv, law_every_invocation_is_read_only,
    toplevel_argv, verify_argv,
};
use crate::git::worktree::{admin_id, has_admin_id};
use crate::path::{law_paths_settle_where_they_lead, settle, settles};
use crate::text::{contains, is_word, lemma_trimmed_line, occurs, trim, trimmed};

verus! {

// ---------------------------------------------------------------------------
// Path resolution
// ---------------------------------------------------------------------------

/// The resolved meaning of an input path.
#[derive(Debug, PartialEq)]
pub enum Resolved {
    /// A path inside a worktree: repo, checkout root and current HEAD.
    Checkout(Checkout),
    /// A repository path that is not a worktree (a `.git` dir, a bare repo).
    RepoOnly(Repo),
    /// No repository claims the path: it is a project space.
    ProjectSpace(String),
}

/// A worktree an input path resolves into.
#[derive(Debug, PartialEq)]
pub struct Checkout {
    pub repo: Repo,
    /// Canonical worktree root.
    pub root: String,
    pub admin_id: Option<String>,
    pub head: Head,
}

/// The value of a [`Resolved`], with its text as characters.
pub enum ResolvedView {
    Checkout { repo: Seq<char>, root: Seq<char>, admin_id: Option<Seq<char>>, head: HeadView },
    RepoOnly(Seq<char>),
    ProjectSpace(Seq<char>),
}

impl DeepView for Resolved {
    type V = ResolvedView;

    open spec fn deep_view(&self) -> ResolvedView {
        match *self {
            Resolved::Checkout(checkout) => ResolvedView::Checkout {
                repo: checkout.repo.deep_view(),
                root: checkout.root@,
                admin_id: checkout.admin_id.deep_view(),
                head: checkout.head.deep_view(),
            },
            Resolved::RepoOnly(repo) => ResolvedView::RepoOnly(repo.deep_view()),
            Resolved::ProjectSpace(path) => ResolvedView::ProjectSpace(path@),
        }
    }
}

/// `r` is what may be found to be the canonical form of `path`.
pub open spec fn has_canonical<C: Fn(&String) -> Result<String, String>>(
    canonicalize: C,
    path: Seq<char>,
    r: Result<Seq<char>, ErrorView>,
) -> bool {
    exists|canonical: Result<String, String>|
        #[trigger] answers(canonicalize, path, canonical) && r == match canonical {
            Ok(real_path) => Ok(real_path@),
            Err(e) => Err(io_error("canonicalize"@, path, e@)),
        }
}

fn canonical<C: Fn(&String) -> Result<String, String>>(canonicalize: &C, path: &str) -> (r: Result<
    String,
    Error,
>)
    requires
        accepts_any(*canonicalize),
    ensures
        has_canonical(*canonicalize, path@, outcome(r)),
{
    let owned = path.to_owned();
    let found = canonicalize(&owned);
    assert(answers(*canonicalize, path@, found));
    match found {
        Ok(real_path) => Ok(real_path),
        Err(e) => Err(Error::io("canonicalize", path, e.as_str())),
    }
}

/// `r` is the repository that may be found at the common directory Git named.
pub open spec fn names_repo<C: Fn(&String) -> Result<String, String>>(
    canonicalize: C,
    named: Seq<char>,
    r: Result<Option<Seq<char>>, ErrorView>,
) -> bool {
    exists|common: Result<Seq<char>, ErrorView>|
        #[trigger] has_canonical(canonicalize, trimmed(named), common) && r == match common {
            Ok(common) => Ok(Some(common)),
            Err(e) => Err(e),
        }
}

/// `r` is the repository that may be found to claim the canonical path `dir`:
/// Git names its common directory, or says that there is none.
pub open spec fn claims<
    G: Fn(&Vec<String>, &Vec<String>) -> Reply,
    C: Fn(&String) -> Result<String, String>,
>(run: G, canonicalize: C, dir: Seq<char>, r: Result<Option<Seq<char>>, ErrorView>) -> bool {
    exists|said: Result<Seq<char>, ErrorView>|
        #[trigger] says(run, dir_globals(dir), common_dir_argv(), said) && match said {
            Ok(named) => names_repo(canonicalize, named, r),
            Err(e) => if occurs(e.detail, "not a git repository"@) {
                r == Ok::<Option<Seq<char>>, ErrorView>(None)
            } else {
                r == Err::<Option<Seq<char>>, ErrorView>(e)
            },
        }
}

/// `r` is the repository that may be found to claim `path`.
pub open spec fn discovers<
    G: Fn(&Vec<String>, &Vec<String>) -> Reply,
    C: Fn(&String) -> Result<String, String>,
>(run: G, canonicalize: C, path: Seq<char>, r: Result<Option<Seq<char>>, ErrorView>) -> bool {
    exists|dir: Result<Seq<char>, ErrorView>|
        #[trigger] has_canonical(canonicalize, path, dir) && match dir {
            Ok(dir) => claims(run, canonicalize, dir, r),
            Err(e) => r == Err::<Option<Seq<char>>, ErrorView>(e),
        }
}

impl Repo {
    /// The repository claiming `path`, or `None` for a non-Git path. `path`
    /// must exist.
    pub fn discover<
        G: Fn(&Vec<String>, &Vec<String>) -> Reply,
        C: Fn(&String) -> Result<String, String>,
    >(run: &G, canonicalize: &C, path: &str) -> (r: Result<Option<Repo>, Error>)
        requires
            accepts_reads(*run),
            accepts_any(*canonicalize),
        ensures
            discovers(*run, *canonicalize, path@, outcome(r)),
    {
        let dir = canonical(canonicalize, path);
        let ghost found = outcome(dir);
        assert(has_canonical(*canonicalize, path@, found));
        let dir = match dir {
            Ok(dir) => dir,
            Err(e) => return Err(e),
        };
        let args: &[&str] = &["rev-parse", "--path-format=absolute", "--git-common-dir"];
        assert(args.deep_view() =~= common_dir_argv());
        let said = in_dir(run, dir.as_str(), args);
        assert(says(*run, dir_globals(dir@), common_dir_argv(), outcome(said)));
        let r = match said {
            Ok(text) => {
                let named = trim(text.as_str());
                let common = canonical(canonicalize, named.as_str());
                let ghost found = outcome(common);
                assert(has_canonical(*canonicalize, trimmed(text@), found));
                let r: Result<Option<Repo>, Error> = match common {
                    Ok(common_dir) => Ok(Some(Repo { common_dir })),
                    Err(e) => Err(e),
                };
                assert(outcome(r) == match found {
                    Ok(common) => Ok(Some(common)),
                    Err(e) => Err(e),
                });
                assert(names_repo(*canonicalize, text@, outcome(r)));
                r
            },
            Err(e) => {
                if contains(e.detail.as_str(), "not a git repository") {
                    Ok(None)
                } else {
                    Err(e)
                }
            },
        };
        assert(claims(*run, *canonicalize, dir@, outcome(r)));
        r
    }
}

/// `r` is what the HEAD of the worktree containing `dir` may be read as.
pub open spec fn has_head<G: Fn(&Vec<String>, &Vec<String>) -> Reply>(
    run: G,
    dir: Seq<char>,
    r: Result<HeadView, ErrorView>,
) -> bool {
    exists|said: Result<Seq<char>, ErrorView>|
        #[trigger] says(run, dir_globals(dir), head_name_argv(), said) && match said {
            Ok(name) => exists|commit: Result<Seq<char>, ErrorView>|
                #[trigger] says(run, dir_globals(dir), verify_argv("HEAD"@), commit) && r
                    == Ok::<HeadView, ErrorView>(
                    if commit matches Ok(sha) && trimmed(sha).len() > 0 {
                        HeadView::Branch(trimmed(name))
                    } else {
                        HeadView::Unborn(trimmed(name))
                    },
                ),
            Err(e) => if e.code == Some(1i32) {
                exists|commit: Result<Seq<char>, ErrorView>|
                    #[trigger] says(run, dir_globals(dir), head_sha_argv(), commit) && r
                        == match commit {
                        Ok(sha) => Ok(HeadView::Detached(trimmed(sha))),
                        Err(e) => Err(e),
                    }
            } else {
                r == Err::<HeadView, ErrorView>(e)
            },
        }
}

/// The HEAD of the worktree containing `dir`: symbolic branch, detached sha,
/// or the unborn target of a symbolic ref no commit exists on yet.
fn head_at<G: Fn(&Vec<String>, &Vec<String>) -> Reply>(run: &G, dir: &str) -> (r: Result<
    Head,
    Error,
>)
    requires
        accepts_reads(*run),
    ensures
        has_head(*run, dir@, outcome(r)),
{
    let args: &[&str] = &["symbolic-ref", "-q", "--short", "HEAD"];
    assert(args.deep_view() =~= head_name_argv());
    let said = in_dir(run, dir, args);
    assert(says(*run, dir_globals(dir@), head_name_argv(), outcome(said)));
    match said {
        Ok(name) => {
            let args: &[&str] = &["rev-parse", "--verify", "-q", "HEAD"];
            assert(args.deep_view() =~= verify_argv("HEAD"@));
            let commit = in_dir(run, dir, args);
            assert(says(*run, dir_globals(dir@), verify_argv("HEAD"@), outcome(commit)));
            let exists_yet = match &commit {
                Ok(sha) => !trim(sha.as_str()).as_str().is_empty(),
                Err(_) => false,
            };
            if exists_yet {
                Ok(Head::Branch(trim(name.as_str())))
            } else {
                Ok(Head::Unborn(trim(name.as_str())))
            }
        },
        Err(e) => {
            if exited_one(&e) {
                let args: &[&str] = &["rev-parse", "HEAD"];
                assert(args.deep_view() =~= head_sha_argv());
                let commit = in_dir(run, dir, args);
                assert(says(*run, dir_globals(dir@), head_sha_argv(), outcome(commit)));
                match commit {
                    Ok(sha) => Ok(Head::Detached(trim(sha.as_str()))),
                    Err(e) => Err(e),
                }
            } else {
                Err(e)
            }
        },
    }
}

/// `r` is what the worktree at `top`, around the canonical path `dir`, may be
/// found to be.
pub open spec fn finds_checkout<
    G: Fn(&Vec<String>, &Vec<String>) -> Reply,
    C: Fn(&String) -> Result<String, String>,
    R: Fn(&String) -> Option<String>,
>(
    run: G,
    canonicalize: C,
    read: R,
    common_dir: Seq<char>,
    dir: Seq<char>,
    top: Seq<char>,
    r: Result<ResolvedView, ErrorView>,
) -> bool {
    exists|root: Seq<char>, head: Result<HeadView, ErrorView>, admin_id: Option<Seq<char>>|
        {
            &&& #[trigger] settles(canonicalize, top, root)
            &&& #[trigger] has_head(run, dir, head)
            &&& #[trigger] has_admin_id(canonicalize, read, root, common_dir, admin_id)
            &&& r == match head {
                Ok(head) => Ok(ResolvedView::Checkout { repo: common_dir, root, admin_id, head }),
                Err(e) => Err(e),
            }
        }
}

/// `r` is what the canonical path `dir`, claimed by the repository at
/// `common_dir`, may be found to be: inside `.git` or a bare repository there
/// is a repo and no checkout.
pub open spec fn checks_out<
    G: Fn(&Vec<String>, &Vec<String>) -> Reply,
    C: Fn(&String) -> Result<String, String>,
    R: Fn(&String) -> Option<String>,
>(
    run: G,
    canonicalize: C,
    read: R,
    common_dir: Seq<char>,
    dir: Seq<char>,
    r: Result<ResolvedView, ErrorView>,
) -> bool {
    exists|top: Result<Seq<char>, ErrorView>|
        #[trigger] says(run, dir_globals(dir), toplevel_argv(), top) && match top {
            Err(_) => r == Ok::<ResolvedView, ErrorView>(ResolvedView::RepoOnly(common_dir)),
            Ok(top) => finds_checkout(run, canonicalize, read, common_dir, dir, trimmed(top), r),
        }
}

/// `r` is what a path, whose claim is known, may be found to be.
pub open spec fn places<
    G: Fn(&Vec<String>, &Vec<String>) -> Reply,
    C: Fn(&String) -> Result<String, String>,
    R: Fn(&String) -> Option<String>,
>(
    run: G,
    canonicalize: C,
    read: R,
    path: Seq<char>,
    claim: Option<Seq<char>>,
    r: Result<ResolvedView, ErrorView>,
) -> bool {
    exists|dir: Result<Seq<char>, ErrorView>|
        #[trigger] has_canonical(canonicalize, path, dir) && match dir {
            Err(e) => r == Err::<ResolvedView, ErrorView>(e),
            Ok(dir) => match claim {
                None => r == Ok::<ResolvedView, ErrorView>(ResolvedView::ProjectSpace(dir)),
                Some(common_dir) => checks_out(run, canonicalize, read, common_dir, dir, r),
            },
        }
}

/// `r` is what `path` may be found to be.
pub open spec fn resolves<
    G: Fn(&Vec<String>, &Vec<String>) -> Reply,
    C: Fn(&String) -> Result<String, String>,
    R: Fn(&String) -> Option<String>,
>(
    run: G,
    canonicalize: C,
    read: R,
    path: Seq<char>,
    r: Result<ResolvedView, ErrorView>,
) -> bool {
    exists|claim: Result<Option<Seq<char>>, ErrorView>|
        #[trigger] discovers(run, canonicalize, path, claim) && match claim {
            Err(e) => r == Err::<ResolvedView, ErrorView>(e),
            Ok(claim) => places(run, canonicalize, read, path, claim, r),
        }
}

/// Resolve `path` to the repository, worktree and HEAD it falls under; a
/// non-Git path is a project space, not an error.
pub fn resolve<
    G: Fn(&Vec<String>, &Vec<String>) -> Reply,
    C: Fn(&String) -> Result<String, String>,
    R: Fn(&String) -> Option<String>,
>(run: &G, canonicalize: &C, read: &R, path: &str) -> (r: Result<Resolved, Error>)
    requires
        accepts_reads(*run),
        accepts_any(*canonicalize),
        accepts_any(*read),
    ensures
        resolves(*run, *canonicalize, *read, path@, outcome(r)),
{
    let claim = Repo::discover(run, canonicalize, path);
    let ghost claimed = outcome(claim);
    assert(discovers(*run, *canonicalize, path@, claimed));
    let claim = match claim {
        Ok(claim) => claim,
        Err(e) => return Err(e),
    };
    let dir = canonical(canonicalize, path);
    let ghost found = outcome(dir);
    assert(has_canonical(*canonicalize, path@, found));
    let dir = match dir {
        Ok(dir) => dir,
        Err(e) => {
            let r: Result<Resolved, Error> = Err(e);
            assert(places(*run, *canonicalize, *read, path@, claimed->Ok_0, outcome(r)));
            return r;
        },
    };
    let r = match claim {
        None => Ok(Resolved::ProjectSpace(dir)),
        Some(repo) => check_out(run, canonicalize, read, repo, dir.as_str()),
    };
    assert(places(*run, *canonicalize, *read, path@, claimed->Ok_0, outcome(r)));
    r
}

/// What the canonical path `dir`, claimed by `repo`, resolves to.
fn check_out<
    G: Fn(&Vec<String>, &Vec<String>) -> Reply,
    C: Fn(&String) -> Result<String, String>,
    R: Fn(&String) -> Option<String>,
>(run: &G, canonicalize: &C, read: &R, repo: Repo, dir: &str) -> (r: Result<Resolved, Error>)
    requires
        accepts_reads(*run),
        accepts_any(*canonicalize),
        accepts_any(*read),
    ensures
        checks_out(*run, *canonicalize, *read, repo.deep_view(), dir@, outcome(r)),
{
    let args: &[&str] = &["rev-parse", "--show-toplevel"];
    assert(args.deep_view() =~= toplevel_argv());
    let top = in_dir(run, dir, args);
    assert(says(*run, dir_globals(dir@), toplevel_argv(), outcome(top)));
    let Ok(top) = top else {
        return Ok(Resolved::RepoOnly(repo));
    };
    let root = settle(canonicalize, &trim(top.as_str()));
    let ghost common = repo.deep_view();
    let ghost at = root@;
    let head = head_at(run, dir);
    let ghost head_view = outcome(head);
    let id = admin_id(canonicalize, read, root.as_str(), repo.common_dir());
    let ghost id_view = id.deep_view();
    let r = match head {
        Ok(head) => Ok(Resolved::Checkout(Checkout { repo, root, admin_id: id, head })),
        Err(e) => Err(e),
    };
    assert(settles(*canonicalize, trimmed(top@), at));
    assert(has_head(*run, dir@, head_view));
    assert(has_admin_id(*canonicalize, *read, at, common, id_view));
    assert(finds_checkout(
        *run,
        *canonicalize,
        *read,
        common,
        dir@,
        trimmed(top@),
        outcome(r),
    ));
    r
}

// ---------------------------------------------------------------------------
// What resolution promises
// ---------------------------------------------------------------------------

/// Paths that canonicalize alike - a symlink, another spelling - are claimed
/// by one and the same repository, or by none.
pub proof fn law_paths_to_one_place_are_one_repo<
    G: Fn(&Vec<String>, &Vec<String>) -> Reply,
    C: Fn(&String) -> Result<String, String>,
>(run: G, canonicalize: C, a: Seq<char>, b: Seq<char>, claim: Option<Seq<char>>)
    requires
        forall|dir: Seq<char>|
            #[trigger] has_canonical(canonicalize, a, Ok::<Seq<char>, ErrorView>(dir))
                <==> has_canonical(canonicalize, b, Ok::<Seq<char>, ErrorView>(dir)),
        discovers(run, canonicalize, a, Ok(claim)),
    ensures
        discovers(run, canonicalize, b, Ok(claim)),
{
    let dir = choose|dir: Result<Seq<char>, ErrorView>|
        #[trigger] has_canonical(canonicalize, a, dir) && match dir {
            Ok(dir) => claims(run, canonicalize, dir, Ok(claim)),
            Err(e) => Ok::<Option<Seq<char>>, ErrorView>(claim) == Err::<
                Option<Seq<char>>,
                ErrorView,
            >(e),
        };
    assert(has_canonical(canonicalize, a, Ok::<Seq<char>, ErrorView>(dir->Ok_0)));
    assert(has_canonical(canonicalize, b, Ok::<Seq<char>, ErrorView>(dir->Ok_0)));
}

/// Whenever it is asked, the path leads to `place`.
pub open spec fn always_leads<C: Fn(&String) -> Result<String, String>>(
    canonicalize: C,
    path: Seq<char>,
    place: Seq<char>,
) -> bool {
    forall|s: String, r: Result<String, String>|
        s@ == path && #[trigger] call_ensures(canonicalize, (&s,), r) ==> r is Ok && r->Ok_0@
            == place
}

proof fn lemma_leads<C: Fn(&String) -> Result<String, String>>(
    canonicalize: C,
    path: Seq<char>,
    place: Seq<char>,
)
    requires
        always_leads(canonicalize, path, place),
    ensures
        forall|r: Result<Seq<char>, ErrorView>| #[trigger]
            has_canonical(canonicalize, path, r) ==> r == Ok::<Seq<char>, ErrorView>(place),
        forall|r: Seq<char>| #[trigger] settles(canonicalize, path, r) ==> r == place,
{
    assert forall|r: Result<Seq<char>, ErrorView>| #[trigger]
        has_canonical(canonicalize, path, r) implies r == Ok::<Seq<char>, ErrorView>(place) by {
        let canonical = choose|canonical: Result<String, String>|
            #[trigger] answers(canonicalize, path, canonical) && r == match canonical {
                Ok(real_path) => Ok(real_path@),
                Err(e) => Err(io_error("canonicalize"@, path, e@)),
            };
        let s = choose|s: String|
            s@ == path && #[trigger] call_ensures(canonicalize, (&s,), canonical);
        assert(call_ensures(canonicalize, (&s,), canonical));
    }
    assert forall|r: Seq<char>| #[trigger] settles(canonicalize, path, r) implies r == place by {
        law_paths_settle_where_they_lead(canonicalize, path, place, r);
    }
}

/// A path that leads nowhere is an error; one that Git says is in no
/// repository is a project space, by where it leads; and any other failure of
/// Git is an error too, never taken for one.
pub proof fn law_a_path_in_no_repository_is_a_project_space<
    G: Fn(&Vec<String>, &Vec<String>) -> Reply,
    C: Fn(&String) -> Result<String, String>,
    R: Fn(&String) -> Option<String>,
>(
    run: G,
    canonicalize: C,
    read: R,
    path: Seq<char>,
    dir: Seq<char>,
    code: int,
    message: Seq<char>,
    r: Result<ResolvedView, ErrorView>,
)
    requires
        resolves(run, canonicalize, read, path, r),
    ensures
        ({
            let asked = seq!["rev-parse"@, "--path-format=absolute"@, "--git-common-dir"@];
            let global = seq!["-C"@, dir];
            &&& (forall|s: String, found: Result<String, String>|
                s@ == path && #[trigger] call_ensures(canonicalize, (&s,), found) ==> found is Err)
                ==> r is Err
            &&& always_leads(canonicalize, path, dir) && code != 0 && always_complains(
                run,
                global,
                asked,
                code,
                message,
            ) ==> {
                &&& occurs(trimmed(message), "not a git repository"@) ==> r == Ok::<
                    ResolvedView,
                    ErrorView,
                >(ResolvedView::ProjectSpace(dir))
                &&& !occurs(trimmed(message), "not a git repository"@) ==> r is Err
            }
        }),
{
    let asked = common_dir_argv();
    lemma_says(run, dir_globals(dir), asked);
    if always_leads(canonicalize, path, dir) {
        lemma_leads(canonicalize, path, dir);
    }
    if forall|s: String, found: Result<String, String>|
        s@ == path && #[trigger] call_ensures(canonicalize, (&s,), found) ==> found is Err {
        assert forall|d: Result<Seq<char>, ErrorView>| #[trigger]
            has_canonical(canonicalize, path, d) implies d is Err by {
            let canonical = choose|canonical: Result<String, String>|
                #[trigger] answers(canonicalize, path, canonical) && d == match canonical {
                    Ok(real_path) => Ok(real_path@),
                    Err(e) => Err(io_error("canonicalize"@, path, e@)),
                };
            let s = choose|s: String|
                s@ == path && #[trigger] call_ensures(canonicalize, (&s,), canonical);
            assert(call_ensures(canonicalize, (&s,), canonical));
        }
    }
}

/// A path in a repository resolves to that repository, by where its common
/// directory leads, and to the worktree around it: its root, its
/// administrative id and its HEAD. Where Git names no worktree around the path
/// there is the repository alone.
pub proof fn law_a_path_in_a_repository_resolves_to_its_checkout<
    G: Fn(&Vec<String>, &Vec<String>) -> Reply,
    C: Fn(&String) -> Result<String, String>,
    R: Fn(&String) -> Option<String>,
>(
    run: G,
    canonicalize: C,
    read: R,
    path: Seq<char>,
    dir: Seq<char>,
    named: Seq<char>,
    common: Seq<char>,
    top: Seq<char>,
    root: Seq<char>,
    code: int,
    r: Result<ResolvedView, ErrorView>,
)
    requires
        resolves(run, canonicalize, read, path, r),
        always_leads(canonicalize, path, dir),
        is_word(named),
        is_word(top),
        always_prints(
            run,
            seq!["-C"@, dir],
            seq!["rev-parse"@, "--path-format=absolute"@, "--git-common-dir"@],
            named.push('\n'),
        ),
        always_leads(canonicalize, named, common),
        always_leads(canonicalize, top, root),
    ensures
        ({
            let global = seq!["-C"@, dir];
            let asked = seq!["rev-parse"@, "--show-toplevel"@];
            &&& code != 0 && always_exits(run, global, asked, code) ==> r == Ok::<
                ResolvedView,
                ErrorView,
            >(ResolvedView::RepoOnly(common))
            &&& always_prints(run, global, asked, top.push('\n')) ==> exists|
                head: Result<HeadView, ErrorView>,
                id: Option<Seq<char>>,
            |
                #[trigger] has_head(run, dir, head) && #[trigger] has_admin_id(
                    canonicalize,
                    read,
                    root,
                    common,
                    id,
                ) && match head {
                    Ok(head) => r == Ok::<ResolvedView, ErrorView>(
                        ResolvedView::Checkout { repo: common, root, admin_id: id, head },
                    ),
                    Err(e) => r == Err::<ResolvedView, ErrorView>(e),
                }
        }),
{
    lemma_says(run, dir_globals(dir), common_dir_argv());
    lemma_says(run, dir_globals(dir), toplevel_argv());
    lemma_leads(canonicalize, path, dir);
    lemma_leads(canonicalize, named, common);
    lemma_leads(canonicalize, top, root);
    lemma_trimmed_line(named);
    lemma_trimmed_line(top);
    let claim = choose|claim: Result<Option<Seq<char>>, ErrorView>|
        #[trigger] discovers(run, canonicalize, path, claim) && match claim {
            Err(e) => r == Err::<ResolvedView, ErrorView>(e),
            Ok(claim) => places(run, canonicalize, read, path, claim, r),
        };
    assert(claims(run, canonicalize, dir, claim));
    assert(names_repo(canonicalize, named.push('\n'), claim));
    assert(claim == Ok::<Option<Seq<char>>, ErrorView>(Some(common)));
    assert(checks_out(run, canonicalize, read, common, dir, r));
    if always_prints(
        run,
        seq!["-C"@, dir],
        seq!["rev-parse"@, "--show-toplevel"@],
        top.push('\n'),
    ) {
        assert(finds_checkout(run, canonicalize, read, common, dir, top, r));
    }
}

/// HEAD is the branch that its symbolic ref names when there is a commit on
/// it, and that branch unborn when there is none; without a symbolic ref it is
/// detached at its commit. Where Git cannot say, it is an error.
pub proof fn law_head_is_its_branch_or_its_commit<G: Fn(&Vec<String>, &Vec<String>) -> Reply>(
    run: G,
    dir: Seq<char>,
    name: Seq<char>,
    sha: Seq<char>,
    code: int,
    r: Result<HeadView, ErrorView>,
)
    requires
        has_head(run, dir, r),
        is_word(name),
        is_word(sha),
    ensures
        ({
            let global = seq!["-C"@, dir];
            let symbolic = seq!["symbolic-ref"@, "-q"@, "--short"@, "HEAD"@];
            let verified = seq!["rev-parse"@, "--verify"@, "-q"@, "HEAD"@];
            let commit = seq!["rev-parse"@, "HEAD"@];
            let on_branch = always_prints(run, global, symbolic, name.push('\n'));
            let on_none = always_exits(run, global, symbolic, 1);
            &&& on_branch && always_prints(run, global, verified, sha.push('\n')) ==> r == Ok::<
                HeadView,
                ErrorView,
            >(HeadView::Branch(name))
            &&& on_branch && code != 0 && always_exits(run, global, verified, code) ==> r == Ok::<
                HeadView,
                ErrorView,
            >(HeadView::Unborn(name))
            &&& on_none && always_prints(run, global, commit, sha.push('\n')) ==> r == Ok::<
                HeadView,
                ErrorView,
            >(HeadView::Detached(sha))
            &&& on_none && code != 0 && always_exits(run, global, commit, code) ==> r is Err
            &&& never_answers(run, global, symbolic) ==> r is Err
        }),
{
    law_every_invocation_is_read_only("HEAD"@, "HEAD"@, seq![]);
    lemma_says(run, dir_globals(dir), head_name_argv());
    lemma_says(run, dir_globals(dir), verify_argv("HEAD"@));
    lemma_says(run, dir_globals(dir), head_sha_argv());
    lemma_trimmed_line(name);
    lemma_trimmed_line(sha);
}

}
