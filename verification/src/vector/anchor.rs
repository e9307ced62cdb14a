//! The worktrees and branches of a repository that rows are collected for.

use vstd::prelude::*;
use vstd::string::*;

use crate::command::{accepts_any, Reply};
use crate::git::{
    accepts_reads, has_worktrees, outcome, ErrorView, Head, HeadView, Repo, Worktree, WorktreeView,
};
use crate::text::{copy_text, same};
use crate::vector::Anchor;

verus! {

// ---------------------------------------------------------------------------
// Anchors
// ---------------------------------------------------------------------------

/// The value of an [`Anchor`], with its text as characters.
pub enum AnchorView {
    Worktree {
        path: Seq<char>,
        admin_id: Option<Seq<char>>,
        head: HeadView,
        main: bool,
        locked: bool,
    },
    Branch { name: Seq<char> },
}

impl DeepView for Anchor {
    type V = AnchorView;

    open spec fn deep_view(&self) -> AnchorView {
        match *self {
            Anchor::Worktree { path, admin_id, head, main, locked } => AnchorView::Worktree {
                path: path@,
                admin_id: admin_id.deep_view(),
                head: head.deep_view(),
                main,
                locked,
            },
            Anchor::Branch { name } => AnchorView::Branch { name: name@ },
        }
    }
}

/// The branch a HEAD sits on, born or not.
pub open spec fn head_branch(head: HeadView) -> Option<Seq<char>> {
    match head {
        HeadView::Branch(name) => Some(name),
        HeadView::Unborn(name) => Some(name),
        HeadView::Detached(_) => None,
    }
}

/// The anchor of one worktree.
pub open spec fn worktree_anchor(wt: WorktreeView) -> AnchorView {
    AnchorView::Worktree {
        path: wt.path,
        admin_id: wt.admin_id,
        head: wt.head,
        main: wt.main,
        locked: wt.locked,
    }
}

/// The anchors of the worktrees that are checkouts: a bare repository's entry
/// is storage, not a workspace.
pub open spec fn worktree_anchors(wts: Seq<WorktreeView>) -> Seq<AnchorView>
    decreases wts.len(),
{
    if wts.len() == 0 {
        seq![]
    } else {
        let before = worktree_anchors(wts.drop_last());
        if wts.last().bare {
            before
        } else {
            before.push(worktree_anchor(wts.last()))
        }
    }
}

/// Whether a branch is checked out in one of the worktrees.
pub open spec fn checked_out(wts: Seq<WorktreeView>, name: Seq<char>) -> bool {
    exists|i: int|
        0 <= i < wts.len() && !(#[trigger] wts[i]).bare && head_branch(wts[i].head) == Some(name)
}

/// The anchors of the branches that are checked out nowhere.
pub open spec fn branch_anchors(names: Seq<Seq<char>>, wts: Seq<WorktreeView>) -> Seq<AnchorView>
    decreases names.len(),
{
    if names.len() == 0 {
        seq![]
    } else {
        let before = branch_anchors(names.drop_last(), wts);
        if checked_out(wts, names.last()) {
            before
        } else {
            before.push(AnchorView::Branch { name: names.last() })
        }
    }
}

/// `r` is what the anchors may be found to be, the worktrees read.
pub open spec fn adds_branches<G: Fn(&Vec<String>, &Vec<String>) -> Reply>(
    run: G,
    repo: Repo,
    wts: Seq<WorktreeView>,
    r: Result<Seq<AnchorView>, ErrorView>,
) -> bool {
    exists|names: Result<Seq<Seq<char>>, ErrorView>|
        #[trigger] repo.has_branches(run, names) && r == match names {
            Ok(names) => Ok(worktree_anchors(wts) + branch_anchors(names, wts)),
            Err(e) => Err(e),
        }
}

/// `r` is what the anchors of the repository may be found to be.
pub open spec fn has_anchors<
    G: Fn(&Vec<String>, &Vec<String>) -> Reply,
    C: Fn(&String) -> Result<String, String>,
    R: Fn(&String) -> Option<String>,
>(
    run: G,
    canonicalize: C,
    read: R,
    repo: Repo,
    r: Result<Seq<AnchorView>, ErrorView>,
) -> bool {
    exists|wts: Result<Seq<WorktreeView>, ErrorView>|
        #[trigger] has_worktrees(run, canonicalize, read, repo, wts) && match wts {
            Ok(wts) => adds_branches(run, repo, wts, r),
            Err(e) => r == Err::<Seq<AnchorView>, ErrorView>(e),
        }
}

/// Whether a branch is checked out in one of the worktrees.
fn is_checked_out(wts: &Vec<Worktree>, name: &str) -> (r: bool)
    ensures
        r == checked_out(wts.deep_view(), name@),
{
    let ghost all = wts.deep_view();
    let mut i: usize = 0;
    while i < wts.len()
        invariant
            i <= wts@.len(),
            all == wts.deep_view(),
            forall|j: int|
                0 <= j < i ==> (#[trigger] all[j]).bare || head_branch(all[j].head) != Some(name@),
        decreases wts@.len() - i,
    {
        let wt = &wts[i];
        assert(all[i as int] == wts@[i as int].deep_view());
        let here = match &wt.head {
            Head::Branch(branch) => same(branch.as_str(), name),
            Head::Unborn(branch) => same(branch.as_str(), name),
            Head::Detached(_) => false,
        };
        if !wt.bare && here {
            return true;
        }
        i += 1;
    }
    false
}

/// The worktree/branch pairs of a repository: every non-bare worktree plus
/// every local branch not checked out in one.
pub fn anchors<
    G: Fn(&Vec<String>, &Vec<String>) -> Reply,
    C: Fn(&String) -> Result<String, String>,
    R: Fn(&String) -> Option<String>,
>(run: &G, canonicalize: &C, read: &R, repo: &Repo) -> (r: Result<Vec<Anchor>, crate::git::Error>)
    requires
        accepts_reads(*run),
        accepts_any(*canonicalize),
        accepts_any(*read),
    ensures
        has_anchors(*run, *canonicalize, *read, *repo, outcome(r)),
{
    let found = repo.worktrees(run, canonicalize, read);
    let ghost found_view = outcome(found);
    assert(has_worktrees(*run, *canonicalize, *read, *repo, found_view));
    let wts = match found {
        Ok(wts) => wts,
        Err(e) => return Err(e),
    };
    let ghost all = wts.deep_view();
    let mut anchors: Vec<Anchor> = Vec::new();
    let mut i: usize = 0;
    assert(anchors.deep_view() =~= seq![]);
    while i < wts.len()
        invariant
            i <= wts@.len(),
            all == wts.deep_view(),
            anchors.deep_view() == worktree_anchors(all.take(i as int)),
        decreases wts@.len() - i,
    {
        let wt = &wts[i];
        assert(all.take(i + 1).drop_last() =~= all.take(i as int));
        assert(all.take(i + 1).last() == wts@[i as int].deep_view());
        if !wt.bare {
            let anchor = Anchor::Worktree {
                path: wt.path.clone(),
                admin_id: copy_text(&wt.admin_id),
                head: wt.head.clone(),
                main: wt.main,
                locked: wt.locked,
            };
            let ghost before = anchors.deep_view();
            let ghost one = anchor.deep_view();
            anchors.push(anchor);
            assert(anchors.deep_view() =~= before.push(one));
        }
        i += 1;
    }
    assert(all.take(i as int) =~= all);
    let branches = repo.local_branches(run);
    let ghost branches_view = outcome(branches);
    assert(repo.has_branches(*run, branches_view));
    let names = match branches {
        Ok(names) => names,
        Err(e) => {
            let r: Result<Vec<Anchor>, crate::git::Error> = Err(e);
            assert(adds_branches(*run, *repo, all, outcome(r)));
            return r;
        },
    };
    let ghost listed = names.deep_view();
    let mut k: usize = 0;
    assert(anchors.deep_view() =~= worktree_anchors(all) + branch_anchors(listed.take(0), all));
    while k < names.len()
        invariant
            k <= names@.len(),
            all == wts.deep_view(),
            listed == names.deep_view(),
            anchors.deep_view() == worktree_anchors(all) + branch_anchors(
                listed.take(k as int),
                all,
            ),
        decreases names@.len() - k,
    {
        assert(listed.take(k + 1).drop_last() =~= listed.take(k as int));
        assert(listed.take(k + 1).last() == names@[k as int]@);
        if !is_checked_out(&wts, names[k].as_str()) {
            let anchor = Anchor::Branch { name: names[k].clone() };
            let ghost before = anchors.deep_view();
            let ghost one = anchor.deep_view();
            anchors.push(anchor);
            assert(anchors.deep_view() =~= before.push(one));
        }
        assert(anchors.deep_view() =~= worktree_anchors(all) + branch_anchors(
            listed.take(k + 1),
            all,
        ));
        k += 1;
    }
    assert(listed.take(k as int) =~= listed);
    let r: Result<Vec<Anchor>, crate::git::Error> = Ok(anchors);
    assert(adds_branches(*run, *repo, all, outcome(r)));
    r
}

// ---------------------------------------------------------------------------
// What the anchors promise
// ---------------------------------------------------------------------------

/// Every branch is anchored exactly once over: by a worktree that has it
/// checked out, or by a row of its own.
pub proof fn law_every_branch_is_anchored(
    names: Seq<Seq<char>>,
    wts: Seq<WorktreeView>,
    name: Seq<char>,
)
    requires
        names.contains(name),
    ensures
        branch_anchors(names, wts).contains(AnchorView::Branch { name }) <==> !checked_out(
            wts,
            name,
        ),
    decreases names.len(),
{
    let shorter = names.drop_last();
    let before = branch_anchors(shorter, wts);
    let all = branch_anchors(names, wts);
    let row = AnchorView::Branch { name };
    if checked_out(wts, name) {
        lemma_branch_rows_are_not_checked_out(names, wts);
        if all.contains(row) {
            let i = choose|i: int| 0 <= i < all.len() && all[i] == row;
            assert(!checked_out(wts, all[i]->name));
        }
    } else if names.last() == name {
        assert(all.last() == row);
    } else {
        let i = choose|i: int| 0 <= i < names.len() && names[i] == name;
        assert(shorter[i] == name);
        law_every_branch_is_anchored(shorter, wts, name);
        let j = choose|j: int| 0 <= j < before.len() && before[j] == row;
        assert(all[j] == row);
    }
}

proof fn lemma_branch_rows_are_not_checked_out(names: Seq<Seq<char>>, wts: Seq<WorktreeView>)
    ensures
        forall|i: int|
            0 <= i < branch_anchors(names, wts).len() ==> (#[trigger] branch_anchors(
                names,
                wts,
            )[i]) is Branch && !checked_out(wts, branch_anchors(names, wts)[i]->name),
    decreases names.len(),
{
    if names.len() > 0 {
        lemma_branch_rows_are_not_checked_out(names.drop_last(), wts);
        let before = branch_anchors(names.drop_last(), wts);
        let all = branch_anchors(names, wts);
        assert forall|i: int| 0 <= i < all.len() implies (#[trigger] all[i]) is Branch
            && !checked_out(wts, all[i]->name) by {
            if i < before.len() {
                assert(all[i] == before[i]);
            }
        }
    }
}

/// The anchors are the worktrees that are checkouts, with their own facts and
/// in their order, and then the branches that none of those is on, in theirs.
/// A bare entry is no workspace, and holds no branch.
pub proof fn law_the_anchors_are_checkouts_and_other_branches(
    names: Seq<Seq<char>>,
    wts: Seq<WorktreeView>,
)
    ensures
        worktree_anchors(wts) == wts.filter(|wt: WorktreeView| !wt.bare).map_values(
            |wt: WorktreeView|
                AnchorView::Worktree {
                    path: wt.path,
                    admin_id: wt.admin_id,
                    head: wt.head,
                    main: wt.main,
                    locked: wt.locked,
                },
        ),
        branch_anchors(names, wts) == names.filter(
            |name: Seq<char>|
                !exists|i: int|
                    0 <= i < wts.len() && !(#[trigger] wts[i]).bare && (wts[i].head
                        == HeadView::Branch(name) || wts[i].head == HeadView::Unborn(name)),
        ).map_values(|name: Seq<char>| AnchorView::Branch { name }),
{
    lemma_worktree_anchors(wts);
    lemma_branch_anchors(names, wts);
}

proof fn lemma_worktree_anchors(wts: Seq<WorktreeView>)
    ensures
        worktree_anchors(wts) == wts.filter(|wt: WorktreeView| !wt.bare).map_values(
            |wt: WorktreeView|
                AnchorView::Worktree {
                    path: wt.path,
                    admin_id: wt.admin_id,
                    head: wt.head,
                    main: wt.main,
                    locked: wt.locked,
                },
        ),
    decreases wts.len(),
{
    reveal(Seq::filter);
    let kept = |wt: WorktreeView| !wt.bare;
    let made = |wt: WorktreeView|
        AnchorView::Worktree {
            path: wt.path,
            admin_id: wt.admin_id,
            head: wt.head,
            main: wt.main,
            locked: wt.locked,
        };
    if wts.len() > 0 {
        lemma_worktree_anchors(wts.drop_last());
        let before = wts.drop_last().filter(kept);
        if !wts.last().bare {
            assert(before.push(wts.last()).map_values(made) =~= before.map_values(made).push(
                made(wts.last()),
            ));
        }
    }
    assert(worktree_anchors(wts) =~= wts.filter(kept).map_values(made));
}

proof fn lemma_branch_anchors(names: Seq<Seq<char>>, wts: Seq<WorktreeView>)
    ensures
        branch_anchors(names, wts) == names.filter(
            |name: Seq<char>|
                !exists|i: int|
                    0 <= i < wts.len() && !(#[trigger] wts[i]).bare && (wts[i].head
                        == HeadView::Branch(name) || wts[i].head == HeadView::Unborn(name)),
        ).map_values(|name: Seq<char>| AnchorView::Branch { name }),
    decreases names.len(),
{
    reveal(Seq::filter);
    let kept = |name: Seq<char>|
        !exists|i: int|
            0 <= i < wts.len() && !(#[trigger] wts[i]).bare && (wts[i].head == HeadView::Branch(
                name,
            ) || wts[i].head == HeadView::Unborn(name));
    let made = |name: Seq<char>| AnchorView::Branch { name };
    if names.len() > 0 {
        lemma_branch_anchors(names.drop_last(), wts);
        let before = names.drop_last().filter(kept);
        let name = names.last();
        assert(kept(name) == !checked_out(wts, name)) by {
            if checked_out(wts, name) {
                let i = choose|i: int|
                    0 <= i < wts.len() && !(#[trigger] wts[i]).bare && head_branch(wts[i].head)
                        == Some(name);
                assert(wts[i].head == HeadView::Branch(name) || wts[i].head == HeadView::Unborn(
                    name,
                ));
            }
            if !kept(name) {
                let i = choose|i: int|
                    0 <= i < wts.len() && !(#[trigger] wts[i]).bare && (wts[i].head
                        == HeadView::Branch(name) || wts[i].head == HeadView::Unborn(name));
                assert(head_branch(wts[i].head) == Some(name));
            }
        }
        if kept(name) {
            assert(before.push(name).map_values(made) =~= before.map_values(made).push(
                made(name),
            ));
        }
    }
    assert(branch_anchors(names, wts) =~= names.filter(kept).map_values(made));
}

/// The anchors come from the worktrees and the branches that Git lists, the
/// worktrees first, and fail where either listing does.
pub proof fn law_anchors_come_from_both_listings<
    G: Fn(&Vec<String>, &Vec<String>) -> Reply,
    C: Fn(&String) -> Result<String, String>,
    R: Fn(&String) -> Option<String>,
>(
    run: G,
    canonicalize: C,
    read: R,
    repo: Repo,
    r: Result<Seq<AnchorView>, ErrorView>,
)
    requires
        has_anchors(run, canonicalize, read, repo, r),
    ensures
        match r {
            Ok(found) => exists|wts: Seq<WorktreeView>, names: Seq<Seq<char>>|
                #[trigger] has_worktrees(run, canonicalize, read, repo, Ok(wts))
                    && #[trigger] repo.has_branches(run, Ok(names)) && found == worktree_anchors(
                    wts,
                ) + branch_anchors(names, wts),
            Err(e) => has_worktrees(run, canonicalize, read, repo, Err(e)) || repo.has_branches(
                run,
                Err(e),
            ),
        },
{
    let wts = choose|wts: Result<Seq<WorktreeView>, ErrorView>|
        #[trigger] has_worktrees(run, canonicalize, read, repo, wts) && match wts {
            Ok(wts) => adds_branches(run, repo, wts, r),
            Err(e) => r == Err::<Seq<AnchorView>, ErrorView>(e),
        };
    if let Ok(found) = wts {
        let names = choose|names: Result<Seq<Seq<char>>, ErrorView>|
            #[trigger] repo.has_branches(run, names) && r == match names {
                Ok(names) => Ok(worktree_anchors(found) + branch_anchors(names, found)),
                Err(e) => Err(e),
            };
        assert(has_worktrees(run, canonicalize, read, repo, Ok(found)));
        if let Ok(listed) = names {
            assert(repo.has_branches(run, Ok(listed)));
        }
    }
}

}
