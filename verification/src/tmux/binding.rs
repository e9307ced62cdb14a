//! Which panes and windows belong to a worktree.

use vstd::prelude::*;
use vstd::string::*;

use crate::command::accepts_any;
use crate::path::{
    components, is_within, law_paths_settle_where_they_lead, same_path, settle, settles, within,
};
use crate::text::same;
use crate::tmux::Pane;
use crate::tmux::inventory::PaneInventory;

verus! {

// ---------------------------------------------------------------------------
// Worktree bindings
// ---------------------------------------------------------------------------

/// `r` is whether a pane at `cwd` may be found to be in the worktree.
pub open spec fn stands_in<C: Fn(&String) -> Result<String, String>>(
    canonicalize: C,
    cwd: Seq<char>,
    worktree: Seq<char>,
    r: bool,
) -> bool {
    exists|place: Seq<char>|
        #[trigger] settles(canonicalize, cwd, place) && r == within(place, worktree)
}

/// `r` is whether the pane's evidence may be found to bind it to the worktree:
/// the stored admin-id edge decides outright when the window publishes one,
/// else the derived edge does - a pane cwd at or below the worktree root.
pub open spec fn binds<C: Fn(&String) -> Result<String, String>>(
    canonicalize: C,
    pane: Pane,
    admin_id: Option<Seq<char>>,
    worktree: Seq<char>,
    r: bool,
) -> bool {
    match pane.wt_adminid {
        Some(stored) => r == (admin_id == Some(stored@)),
        None => match pane.cwd {
            Some(cwd) => stands_in(canonicalize, cwd@, worktree, r),
            None => !r,
        },
    }
}

impl Pane {
    /// Whether this pane's evidence binds it to `worktree`: the stored
    /// admin-id edge when the window publishes one, else the derived edge -
    /// a pane cwd at or below the worktree root. The stored edge decides
    /// outright when present: a window whose stored id names another
    /// worktree belongs to that worktree even if a pane has since `cd`-ed
    /// into this one.
    pub fn binds_worktree<C: Fn(&String) -> Result<String, String>>(
        &self,
        canonicalize: &C,
        admin_id: Option<&str>,
        worktree: &str,
    ) -> (r: bool)
        requires
            accepts_any(*canonicalize),
        ensures
            binds(*canonicalize, *self, admin_id.deep_view(), worktree@, r),
    {
        match &self.wt_adminid {
            Some(stored) => match admin_id {
                Some(id) => same(stored.as_str(), id),
                None => false,
            },
            None => match &self.cwd {
                Some(cwd) => {
                    let place = settle(canonicalize, cwd);
                    assert(settles(*canonicalize, cwd@, place@));
                    is_within(place.as_str(), worktree)
                },
                None => false,
            },
        }
    }
}

/// The window a pane is in, on whichever server that is.
pub open spec fn window_key(pane: Pane) -> (Seq<Seq<char>>, Seq<char>) {
    (components(pane.socket@), pane.window@)
}

/// The windows of the panes that are `bound`.
pub open spec fn windows_of(panes: Seq<Pane>, bound: Seq<bool>) -> Set<(Seq<Seq<char>>, Seq<char>)>
    decreases panes.len(),
{
    if panes.len() == 0 {
        Set::empty()
    } else {
        let before = windows_of(panes.drop_last(), bound.drop_last());
        if bound.last() {
            before.insert(window_key(panes.last()))
        } else {
            before
        }
    }
}

/// `bound` says of each pane whether it may be found to be bound.
pub open spec fn all_bound<C: Fn(&String) -> Result<String, String>>(
    canonicalize: C,
    panes: Seq<Pane>,
    admin_id: Option<Seq<char>>,
    worktree: Seq<char>,
    bound: Seq<bool>,
) -> bool {
    bound.len() == panes.len() && forall|i: int|
        0 <= i < panes.len() ==> binds(
            canonicalize,
            #[trigger] panes[i],
            admin_id,
            worktree,
            bound[i],
        )
}

impl PaneInventory {
    /// The windows bound to a worktree, for counting: the stored admin-id
    /// edge decides when a window publishes it, and a window with no stored
    /// edge is bound when any of its panes reports a cwd inside the
    /// worktree. That is what keeps a hand-made window visible without
    /// ever claiming it.
    pub fn windows_bound<C: Fn(&String) -> Result<String, String>>(
        &self,
        canonicalize: &C,
        admin_id: Option<&str>,
        worktree: &str,
    ) -> (r: usize)
        requires
            accepts_any(*canonicalize),
        ensures
            exists|bound: Seq<bool>| #[trigger]
                all_bound(*canonicalize, self.panes@, admin_id.deep_view(), worktree@, bound) && r
                    == windows_of(self.panes@, bound).len(),
    {
        let mut windows: Vec<&Pane> = Vec::new();
        let ghost mut bound: Seq<bool> = seq![];
        let ghost mut found: Set<(Seq<Seq<char>>, Seq<char>)> = Set::empty();
        let mut i: usize = 0;
        while i < self.panes.len()
            invariant
                accepts_any(*canonicalize),
                i <= self.panes@.len(),
                bound.len() == i,
                windows@.len() <= i,
                forall|j: int|
                    0 <= j < i ==> binds(
                        *canonicalize,
                        #[trigger] self.panes@[j],
                        admin_id.deep_view(),
                        worktree@,
                        bound[j],
                    ),
                found == windows_of(self.panes@.take(i as int), bound),
                found.finite(),
                found.len() == windows@.len(),
                forall|key: (Seq<Seq<char>>, Seq<char>)| #[trigger]
                    found.contains(key) <==> exists|k: int|
                        0 <= k < windows@.len() && window_key(*#[trigger] windows@[k]) == key,
            decreases self.panes@.len() - i,
        {
            let pane = &self.panes[i];
            assert(self.panes@.take(i + 1).drop_last() =~= self.panes@.take(i as int));
            let here = pane.binds_worktree(canonicalize, admin_id, worktree);
            let ghost before = windows@;
            let ghost had = found;
            proof {
                assert(bound.push(here).drop_last() =~= bound);
                bound = bound.push(here);
                found = windows_of(self.panes@.take(i + 1), bound);
            }
            if here && !has_window(&windows, pane) {
                windows.push(pane);
                proof {
                    let key = window_key(*pane);
                    assert(!had.contains(key));
                    assert(windows@[before.len() as int] == pane);
                    assert forall|k: (Seq<Seq<char>>, Seq<char>)| #[trigger]
                        found.contains(k) <==> exists|w: int|
                            0 <= w < windows@.len() && window_key(*#[trigger] windows@[w])
                                == k by {
                        if had.contains(k) {
                            let w = choose|w: int|
                                0 <= w < before.len() && window_key(*#[trigger] before[w]) == k;
                            assert(windows@[w] == before[w]);
                        }
                        if exists|w: int|
                            0 <= w < windows@.len() && window_key(*#[trigger] windows@[w]) == k {
                            let w = choose|w: int|
                                0 <= w < windows@.len() && window_key(*#[trigger] windows@[w])
                                    == k;
                            if w < before.len() {
                                assert(before[w] == windows@[w]);
                                assert(had.contains(k));
                            }
                        }
                    }
                }
            } else if here {
                proof {
                    assert(had.contains(window_key(*pane)));
                    assert(found =~= had);
                }
            }
            i += 1;
        }
        assert(self.panes@.take(i as int) =~= self.panes@);
        assert(all_bound(*canonicalize, self.panes@, admin_id.deep_view(), worktree@, bound));
        windows.len()
    }
}

/// Whether one of the panes is in the same window as `pane`.
fn has_window(windows: &Vec<&Pane>, pane: &Pane) -> (r: bool)
    ensures
        r == exists|k: int|
            0 <= k < windows@.len() && window_key(*#[trigger] windows@[k]) == window_key(*pane),
{
    let mut k: usize = 0;
    while k < windows.len()
        invariant
            k <= windows@.len(),
            forall|j: int|
                0 <= j < k ==> window_key(*#[trigger] windows@[j]) != window_key(*pane),
        decreases windows@.len() - k,
    {
        let other = windows[k];
        if same_path(other.socket.as_str(), pane.socket.as_str()) && same(
            other.window.as_str(),
            pane.window.as_str(),
        ) {
            assert(window_key(*windows@[k as int]) == window_key(*pane));
            return true;
        }
        k += 1;
    }
    false
}

// ---------------------------------------------------------------------------
// What a binding promises
// ---------------------------------------------------------------------------

/// A stored edge decides the binding outright, whatever the pane's cwd: it
/// binds exactly the worktree it names.
pub proof fn law_stored_edge_decides<C: Fn(&String) -> Result<String, String>>(
    canonicalize: C,
    pane: Pane,
    admin_id: Option<Seq<char>>,
    worktree: Seq<char>,
    r: bool,
)
    requires
        binds(canonicalize, pane, admin_id, worktree, r),
        pane.wt_adminid is Some,
    ensures
        r <==> admin_id == Some(pane.wt_adminid->0@),
{
}

/// A pane without a stored edge belongs to the worktree that the place it is
/// at stands in; one without a place belongs to none.
pub proof fn law_without_a_stored_edge_the_place_decides<
    C: Fn(&String) -> Result<String, String>,
>(
    canonicalize: C,
    pane: Pane,
    admin_id: Option<Seq<char>>,
    worktree: Seq<char>,
    place: Seq<char>,
    r: bool,
)
    requires
        binds(canonicalize, pane, admin_id, worktree, r),
        pane.wt_adminid is None,
    ensures
        pane.cwd is None ==> !r,
        pane.cwd is Some && (forall|s: String, found: Result<String, String>|
            s@ == pane.cwd->0@ && #[trigger] call_ensures(canonicalize, (&s,), found) ==> found
                is Ok && found->Ok_0@ == place) ==> r == components(worktree).is_prefix_of(
            components(place),
        ),
        pane.cwd is Some && (forall|s: String, found: Result<String, String>|
            s@ == pane.cwd->0@ && #[trigger] call_ensures(canonicalize, (&s,), found) ==> found
                is Err) ==> r == components(worktree).is_prefix_of(components(pane.cwd->0@)),
{
    if let Some(cwd) = pane.cwd {
        let at = choose|at: Seq<char>|
            #[trigger] settles(canonicalize, cwd@, at) && r == within(at, worktree);
        law_paths_settle_where_they_lead(canonicalize, cwd@, place, at);
    }
}

/// The windows counted are those of the bound panes, each once however many of
/// its panes are bound; windows of one id on two servers are two.
pub proof fn law_each_bound_window_counts_once(
    panes: Seq<Pane>,
    bound: Seq<bool>,
    socket: Seq<Seq<char>>,
    window: Seq<char>,
)
    requires
        bound.len() == panes.len(),
    ensures
        windows_of(panes, bound).finite(),
        windows_of(panes, bound).contains((socket, window)) <==> exists|i: int|
            0 <= i < panes.len() && bound[i] && components((#[trigger] panes[i]).socket@) == socket
                && panes[i].window@ == window,
    decreases panes.len(),
{
    if panes.len() > 0 {
        let rest = panes.drop_last();
        let last = panes.len() - 1;
        law_each_bound_window_counts_once(rest, bound.drop_last(), socket, window);
        assert(forall|i: int| 0 <= i < rest.len() ==> rest[i] == panes[i]);
        if windows_of(rest, bound.drop_last()).contains((socket, window)) {
            let i = choose|i: int|
                0 <= i < rest.len() && bound.drop_last()[i] && components(
                    (#[trigger] rest[i]).socket@,
                ) == socket && rest[i].window@ == window;
            assert(panes[i].window@ == window && bound[i]);
        }
        if exists|i: int|
            0 <= i < panes.len() && bound[i] && components((#[trigger] panes[i]).socket@) == socket
                && panes[i].window@ == window {
            let i = choose|i: int|
                0 <= i < panes.len() && bound[i] && components((#[trigger] panes[i]).socket@)
                    == socket && panes[i].window@ == window;
            if i < last {
                assert(rest[i].window@ == window && bound.drop_last()[i]);
            }
        }
    }
}

}
