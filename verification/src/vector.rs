//! The shared worktree state vector: the eleven derived facts that both the
//! section classification and the cleanup verdicts read.
//!
//! Runtime fields (windows, live processes, agent sessions) are injected by
//! the caller; everything else is read from Git, read-only, in this module.
//! Upstream and base evidence fail closed: a remote or branch name is never
//! guessed, so an unproven base leaves `landed` and `commits_ahead_of_base`
//! `Unknown` rather than compared against `origin/main` by convention.

pub mod anchor;
pub mod base;
pub mod cache;
pub mod landing;
pub mod row;

use vstd::prelude::*;
use vstd::string::*;

use crate::evidence::Evidence;
use crate::git::{Head, Repo, Worktree};
use crate::text::copy_text;
use crate::time::Timestamp;

pub use crate::vector::anchor::{
    adds_branches, anchors, branch_anchors, checked_out, has_anchors, head_branch,
    law_anchors_come_from_both_listings, law_every_branch_is_anchored,
    law_the_anchors_are_checkouts_and_other_branches, worktree_anchor, worktree_anchors, AnchorView,
};
pub use crate::vector::base::{
    base_branch, base_ref, finds_base, finds_base_on, finds_local_head, finds_upstream, finds_url,
    law_a_base_is_proven_by_its_tracking_ref, law_a_remote_has_its_configured_url,
    law_an_upstream_is_there_when_its_remote_lists_it, law_base_is_never_guessed,
    law_gone_is_proven, law_no_upstream_asks_no_remote, law_the_base_is_on_the_upstreams_remote,
    law_the_base_is_the_remotes_head, lists_without, proves_base, resolve_base, routed_url,
    upstream_of, upstream_state, weighs_base,
};
pub use crate::vector::cache::{
    law_evidence_is_asked_once_and_scoped, law_listings_are_asked_once_and_scoped,
    learns_advertised, learns_head, learns_refs, RemoteCache,
};
pub use crate::vector::landing::{
    changed_alike, changed_otherwise, commits_ahead, compares_by_path, counted_or, counts_range,
    finds_ahead, finds_content, finds_delta, finds_landed, finds_landed_on, finds_squashed,
    finds_unpushed, landed, landed_by_content, landed_in_content,
    law_a_failed_comparison_proves_nothing, law_an_ancestor_has_landed,
    law_commits_ahead_are_counted_from_the_base, law_identical_content_has_landed,
    law_landing_is_proven, law_not_landed_is_proven, law_nothing_is_compared_without_a_base,
    law_unpushed_is_counted_against_the_upstream, law_unrelated_or_unchanged_has_not_landed,
    no_base, one_differs, unpushed_commits,
};
pub use crate::vector::row::{
    collect, collect_cached, collects, configured_remote, finds_checkout_side, finds_commit_side,
    finds_remote_side, law_a_row_goes_by_its_configured_upstream,
    law_a_row_is_collected_at_its_anchor, law_branch_rows_are_clean,
    law_unproven_base_proves_nothing, log_of, places_upstream, reads_config, tip_of,
};

verus! {

/// What a Work row is anchored on. Branch incarnations and detached
/// worktrees are the Git anchors; non-Git paths are project spaces and never
/// reach the vector.
#[derive(Debug)]
pub enum Anchor {
    /// A checkout on disk.
    Worktree {
        path: String,
        admin_id: Option<String>,
        head: Head,
        /// The repository's own checkout, which can never be removed.
        main: bool,
        locked: bool,
    },
    /// A local branch with no worktree anywhere.
    Branch { name: String },
}

impl Anchor {
    /// The name of the branch this anchor sits on, if any.
    pub open spec fn branch_name(self) -> Option<Seq<char>> {
        match self {
            Anchor::Branch { name } => Some(name@),
            Anchor::Worktree { head: Head::Branch(name), .. } => Some(name@),
            Anchor::Worktree { head: Head::Unborn(name), .. } => Some(name@),
            Anchor::Worktree { head: Head::Detached(_), .. } => None,
        }
    }

    /// The branch this anchor sits on, if any.
    pub fn branch(&self) -> (r: Option<&str>)
        ensures
            r.deep_view() == self.branch_name(),
    {
        match self {
            Anchor::Branch { name } => Some(name.as_str()),
            Anchor::Worktree { head, .. } => match head {
                Head::Branch(name) => Some(name.as_str()),
                Head::Unborn(name) => Some(name.as_str()),
                Head::Detached(_) => None,
            },
        }
    }
}

impl Clone for Anchor {
    fn clone(&self) -> (r: Anchor)
        ensures
            r == *self,
    {
        match self {
            Anchor::Worktree { path, admin_id, head, main, locked } => Anchor::Worktree {
                path: path.clone(),
                admin_id: copy_text(admin_id),
                head: head.clone(),
                main: *main,
                locked: *locked,
            },
            Anchor::Branch { name } => Anchor::Branch { name: name.clone() },
        }
    }
}

/// tmux windows attached to the anchor: total and how many are orphaned.
/// Supplied by the runtime inventory; the Git substrate cannot see them.
#[derive(Debug, Clone, Copy, PartialEq, Eq, Structural)]
pub struct WindowCount {
    pub total: usize,
    pub orphaned: usize,
}

impl Default for WindowCount {
    fn default() -> (r: WindowCount)
        ensures
            r == (WindowCount { total: 0, orphaned: 0 }),
    {
        WindowCount { total: 0, orphaned: 0 }
    }
}

/// Facts the Git substrate cannot see, injected per collection so tests and
/// collectors share one code path.
#[derive(Debug, Clone, Copy)]
pub struct RuntimeFacts {
    pub windows: WindowCount,
    /// Live processes rooted at or below the worktree.
    pub live_pids: usize,
    /// Agent session records whose `(pid, pid_start)` is live.
    pub live_agent_sessions: usize,
    /// Agent sessions ever recorded for the path, live or not.
    pub past_agent_sessions: usize,
}

impl Default for RuntimeFacts {
    fn default() -> (r: RuntimeFacts)
        ensures
            r == (RuntimeFacts {
                windows: WindowCount { total: 0, orphaned: 0 },
                live_pids: 0,
                live_agent_sessions: 0,
                past_agent_sessions: 0,
            }),
    {
        RuntimeFacts {
            windows: WindowCount { total: 0, orphaned: 0 },
            live_pids: 0,
            live_agent_sessions: 0,
            past_agent_sessions: 0,
        }
    }
}

/// `upstream_state`: whether the branch's configured upstream still exists
/// on the remote. `remote_gone` is only claimed when `ls-remote` proves it -
/// a remote that cannot be reached is `Unknown`, not gone.
#[derive(Debug, PartialEq, Eq)]
pub enum UpstreamState {
    /// No `branch.<name>.remote`/`.merge` configured.
    NeverPushed,
    /// Configured, and the remote still advertises the merge ref.
    Advertised { remote: String, merge_ref: String },
    /// Configured, and `ls-remote` proves the remote no longer has it.
    RemoteGone { remote: String, merge_ref: String },
    /// Configured partially or the remote could not be asked.
    Unknown(String),
    /// Detached HEAD: there is no branch to track.
    NotApplicable,
}

impl Clone for UpstreamState {
    fn clone(&self) -> (r: UpstreamState)
        ensures
            r == *self,
    {
        match self {
            UpstreamState::NeverPushed => UpstreamState::NeverPushed,
            UpstreamState::Advertised { remote, merge_ref } => UpstreamState::Advertised {
                remote: remote.clone(),
                merge_ref: merge_ref.clone(),
            },
            UpstreamState::RemoteGone { remote, merge_ref } => UpstreamState::RemoteGone {
                remote: remote.clone(),
                merge_ref: merge_ref.clone(),
            },
            UpstreamState::Unknown(reason) => UpstreamState::Unknown(reason.clone()),
            UpstreamState::NotApplicable => UpstreamState::NotApplicable,
        }
    }
}

/// The value of an [`UpstreamState`], with its text as characters.
pub enum UpstreamView {
    NeverPushed,
    Advertised { remote: Seq<char>, merge_ref: Seq<char> },
    RemoteGone { remote: Seq<char>, merge_ref: Seq<char> },
    Unknown(Seq<char>),
    NotApplicable,
}

impl DeepView for UpstreamState {
    type V = UpstreamView;

    open spec fn deep_view(&self) -> UpstreamView {
        match *self {
            UpstreamState::NeverPushed => UpstreamView::NeverPushed,
            UpstreamState::Advertised { remote, merge_ref } => UpstreamView::Advertised {
                remote: remote@,
                merge_ref: merge_ref@,
            },
            UpstreamState::RemoteGone { remote, merge_ref } => UpstreamView::RemoteGone {
                remote: remote@,
                merge_ref: merge_ref@,
            },
            UpstreamState::Unknown(reason) => UpstreamView::Unknown(reason@),
            UpstreamState::NotApplicable => UpstreamView::NotApplicable,
        }
    }
}

/// Whether HEAD's content already lives on the proven base.
#[derive(Debug, Clone, Copy, PartialEq, Eq, Structural)]
pub enum Landed {
    /// Proven not landed (including the no-delta case: nothing to land).
    No,
    /// HEAD is an ancestor of the base ref.
    AncestorMerged,
    /// Every path HEAD changed relative to the merge base is identical on
    /// the base - the squash- or rebase-landed shape `git cherry` cannot see.
    ContentMerged,
}

impl DeepView for Landed {
    type V = Landed;

    open spec fn deep_view(&self) -> Landed {
        *self
    }
}

/// A proven base: the remote's symbolic HEAD branch, corroborated by
/// non-conflicting local and `ls-remote` evidence, with the local
/// remote-tracking ref the comparisons actually run against.
#[derive(Debug)]
pub struct Base {
    pub remote: String,
    pub branch: String,
    /// `refs/remotes/<remote>/<branch>`.
    pub local_ref: String,
}

impl Clone for Base {
    fn clone(&self) -> (r: Base)
        ensures
            r == *self,
    {
        Base {
            remote: self.remote.clone(),
            branch: self.branch.clone(),
            local_ref: self.local_ref.clone(),
        }
    }
}

/// The value of a [`Base`], with its text as characters.
pub struct BaseView {
    pub remote: Seq<char>,
    pub branch: Seq<char>,
    pub local_ref: Seq<char>,
}

impl DeepView for Base {
    type V = BaseView;

    open spec fn deep_view(&self) -> BaseView {
        BaseView { remote: self.remote@, branch: self.branch@, local_ref: self.local_ref@ }
    }
}

impl Base {
    /// `origin/main` style label for reasons and views.
    pub fn label(&self) -> (r: String)
        ensures
            r@ == self.remote@ + "/"@ + self.branch@,
    {
        let mut out = self.remote.clone();
        out.append("/");
        out.append(self.branch.as_str());
        out
    }
}

/// The eleven shared fields, plus the provenance (`base`, upstream detail) a
/// verdict or view needs to explain them.
#[derive(Debug)]
pub struct WorkState {
    pub repo: Repo,
    pub anchor: Anchor,
    /// URL of the upstream remote, when the branch has one.
    pub remote_url: Option<String>,
    pub base: Evidence<Base>,
    pub vector: StateVector,
}

#[derive(Debug)]
pub struct StateVector {
    /// The checkout path, or `None` for a branch with no workspace.
    pub worktree: Option<String>,
    pub windows: WindowCount,
    pub live_pids: usize,
    pub live_agent_sessions: usize,
    pub past_agent_sessions: usize,
    /// Tracked and untracked changes; `Known(false)` for a branch-only row.
    pub dirty: Evidence<bool>,
    pub commits_ahead_of_base: Evidence<u64>,
    pub upstream_state: UpstreamState,
    /// Commits not reachable from the configured upstream. For a
    /// never-pushed branch every commit past the base is unpushed by
    /// definition; for a detached HEAD it is every commit no ref reaches.
    pub unpushed_commits: Evidence<u64>,
    pub landed: Evidence<Landed>,
    /// Newest of the worktree HEAD (or branch) reflog's last entry and its
    /// mtime.
    pub last_git_activity: Option<Timestamp>,
}

}
