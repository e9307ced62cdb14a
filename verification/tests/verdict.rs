//! Verdicts on rows written out by hand: each promise on concrete values.

use agent_sessions::command::Output;
use agent_sessions::evidence::Evidence;
use agent_sessions::forge::{ForgeStatus, Pipeline, WorkItem};
use agent_sessions::git::{Head, Repo};
use agent_sessions::vector::{
    Anchor, Base, Landed, StateVector, UpstreamState, WindowCount, WorkState,
};
use agent_sessions::verdict::{
    branch_deletion, cleanup, worktree_removal, ActionVerdict, Verdict,
};

fn unknown<T>(reason: &str) -> Evidence<T> {
    Evidence::Unknown(reason.to_owned())
}

/// The repository whose canonical common dir is `common_dir`.
fn repo_at(common_dir: &str) -> Repo {
    let git = |_: &Vec<String>, _: &Vec<String>| {
        Ok(Output { code: Some(0), stdout: common_dir.to_owned(), stderr: String::new() })
    };
    let canonicalize = |path: &String| Ok(path.clone());
    Repo::discover(&git, &canonicalize, common_dir).unwrap().unwrap()
}

fn forge(item: WorkItem) -> ForgeStatus {
    ForgeStatus { item, pipeline: Pipeline::Unknown, label: None, url: None, reason: None }
}

/// A linked worktree on a branch that landed by ancestry, with nothing in the
/// way.
fn row() -> WorkState {
    WorkState {
        repo: repo_at("/r/.git"),
        anchor: on(Head::Branch("feat".to_owned())),
        remote_url: None,
        base: Evidence::Known(Base {
            remote: "origin".to_owned(),
            branch: "main".to_owned(),
            local_ref: "refs/remotes/origin/main".to_owned(),
        }),
        vector: StateVector {
            worktree: Some("/wt".to_owned()),
            windows: WindowCount { total: 0, orphaned: 0 },
            live_pids: 0,
            live_agent_sessions: 0,
            past_agent_sessions: 0,
            dirty: Evidence::Known(false),
            commits_ahead_of_base: Evidence::Known(0),
            upstream_state: UpstreamState::NeverPushed,
            unpushed_commits: Evidence::Known(0),
            landed: Evidence::Known(Landed::AncestorMerged),
            last_git_activity: None,
        },
    }
}

fn on(head: Head) -> Anchor {
    Anchor::Worktree {
        path: "/wt".to_owned(),
        admin_id: Some("wt".to_owned()),
        head,
        main: false,
        locked: false,
    }
}

fn removal(state: &WorkState) -> ActionVerdict {
    worktree_removal(state, &forge(WorkItem::NotExisting))
}

#[test]
fn a_safe_removal_has_every_fact_proven() {
    let r = removal(&row());
    assert_eq!(r.verdict, Verdict::Safe);
    assert_eq!(r.reasons, ["clean", "nothing live", "landed on origin/main (ancestor)"]);
}

#[test]
fn every_unproven_fact_blocks_a_removal() {
    let mut s = row();
    s.vector.dirty = unknown("no status");
    assert_eq!(removal(&s).reasons, ["cannot prove the worktree is clean (no status)"]);
    let mut s = row();
    s.vector.unpushed_commits = unknown("no count");
    assert_eq!(removal(&s).reasons, ["cannot prove nothing is unpushed (no count)"]);
    let mut s = row();
    s.vector.commits_ahead_of_base = unknown("no base");
    assert_eq!(removal(&s).reasons, ["cannot prove commits relative to base (no base)"]);
    let mut s = row();
    s.vector.landed = unknown("no ancestry");
    assert_eq!(removal(&s).reasons, ["cannot prove landing (no ancestry)"]);
    let mut s = row();
    s.anchor = on(Head::Detached("abc".to_owned()));
    s.vector.unpushed_commits = unknown("no count");
    assert_eq!(
        removal(&s).reasons,
        ["detached HEAD: cannot prove commits are reachable from a ref (no count)"]
    );
    assert_eq!(removal(&s).verdict, Verdict::Blocked);
}

#[test]
fn every_hazard_is_named_in_order() {
    let mut s = row();
    s.anchor = Anchor::Worktree {
        path: "/wt".to_owned(),
        admin_id: None,
        head: Head::Branch("feat".to_owned()),
        main: true,
        locked: true,
    };
    s.vector.dirty = Evidence::Known(true);
    s.vector.live_pids = 1;
    s.vector.live_agent_sessions = 3;
    s.vector.unpushed_commits = Evidence::Known(2);
    let r = worktree_removal(&s, &forge(WorkItem::Open));
    assert_eq!(r.verdict, Verdict::Blocked);
    assert_eq!(
        r.reasons,
        [
            "main worktree",
            "uncommitted changes",
            "worktree is locked",
            "1 live process",
            "3 live agent sessions",
            "open work item",
            "2 unpushed commits",
        ]
    );
}

#[test]
fn a_detached_head_is_held_to_what_no_ref_reaches() {
    let mut s = row();
    s.anchor = on(Head::Detached("abc".to_owned()));
    s.vector.unpushed_commits = Evidence::Known(2);
    assert_eq!(
        removal(&s).reasons,
        ["detached HEAD: 2 unique commits reachable from no ref"]
    );
    // A base that cannot be compared with is no blocker by itself.
    s.vector.unpushed_commits = Evidence::Known(0);
    s.vector.commits_ahead_of_base = unknown("no base");
    assert_eq!(removal(&s).verdict, Verdict::Safe);
    // Without a count there is nothing to review either.
    s.vector.landed = Evidence::Known(Landed::No);
    let r = removal(&s);
    assert_eq!(r.verdict, Verdict::Blocked);
    assert_eq!(r.reasons, ["clean", "nothing live"]);
}

#[test]
fn the_forge_is_informational_short_of_an_open_item() {
    let s = row();
    let known = cleanup(&s, &forge(WorkItem::NotExisting));
    for item in [WorkItem::Unknown, WorkItem::Closed] {
        assert_eq!(cleanup(&s, &forge(item)), known);
    }
    let (removal, deletion) = cleanup(&s, &forge(WorkItem::Open));
    assert_eq!((removal.verdict, deletion.verdict), (Verdict::Blocked, Verdict::Blocked));
}

#[test]
fn a_deletion_is_safe_only_when_merged_by_ancestry() {
    let clear = removal(&row());
    let deletion = |s: &WorkState| branch_deletion(s, &clear, &forge(WorkItem::NotExisting));
    let mut s = row();
    assert_eq!(deletion(&s).verdict, Verdict::SafeAfterWorktreeRemoval);
    s.anchor = Anchor::Branch { name: "feat".to_owned() };
    let d = deletion(&s);
    assert_eq!(d.verdict, Verdict::Safe);
    assert_eq!(d.reasons, ["merged into origin/main", "nothing unpushed"]);
    for (landed, reason) in [
        (Landed::ContentMerged, "landed on origin/main by content, not ancestry"),
        (Landed::No, "not landed on origin/main"),
    ] {
        s.vector.landed = Evidence::Known(landed);
        let d = deletion(&s);
        assert_eq!(d.verdict, Verdict::Review);
        assert_eq!(d.reasons, ["requires `git branch -D`", reason]);
    }
    s.vector.landed = unknown("no ancestry");
    s.vector.unpushed_commits = Evidence::Known(1);
    let d = deletion(&s);
    assert_eq!(d.verdict, Verdict::Blocked);
    assert_eq!(d.reasons, ["1 unpushed commit", "cannot prove landing (no ancestry)"]);
}

#[test]
fn a_checked_out_branch_shares_its_worktrees_fate() {
    let mut s = row();
    s.vector.dirty = Evidence::Known(true);
    let (removal, deletion) = cleanup(&s, &forge(WorkItem::NotExisting));
    assert_eq!(removal.verdict, Verdict::Blocked);
    assert_eq!(deletion.verdict, Verdict::Blocked);
    assert_eq!(deletion.reasons, ["checked out in /wt, and its removal is blocked"]);
}

#[test]
fn there_is_nothing_to_act_on_without_a_worktree_or_a_branch() {
    let mut s = row();
    s.anchor = Anchor::Branch { name: "feat".to_owned() };
    let r = removal(&s);
    assert_eq!((r.verdict, r.reasons), (Verdict::NotApplicable, vec!["no worktree".to_owned()]));
    s.anchor = on(Head::Detached("abc".to_owned()));
    let (_, d) = cleanup(&s, &forge(WorkItem::NotExisting));
    assert_eq!((d.verdict, d.reasons), (Verdict::NotApplicable, vec!["no branch".to_owned()]));
}

#[test]
fn a_base_without_proof_is_said_to_be_one() {
    let mut s = row();
    s.base = unknown("no remote");
    assert_eq!(removal(&s).reasons[2], "landed on <unproven base> (ancestor)");
}

#[test]
fn verdicts_are_copied_whole() {
    let r = removal(&row());
    assert_eq!(r.clone(), r);
}
