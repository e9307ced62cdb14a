//! Independent per-action cleanup verdicts: `safe`, `review` or `blocked`,
//! each with the reasons that produced it.
//!
//! Verdicts are derived, never authored, and fail closed: a local safety
//! fact that cannot be proven (dirty, unpushed, commits relative to base)
//! blocks, while forge work-item state is informational - an `unknown` forge
//! never blocks by itself, but a known open pull request or merge request
//! does. A `review` verdict names the force the action would need; `blocked`
//! means a fact must change before the action is even offered.

use vstd::prelude::*;
use vstd::string::*;

use crate::command::Reply;
use crate::evidence::{Evidence, EvidenceView};
use crate::forge::{ForgeStatus, WorkItem};
use crate::git::{has_dirt, Head, Repo};
use crate::text::{decimal, print_u64};
use crate::time::Timestamp;
use crate::vector::{
    collects, finds_unpushed, landed_in_content, law_landing_is_proven, tip_of, Anchor, Base,
    BaseView, Landed, RemoteCache, RuntimeFacts, StateVector, UpstreamState, WorkState,
};

verus! {

/// The verdict on one cleanup action.
#[derive(Debug, Clone, Copy, PartialEq, Eq, Structural)]
pub enum Verdict {
    /// The action is provably lossless.
    Safe,
    /// Branch deletion only: the branch is checked out in this row's
    /// worktree, so the deletion is ordered after - and conditioned on - the
    /// worktree's removal.
    SafeAfterWorktreeRemoval,
    /// The action needs an explicit human decision; the reasons name the
    /// force it would take (e.g. `git branch -D`).
    Review,
    /// A fact must change first; the action is not offered.
    Blocked,
    /// There is nothing to act on (a branch-only row has no worktree).
    NotApplicable,
}

#[derive(Debug, PartialEq, Eq)]
pub struct ActionVerdict {
    pub verdict: Verdict,
    pub reasons: Vec<String>,
}

impl DeepView for ActionVerdict {
    type V = (Verdict, Seq<Seq<char>>);

    open spec fn deep_view(&self) -> (Verdict, Seq<Seq<char>>) {
        (self.verdict, self.reasons.deep_view())
    }
}

impl Clone for ActionVerdict {
    fn clone(&self) -> (r: ActionVerdict)
        ensures
            r.deep_view() == self.deep_view(),
    {
        let reasons = self.reasons.clone();
        assert(reasons.deep_view() =~= self.reasons.deep_view());
        ActionVerdict { verdict: self.verdict, reasons }
    }
}

// ---------------------------------------------------------------------------
// Reasons
// ---------------------------------------------------------------------------

/// `text` as a list of one when it applies, else nothing.
pub open spec fn when(applies: bool, text: Seq<char>) -> Seq<Seq<char>> {
    if applies {
        seq![text]
    } else {
        seq![]
    }
}

/// `1 noun`, or the count and the noun with an `s`.
pub open spec fn counted(n: nat, noun: Seq<char>) -> Seq<char> {
    if n == 1 {
        "1 "@ + noun
    } else {
        decimal(n) + " "@ + noun + "s"@
    }
}

/// The base's label, or a stand-in for a base that is not proven.
pub open spec fn base_text(base: Evidence<Base>) -> Seq<char> {
    match base {
        Evidence::Known(base) => base.remote@ + "/"@ + base.branch@,
        Evidence::Unknown(_) => "<unproven base>"@,
    }
}

/// Why the working tree may hold work of its own.
pub open spec fn dirty_blockers(dirty: Evidence<bool>) -> Seq<Seq<char>> {
    match dirty {
        Evidence::Known(dirty) => when(dirty, "uncommitted changes"@),
        Evidence::Unknown(reason) => seq![
            "cannot prove the worktree is clean ("@ + reason@ + ")"@,
        ],
    }
}

/// A known open work item blocks; an unknown one does not.
pub open spec fn item_blockers(forge: ForgeStatus) -> Seq<Seq<char>> {
    when(
        forge.item == WorkItem::Open,
        "open "@ + match forge.label {
            Some(label) => label@,
            None => "work item"@,
        },
    )
}

/// Why a branch may hold commits its upstream does not.
pub open spec fn unpushed_blockers(unpushed: Evidence<u64>) -> Seq<Seq<char>> {
    match unpushed {
        Evidence::Known(n) => when(n > 0, counted(n as nat, "unpushed commit"@)),
        Evidence::Unknown(reason) => seq!["cannot prove nothing is unpushed ("@ + reason@ + ")"@],
    }
}

/// Why a detached HEAD may hold commits that die with the worktree.
pub open spec fn detached_blockers(unpushed: Evidence<u64>) -> Seq<Seq<char>> {
    match unpushed {
        Evidence::Known(n) => when(
            n > 0,
            "detached HEAD: "@ + counted(n as nat, "unique commit"@) + " reachable from no ref"@,
        ),
        Evidence::Unknown(reason) => seq![
            "detached HEAD: cannot prove commits are reachable from a ref ("@ + reason@ + ")"@,
        ],
    }
}

/// A base the branch cannot be compared with blocks.
pub open spec fn base_blockers(ahead: Evidence<u64>) -> Seq<Seq<char>> {
    match ahead {
        Evidence::Known(_) => seq![],
        Evidence::Unknown(reason) => seq![
            "cannot prove commits relative to base ("@ + reason@ + ")"@,
        ],
    }
}

/// Why commits of the worktree's HEAD may be lost.
pub open spec fn commit_blockers(head: Head, v: StateVector) -> Seq<Seq<char>> {
    if head is Detached {
        detached_blockers(v.unpushed_commits)
    } else {
        unpushed_blockers(v.unpushed_commits) + base_blockers(v.commits_ahead_of_base)
    }
}

// ---------------------------------------------------------------------------
// Worktree removal
// ---------------------------------------------------------------------------

/// Everything that blocks the removal of the worktree `state` is anchored on.
pub open spec fn removal_blockers(state: WorkState, forge: ForgeStatus) -> Seq<Seq<char>> {
    let v = state.vector;
    match state.anchor {
        Anchor::Worktree { head, main, locked, .. } => {
            when(main, "main worktree"@) + dirty_blockers(v.dirty) + when(
                locked,
                "worktree is locked"@,
            ) + when(v.live_pids > 0, counted(v.live_pids as nat, "live process"@)) + when(
                v.live_agent_sessions > 0,
                counted(v.live_agent_sessions as nat, "live agent session"@),
            ) + item_blockers(forge) + commit_blockers(head, v)
        },
        Anchor::Branch { .. } => seq![],
    }
}

/// What speaks for a removal that nothing blocks.
pub open spec fn removal_grounds(v: StateVector) -> Seq<Seq<char>> {
    seq!["clean"@, "nothing live"@] + when(
        v.upstream_state is RemoteGone,
        "upstream gone; probably landed"@,
    )
}

/// What a human decides on when commits are ahead of the base and not landed.
pub open spec fn unlanded_reasons(state: WorkState, ahead: nat) -> Seq<Seq<char>> {
    let first = decimal(ahead) + " commit"@ + (if ahead == 1 {
        ""@
    } else {
        "s"@
    }) + " ahead of "@ + base_text(state.base) + " and not landed"@;
    match state.anchor.branch_name() {
        Some(branch) => seq![first, "removal keeps branch "@ + branch + " and its commits"@],
        None => seq![first],
    }
}

/// The verdict on removing the worktree, and its reasons.
pub open spec fn removal(state: WorkState, forge: ForgeStatus) -> (Verdict, Seq<Seq<char>>) {
    let v = state.vector;
    let blockers = removal_blockers(state, forge);
    if state.anchor is Branch {
        (Verdict::NotApplicable, seq!["no worktree"@])
    } else if blockers.len() > 0 {
        (Verdict::Blocked, blockers)
    } else {
        match v.landed {
            Evidence::Known(Landed::AncestorMerged) => (
                Verdict::Safe,
                removal_grounds(v).push("landed on "@ + base_text(state.base) + " (ancestor)"@),
            ),
            Evidence::Known(Landed::ContentMerged) => (
                Verdict::Safe,
                removal_grounds(v).push(
                    "landed on "@ + base_text(state.base) + " (content match)"@,
                ),
            ),
            Evidence::Known(Landed::No) => match v.commits_ahead_of_base {
                Evidence::Known(n) => (Verdict::Review, unlanded_reasons(state, n as nat)),
                Evidence::Unknown(_) => (Verdict::Blocked, removal_grounds(v)),
            },
            Evidence::Unknown(reason) => (
                Verdict::Blocked,
                seq!["cannot prove landing ("@ + reason@ + ")"@],
            ),
        }
    }
}

// ---------------------------------------------------------------------------
// Branch deletion
// ---------------------------------------------------------------------------

/// The path of the worktree the branch is checked out in, if it is.
pub open spec fn checkout_of(anchor: Anchor) -> Option<Seq<char>> {
    match anchor {
        Anchor::Worktree { path, .. } => Some(path@),
        Anchor::Branch { .. } => None,
    }
}

/// A landing that is not proven blocks the deletion.
pub open spec fn landing_blockers(landed: Evidence<Landed>) -> Seq<Seq<char>> {
    match landed {
        Evidence::Known(_) => seq![],
        Evidence::Unknown(reason) => seq!["cannot prove landing ("@ + reason@ + ")"@],
    }
}

/// A branch checked out in a worktree shares its fate.
pub open spec fn checkout_blockers(anchor: Anchor, removal: Verdict) -> Seq<Seq<char>> {
    match checkout_of(anchor) {
        Some(path) => when(
            removal == Verdict::Blocked,
            "checked out in "@ + path + ", and its removal is blocked"@,
        ),
        None => seq![],
    }
}

/// Everything that blocks the deletion of the branch.
pub open spec fn deletion_blockers(
    state: WorkState,
    removal: Verdict,
    forge: ForgeStatus,
) -> Seq<Seq<char>> {
    item_blockers(forge) + unpushed_blockers(state.vector.unpushed_commits) + landing_blockers(
        state.vector.landed,
    ) + checkout_blockers(state.anchor, removal)
}

/// What the landing alone says of a deletion that nothing blocks.
pub open spec fn deletion_grounds(state: WorkState, landed: Landed) -> (
    Verdict,
    Seq<Seq<char>>,
) {
    let base = base_text(state.base);
    match landed {
        Landed::AncestorMerged => (
            Verdict::Safe,
            seq!["merged into "@ + base, "nothing unpushed"@],
        ),
        Landed::ContentMerged => (
            Verdict::Review,
            seq![
                "requires `git branch -D`"@,
                "landed on "@ + base + " by content, not ancestry"@,
            ],
        ),
        Landed::No => (
            Verdict::Review,
            seq!["requires `git branch -D`"@, "not landed on "@ + base],
        ),
    }
}

/// The verdict on deleting the branch, given the one on removing its worktree.
pub open spec fn deletion(state: WorkState, removal: Verdict, forge: ForgeStatus) -> (
    Verdict,
    Seq<Seq<char>>,
) {
    let blockers = deletion_blockers(state, removal, forge);
    if state.anchor.branch_name() is None {
        (Verdict::NotApplicable, seq!["no branch"@])
    } else if blockers.len() > 0 {
        (Verdict::Blocked, blockers)
    } else {
        let (verdict, reasons) = deletion_grounds(state, state.vector.landed->Known_0);
        match checkout_of(state.anchor) {
            Some(path) => (
                if verdict == Verdict::Safe {
                    Verdict::SafeAfterWorktreeRemoval
                } else {
                    verdict
                },
                reasons.push(
                    "checked out in "@ + path + "; deleted after the worktree is removed"@,
                ),
            ),
            None => (verdict, reasons),
        }
    }
}

// ---------------------------------------------------------------------------
// Collecting reasons
// ---------------------------------------------------------------------------

/// Append one reason.
fn note(list: &mut Vec<String>, reason: String)
    ensures
        final(list).deep_view() == old(list).deep_view().push(reason@),
{
    list.push(reason);
    assert(list.deep_view() =~= old(list).deep_view().push(reason@));
}

/// Append one reason when it applies.
fn note_when(list: &mut Vec<String>, applies: bool, reason: &str)
    ensures
        final(list).deep_view() == old(list).deep_view() + when(applies, reason@),
{
    if applies {
        note(list, reason.to_owned());
    }
    assert(list.deep_view() =~= old(list).deep_view() + when(applies, reason@));
}

/// `before`, the reason and `after` in one text.
fn wrap(before: &str, middle: &str, after: &str) -> (r: String)
    ensures
        r@ == before@ + middle@ + after@,
{
    let mut out = before.to_owned();
    out.append(middle);
    out.append(after);
    out
}

fn plural(n: u64, noun: &str) -> (r: String)
    ensures
        r@ == counted(n as nat, noun@),
{
    if n == 1 {
        let mut out = "1 ".to_owned();
        out.append(noun);
        out
    } else {
        let mut out = print_u64(n);
        out.append(" ");
        out.append(noun);
        out.append("s");
        out
    }
}

fn base_label(state: &WorkState) -> (r: String)
    ensures
        r@ == base_text(state.base),
{
    match &state.base {
        Evidence::Known(base) => base.label(),
        Evidence::Unknown(_) => "<unproven base>".to_owned(),
    }
}

fn note_dirty(list: &mut Vec<String>, dirty: &Evidence<bool>)
    ensures
        final(list).deep_view() == old(list).deep_view() + dirty_blockers(*dirty),
{
    match dirty {
        Evidence::Known(dirty) => note_when(list, *dirty, "uncommitted changes"),
        Evidence::Unknown(reason) => note(
            list,
            wrap("cannot prove the worktree is clean (", reason.as_str(), ")"),
        ),
    }
    assert(list.deep_view() =~= old(list).deep_view() + dirty_blockers(*dirty));
}

fn note_item(list: &mut Vec<String>, forge: &ForgeStatus)
    ensures
        final(list).deep_view() == old(list).deep_view() + item_blockers(*forge),
{
    let mut reason = "open ".to_owned();
    match &forge.label {
        Some(label) => reason.append(label.as_str()),
        None => reason.append("work item"),
    }
    note_when(list, forge.item == WorkItem::Open, reason.as_str());
}

fn note_unpushed(list: &mut Vec<String>, unpushed: &Evidence<u64>)
    ensures
        final(list).deep_view() == old(list).deep_view() + unpushed_blockers(*unpushed),
{
    match unpushed {
        Evidence::Known(n) => {
            let reason = plural(*n, "unpushed commit");
            note_when(list, *n > 0, reason.as_str());
        },
        Evidence::Unknown(reason) => note(
            list,
            wrap("cannot prove nothing is unpushed (", reason.as_str(), ")"),
        ),
    }
    assert(list.deep_view() =~= old(list).deep_view() + unpushed_blockers(*unpushed));
}

fn note_commits(list: &mut Vec<String>, head: &Head, v: &StateVector)
    ensures
        final(list).deep_view() == old(list).deep_view() + commit_blockers(*head, *v),
{
    match head {
        Head::Detached(_) => match &v.unpushed_commits {
            Evidence::Known(n) => {
                let count = plural(*n, "unique commit");
                let reason = wrap("detached HEAD: ", count.as_str(), " reachable from no ref");
                note_when(list, *n > 0, reason.as_str());
            },
            Evidence::Unknown(reason) => note(
                list,
                wrap(
                    "detached HEAD: cannot prove commits are reachable from a ref (",
                    reason.as_str(),
                    ")",
                ),
            ),
        },
        _ => {
            note_unpushed(list, &v.unpushed_commits);
            if let Evidence::Unknown(reason) = &v.commits_ahead_of_base {
                note(list, wrap("cannot prove commits relative to base (", reason.as_str(), ")"));
            }
        },
    }
    assert(list.deep_view() =~= old(list).deep_view() + commit_blockers(*head, *v));
}

/// Would `git worktree remove` be a provably lossless act?
///
/// Blockers: the main worktree, uncommitted changes, a locked worktree, live
/// processes or agent sessions, a known open work item, unpushed commits,
/// detached unique commits, and any unproven local safety fact.
/// Unlanded-but-referenced commits are `review`: the branch keeps them, but
/// removing the workspace of unfinished work is a human's call.
pub fn worktree_removal(state: &WorkState, forge: &ForgeStatus) -> (r: ActionVerdict)
    ensures
        r.deep_view() == removal(*state, *forge),
{
    let Anchor::Worktree { head, main, locked, .. } = &state.anchor else {
        let mut reasons: Vec<String> = Vec::new();
        note(&mut reasons, "no worktree".to_owned());
        assert(reasons.deep_view() =~= seq!["no worktree"@]);
        return ActionVerdict { verdict: Verdict::NotApplicable, reasons };
    };
    let v = &state.vector;
    let mut blockers: Vec<String> = Vec::new();

    // `git worktree remove` refuses the main working tree outright.
    note_when(&mut blockers, *main, "main worktree");
    note_dirty(&mut blockers, &v.dirty);
    note_when(&mut blockers, *locked, "worktree is locked");
    let processes = plural(v.live_pids as u64, "live process");
    note_when(&mut blockers, v.live_pids > 0, processes.as_str());
    let sessions = plural(v.live_agent_sessions as u64, "live agent session");
    note_when(&mut blockers, v.live_agent_sessions > 0, sessions.as_str());
    note_item(&mut blockers, forge);
    note_commits(&mut blockers, head, v);
    assert(blockers.deep_view() =~= removal_blockers(*state, *forge));

    if !blockers.is_empty() {
        return ActionVerdict { verdict: Verdict::Blocked, reasons: blockers };
    }
    let mut reasons: Vec<String> = Vec::new();
    note(&mut reasons, "clean".to_owned());
    note(&mut reasons, "nothing live".to_owned());
    // A deleted remote branch is the strongest "merged" signal: it survives
    // squash and rebase merges that erase commit identity.
    let gone = match v.upstream_state {
        UpstreamState::RemoteGone { .. } => true,
        _ => false,
    };
    note_when(&mut reasons, gone, "upstream gone; probably landed");
    assert(reasons.deep_view() =~= removal_grounds(*v));
    let base = base_label(state);
    match &v.landed {
        Evidence::Known(Landed::AncestorMerged) => {
            note(&mut reasons, wrap("landed on ", base.as_str(), " (ancestor)"));
            ActionVerdict { verdict: Verdict::Safe, reasons }
        },
        Evidence::Known(Landed::ContentMerged) => {
            note(&mut reasons, wrap("landed on ", base.as_str(), " (content match)"));
            ActionVerdict { verdict: Verdict::Safe, reasons }
        },
        Evidence::Known(Landed::No) => match v.commits_ahead_of_base {
            Evidence::Known(n) => {
                let mut first = print_u64(n);
                first.append(" commit");
                first.append(
                    if n == 1 {
                        ""
                    } else {
                        "s"
                    },
                );
                first.append(" ahead of ");
                first.append(base.as_str());
                first.append(" and not landed");
                let mut reasons: Vec<String> = Vec::new();
                note(&mut reasons, first);
                if let Some(branch) = state.anchor.branch() {
                    note(&mut reasons, wrap("removal keeps branch ", branch, " and its commits"));
                }
                assert(reasons.deep_view() =~= unlanded_reasons(*state, n as nat));
                ActionVerdict { verdict: Verdict::Review, reasons }
            },
            // Only a detached HEAD gets here: elsewhere an unknown count is a
            // blocker.
            Evidence::Unknown(_) => ActionVerdict { verdict: Verdict::Blocked, reasons },
        },
        Evidence::Unknown(reason) => blocked_landing(reason.as_str()),
    }
}

fn blocked_landing(reason: &str) -> (r: ActionVerdict)
    ensures
        r.deep_view() == (Verdict::Blocked, seq!["cannot prove landing ("@ + reason@ + ")"@]),
{
    let mut reasons: Vec<String> = Vec::new();
    note(&mut reasons, wrap("cannot prove landing (", reason, ")"));
    assert(reasons.deep_view() =~= seq!["cannot prove landing ("@ + reason@ + ")"@]);
    ActionVerdict { verdict: Verdict::Blocked, reasons }
}

/// Would `git branch -d` be a provably lossless act?
///
/// `-d` succeeds only for a branch merged by ancestry; content-merged or
/// unlanded work needs `git branch -D`, which is what `review` means here.
/// A branch checked out in this row's worktree is ordered after the
/// worktree's removal (`safe after worktree removal`), and shares its fate
/// when the removal is blocked.
pub fn branch_deletion(
    state: &WorkState,
    removal: &ActionVerdict,
    forge: &ForgeStatus,
) -> (r: ActionVerdict)
    ensures
        r.deep_view() == deletion(*state, removal.verdict, *forge),
{
    if state.anchor.branch().is_none() {
        let mut reasons: Vec<String> = Vec::new();
        note(&mut reasons, "no branch".to_owned());
        assert(reasons.deep_view() =~= seq!["no branch"@]);
        return ActionVerdict { verdict: Verdict::NotApplicable, reasons };
    }
    let v = &state.vector;
    let checked_out_in: Option<&str> = match &state.anchor {
        Anchor::Worktree { path, .. } => Some(path.as_str()),
        Anchor::Branch { .. } => None,
    };

    let mut blockers: Vec<String> = Vec::new();
    note_item(&mut blockers, forge);
    note_unpushed(&mut blockers, &v.unpushed_commits);
    if let Evidence::Unknown(reason) = &v.landed {
        note(&mut blockers, wrap("cannot prove landing (", reason.as_str(), ")"));
    }
    if let Some(path) = checked_out_in {
        let reason = wrap("checked out in ", path, ", and its removal is blocked");
        note_when(&mut blockers, removal.verdict == Verdict::Blocked, reason.as_str());
    }
    assert(blockers.deep_view() =~= deletion_blockers(*state, removal.verdict, *forge));
    if !blockers.is_empty() {
        return ActionVerdict { verdict: Verdict::Blocked, reasons: blockers };
    }

    let base = base_label(state);
    let mut reasons: Vec<String> = Vec::new();
    let verdict = match &v.landed {
        Evidence::Known(Landed::AncestorMerged) => {
            note(&mut reasons, wrap("merged into ", base.as_str(), ""));
            note(&mut reasons, "nothing unpushed".to_owned());
            Verdict::Safe
        },
        Evidence::Known(Landed::ContentMerged) => {
            note(&mut reasons, "requires `git branch -D`".to_owned());
            note(&mut reasons, wrap("landed on ", base.as_str(), " by content, not ancestry"));
            Verdict::Review
        },
        Evidence::Known(Landed::No) => {
            note(&mut reasons, "requires `git branch -D`".to_owned());
            note(&mut reasons, wrap("not landed on ", base.as_str(), ""));
            Verdict::Review
        },
        // An unproven landing is a blocker above.
        Evidence::Unknown(reason) => {
            return blocked_landing(reason.as_str());
        },
    };
    proof {
        reveal_strlit("");
        assert(""@ =~= seq![]);
        assert("merged into "@ + base@ + ""@ =~= "merged into "@ + base@);
        assert("not landed on "@ + base@ + ""@ =~= "not landed on "@ + base@);
        assert(reasons.deep_view() =~= deletion_grounds(*state, v.landed->Known_0).1);
    }
    match checked_out_in {
        Some(path) => {
            note(
                &mut reasons,
                wrap("checked out in ", path, "; deleted after the worktree is removed"),
            );
            if verdict == Verdict::Safe {
                ActionVerdict { verdict: Verdict::SafeAfterWorktreeRemoval, reasons }
            } else {
                ActionVerdict { verdict, reasons }
            }
        },
        None => ActionVerdict { verdict, reasons },
    }
}

/// Both verdicts of a row, in the order a cleanup plan presents them:
/// worktree removal first, then branch deletion, which may depend on it.
pub fn cleanup(state: &WorkState, forge: &ForgeStatus) -> (r: (ActionVerdict, ActionVerdict))
    ensures
        r.0.deep_view() == removal(*state, *forge),
        r.1.deep_view() == deletion(*state, removal(*state, *forge).0, *forge),
{
    let removal = worktree_removal(state, forge);
    let deletion = branch_deletion(state, &removal, forge);
    (removal, deletion)
}

// ---------------------------------------------------------------------------
// What the verdicts promise
// ---------------------------------------------------------------------------

/// Nothing blocks a removal exactly when no single ground does.
proof fn lemma_removal_blockers(state: WorkState, forge: ForgeStatus)
    requires
        state.anchor is Worktree,
    ensures
        removal_blockers(state, forge).len() == 0 <==> {
            let v = state.vector;
            let anchor = state.anchor;
            &&& !anchor->main
            &&& !anchor->locked
            &&& v.dirty == Evidence::<bool>::Known(false)
            &&& v.live_pids == 0
            &&& v.live_agent_sessions == 0
            &&& forge.item != WorkItem::Open
            &&& v.unpushed_commits == Evidence::<u64>::Known(0)
            &&& anchor->head is Detached || v.commits_ahead_of_base is Known
        },
{
    let v = state.vector;
    let anchor = state.anchor;
    let main = when(anchor->main, "main worktree"@);
    let dirty = dirty_blockers(v.dirty);
    let locked = when(anchor->locked, "worktree is locked"@);
    let live = when(v.live_pids > 0, counted(v.live_pids as nat, "live process"@));
    let sessions = when(
        v.live_agent_sessions > 0,
        counted(v.live_agent_sessions as nat, "live agent session"@),
    );
    let item = item_blockers(forge);
    let commits = commit_blockers(anchor->head, v);
    assert(removal_blockers(state, forge) == main + dirty + locked + live + sessions + item
        + commits);
    assert(removal_blockers(state, forge).len() == main.len() + dirty.len() + locked.len()
        + live.len() + sessions.len() + item.len() + commits.len());
    assert(commits.len() == 0 <==> v.unpushed_commits == Evidence::<u64>::Known(0) && (
    anchor->head is Detached || v.commits_ahead_of_base is Known));
}

/// A removal is `Safe` only when every local safety fact is proven: a linked,
/// clean, unlocked worktree, nothing live in it, no open work item, nothing
/// unpushed, and its content landed on the base.
pub proof fn law_safe_removal_loses_nothing(state: WorkState, forge: ForgeStatus)
    requires
        removal(state, forge).0 == Verdict::Safe,
    ensures
        state.anchor matches Anchor::Worktree { head, main, locked, .. } && !main && !locked && (
        head is Detached || state.vector.commits_ahead_of_base is Known),
        state.vector.dirty == Evidence::<bool>::Known(false),
        state.vector.live_pids == 0,
        state.vector.live_agent_sessions == 0,
        forge.item != WorkItem::Open,
        state.vector.unpushed_commits == Evidence::<u64>::Known(0),
        state.vector.landed == Evidence::<Landed>::Known(Landed::AncestorMerged)
            || state.vector.landed == Evidence::<Landed>::Known(Landed::ContentMerged),
{
    if state.anchor is Worktree {
        lemma_removal_blockers(state, forge);
    }
}

/// Verdicts fail closed: a worktree with an unproven local safety fact is
/// never offered for removal. (A detached HEAD is held to the commits no ref
/// reaches rather than to the base.)
pub proof fn law_unproven_fact_blocks_removal(state: WorkState, forge: ForgeStatus)
    requires
        state.anchor matches Anchor::Worktree { head, .. } && (state.vector.dirty is Unknown
            || state.vector.unpushed_commits is Unknown || state.vector.landed is Unknown || (
        head !is Detached && state.vector.commits_ahead_of_base is Unknown)),
    ensures
        removal(state, forge).0 == Verdict::Blocked,
{
    lemma_removal_blockers(state, forge);
}

/// Anything live in the worktree, a lock, local changes, unpushed commits or
/// the main worktree itself blocks its removal.
pub proof fn law_known_hazard_blocks_removal(state: WorkState, forge: ForgeStatus)
    requires
        state.anchor matches Anchor::Worktree { main, locked, .. } && (main || locked
            || state.vector.dirty == Evidence::<bool>::Known(true) || state.vector.live_pids > 0
            || state.vector.live_agent_sessions > 0 || (
        state.vector.unpushed_commits matches Evidence::Known(n) && n > 0)),
    ensures
        removal(state, forge).0 == Verdict::Blocked,
{
    lemma_removal_blockers(state, forge);
}

/// A known open work item blocks both actions.
pub proof fn law_open_item_blocks(state: WorkState, removed: Verdict, forge: ForgeStatus)
    requires
        forge.item == WorkItem::Open,
    ensures
        state.anchor is Worktree ==> removal(state, forge).0 == Verdict::Blocked,
        state.anchor.branch_name() is Some ==> deletion(state, removed, forge).0
            == Verdict::Blocked,
{
    if state.anchor is Worktree {
        lemma_removal_blockers(state, forge);
    }
}

/// Forge state is informational: short of a known open item, nothing the
/// forge says, or fails to say, changes a verdict or a reason.
pub proof fn law_forge_is_informational(
    state: WorkState,
    removed: Verdict,
    asked: ForgeStatus,
    unasked: ForgeStatus,
)
    requires
        asked.item != WorkItem::Open,
        unasked.item != WorkItem::Open,
    ensures
        removal(state, asked) == removal(state, unasked),
        deletion(state, removed, asked) == deletion(state, removed, unasked),
{
    assert(item_blockers(asked) =~= item_blockers(unasked));
    assert(removal_blockers(state, asked) =~= removal_blockers(state, unasked));
}

/// A deletion is safe, at once or after the removal, only for a branch merged
/// by ancestry with nothing unpushed and no open work item; and a branch that
/// is checked out is never deleted before its worktree.
pub proof fn law_safe_deletion_is_merged_by_ancestry(
    state: WorkState,
    removed: Verdict,
    forge: ForgeStatus,
)
    ensures
        ({
            let verdict = deletion(state, removed, forge).0;
            let safe = verdict == Verdict::Safe || verdict == Verdict::SafeAfterWorktreeRemoval;
            &&& safe ==> state.vector.landed == Evidence::<Landed>::Known(Landed::AncestorMerged)
            &&& safe ==> state.vector.unpushed_commits == Evidence::<u64>::Known(0)
            &&& safe ==> forge.item != WorkItem::Open
            &&& verdict == Verdict::Safe ==> state.anchor is Branch
            &&& verdict == Verdict::SafeAfterWorktreeRemoval ==> state.anchor is Worktree
                && removed != Verdict::Blocked
        }),
{
}

/// A branch checked out in a worktree whose removal is blocked is not deleted.
pub proof fn law_blocked_removal_blocks_deletion(state: WorkState, forge: ForgeStatus)
    requires
        state.anchor is Worktree,
        state.anchor.branch_name() is Some,
        removal(state, forge).0 == Verdict::Blocked,
    ensures
        deletion(state, removal(state, forge).0, forge).0 == Verdict::Blocked,
{
}

/// A `Review` of a deletion names the force it would take.
pub proof fn law_reviewed_deletion_names_its_force(
    state: WorkState,
    removed: Verdict,
    forge: ForgeStatus,
)
    requires
        deletion(state, removed, forge).0 == Verdict::Review,
    ensures
        deletion(state, removed, forge).1[0] == "requires `git branch -D`"@,
{
}

/// Every verdict carries the reasons that produced it, and an action is
/// `NotApplicable` exactly when there is nothing to act on.
pub proof fn law_verdicts_carry_reasons(state: WorkState, removed: Verdict, forge: ForgeStatus)
    ensures
        removal(state, forge).1.len() > 0,
        deletion(state, removed, forge).1.len() > 0,
        removal(state, forge).0 == Verdict::NotApplicable <==> state.anchor is Branch,
        deletion(state, removed, forge).0 == Verdict::NotApplicable
            <==> state.anchor.branch_name() is None,
        removal(state, forge).0 != Verdict::SafeAfterWorktreeRemoval,
{
    if state.anchor is Worktree {
        lemma_removal_blockers(state, forge);
    }
}

/// Where a tip may be found to have landed on a base: by ancestry, or by
/// content.
pub open spec fn proven_landed<G: Fn(&Vec<String>, &Vec<String>) -> Reply>(
    run: G,
    repo: Repo,
    tip: Seq<char>,
    base: EvidenceView<BaseView>,
) -> bool {
    base matches EvidenceView::Known(base) && (repo.has_ancestry(
        run,
        tip,
        base.local_ref,
        EvidenceView::Known(true),
    ) || landed_in_content(run, repo, tip, base.local_ref))
}

/// A safe removal rests on answers, all the way down: Git said that the
/// worktree is clean and that its tip landed on the proven base, the count of
/// what is not pushed came to zero, and the caller found nothing live.
pub proof fn law_safe_removal_rests_on_answers<
    G: Fn(&Vec<String>, &Vec<String>) -> Reply,
    R: Fn(&String) -> Option<String>,
    M: Fn(&String) -> Option<Timestamp>,
>(
    run: G,
    read: R,
    modified: M,
    repo: Repo,
    before: RemoteCache,
    anchor: Anchor,
    runtime: RuntimeFacts,
    state: WorkState,
    after: RemoteCache,
    forge: ForgeStatus,
)
    requires
        collects(run, read, modified, repo, before, anchor, runtime, state, after),
        removal(state, forge).0 == Verdict::Safe,
    ensures
        anchor matches Anchor::Worktree { path, main, locked, .. } && !main && !locked && has_dirt(
            run,
            path@,
            EvidenceView::Known(false),
        ),
        tip_of(anchor) is Some,
        proven_landed(run, repo, tip_of(anchor)->0, state.base.deep_view()),
        finds_unpushed(
            run,
            repo,
            tip_of(anchor)->0,
            anchor.branch_name(),
            state.vector.upstream_state.deep_view(),
            state.vector.commits_ahead_of_base.deep_view(),
            EvidenceView::Known(0),
        ),
        runtime.live_pids == 0,
        runtime.live_agent_sessions == 0,
        forge.item != WorkItem::Open,
{
    law_safe_removal_loses_nothing(state, forge);
    law_landing_is_proven(
        run,
        repo,
        tip_of(anchor)->0,
        state.base.deep_view(),
        state.vector.landed.deep_view(),
    );
}

/// A safe deletion, at once or after the removal, rests on Git's word that the
/// branch is an ancestor of the proven base, and on a count of zero unpushed
/// commits.
pub proof fn law_safe_deletion_rests_on_answers<
    G: Fn(&Vec<String>, &Vec<String>) -> Reply,
    R: Fn(&String) -> Option<String>,
    M: Fn(&String) -> Option<Timestamp>,
>(
    run: G,
    read: R,
    modified: M,
    repo: Repo,
    before: RemoteCache,
    anchor: Anchor,
    runtime: RuntimeFacts,
    state: WorkState,
    after: RemoteCache,
    removed: Verdict,
    forge: ForgeStatus,
)
    requires
        collects(run, read, modified, repo, before, anchor, runtime, state, after),
        deletion(state, removed, forge).0 == Verdict::Safe || deletion(state, removed, forge).0
            == Verdict::SafeAfterWorktreeRemoval,
    ensures
        tip_of(anchor) is Some,
        state.base.deep_view() matches EvidenceView::Known(base) && repo.has_ancestry(
            run,
            tip_of(anchor)->0,
            base.local_ref,
            EvidenceView::Known(true),
        ),
        finds_unpushed(
            run,
            repo,
            tip_of(anchor)->0,
            anchor.branch_name(),
            state.vector.upstream_state.deep_view(),
            state.vector.commits_ahead_of_base.deep_view(),
            EvidenceView::Known(0),
        ),
{
    law_safe_deletion_is_merged_by_ancestry(state, removed, forge);
    law_landing_is_proven(
        run,
        repo,
        tip_of(anchor)->0,
        state.base.deep_view(),
        state.vector.landed.deep_view(),
    );
}

/// A removal is `Safe` exactly when nothing can be lost by it, whatever the
/// upstream has become: the worktree is linked and unlocked, proven clean,
/// nothing is live in it, no work item is known open, nothing is unpushed, the
/// commits past the base are counted (or HEAD is detached), and the work is
/// proven on the base. The same worktree with unlanded commits is a human's
/// call, and any other is blocked.
pub proof fn law_removal_is_safe_exactly_when_nothing_is_lost(
    state: WorkState,
    forge: ForgeStatus,
)
    ensures
        state.anchor matches Anchor::Worktree { head, main, locked, .. } ==> {
            let v = state.vector;
            let at_rest = !main && !locked && v.dirty == Evidence::<bool>::Known(false)
                && v.live_pids == 0 && v.live_agent_sessions == 0 && forge.item != WorkItem::Open
                && v.unpushed_commits == Evidence::<u64>::Known(0) && (head is Detached
                || v.commits_ahead_of_base is Known);
            let on_base = v.landed == Evidence::<Landed>::Known(Landed::AncestorMerged) || v.landed
                == Evidence::<Landed>::Known(Landed::ContentMerged);
            let unlanded = v.landed == Evidence::<Landed>::Known(Landed::No)
                && v.commits_ahead_of_base is Known;
            &&& removal(state, forge).0 == Verdict::Safe <==> at_rest && on_base
            &&& removal(state, forge).0 == Verdict::Review <==> at_rest && unlanded
            &&& removal(state, forge).0 == Verdict::Blocked <==> !(at_rest && (on_base || unlanded))
        },
        state.anchor is Branch ==> removal(state, forge) == (
            Verdict::NotApplicable,
            seq!["no worktree"@],
        ),
{
    if state.anchor is Worktree {
        lemma_removal_blockers(state, forge);
    }
}

proof fn lemma_seven_in_a_row(
    a: Seq<Seq<char>>,
    b: Seq<Seq<char>>,
    c: Seq<Seq<char>>,
    d: Seq<Seq<char>>,
    e: Seq<Seq<char>>,
    f: Seq<Seq<char>>,
    g: Seq<Seq<char>>,
)
    ensures
        ({
            let all = a + b + c + d + e + f + g;
            let nb = a.len() as int;
            let nc = nb + b.len();
            let nd = nc + c.len();
            let ne = nd + d.len();
            let nf = ne + e.len();
            let ng = nf + f.len();
            &&& all.len() == ng + g.len()
            &&& a.len() > 0 ==> all[0] == a[0]
            &&& b.len() > 0 ==> all[nb] == b[0]
            &&& c.len() > 0 ==> all[nc] == c[0]
            &&& d.len() > 0 ==> all[nd] == d[0]
            &&& e.len() > 0 ==> all[ne] == e[0]
            &&& f.len() > 0 ==> all[nf] == f[0]
            &&& g.len() > 0 ==> all[ng] == g[0]
            &&& g.len() > 1 ==> all[ng + 1] == g[1]
        }),
{
}

/// A blocked removal names every hazard there is and nothing else, each once
/// and in one order.
pub proof fn law_blocked_removal_names_every_hazard(state: WorkState, forge: ForgeStatus)
    ensures
        state.anchor matches Anchor::Worktree { head, main, locked, .. } ==> {
            let v = state.vector;
            let said = removal(state, forge).1;
            let one = |hazard: bool|
                if hazard {
                    1int
                } else {
                    0int
                };
            let dirty = v.dirty != Evidence::<bool>::Known(false);
            let live = v.live_pids > 0;
            let sessions = v.live_agent_sessions > 0;
            let open = forge.item == WorkItem::Open;
            let unpushed = v.unpushed_commits != Evidence::<u64>::Known(0);
            let baseless = head !is Detached && v.commits_ahead_of_base is Unknown;
            let before_dirty = one(main);
            let before_lock = before_dirty + one(dirty);
            let before_live = before_lock + one(locked);
            let before_sessions = before_live + one(live);
            let before_open = before_sessions + one(sessions);
            let before_unpushed = before_open + one(open);
            let before_base = before_unpushed + one(unpushed);
            let all = before_base + one(baseless);
            all > 0 ==> {
                &&& said.len() == all
                &&& main ==> said[0] == "main worktree"@
                &&& v.dirty == Evidence::<bool>::Known(true) ==> said[before_dirty]
                    == "uncommitted changes"@
                &&& v.dirty matches Evidence::Unknown(why) ==> said[before_dirty]
                    == "cannot prove the worktree is clean ("@ + why@ + ")"@
                &&& locked ==> said[before_lock] == "worktree is locked"@
                &&& v.live_pids == 1 ==> said[before_live] == "1 "@ + "live process"@
                &&& v.live_pids > 1 ==> said[before_live] == decimal(v.live_pids as nat) + " "@
                    + "live process"@ + "s"@
                &&& v.live_agent_sessions == 1 ==> said[before_sessions] == "1 "@
                    + "live agent session"@
                &&& v.live_agent_sessions > 1 ==> said[before_sessions] == decimal(
                    v.live_agent_sessions as nat,
                ) + " "@ + "live agent session"@ + "s"@
                &&& open ==> said[before_open] == "open "@ + match forge.label {
                    Some(label) => label@,
                    None => "work item"@,
                }
                &&& head !is Detached ==> {
                    &&& v.unpushed_commits == Evidence::<u64>::Known(1) ==> said[before_unpushed]
                        == "1 "@ + "unpushed commit"@
                    &&& v.unpushed_commits matches Evidence::Known(n) ==> n > 1
                        ==> said[before_unpushed] == decimal(n as nat) + " "@ + "unpushed commit"@
                        + "s"@
                    &&& v.unpushed_commits matches Evidence::Unknown(why)
                        ==> said[before_unpushed] == "cannot prove nothing is unpushed ("@ + why@
                        + ")"@
                    &&& v.commits_ahead_of_base matches Evidence::Unknown(why)
                        ==> said[before_base] == "cannot prove commits relative to base ("@ + why@
                        + ")"@
                }
                &&& head is Detached ==> {
                    &&& v.unpushed_commits == Evidence::<u64>::Known(1) ==> said[before_unpushed]
                        == "detached HEAD: "@ + ("1 "@ + "unique commit"@)
                        + " reachable from no ref"@
                    &&& v.unpushed_commits matches Evidence::Known(n) ==> n > 1
                        ==> said[before_unpushed] == "detached HEAD: "@ + (decimal(n as nat) + " "@
                        + "unique commit"@ + "s"@) + " reachable from no ref"@
                    &&& v.unpushed_commits matches Evidence::Unknown(why)
                        ==> said[before_unpushed]
                        == "detached HEAD: cannot prove commits are reachable from a ref ("@ + why@
                        + ")"@
                }
            }
        },
{
    if state.anchor is Worktree {
        lemma_removal_blockers(state, forge);
        let v = state.vector;
        let anchor = state.anchor;
        let a = when(anchor->main, "main worktree"@);
        let b = dirty_blockers(v.dirty);
        let c = when(anchor->locked, "worktree is locked"@);
        let d = when(v.live_pids > 0, counted(v.live_pids as nat, "live process"@));
        let e = when(
            v.live_agent_sessions > 0,
            counted(v.live_agent_sessions as nat, "live agent session"@),
        );
        let f = item_blockers(forge);
        let g = commit_blockers(anchor->head, v);
        lemma_seven_in_a_row(a, b, c, d, e, f, g);
        assert(removal_blockers(state, forge) == a + b + c + d + e + f + g);
    }
}

/// What a removal that no hazard blocks is told: a safe one that the worktree
/// is clean, that nothing is live, whether its upstream is gone, and how the
/// work landed; one for review how far it is ahead and which branch keeps it;
/// and one blocked by its landing, why that is not proven.
pub proof fn law_unhindered_removal_says_how_it_landed(state: WorkState, forge: ForgeStatus)
    ensures
        ({
            let v = state.vector;
            let (verdict, said) = removal(state, forge);
            let base = match state.base {
                Evidence::Known(base) => base.remote@ + "/"@ + base.branch@,
                Evidence::Unknown(_) => "<unproven base>"@,
            };
            let how = if v.landed == Evidence::<Landed>::Known(Landed::AncestorMerged) {
                "landed on "@ + base + " (ancestor)"@
            } else {
                "landed on "@ + base + " (content match)"@
            };
            &&& verdict == Verdict::Safe && v.upstream_state is RemoteGone ==> said == seq![
                "clean"@,
                "nothing live"@,
                "upstream gone; probably landed"@,
                how,
            ]
            &&& verdict == Verdict::Safe && v.upstream_state !is RemoteGone ==> said == seq![
                "clean"@,
                "nothing live"@,
                how,
            ]
            &&& verdict == Verdict::Review ==> {
                &&& v.commits_ahead_of_base matches Evidence::Known(n) && said[0] == decimal(
                    n as nat,
                ) + " commit"@ + (if n == 1 {
                    ""@
                } else {
                    "s"@
                }) + " ahead of "@ + base + " and not landed"@
                &&& state.anchor matches Anchor::Worktree { head: Head::Branch(name), .. }
                    ==> said.len() == 2 && said[1] == "removal keeps branch "@ + name@
                    + " and its commits"@
                &&& state.anchor matches Anchor::Worktree { head: Head::Unborn(name), .. }
                    ==> said.len() == 2 && said[1] == "removal keeps branch "@ + name@
                    + " and its commits"@
                &&& state.anchor matches Anchor::Worktree { head: Head::Detached(_), .. }
                    ==> said.len() == 1
            }
            &&& state.anchor matches Anchor::Worktree { head, main, locked, .. } ==> {
                let at_rest = !main && !locked && v.dirty == Evidence::<bool>::Known(false)
                    && v.live_pids == 0 && v.live_agent_sessions == 0 && forge.item
                    != WorkItem::Open && v.unpushed_commits == Evidence::<u64>::Known(0) && (
                head is Detached || v.commits_ahead_of_base is Known);
                at_rest && v.landed is Unknown ==> said == seq![
                    "cannot prove landing ("@ + v.landed->Unknown_0@ + ")"@,
                ]
            }
        }),
{
    if state.anchor is Worktree {
        lemma_removal_blockers(state, forge);
        let v = state.vector;
        let (verdict, said) = removal(state, forge);
        if verdict == Verdict::Safe {
            let grounds = removal_grounds(v);
            if v.upstream_state is RemoteGone {
                assert(grounds =~= seq![
                    "clean"@,
                    "nothing live"@,
                    "upstream gone; probably landed"@,
                ]);
                assert(said =~= seq![grounds[0], grounds[1], grounds[2], said.last()]);
            } else {
                assert(grounds =~= seq!["clean"@, "nothing live"@]);
                assert(said =~= seq![grounds[0], grounds[1], said.last()]);
            }
        }
    }
}

/// A deletion is safe exactly for a branch merged by ancestry, with no work
/// item known open, nothing unpushed, and no checkout that has to stay; for a
/// branch checked out in a worktree only once that is removed. A branch that
/// landed by content or not at all is a human's call, and anything open,
/// unpushed, unproven or held by its worktree blocks.
pub proof fn law_deletion_is_safe_exactly_when_merged(
    state: WorkState,
    removed: Verdict,
    forge: ForgeStatus,
)
    ensures
        ({
            let v = state.vector;
            let verdict = deletion(state, removed, forge).0;
            let detached = state.anchor matches Anchor::Worktree { head: Head::Detached(_), .. };
            let free = forge.item != WorkItem::Open && v.unpushed_commits
                == Evidence::<u64>::Known(0) && v.landed is Known && !(state.anchor is Worktree
                && removed == Verdict::Blocked);
            let merged = v.landed == Evidence::<Landed>::Known(Landed::AncestorMerged);
            &&& verdict == Verdict::NotApplicable <==> detached
            &&& verdict == Verdict::Safe <==> !detached && free && merged && state.anchor is Branch
            &&& verdict == Verdict::SafeAfterWorktreeRemoval <==> !detached && free && merged
                && state.anchor is Worktree
            &&& verdict == Verdict::Review <==> !detached && free && !merged
            &&& verdict == Verdict::Blocked <==> !detached && !free
        }),
{
    lemma_deletion_blockers(state, removed, forge);
}

proof fn lemma_deletion_blockers(state: WorkState, removed: Verdict, forge: ForgeStatus)
    ensures
        ({
            let v = state.vector;
            let a = item_blockers(forge);
            let b = unpushed_blockers(v.unpushed_commits);
            let c = landing_blockers(v.landed);
            let d = checkout_blockers(state.anchor, removed);
            let all = deletion_blockers(state, removed, forge);
            &&& all.len() == a.len() + b.len() + c.len() + d.len()
            &&& a.len() > 0 ==> all[0] == a[0]
            &&& b.len() > 0 ==> all[a.len() as int] == b[0]
            &&& c.len() > 0 ==> all[(a.len() + b.len()) as int] == c[0]
            &&& d.len() > 0 ==> all[(a.len() + b.len() + c.len()) as int] == d[0]
        }),
{
    let a = item_blockers(forge);
    let b = unpushed_blockers(state.vector.unpushed_commits);
    let c = landing_blockers(state.vector.landed);
    let d = checkout_blockers(state.anchor, removed);
    let all = deletion_blockers(state, removed, forge);
    assert(all == a + b + c + d);
    assert(b.len() > 0 ==> all[a.len() as int] == b[0]);
    assert(c.len() > 0 ==> all[(a.len() + b.len()) as int] == c[0]);
    assert(d.len() > 0 ==> all[(a.len() + b.len() + c.len()) as int] == d[0]);
}

/// What a deletion is told: a blocked one every hazard there is and nothing
/// else, each once and in one order; any other how the branch landed, and
/// where it is checked out.
pub proof fn law_deletion_gives_its_reasons(state: WorkState, removed: Verdict, forge: ForgeStatus)
    ensures
        ({
            let v = state.vector;
            let (verdict, said) = deletion(state, removed, forge);
            let one = |hazard: bool|
                if hazard {
                    1int
                } else {
                    0int
                };
            let open = forge.item == WorkItem::Open;
            let before_landing = one(open) + one(
                v.unpushed_commits != Evidence::<u64>::Known(0),
            );
            let before_checkout = before_landing + one(v.landed is Unknown);
            let held = state.anchor is Worktree && removed == Verdict::Blocked;
            let base = match state.base {
                Evidence::Known(base) => base.remote@ + "/"@ + base.branch@,
                Evidence::Unknown(_) => "<unproven base>"@,
            };
            &&& verdict == Verdict::Blocked ==> {
                &&& said.len() == before_checkout + one(held)
                &&& open ==> said[0] == "open "@ + match forge.label {
                    Some(label) => label@,
                    None => "work item"@,
                }
                &&& v.unpushed_commits == Evidence::<u64>::Known(1) ==> said[one(open)] == "1 "@
                    + "unpushed commit"@
                &&& v.unpushed_commits matches Evidence::Known(n) ==> n > 1 ==> said[one(open)]
                    == decimal(n as nat) + " "@ + "unpushed commit"@ + "s"@
                &&& v.unpushed_commits matches Evidence::Unknown(why) ==> said[one(open)]
                    == "cannot prove nothing is unpushed ("@ + why@ + ")"@
                &&& v.landed matches Evidence::Unknown(why) ==> said[before_landing]
                    == "cannot prove landing ("@ + why@ + ")"@
                &&& held ==> said[before_checkout] == "checked out in "@ + state.anchor->path@
                    + ", and its removal is blocked"@
            }
            &&& verdict == Verdict::NotApplicable ==> said == seq!["no branch"@]
            &&& verdict == Verdict::Safe || verdict == Verdict::SafeAfterWorktreeRemoval ==> said[0]
                == "merged into "@ + base && said[1] == "nothing unpushed"@
            &&& verdict == Verdict::Review ==> said[0] == "requires `git branch -D`"@
            &&& verdict == Verdict::Review && v.landed == Evidence::<Landed>::Known(
                Landed::ContentMerged,
            ) ==> said[1] == "landed on "@ + base + " by content, not ancestry"@
            &&& verdict == Verdict::Review && v.landed == Evidence::<Landed>::Known(Landed::No)
                ==> said[1] == "not landed on "@ + base
            &&& (verdict == Verdict::Safe || verdict == Verdict::SafeAfterWorktreeRemoval || verdict
                == Verdict::Review) ==> if state.anchor is Worktree {
                said.len() == 3 && said[2] == "checked out in "@ + state.anchor->path@
                    + "; deleted after the worktree is removed"@
            } else {
                said.len() == 2
            }
        }),
{
    lemma_deletion_blockers(state, removed, forge);
}

}
