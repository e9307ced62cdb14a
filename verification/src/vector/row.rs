//! One row of evidence, collected for one anchor.

use vstd::prelude::*;
use vstd::string::*;

use crate::command::{accepts_any, Reply};
use crate::evidence::{Evidence, EvidenceView};
use crate::git::{
    accepts_reads, always_complains, always_prints, has_activity, has_dirt, never_answers, outcome,
    repo_globals, ErrorView, Head, Repo, UpstreamConfig, UpstreamConfigView, Worktree,
};
use crate::path::below;
use crate::text::{concat, is_word};
use crate::time::Timestamp;
use crate::vector::{
    Anchor, Base, BaseView, Landed, RuntimeFacts, StateVector, UpstreamState, UpstreamView,
    WorkState,
};
use crate::vector::base::{
    find_url, finds_base, finds_upstream, finds_url, resolve_base, upstream_state,
};
use crate::vector::cache::RemoteCache;
use crate::vector::landing::{
    commits_ahead, finds_ahead, finds_landed, finds_unpushed, landed, unpushed_commits,
};
use crate::git::remote::law_an_upstream_takes_both_keys;

verus! {

// ---------------------------------------------------------------------------
// Collecting the vector
// ---------------------------------------------------------------------------

/// A ref spec for the anchor's tip that resolves from the common dir: `HEAD`
/// alone would name the main worktree's HEAD. An unborn HEAD has no tip.
pub open spec fn tip_of(anchor: Anchor) -> Option<Seq<char>> {
    match anchor {
        Anchor::Branch { name } => Some("refs/heads/"@ + name@),
        Anchor::Worktree { head, .. } => match head {
            Head::Branch(name) => Some("refs/heads/"@ + name@),
            Head::Detached(sha) => Some(sha@),
            Head::Unborn(_) => None,
        },
    }
}

fn tip(anchor: &Anchor) -> (r: Option<String>)
    ensures
        r.deep_view() == tip_of(*anchor),
{
    match anchor {
        Anchor::Branch { name } => Some(concat("refs/heads/", name.as_str())),
        Anchor::Worktree { head, .. } => match head {
            Head::Branch(name) => Some(concat("refs/heads/", name.as_str())),
            Head::Detached(sha) => Some(sha.clone()),
            Head::Unborn(_) => None,
        },
    }
}

/// The anchor's reflog, below the common directory: that of the branch, or
/// `worktrees/<id>/logs/HEAD` for a linked worktree and `logs/HEAD` for the
/// main one, since the reflog is per worktree.
pub open spec fn log_of(anchor: Anchor) -> Seq<char> {
    match anchor {
        Anchor::Branch { name } => "logs/refs/heads/"@ + name@,
        Anchor::Worktree { admin_id, .. } => match admin_id {
            Some(id) => "worktrees/"@ + id@ + "/logs/HEAD"@,
            None => "logs/HEAD"@,
        },
    }
}

fn worktree_head_log(admin_id: Option<&str>) -> (r: String)
    ensures
        r@ == match admin_id {
            Some(id) => "worktrees/"@ + id@ + "/logs/HEAD"@,
            None => "logs/HEAD"@,
        },
{
    match admin_id {
        Some(id) => {
            let mut log = concat("worktrees/", id);
            log.append("/logs/HEAD");
            log
        },
        None => "logs/HEAD".to_owned(),
    }
}

/// `config` is what the upstream configuration of a branch may be read as;
/// without a branch there is none to read.
pub open spec fn reads_config<G: Fn(&Vec<String>, &Vec<String>) -> Reply>(
    run: G,
    repo: Repo,
    branch: Option<Seq<char>>,
    config: Option<Result<UpstreamConfigView, ErrorView>>,
) -> bool {
    match branch {
        None => config is None,
        Some(branch) => config is Some && repo.has_upstream(run, branch, config->0),
    }
}

/// `r` is what the upstream state may be found to be, its configuration read.
pub open spec fn places_upstream<G: Fn(&Vec<String>, &Vec<String>) -> Reply>(
    run: G,
    repo: Repo,
    before: RemoteCache,
    config: Option<Result<UpstreamConfigView, ErrorView>>,
    r: UpstreamView,
    after: RemoteCache,
) -> bool {
    match config {
        None => r == UpstreamView::NotApplicable && after == before,
        Some(Ok(config)) => finds_upstream(run, repo, before, config, r, after),
        Some(Err(e)) => r == UpstreamView::Unknown("upstream config: "@ + e.text()) && after
            == before,
    }
}

/// The configured remote names itself even when it cannot be reached, so it
/// still feeds base resolution and forge routing.
pub open spec fn configured_remote(config: Option<Result<UpstreamConfigView, ErrorView>>) -> Option<
    Seq<char>,
> {
    match config {
        Some(Ok(UpstreamConfigView::Full { remote, .. })) => Some(remote),
        _ => None,
    }
}

/// The remote side of a row: its upstream state, the URL of its remote and its
/// base, each from what the step before it came to.
pub open spec fn finds_remote_side<G: Fn(&Vec<String>, &Vec<String>) -> Reply>(
    run: G,
    repo: Repo,
    before: RemoteCache,
    branch: Option<Seq<char>>,
    upstream: UpstreamView,
    remote_url: Option<Seq<char>>,
    base: EvidenceView<BaseView>,
    after: RemoteCache,
) -> bool {
    exists|config: Option<Result<UpstreamConfigView, ErrorView>>, between: RemoteCache|
        {
            &&& #[trigger] reads_config(run, repo, branch, config)
            &&& #[trigger] places_upstream(run, repo, before, config, upstream, between)
            &&& finds_url(run, repo, configured_remote(config), remote_url)
            &&& finds_base(run, repo, between, configured_remote(config), base, after)
        }
}

/// The commit side of a row: how far its tip is ahead of the base, whether it
/// landed there, and what is not pushed. An unborn HEAD proves none of it.
pub open spec fn finds_commit_side<G: Fn(&Vec<String>, &Vec<String>) -> Reply>(
    run: G,
    repo: Repo,
    anchor: Anchor,
    upstream: UpstreamView,
    base: EvidenceView<BaseView>,
    ahead: EvidenceView<u64>,
    landed: EvidenceView<Landed>,
    unpushed: EvidenceView<u64>,
) -> bool {
    match tip_of(anchor) {
        None => {
            &&& ahead == EvidenceView::<u64>::Unknown("unborn HEAD"@)
            &&& landed == EvidenceView::<Landed>::Unknown("unborn HEAD"@)
            &&& unpushed == EvidenceView::<u64>::Unknown("unborn HEAD"@)
        },
        Some(head) => {
            &&& finds_ahead(run, repo, head, base, ahead)
            &&& finds_landed(run, repo, head, base, landed)
            &&& finds_unpushed(run, repo, head, anchor.branch_name(), upstream, ahead, unpushed)
        },
    }
}

/// The checkout side of a row: its working tree. A branch without one is
/// clean.
pub open spec fn finds_checkout_side<G: Fn(&Vec<String>, &Vec<String>) -> Reply>(
    run: G,
    anchor: Anchor,
    worktree: Option<Seq<char>>,
    dirty: EvidenceView<bool>,
) -> bool {
    match anchor {
        Anchor::Worktree { path, .. } => worktree == Some(path@) && has_dirt(run, path@, dirty),
        Anchor::Branch { .. } => worktree is None && dirty == EvidenceView::Known(false),
    }
}

/// `state` is what may be collected for the anchor.
pub open spec fn collects<
    G: Fn(&Vec<String>, &Vec<String>) -> Reply,
    R: Fn(&String) -> Option<String>,
    M: Fn(&String) -> Option<Timestamp>,
>(
    run: G,
    read: R,
    modified: M,
    repo: Repo,
    before: RemoteCache,
    anchor: Anchor,
    runtime: RuntimeFacts,
    state: WorkState,
    after: RemoteCache,
) -> bool {
    let v = state.vector;
    &&& state.repo == repo
    &&& state.anchor == anchor
    &&& v.windows == runtime.windows
    &&& v.live_pids == runtime.live_pids
    &&& v.live_agent_sessions == runtime.live_agent_sessions
    &&& v.past_agent_sessions == runtime.past_agent_sessions
    &&& finds_remote_side(
        run,
        repo,
        before,
        anchor.branch_name(),
        v.upstream_state.deep_view(),
        state.remote_url.deep_view(),
        state.base.deep_view(),
        after,
    )
    &&& finds_commit_side(
        run,
        repo,
        anchor,
        v.upstream_state.deep_view(),
        state.base.deep_view(),
        v.commits_ahead_of_base.deep_view(),
        v.landed.deep_view(),
        v.unpushed_commits.deep_view(),
    )
    &&& finds_checkout_side(run, anchor, v.worktree.deep_view(), v.dirty.deep_view())
    &&& has_activity(
        read,
        modified,
        below(repo.deep_view(), log_of(anchor)),
        v.last_git_activity,
    )
}

/// What was read of a configuration, with its text as characters.
spec fn config_outcome(config: Option<Result<UpstreamConfig, crate::git::Error>>) -> Option<
    Result<UpstreamConfigView, ErrorView>,
> {
    match config {
        Some(config) => Some(outcome(config)),
        None => None,
    }
}

/// The remote side of a row.
fn remote_side<G: Fn(&Vec<String>, &Vec<String>) -> Reply>(
    run: &G,
    repo: &Repo,
    cache: &mut RemoteCache,
    branch: Option<&str>,
) -> (r: (UpstreamState, Option<String>, Evidence<Base>))
    requires
        accepts_reads(*run),
    ensures
        finds_remote_side(
            *run,
            *repo,
            *old(cache),
            branch.deep_view(),
            r.0.deep_view(),
            r.1.deep_view(),
            r.2.deep_view(),
            *final(cache),
        ),
{
    let ghost before = *cache;
    let config: Option<Result<UpstreamConfig, crate::git::Error>> = match branch {
        Some(branch) => Some(repo.upstream_config(run, branch)),
        None => None,
    };
    let ghost config_view = config_outcome(config);
    assert(reads_config(*run, *repo, branch.deep_view(), config_view));
    let upstream = match &config {
        None => UpstreamState::NotApplicable,
        Some(Ok(config)) => upstream_state(run, repo, cache, config),
        Some(Err(e)) => UpstreamState::Unknown(
            concat("upstream config: ", e.to_string().as_str()),
        ),
    };
    let ghost between = *cache;
    assert(places_upstream(*run, *repo, before, config_view, upstream.deep_view(), between));
    let remote: Option<&str> = match &config {
        Some(Ok(UpstreamConfig::Full { remote, .. })) => Some(remote.as_str()),
        _ => None,
    };
    assert(remote.deep_view() == configured_remote(config_view));
    let remote_url = find_url(run, repo, remote);
    let base = resolve_base(run, repo, cache, remote);
    (upstream, remote_url, base)
}

/// Collect the vector for one anchor, asking no remote what `cache` already
/// keeps of it. Reads only; all runtime fields come from `runtime`.
pub fn collect_cached<
    G: Fn(&Vec<String>, &Vec<String>) -> Reply,
    R: Fn(&String) -> Option<String>,
    M: Fn(&String) -> Option<Timestamp>,
>(
    run: &G,
    read: &R,
    modified: &M,
    repo: &Repo,
    cache: &mut RemoteCache,
    anchor: &Anchor,
    runtime: RuntimeFacts,
) -> (r: WorkState)
    requires
        accepts_reads(*run),
        accepts_any(*read),
        accepts_any(*modified),
    ensures
        collects(
            *run,
            *read,
            *modified,
            *repo,
            *old(cache),
            *anchor,
            runtime,
            r,
            *final(cache),
        ),
{
    let (upstream_state, remote_url, base) = remote_side(run, repo, cache, anchor.branch());
    let (landed, commits_ahead_of_base, unpushed_commits) = match tip(anchor) {
        None => (
            Evidence::Unknown("unborn HEAD".to_owned()),
            Evidence::Unknown("unborn HEAD".to_owned()),
            Evidence::Unknown("unborn HEAD".to_owned()),
        ),
        Some(head) => {
            let commits = commits_ahead(run, repo, head.as_str(), &base);
            let landed = landed(run, repo, head.as_str(), &base);
            let unpushed = unpushed_commits(
                run,
                repo,
                head.as_str(),
                anchor.branch(),
                &upstream_state,
                &commits,
            );
            (landed, commits, unpushed)
        },
    };
    let (worktree, dirty, log) = match anchor {
        Anchor::Worktree { path, admin_id, .. } => {
            let id: Option<&str> = match admin_id {
                Some(id) => Some(id.as_str()),
                None => None,
            };
            (Some(path.clone()), repo.dirty(run, path.as_str()), worktree_head_log(id))
        },
        Anchor::Branch { name } => (
            None,
            Evidence::Known(false),
            concat("logs/refs/heads/", name.as_str()),
        ),
    };
    let last_git_activity = repo.reflog_activity(read, modified, log.as_str());
    WorkState {
        repo: repo.clone(),
        anchor: anchor.clone(),
        remote_url,
        base,
        vector: StateVector {
            worktree,
            windows: runtime.windows,
            live_pids: runtime.live_pids,
            live_agent_sessions: runtime.live_agent_sessions,
            past_agent_sessions: runtime.past_agent_sessions,
            dirty,
            commits_ahead_of_base,
            upstream_state,
            unpushed_commits,
            landed,
            last_git_activity,
        },
    }
}

/// Collect the vector for one anchor, with nothing kept from before.
pub fn collect<
    G: Fn(&Vec<String>, &Vec<String>) -> Reply,
    R: Fn(&String) -> Option<String>,
    M: Fn(&String) -> Option<Timestamp>,
>(
    run: &G,
    read: &R,
    modified: &M,
    repo: &Repo,
    anchor: &Anchor,
    runtime: RuntimeFacts,
) -> (r: WorkState)
    requires
        accepts_reads(*run),
        accepts_any(*read),
        accepts_any(*modified),
    ensures
        exists|fresh: RemoteCache, after: RemoteCache|
            fresh.is_fresh() && #[trigger] collects(
                *run,
                *read,
                *modified,
                *repo,
                fresh,
                *anchor,
                runtime,
                r,
                after,
            ),
{
    let mut cache = RemoteCache::default();
    let ghost fresh = cache;
    let r = collect_cached(run, read, modified, repo, &mut cache, anchor, runtime);
    assert(collects(*run, *read, *modified, *repo, fresh, *anchor, runtime, r, cache));
    r
}

// ---------------------------------------------------------------------------
// What a row promises
// ---------------------------------------------------------------------------

/// An unproven base leaves `landed` and `commits_ahead_of_base` unproven too,
/// rather than compared against some base by convention.
pub proof fn law_unproven_base_proves_nothing<
    G: Fn(&Vec<String>, &Vec<String>) -> Reply,
    R: Fn(&String) -> Option<String>,
    M: Fn(&String) -> Option<Timestamp>,
>(
    run: G,
    read: R,
    modified: M,
    repo: Repo,
    before: RemoteCache,
    anchor: Anchor,
    runtime: RuntimeFacts,
    state: WorkState,
    after: RemoteCache,
)
    requires
        collects(run, read, modified, repo, before, anchor, runtime, state, after),
        state.base is Unknown,
    ensures
        state.vector.landed is Unknown,
        state.vector.commits_ahead_of_base is Unknown,
{
}

/// A branch without a worktree has no checkout and is clean, and no anchor has
/// facts the caller did not inject.
pub proof fn law_branch_rows_are_clean<
    G: Fn(&Vec<String>, &Vec<String>) -> Reply,
    R: Fn(&String) -> Option<String>,
    M: Fn(&String) -> Option<Timestamp>,
>(
    run: G,
    read: R,
    modified: M,
    repo: Repo,
    before: RemoteCache,
    anchor: Anchor,
    runtime: RuntimeFacts,
    state: WorkState,
    after: RemoteCache,
)
    requires
        collects(run, read, modified, repo, before, anchor, runtime, state, after),
    ensures
        anchor is Branch ==> state.vector.worktree is None && state.vector.dirty == Evidence::<
            bool,
        >::Known(false),
        anchor is Worktree ==> state.vector.worktree is Some,
        state.vector.live_pids == runtime.live_pids,
        state.vector.live_agent_sessions == runtime.live_agent_sessions,
{
}

/// A row holds the anchor and the facts it was given as they are, and for the
/// rest what is found for that anchor: its working tree where the checkout is,
/// its commits at the tip of its own branch or at its own commit, and its
/// activity in its own log. Without a commit nothing is known of any.
pub proof fn law_a_row_is_collected_at_its_anchor<
    G: Fn(&Vec<String>, &Vec<String>) -> Reply,
    R: Fn(&String) -> Option<String>,
    M: Fn(&String) -> Option<Timestamp>,
>(
    run: G,
    read: R,
    modified: M,
    repo: Repo,
    before: RemoteCache,
    anchor: Anchor,
    runtime: RuntimeFacts,
    state: WorkState,
    after: RemoteCache,
    tip: Seq<char>,
)
    requires
        collects(run, read, modified, repo, before, anchor, runtime, state, after),
    ensures
        state.repo == repo,
        state.anchor == anchor,
        state.vector.windows == runtime.windows,
        state.vector.live_pids == runtime.live_pids,
        state.vector.live_agent_sessions == runtime.live_agent_sessions,
        state.vector.past_agent_sessions == runtime.past_agent_sessions,
        anchor matches Anchor::Worktree { path, .. } ==> state.vector.worktree is Some
            && state.vector.worktree->0@ == path@ && has_dirt(
            run,
            path@,
            state.vector.dirty.deep_view(),
        ),
        anchor is Branch ==> state.vector.worktree is None && state.vector.dirty == Evidence::<
            bool,
        >::Known(false),
        ({
            let at_tip = match anchor {
                Anchor::Branch { name } => tip == "refs/heads/"@ + name@,
                Anchor::Worktree { head: Head::Branch(name), .. } => tip == "refs/heads/"@ + name@,
                Anchor::Worktree { head: Head::Detached(sha), .. } => tip == sha@,
                Anchor::Worktree { head: Head::Unborn(_), .. } => false,
            };
            let branch = match anchor {
                Anchor::Branch { name } => Some(name@),
                Anchor::Worktree { head: Head::Branch(name), .. } => Some(name@),
                Anchor::Worktree { head: Head::Unborn(name), .. } => Some(name@),
                Anchor::Worktree { head: Head::Detached(_), .. } => None,
            };
            let base = state.base.deep_view();
            let upstream = state.vector.upstream_state.deep_view();
            let ahead = state.vector.commits_ahead_of_base.deep_view();
            &&& at_tip ==> finds_ahead(run, repo, tip, base, ahead) && finds_landed(
                run,
                repo,
                tip,
                base,
                state.vector.landed.deep_view(),
            ) && finds_unpushed(
                run,
                repo,
                tip,
                branch,
                upstream,
                ahead,
                state.vector.unpushed_commits.deep_view(),
            )
            &&& branch is None ==> upstream is NotApplicable
        }),
        (anchor matches Anchor::Worktree { head: Head::Unborn(_), .. }) ==> {
            &&& state.vector.commits_ahead_of_base.deep_view() == EvidenceView::<u64>::Unknown(
                "unborn HEAD"@,
            )
            &&& state.vector.landed.deep_view() == EvidenceView::<Landed>::Unknown("unborn HEAD"@)
            &&& state.vector.unpushed_commits.deep_view() == EvidenceView::<u64>::Unknown(
                "unborn HEAD"@,
            )
        },
        ({
            let log = match anchor {
                Anchor::Branch { name } => "logs/refs/heads/"@ + name@,
                Anchor::Worktree { admin_id: Some(id), .. } => "worktrees/"@ + id@
                    + "/logs/HEAD"@,
                Anchor::Worktree { admin_id: None, .. } => "logs/HEAD"@,
            };
            has_activity(
                read,
                modified,
                below(repo.deep_view(), log),
                state.vector.last_git_activity,
            )
        }),
{
}

/// A row's upstream, URL and base all go by the upstream that its branch is
/// configured with: the state of that one, the URL of its remote, and the base
/// on its remote. A branch without one was never pushed and has no URL, and a
/// configuration that cannot be read leaves the upstream unknown.
pub proof fn law_a_row_goes_by_its_configured_upstream<
    G: Fn(&Vec<String>, &Vec<String>) -> Reply,
>(
    run: G,
    repo: Repo,
    before: RemoteCache,
    branch: Seq<char>,
    remote: Seq<char>,
    merge: Seq<char>,
    upstream: UpstreamView,
    remote_url: Option<Seq<char>>,
    base: EvidenceView<BaseView>,
    after: RemoteCache,
)
    requires
        finds_remote_side(
            run,
            repo,
            before,
            Some(branch),
            upstream,
            remote_url,
            base,
            after,
        ),
        is_word(remote),
        is_word(merge),
    ensures
        ({
            let global = repo_globals(repo.deep_view());
            let on = seq!["config"@, "--local"@, "--get"@, "branch."@ + branch + ".remote"@];
            let into = seq!["config"@, "--local"@, "--get"@, "branch."@ + branch + ".merge"@];
            let configured = always_prints(run, global, on, remote.push('\n')) && always_prints(
                run,
                global,
                into,
                merge.push('\n'),
            );
            let unset = always_complains(run, global, on, 1, seq![]) && always_complains(
                run,
                global,
                into,
                1,
                seq![],
            );
            &&& configured ==> exists|between: RemoteCache|
                #[trigger] finds_upstream(
                    run,
                    repo,
                    before,
                    UpstreamConfigView::Full { remote, merge },
                    upstream,
                    between,
                ) && finds_url(run, repo, Some(remote), remote_url) && finds_base(
                    run,
                    repo,
                    between,
                    Some(remote),
                    base,
                    after,
                )
            &&& unset ==> upstream is NeverPushed && remote_url is None && finds_base(
                run,
                repo,
                before,
                None,
                base,
                after,
            )
            &&& never_answers(run, global, on) ==> upstream is Unknown && remote_url is None
        }),
{
    let (config, between) = choose|
        config: Option<Result<UpstreamConfigView, ErrorView>>,
        between: RemoteCache,
    |
        {
            &&& #[trigger] reads_config(run, repo, Some(branch), config)
            &&& #[trigger] places_upstream(run, repo, before, config, upstream, between)
            &&& finds_url(run, repo, configured_remote(config), remote_url)
            &&& finds_base(run, repo, between, configured_remote(config), base, after)
        };
    law_an_upstream_takes_both_keys(run, repo, branch, remote, merge, config->0);
}

}
