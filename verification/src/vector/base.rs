//! The upstream of a branch and the base it is compared against.

use vstd::prelude::*;
use vstd::string::*;

use crate::command::Reply;
use crate::evidence::{Evidence, EvidenceView};
use crate::forge::{parse_remote, remote_parts};
use crate::git::{
    accepts_reads, advertises, always_complains, always_exits, always_prints, never_answers,
    outcome, repo_globals, ErrorView, RemoteHead, RemoteHeadView, Repo, UpstreamConfig,
    UpstreamConfigView,
};
use crate::text::{concat, decimal, is_word, print_u64, same, terminated};
use crate::vector::{Base, BaseView, UpstreamState, UpstreamView};
use crate::vector::cache::{learns_advertised, learns_head, learns_refs, RemoteCache};
use crate::git::commit::law_a_ref_is_here_when_it_verifies;
use crate::git::remote::{
    law_a_key_has_the_value_git_prints, law_a_remote_lists_its_refs, lemma_remotes_are_those_listed,
};

verus! {

// ---------------------------------------------------------------------------
// Upstream
// ---------------------------------------------------------------------------

/// What a complete upstream pair and the remote's word on it come to: gone is
/// only claimed when the remote answered and did not have the ref.
pub open spec fn upstream_of(
    remote: Seq<char>,
    merge_ref: Seq<char>,
    advertised: EvidenceView<bool>,
) -> UpstreamView {
    match advertised {
        EvidenceView::Known(true) => UpstreamView::Advertised { remote, merge_ref },
        EvidenceView::Known(false) => UpstreamView::RemoteGone { remote, merge_ref },
        EvidenceView::Unknown(reason) => UpstreamView::Unknown(reason),
    }
}

/// `r` is what the upstream state of a configuration may be found to be. Only
/// a complete pair asks the remote anything.
pub open spec fn finds_upstream<G: Fn(&Vec<String>, &Vec<String>) -> Reply>(
    run: G,
    repo: Repo,
    before: RemoteCache,
    config: UpstreamConfigView,
    r: UpstreamView,
    after: RemoteCache,
) -> bool {
    match config {
        UpstreamConfigView::Unset => r == UpstreamView::NeverPushed && after == before,
        UpstreamConfigView::Partial => r == UpstreamView::Unknown("incomplete upstream config"@)
            && after == before,
        UpstreamConfigView::Full { remote, merge } => exists|advertised: EvidenceView<bool>|
            #[trigger] learns_advertised(run, repo, before, remote, merge, advertised, after) && r
                == upstream_of(remote, merge, advertised),
    }
}

/// A read-only `ls-remote` decides whether the remote still advertises the
/// configured merge ref. An unreachable remote is `Unknown`, not `remote_gone`:
/// gone is only claimed when the remote answered and did not have the ref.
pub fn upstream_state<G: Fn(&Vec<String>, &Vec<String>) -> Reply>(
    run: &G,
    repo: &Repo,
    cache: &mut RemoteCache,
    config: &UpstreamConfig,
) -> (r: UpstreamState)
    requires
        accepts_reads(*run),
    ensures
        finds_upstream(
            *run,
            *repo,
            *old(cache),
            config.deep_view(),
            r.deep_view(),
            *final(cache),
        ),
{
    match config {
        UpstreamConfig::Unset => UpstreamState::NeverPushed,
        UpstreamConfig::Partial => UpstreamState::Unknown("incomplete upstream config".to_owned()),
        UpstreamConfig::Full { remote, merge } => {
            let advertised = cache.remote_advertises(run, repo, remote.as_str(), merge.as_str());
            match advertised {
                Evidence::Known(true) => UpstreamState::Advertised {
                    remote: remote.clone(),
                    merge_ref: merge.clone(),
                },
                Evidence::Known(false) => UpstreamState::RemoteGone {
                    remote: remote.clone(),
                    merge_ref: merge.clone(),
                },
                Evidence::Unknown(reason) => UpstreamState::Unknown(reason),
            }
        },
    }
}

/// The URL of a configured remote: the one its name stands for, or the value
/// itself when it is no name but a URL a forge can serve.
pub open spec fn routed_url(
    remote: Seq<char>,
    named: Result<Option<Seq<char>>, ErrorView>,
) -> Option<Seq<char>> {
    match named {
        Ok(Some(url)) => Some(url),
        Ok(None) => if remote_parts(remote) is Some {
            Some(remote)
        } else {
            None
        },
        Err(_) => None,
    }
}

/// `r` is what the URL of a configured remote may be found to be.
pub open spec fn finds_url<G: Fn(&Vec<String>, &Vec<String>) -> Reply>(
    run: G,
    repo: Repo,
    remote: Option<Seq<char>>,
    r: Option<Seq<char>>,
) -> bool {
    match remote {
        None => r is None,
        Some(remote) => exists|named: Result<Option<Seq<char>>, ErrorView>|
            #[trigger] repo.has_config(run, crate::git::remote_url_key(remote), named) && r
                == routed_url(remote, named),
    }
}

pub(crate) fn find_url<G: Fn(&Vec<String>, &Vec<String>) -> Reply>(
    run: &G,
    repo: &Repo,
    remote: Option<&str>,
) -> (r: Option<String>)
    requires
        accepts_reads(*run),
    ensures
        finds_url(*run, *repo, remote.deep_view(), r.deep_view()),
{
    let Some(remote) = remote else {
        return None;
    };
    let named = repo.remote_url(run, remote);
    assert(repo.has_config(*run, crate::git::remote_url_key(remote@), outcome(named)));
    match named {
        Ok(Some(url)) => Some(url),
        Ok(None) => {
            if parse_remote(remote).is_some() {
                Some(remote.to_owned())
            } else {
                None
            }
        },
        Err(_) => None,
    }
}

// ---------------------------------------------------------------------------
// Base
// ---------------------------------------------------------------------------

/// The ref the comparisons with the base run against. A `.` remote is the
/// repository itself, so its "tracking ref" is the advertised branch under
/// refs/heads, not a remote-tracking ref.
pub open spec fn base_ref(remote: Seq<char>, branch: Seq<char>) -> Seq<char> {
    if remote == "."@ {
        "refs/heads/"@ + branch
    } else {
        "refs/remotes/"@ + remote + "/"@ + branch
    }
}

/// The base branch that the local symref and the remote's word prove, or why
/// they prove none: the remote is authoritative, the symref may corroborate
/// it or stand in when the remote is unreachable, and the two disagreeing is
/// a conflict.
pub open spec fn base_branch(
    remote: Seq<char>,
    local: Option<Seq<char>>,
    head: RemoteHeadView,
) -> Result<Seq<char>, Seq<char>> {
    match head {
        RemoteHeadView::Advertised(advertised) => match local {
            Some(local) => if local == advertised {
                Ok(advertised)
            } else {
                Err(
                    "conflicting remote HEAD: local refs/remotes/"@ + remote + "/HEAD is "@ + local
                        + ", the remote advertises "@ + advertised,
                )
            },
            None => Ok(advertised),
        },
        RemoteHeadView::NotAdvertised => Err("remote "@ + remote + " advertises no HEAD"@),
        RemoteHeadView::Unreachable(_) => match local {
            Some(local) => Ok(local),
            None => Err("remote "@ + remote + " unreachable and no local remote HEAD"@),
        },
    }
}

/// `r` is what a base branch may be found to be: proven where its ref is here.
pub open spec fn proves_base<G: Fn(&Vec<String>, &Vec<String>) -> Reply>(
    run: G,
    repo: Repo,
    remote: Seq<char>,
    branch: Seq<char>,
    r: EvidenceView<BaseView>,
) -> bool {
    let local_ref = base_ref(remote, branch);
    exists|here: bool|
        #[trigger] repo.may_have_ref(run, local_ref, here) && r == if here {
            EvidenceView::Known(BaseView { remote, branch, local_ref })
        } else {
            EvidenceView::Unknown("base ref "@ + local_ref + " is not fetched locally"@)
        }
}

/// `local` is what the local remote HEAD symref may be found to name; a `.`
/// remote has none to consult.
pub open spec fn finds_local_head<G: Fn(&Vec<String>, &Vec<String>) -> Reply>(
    run: G,
    repo: Repo,
    remote: Seq<char>,
    local: Result<Option<Seq<char>>, ErrorView>,
) -> bool {
    if remote == "."@ {
        local == Ok::<Option<Seq<char>>, ErrorView>(None)
    } else {
        repo.has_local_head(run, remote, local)
    }
}

/// `r` is what the base on a remote may be found to be, its symref read.
pub open spec fn weighs_base<G: Fn(&Vec<String>, &Vec<String>) -> Reply>(
    run: G,
    repo: Repo,
    before: RemoteCache,
    remote: Seq<char>,
    local: Option<Seq<char>>,
    r: EvidenceView<BaseView>,
    after: RemoteCache,
) -> bool {
    exists|head: RemoteHeadView|
        #[trigger] learns_head(run, repo, before, remote, head, after) && match base_branch(
            remote,
            local,
            head,
        ) {
            Ok(branch) => proves_base(run, repo, remote, branch, r),
            Err(reason) => r == EvidenceView::<BaseView>::Unknown(reason),
        }
}

/// `r` is what the base on a remote may be found to be.
pub open spec fn finds_base_on<G: Fn(&Vec<String>, &Vec<String>) -> Reply>(
    run: G,
    repo: Repo,
    before: RemoteCache,
    remote: Seq<char>,
    r: EvidenceView<BaseView>,
    after: RemoteCache,
) -> bool {
    exists|local: Result<Option<Seq<char>>, ErrorView>|
        #[trigger] finds_local_head(run, repo, remote, local) && match local {
            Ok(local) => weighs_base(run, repo, before, remote, local, r, after),
            Err(e) => r == EvidenceView::<BaseView>::Unknown("local remote HEAD: "@ + e.text())
                && after == before,
        }
}

/// `r` is what the base may be found to be: on the upstream remote, or on the
/// repository's only remote when no upstream is configured (a single remote
/// is a derivation, not a guess; zero or several remotes prove nothing).
pub open spec fn finds_base<G: Fn(&Vec<String>, &Vec<String>) -> Reply>(
    run: G,
    repo: Repo,
    before: RemoteCache,
    upstream_remote: Option<Seq<char>>,
    r: EvidenceView<BaseView>,
    after: RemoteCache,
) -> bool {
    match upstream_remote {
        Some(remote) => finds_base_on(run, repo, before, remote, r, after),
        None => exists|names: Result<Seq<Seq<char>>, ErrorView>|
            #[trigger] repo.has_remotes(run, names) && match names {
                Ok(names) => if names.len() == 1 {
                    finds_base_on(run, repo, before, names[0], r, after)
                } else {
                    r == EvidenceView::<BaseView>::Unknown(
                        "no upstream remote and "@ + decimal(names.len())
                            + " remotes configured"@,
                    ) && after == before
                },
                Err(e) => r == EvidenceView::<BaseView>::Unknown("remote list: "@ + e.text())
                    && after == before,
            },
    }
}

/// The base branch: the symbolic HEAD of the upstream remote, or of the
/// repository's only remote when no upstream is configured.
pub fn resolve_base<G: Fn(&Vec<String>, &Vec<String>) -> Reply>(
    run: &G,
    repo: &Repo,
    cache: &mut RemoteCache,
    upstream_remote: Option<&str>,
) -> (r: Evidence<Base>)
    requires
        accepts_reads(*run),
    ensures
        finds_base(
            *run,
            *repo,
            *old(cache),
            upstream_remote.deep_view(),
            r.deep_view(),
            *final(cache),
        ),
{
    match upstream_remote {
        Some(remote) => base_on(run, repo, cache, remote),
        None => {
            let names = repo.remotes(run);
            assert(repo.has_remotes(*run, outcome(names)));
            match names {
                Ok(names) => {
                    if names.len() == 1 {
                        let remote = names[0].as_str();
                        assert(names.deep_view()[0] == remote@);
                        base_on(run, repo, cache, remote)
                    } else {
                        let mut reason = "no upstream remote and ".to_owned();
                        reason.append(print_u64(names.len() as u64).as_str());
                        reason.append(" remotes configured");
                        assert(names.deep_view().len() == names@.len());
                        Evidence::Unknown(reason)
                    }
                },
                Err(e) => Evidence::Unknown(concat("remote list: ", e.to_string().as_str())),
            }
        },
    }
}

/// The base on one remote.
fn base_on<G: Fn(&Vec<String>, &Vec<String>) -> Reply>(
    run: &G,
    repo: &Repo,
    cache: &mut RemoteCache,
    remote: &str,
) -> (r: Evidence<Base>)
    requires
        accepts_reads(*run),
    ensures
        finds_base_on(*run, *repo, *old(cache), remote@, r.deep_view(), *final(cache)),
{
    let local = if same(remote, ".") {
        Ok(None)
    } else {
        repo.local_remote_head(run, remote)
    };
    let ghost local_view = outcome(local);
    assert(finds_local_head(*run, *repo, remote@, local_view));
    match local {
        Ok(local) => {
            let head = cache.remote_head(run, repo, remote);
            let ghost head_view = head.deep_view();
            let r = match choose_branch(remote, local, head) {
                Ok(branch) => prove_base(run, repo, remote, branch),
                Err(reason) => Evidence::Unknown(reason),
            };
            assert(learns_head(*run, *repo, *old(cache), remote@, head_view, *cache));
            assert(weighs_base(
                *run,
                *repo,
                *old(cache),
                remote@,
                local_view->Ok_0,
                r.deep_view(),
                *cache,
            ));
            r
        },
        Err(e) => Evidence::Unknown(concat("local remote HEAD: ", e.to_string().as_str())),
    }
}

/// The base branch the two pieces of evidence prove, or why they prove none.
fn choose_branch(remote: &str, local: Option<String>, head: RemoteHead) -> (r: Result<
    String,
    String,
>)
    ensures
        match r {
            Ok(branch) => base_branch(remote@, local.deep_view(), head.deep_view()) == Ok::<
                Seq<char>,
                Seq<char>,
            >(branch@),
            Err(reason) => base_branch(remote@, local.deep_view(), head.deep_view()) == Err::<
                Seq<char>,
                Seq<char>,
            >(reason@),
        },
{
    match head {
        RemoteHead::Advertised(advertised) => {
            match local {
                Some(local) => {
                    if same(local.as_str(), advertised.as_str()) {
                        Ok(advertised)
                    } else {
                        let mut reason = "conflicting remote HEAD: local refs/remotes/".to_owned();
                        reason.append(remote);
                        reason.append("/HEAD is ");
                        reason.append(local.as_str());
                        reason.append(", the remote advertises ");
                        reason.append(advertised.as_str());
                        Err(reason)
                    }
                },
                None => Ok(advertised),
            }
        },
        RemoteHead::NotAdvertised => {
            let mut reason = concat("remote ", remote);
            reason.append(" advertises no HEAD");
            Err(reason)
        },
        // The remote could not be asked; the local symref is the recorded
        // evidence and stands alone rather than conflicting.
        RemoteHead::Unreachable(_) => match local {
            Some(local) => Ok(local),
            None => {
                let mut reason = concat("remote ", remote);
                reason.append(" unreachable and no local remote HEAD");
                Err(reason)
            },
        },
    }
}

/// The base, where the ref it stands on is here.
fn prove_base<G: Fn(&Vec<String>, &Vec<String>) -> Reply>(
    run: &G,
    repo: &Repo,
    remote: &str,
    branch: String,
) -> (r: Evidence<Base>)
    requires
        accepts_reads(*run),
    ensures
        proves_base(*run, *repo, remote@, branch@, r.deep_view()),
{
    let local_ref = if same(remote, ".") {
        concat("refs/heads/", branch.as_str())
    } else {
        let mut name = concat("refs/remotes/", remote);
        name.append("/");
        name.append(branch.as_str());
        name
    };
    assert(local_ref@ == base_ref(remote@, branch@));
    let here = repo.has_ref(run, local_ref.as_str());
    assert(repo.may_have_ref(*run, base_ref(remote@, branch@), here));
    if here {
        Evidence::Known(Base { remote: remote.to_owned(), branch, local_ref })
    } else {
        let mut reason = concat("base ref ", local_ref.as_str());
        reason.append(" is not fetched locally");
        Evidence::Unknown(reason)
    }
}

// ---------------------------------------------------------------------------
// What upstreams and bases promise
// ---------------------------------------------------------------------------

/// `RemoteGone` is only claimed of a remote that answered with a listing, and
/// the listing does not hold the ref: an unreachable remote is never gone.
pub proof fn law_gone_is_proven<G: Fn(&Vec<String>, &Vec<String>) -> Reply>(
    run: G,
    repo: Repo,
    before: RemoteCache,
    config: UpstreamConfigView,
    r: UpstreamView,
    after: RemoteCache,
)
    requires
        finds_upstream(run, repo, before, config, r, after),
        r is RemoteGone,
    ensures
        config matches UpstreamConfigView::Full { remote, merge } && r == (
        UpstreamView::RemoteGone { remote, merge_ref: merge }) && lists_without(
            run,
            repo,
            before,
            remote,
            merge,
            after,
        ),
{
    let remote = config->remote;
    let merge = config->merge;
    let advertised = choose|advertised: EvidenceView<bool>|
        #[trigger] learns_advertised(run, repo, before, remote, merge, advertised, after) && r
            == upstream_of(remote, merge, advertised);
    let refs = choose|refs: EvidenceView<Seq<Seq<char>>>|
        #[trigger] learns_refs(run, repo, before, remote, refs, after) && advertised == advertises(
            refs,
            merge,
        );
    assert(refs is Known);
    assert(learns_refs(run, repo, before, remote, EvidenceView::Known(refs->Known_0), after));
}

/// The remote may be learned to list its refs, `reference` not among them.
pub open spec fn lists_without<G: Fn(&Vec<String>, &Vec<String>) -> Reply>(
    run: G,
    repo: Repo,
    before: RemoteCache,
    remote: Seq<char>,
    reference: Seq<char>,
    after: RemoteCache,
) -> bool {
    exists|refs: EvidenceView<Seq<Seq<char>>>|
        #[trigger] learns_refs(run, repo, before, remote, refs, after) && (
        refs matches EvidenceView::Known(listing) && !listing.contains(reference))
}

/// A base is never guessed: it is the branch the remote advertises, or the
/// one the local symref recorded while the remote cannot be asked, and never
/// one on which the two disagree.
pub proof fn law_base_is_never_guessed(
    remote: Seq<char>,
    local: Option<Seq<char>>,
    head: RemoteHeadView,
)
    ensures
        base_branch(remote, local, head) matches Ok(branch) ==> {
            ||| head == RemoteHeadView::Advertised(branch) && (local is None || local == Some(
                branch,
            ))
            ||| head is Unreachable && local == Some(branch)
        },
        head is NotAdvertised ==> base_branch(remote, local, head) is Err,
        head is Unreachable && local is None ==> base_branch(remote, local, head) is Err,
        head matches RemoteHeadView::Advertised(branch) && local is Some && local != Some(branch)
            ==> base_branch(remote, local, head) is Err,
{
}

/// A configured upstream is there when the remote lists its merge ref, gone
/// when the remote lists others and not it, and unknown when the remote cannot
/// be asked. A branch without an upstream was never pushed, and half of one
/// says nothing.
pub proof fn law_an_upstream_is_there_when_its_remote_lists_it<
    G: Fn(&Vec<String>, &Vec<String>) -> Reply,
>(
    run: G,
    repo: Repo,
    before: RemoteCache,
    remote: Seq<char>,
    merge: Seq<char>,
    sha: Seq<char>,
    refs: Seq<Seq<char>>,
    code: int,
    r: UpstreamView,
    after: RemoteCache,
)
    requires
        finds_upstream(
            run,
            repo,
            before,
            UpstreamConfigView::Full { remote, merge },
            r,
            after,
        ),
        is_word(sha),
        forall|i: int| 0 <= i < refs.len() ==> is_word(#[trigger] refs[i]),
    ensures
        ({
            let key = (repo.deep_view(), remote);
            let global = repo_globals(repo.deep_view());
            let asked = seq!["ls-remote"@, remote];
            let printed = refs.map_values(|name: Seq<char>| sha.push('\t') + name);
            let unasked = !before.refs().contains_key(key);
            let lists = (unasked && always_prints(run, global, asked, terminated(printed, '\n')))
                || (!unasked && before.refs()[key] == EvidenceView::Known(refs));
            let silent = (unasked && (code != 0 && always_exits(run, global, asked, code)
                || never_answers(run, global, asked))) || (!unasked && before.refs()[key]
                is Unknown);
            &&& lists && refs.contains(merge) ==> r == (UpstreamView::Advertised {
                remote,
                merge_ref: merge,
            })
            &&& lists && !refs.contains(merge) ==> r == (UpstreamView::RemoteGone {
                remote,
                merge_ref: merge,
            })
            &&& silent ==> r is Unknown
        }),
{
    let advertised = choose|advertised: EvidenceView<bool>|
        #[trigger] learns_advertised(run, repo, before, remote, merge, advertised, after) && r
            == upstream_of(remote, merge, advertised);
    let listing = choose|listing: EvidenceView<Seq<Seq<char>>>|
        #[trigger] learns_refs(run, repo, before, remote, listing, after) && advertised
            == advertises(listing, merge);
    if !before.refs().contains_key((repo.deep_view(), remote)) {
        law_a_remote_lists_its_refs(run, repo, remote, sha, refs, merge, code, listing);
    }
}

/// A branch with no upstream configured was never pushed, and one with half of
/// an upstream is unknown, without a remote being asked.
pub proof fn law_no_upstream_asks_no_remote<G: Fn(&Vec<String>, &Vec<String>) -> Reply>(
    run: G,
    repo: Repo,
    before: RemoteCache,
    config: UpstreamConfigView,
    r: UpstreamView,
    after: RemoteCache,
)
    requires
        finds_upstream(run, repo, before, config, r, after),
    ensures
        config is Unset ==> r is NeverPushed && after == before,
        config is Partial ==> r == UpstreamView::Unknown("incomplete upstream config"@) && after
            == before,
{
}

/// The base is the branch that the remote advertises as its HEAD, confirmed by
/// the local note of it where there is one, or the noted one where the remote
/// cannot be asked. A note that differs is a conflict, and a remote that
/// advertises none, or that cannot be asked and is not noted, proves none.
pub proof fn law_the_base_is_the_remotes_head(
    remote: Seq<char>,
    local: Option<Seq<char>>,
    head: RemoteHeadView,
)
    ensures
        head matches RemoteHeadView::Advertised(branch) ==> {
            &&& local is None || local == Some(branch) ==> base_branch(remote, local, head) == Ok::<
                Seq<char>,
                Seq<char>,
            >(branch)
            &&& local is Some && local != Some(branch) ==> base_branch(remote, local, head)
                == Err::<Seq<char>, Seq<char>>(
                "conflicting remote HEAD: local refs/remotes/"@ + remote + "/HEAD is "@ + local->0
                    + ", the remote advertises "@ + branch,
            )
        },
        head is NotAdvertised ==> base_branch(remote, local, head) == Err::<Seq<char>, Seq<char>>(
            "remote "@ + remote + " advertises no HEAD"@,
        ),
        head is Unreachable ==> match local {
            Some(branch) => base_branch(remote, local, head) == Ok::<Seq<char>, Seq<char>>(branch),
            None => base_branch(remote, local, head) == Err::<Seq<char>, Seq<char>>(
                "remote "@ + remote + " unreachable and no local remote HEAD"@,
            ),
        },
{
}

/// A base branch is proven where the ref that tracks it is here, and that ref
/// is what is compared with; the repository itself, as a remote, tracks a
/// branch by the branch.
pub proof fn law_a_base_is_proven_by_its_tracking_ref<G: Fn(&Vec<String>, &Vec<String>) -> Reply>(
    run: G,
    repo: Repo,
    remote: Seq<char>,
    branch: Seq<char>,
    sha: Seq<char>,
    code: int,
    r: EvidenceView<BaseView>,
)
    requires
        proves_base(run, repo, remote, branch, r),
        is_word(sha),
    ensures
        ({
            let global = repo_globals(repo.deep_view());
            let local_ref = if remote == "."@ {
                "refs/heads/"@ + branch
            } else {
                "refs/remotes/"@ + remote + "/"@ + branch
            };
            let asked = seq!["rev-parse"@, "--verify"@, "-q"@, local_ref];
            &&& always_prints(run, global, asked, sha.push('\n')) ==> r == EvidenceView::Known(
                BaseView { remote, branch, local_ref },
            )
            &&& code != 0 && always_exits(run, global, asked, code) ==> r == EvidenceView::<
                BaseView,
            >::Unknown("base ref "@ + local_ref + " is not fetched locally"@)
            &&& never_answers(run, global, asked) ==> r is Unknown
        }),
{
    let local_ref = base_ref(remote, branch);
    let here = choose|here: bool|
        #[trigger] repo.may_have_ref(run, local_ref, here) && r == if here {
            EvidenceView::Known(BaseView { remote, branch, local_ref })
        } else {
            EvidenceView::Unknown("base ref "@ + local_ref + " is not fetched locally"@)
        };
    law_a_ref_is_here_when_it_verifies(run, repo, local_ref, sha, code, here);
}

/// The base is looked for on the upstream's remote, from what the local note
/// and the remote say; and without an upstream on the only remote there is.
/// No remote, and several, prove none.
pub proof fn law_the_base_is_on_the_upstreams_remote<G: Fn(&Vec<String>, &Vec<String>) -> Reply>(
    run: G,
    repo: Repo,
    before: RemoteCache,
    upstream_remote: Option<Seq<char>>,
    names: Seq<Seq<char>>,
    remote: Seq<char>,
    r: EvidenceView<BaseView>,
    after: RemoteCache,
)
    requires
        finds_base(run, repo, before, upstream_remote, r, after),
        forall|i: int| 0 <= i < names.len() ==> is_word(#[trigger] names[i]),
    ensures
        ({
            let global = repo_globals(repo.deep_view());
            let listed = always_prints(run, global, seq!["remote"@], terminated(names, '\n'));
            let chosen = upstream_remote == Some(remote) || (upstream_remote is None && listed
                && names == seq![remote]);
            &&& chosen ==> exists|local: Result<Option<Seq<char>>, ErrorView>|
                #[trigger] finds_local_head(run, repo, remote, local) && (if remote == "."@ {
                    local == Ok::<Option<Seq<char>>, ErrorView>(None)
                } else {
                    repo.has_local_head(run, remote, local)
                }) && match local {
                    Ok(local) => exists|head: RemoteHeadView|
                        #[trigger] learns_head(run, repo, before, remote, head, after)
                            && match base_branch(remote, local, head) {
                            Ok(branch) => proves_base(run, repo, remote, branch, r),
                            Err(why) => r == EvidenceView::<BaseView>::Unknown(why),
                        },
                    Err(e) => r == EvidenceView::<BaseView>::Unknown(
                        "local remote HEAD: "@ + e.text(),
                    ),
                }
            &&& upstream_remote is None && listed && names.len() != 1 ==> r == EvidenceView::<
                BaseView,
            >::Unknown(
                "no upstream remote and "@ + decimal(names.len()) + " remotes configured"@,
            ) && after == before
        }),
{
    let global = repo_globals(repo.deep_view());
    if upstream_remote is None {
        let found = choose|found: Result<Seq<Seq<char>>, ErrorView>|
            #[trigger] repo.has_remotes(run, found) && match found {
                Ok(found) => if found.len() == 1 {
                    finds_base_on(run, repo, before, found[0], r, after)
                } else {
                    r == EvidenceView::<BaseView>::Unknown(
                        "no upstream remote and "@ + decimal(found.len())
                            + " remotes configured"@,
                    ) && after == before
                },
                Err(e) => r == EvidenceView::<BaseView>::Unknown("remote list: "@ + e.text())
                    && after == before,
            };
        if always_prints(run, global, seq!["remote"@], terminated(names, '\n')) {
            lemma_remotes_are_those_listed(run, repo, names, found);
            found->Ok_0.to_multiset_ensures();
            names.to_multiset_ensures();
            assert(found->Ok_0.len() == names.len());
            if names == seq![remote] {
                assert(names.contains(names[0]));
                assert(names.to_multiset().count(remote) > 0);
                assert(found->Ok_0.contains(remote));
                assert(found->Ok_0[0] == remote);
            }
        }
    }
    let chosen = upstream_remote == Some(remote) || (upstream_remote is None && always_prints(
        run,
        global,
        seq!["remote"@],
        terminated(names, '\n'),
    ) && names == seq![remote]);
    if chosen {
        assert(finds_base_on(run, repo, before, remote, r, after));
        let local = choose|local: Result<Option<Seq<char>>, ErrorView>|
            #[trigger] finds_local_head(run, repo, remote, local) && match local {
                Ok(local) => weighs_base(run, repo, before, remote, local, r, after),
                Err(e) => r == EvidenceView::<BaseView>::Unknown(
                    "local remote HEAD: "@ + e.text(),
                ) && after == before,
            };
    }
}

/// A remote's URL is the one its name is configured with; a remote that is no
/// such name but a URL that a forge can serve is its own; and anything else
/// has none.
pub proof fn law_a_remote_has_its_configured_url<G: Fn(&Vec<String>, &Vec<String>) -> Reply>(
    run: G,
    repo: Repo,
    remote: Seq<char>,
    url: Seq<char>,
    r: Option<Seq<char>>,
)
    requires
        finds_url(run, repo, Some(remote), r),
        is_word(url),
    ensures
        ({
            let global = repo_globals(repo.deep_view());
            let asked = seq!["config"@, "--local"@, "--get"@, "remote."@ + remote + ".url"@];
            &&& always_prints(run, global, asked, url.push('\n')) ==> r == Some(url)
            &&& always_complains(run, global, asked, 1, seq![]) ==> r == if remote_parts(remote)
                is Some {
                Some(remote)
            } else {
                None
            }
            &&& never_answers(run, global, asked) ==> r is None
        }),
{
    reveal_strlit("remote.");
    let key = "remote."@ + remote + ".url"@;
    assert(key[0] == 'r');
    let named = choose|named: Result<Option<Seq<char>>, ErrorView>|
        #[trigger] repo.has_config(run, crate::git::remote_url_key(remote), named) && r
            == routed_url(remote, named);
    law_a_key_has_the_value_git_prints(run, repo, key, url, 1, url, named);
}

}
