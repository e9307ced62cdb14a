//! Pull requests and merge requests, and the one that stands for a branch.

use vstd::prelude::*;
use vstd::string::*;

use crate::forge::{no_item, ForgeStatus, Pipeline, StatusView, WorkItem};
use crate::forge::pipeline::{
    gh_pipeline, glab_pipeline, pipeline_state, rollup_state, Check, CheckView,
};
use crate::text::{copy_text, decimal, is_text, print_u64, quote, quoted, same};

verus! {

// ---------------------------------------------------------------------------
// Work items
// ---------------------------------------------------------------------------

/// A pull request of `gh pr list`, as far as it is read.
#[derive(Debug)]
pub struct PullRequest {
    pub state: Option<String>,
    pub number: Option<u64>,
    pub url: Option<String>,
    pub rollup: Option<Vec<Check>>,
}

/// The value of a [`PullRequest`], with its text as characters.
pub struct PullView {
    pub state: Option<Seq<char>>,
    pub number: Option<u64>,
    pub url: Option<Seq<char>>,
    pub rollup: Option<Seq<CheckView>>,
}

impl DeepView for PullRequest {
    type V = PullView;

    open spec fn deep_view(&self) -> PullView {
        PullView {
            state: self.state.deep_view(),
            number: self.number,
            url: self.url.deep_view(),
            rollup: self.rollup.deep_view(),
        }
    }
}

/// A merge request of `glab mr list`, as far as it is read.
#[derive(Debug)]
pub struct MergeRequest {
    pub state: Option<String>,
    pub iid: Option<u64>,
    pub web_url: Option<String>,
    /// `head_pipeline.status`.
    pub pipeline: Option<String>,
}

/// The value of a [`MergeRequest`], with its text as characters.
pub struct MergeView {
    pub state: Option<Seq<char>>,
    pub iid: Option<u64>,
    pub web_url: Option<Seq<char>>,
    pub pipeline: Option<Seq<char>>,
}

impl DeepView for MergeRequest {
    type V = MergeView;

    open spec fn deep_view(&self) -> MergeView {
        MergeView {
            state: self.state.deep_view(),
            iid: self.iid,
            web_url: self.web_url.deep_view(),
            pipeline: self.pipeline.deep_view(),
        }
    }
}

/// A short human label: the prefix and the number.
pub open spec fn label_of(prefix: Seq<char>, number: Option<u64>) -> Option<Seq<char>> {
    match number {
        Some(n) => Some(prefix + decimal(n as nat)),
        None => None,
    }
}

fn label(prefix: &str, number: Option<u64>) -> (r: Option<String>)
    ensures
        r.deep_view() == label_of(prefix@, number),
{
    match number {
        Some(n) => {
            let mut out = prefix.to_owned();
            out.append(print_u64(n).as_str());
            Some(out)
        },
        None => None,
    }
}

/// A state that may be missing; then it is empty.
pub open spec fn state_text(state: Option<Seq<char>>) -> Seq<char> {
    match state {
        Some(state) => state,
        None => seq![],
    }
}

fn or_empty(text: &Option<String>) -> (r: String)
    ensures
        r@ == state_text(text.deep_view()),
{
    match text {
        Some(text) => text.clone(),
        None => String::new(),
    }
}

/// The status of one pull request. Its pipeline counts only while it is open.
pub open spec fn pull_status(pr: PullView) -> StatusView {
    let state = state_text(pr.state);
    let open = state == "OPEN"@;
    let closed = state == "CLOSED"@ || state == "MERGED"@;
    StatusView {
        item: if open {
            WorkItem::Open
        } else if closed {
            WorkItem::Closed
        } else {
            WorkItem::Unknown
        },
        pipeline: if open {
            rollup_state(pr.rollup)
        } else {
            Pipeline::Unknown
        },
        label: label_of("PR #"@, pr.number),
        url: pr.url,
        reason: if open || closed {
            None
        } else {
            Some("gh reports PR state "@ + quoted(state))
        },
    }
}

/// The status of one merge request. Its pipeline counts only while it is open.
pub open spec fn merge_status(mr: MergeView) -> StatusView {
    let state = state_text(mr.state);
    let open = state == "opened"@;
    let closed = state == "closed"@ || state == "merged"@ || state == "locked"@;
    StatusView {
        item: if open {
            WorkItem::Open
        } else if closed {
            WorkItem::Closed
        } else {
            WorkItem::Unknown
        },
        pipeline: if open {
            pipeline_state(mr.pipeline)
        } else {
            Pipeline::Unknown
        },
        label: label_of("MR !"@, mr.iid),
        url: mr.web_url,
        reason: if open || closed {
            None
        } else {
            Some("glab reports MR state "@ + quoted(state))
        },
    }
}

/// The first open pull request of a page, else its first.
pub open spec fn chosen_pull(prs: Seq<PullView>) -> PullView
    recommends
        prs.len() > 0,
{
    match first_open_pull(prs) {
        Some(pr) => pr,
        None => prs[0],
    }
}

pub open spec fn first_open_pull(prs: Seq<PullView>) -> Option<PullView>
    decreases prs.len(),
{
    if prs.len() == 0 {
        None
    } else if prs[0].state == Some("OPEN"@) {
        Some(prs[0])
    } else {
        first_open_pull(prs.drop_first())
    }
}

/// The first open merge request of a page, else its first.
pub open spec fn chosen_merge(mrs: Seq<MergeView>) -> MergeView
    recommends
        mrs.len() > 0,
{
    match first_open_merge(mrs) {
        Some(mr) => mr,
        None => mrs[0],
    }
}

pub open spec fn first_open_merge(mrs: Seq<MergeView>) -> Option<MergeView>
    decreases mrs.len(),
{
    if mrs.len() == 0 {
        None
    } else if mrs[0].state == Some("opened"@) {
        Some(mrs[0])
    } else {
        first_open_merge(mrs.drop_first())
    }
}

/// The status a page of pull requests gives: an open item wins over any number
/// of closed predecessors, and an empty page is no item.
pub open spec fn pulls_status(prs: Seq<PullView>) -> StatusView {
    if prs.len() == 0 {
        no_item()
    } else {
        pull_status(chosen_pull(prs))
    }
}

/// The status a page of merge requests gives, in the same way.
pub open spec fn merges_status(mrs: Seq<MergeView>) -> StatusView {
    if mrs.len() == 0 {
        no_item()
    } else {
        merge_status(chosen_merge(mrs))
    }
}

fn one_pull_status(pr: &PullRequest) -> (r: ForgeStatus)
    ensures
        r.deep_view() == pull_status(pr.deep_view()),
{
    let state = or_empty(&pr.state);
    let open = same(state.as_str(), "OPEN");
    let closed = same(state.as_str(), "CLOSED") || same(state.as_str(), "MERGED");
    let reason = if open || closed {
        None
    } else {
        let mut text = "gh reports PR state ".to_owned();
        text.append(quote(state.as_str()).as_str());
        Some(text)
    };
    ForgeStatus {
        item: if open {
            WorkItem::Open
        } else if closed {
            WorkItem::Closed
        } else {
            WorkItem::Unknown
        },
        pipeline: if open {
            gh_pipeline(&pr.rollup)
        } else {
            Pipeline::Unknown
        },
        label: label("PR #", pr.number),
        url: copy_text(&pr.url),
        reason,
    }
}

fn one_merge_status(mr: &MergeRequest) -> (r: ForgeStatus)
    ensures
        r.deep_view() == merge_status(mr.deep_view()),
{
    let state = or_empty(&mr.state);
    let open = same(state.as_str(), "opened");
    let closed = same(state.as_str(), "closed") || same(state.as_str(), "merged") || same(
        state.as_str(),
        "locked",
    );
    let reason = if open || closed {
        None
    } else {
        let mut text = "glab reports MR state ".to_owned();
        text.append(quote(state.as_str()).as_str());
        Some(text)
    };
    ForgeStatus {
        item: if open {
            WorkItem::Open
        } else if closed {
            WorkItem::Closed
        } else {
            WorkItem::Unknown
        },
        pipeline: if open {
            glab_pipeline(&mr.pipeline)
        } else {
            Pipeline::Unknown
        },
        label: label("MR !", mr.iid),
        url: copy_text(&mr.web_url),
        reason,
    }
}

/// The status a page of pull requests gives.
pub fn gh_status(prs: &Vec<PullRequest>) -> (r: ForgeStatus)
    ensures
        r.deep_view() == pulls_status(prs.deep_view()),
{
    let ghost all = prs.deep_view();
    assert(all.len() == prs@.len());
    if prs.len() == 0 {
        return ForgeStatus::not_existing();
    }
    let mut i: usize = 0;
    assert(all.skip(0) =~= all);
    while i < prs.len()
        invariant
            i <= prs@.len(),
            0 < prs@.len(),
            all == prs.deep_view(),
            all.len() == prs@.len(),
            first_open_pull(all) == first_open_pull(all.skip(i as int)),
        decreases prs@.len() - i,
    {
        assert(all.skip(i as int)[0] == prs@[i as int].deep_view());
        assert(all.skip(i as int).drop_first() =~= all.skip(i + 1));
        if is_text(&prs[i].state, "OPEN") {
            return one_pull_status(&prs[i]);
        }
        i += 1;
    }
    assert(all[0] == prs@[0].deep_view());
    one_pull_status(&prs[0])
}

/// The status a page of merge requests gives.
pub fn glab_status(mrs: &Vec<MergeRequest>) -> (r: ForgeStatus)
    ensures
        r.deep_view() == merges_status(mrs.deep_view()),
{
    let ghost all = mrs.deep_view();
    assert(all.len() == mrs@.len());
    if mrs.len() == 0 {
        return ForgeStatus::not_existing();
    }
    let mut i: usize = 0;
    assert(all.skip(0) =~= all);
    while i < mrs.len()
        invariant
            i <= mrs@.len(),
            0 < mrs@.len(),
            all == mrs.deep_view(),
            all.len() == mrs@.len(),
            first_open_merge(all) == first_open_merge(all.skip(i as int)),
        decreases mrs@.len() - i,
    {
        assert(all.skip(i as int)[0] == mrs@[i as int].deep_view());
        assert(all.skip(i as int).drop_first() =~= all.skip(i + 1));
        if is_text(&mrs[i].state, "opened") {
            return one_merge_status(&mrs[i]);
        }
        i += 1;
    }
    assert(all[0] == mrs@[0].deep_view());
    one_merge_status(&mrs[0])
}

// ---------------------------------------------------------------------------
// What the choice of an item promises
// ---------------------------------------------------------------------------

/// An open pull request wins over any number of closed ones.
pub proof fn law_an_open_pull_request_wins(prs: Seq<PullView>, i: int)
    requires
        0 <= i < prs.len(),
        prs[i].state == Some("OPEN"@),
    ensures
        pulls_status(prs).item == WorkItem::Open,
{
    lemma_first_open_pull(prs, i);
}

proof fn lemma_first_open_pull(prs: Seq<PullView>, i: int)
    requires
        0 <= i < prs.len(),
        prs[i].state == Some("OPEN"@),
    ensures
        first_open_pull(prs) matches Some(pr) && pr.state == Some("OPEN"@),
    decreases prs.len(),
{
    if prs[0].state != Some("OPEN"@) {
        assert(prs.drop_first()[i - 1] == prs[i]);
        lemma_first_open_pull(prs.drop_first(), i - 1);
    }
}

/// An open merge request wins over any number of closed ones.
pub proof fn law_an_open_merge_request_wins(mrs: Seq<MergeView>, i: int)
    requires
        0 <= i < mrs.len(),
        mrs[i].state == Some("opened"@),
    ensures
        merges_status(mrs).item == WorkItem::Open,
{
    lemma_first_open_merge(mrs, i);
}

proof fn lemma_first_open_merge(mrs: Seq<MergeView>, i: int)
    requires
        0 <= i < mrs.len(),
        mrs[i].state == Some("opened"@),
    ensures
        first_open_merge(mrs) matches Some(mr) && mr.state == Some("opened"@),
    decreases mrs.len(),
{
    if mrs[0].state != Some("opened"@) {
        assert(mrs.drop_first()[i - 1] == mrs[i]);
        lemma_first_open_merge(mrs.drop_first(), i - 1);
    }
}

/// The pull request that stands for a branch is the first that is open, and
/// the first of all where none is. It is open, or closed when it was closed or
/// merged, and it is known by its own number, URL and checks; the checks count
/// only while it is open.
pub proof fn law_the_first_open_pull_request_stands(prs: Seq<PullView>, i: int)
    requires
        0 <= i < prs.len(),
        prs[i].state == Some("OPEN"@) || i == 0,
        prs[i].state == Some("OPEN"@) ==> forall|j: int|
            0 <= j < i ==> (#[trigger] prs[j]).state != Some("OPEN"@),
        prs[i].state != Some("OPEN"@) ==> forall|j: int|
            0 <= j < prs.len() ==> (#[trigger] prs[j]).state != Some("OPEN"@),
    ensures
        ({
            let r = pulls_status(prs);
            let pr = prs[i];
            let open = pr.state == Some("OPEN"@);
            let closed = pr.state == Some("CLOSED"@) || pr.state == Some("MERGED"@);
            &&& r.item == WorkItem::Open <==> open
            &&& r.item == WorkItem::Closed <==> closed
            &&& r.item == WorkItem::Unknown <==> !open && !closed
            &&& open ==> r.pipeline == rollup_state(pr.rollup)
            &&& !open ==> r.pipeline == Pipeline::Unknown
            &&& r.url == pr.url
            &&& pr.number matches Some(n) ==> r.label == Some("PR #"@ + decimal(n as nat))
            &&& pr.number is None ==> r.label is None
            &&& open || closed ==> r.reason is None
            &&& !open && !closed && pr.state is Some ==> r.reason == Some(
                "gh reports PR state "@ + quoted(pr.state->0),
            )
        }),
{
    lemma_pull_states();
    lemma_chosen_pull(prs, i);
}

proof fn lemma_pull_states()
    ensures
        "OPEN"@ != "CLOSED"@,
        "OPEN"@ != "MERGED"@,
        "OPEN"@.len() > 0,
        "CLOSED"@.len() > 0,
        "MERGED"@.len() > 0,
        "opened"@ != "closed"@,
        "opened"@ != "merged"@,
        "opened"@ != "locked"@,
        "opened"@.len() > 0,
        "closed"@.len() > 0,
        "merged"@.len() > 0,
        "locked"@.len() > 0,
{
    reveal_strlit("OPEN");
    reveal_strlit("CLOSED");
    reveal_strlit("MERGED");
    reveal_strlit("opened");
    reveal_strlit("closed");
    reveal_strlit("merged");
    reveal_strlit("locked");
    assert("OPEN"@.len() == 4 && "CLOSED"@.len() == 6 && "MERGED"@.len() == 6);
    assert("opened"@[0] == 'o' && "closed"@[0] == 'c' && "merged"@[0] == 'm' && "locked"@[0]
        == 'l');
}

proof fn lemma_chosen_pull(prs: Seq<PullView>, i: int)
    requires
        0 <= i < prs.len(),
        prs[i].state == Some("OPEN"@) ==> forall|j: int|
            0 <= j < i ==> (#[trigger] prs[j]).state != Some("OPEN"@),
        prs[i].state != Some("OPEN"@) ==> forall|j: int|
            0 <= j < prs.len() ==> (#[trigger] prs[j]).state != Some("OPEN"@),
    ensures
        first_open_pull(prs) == if prs[i].state == Some("OPEN"@) {
            Some(prs[i])
        } else {
            None
        },
    decreases prs.len(),
{
    let rest = prs.drop_first();
    if prs[0].state != Some("OPEN"@) {
        if prs.len() == 1 {
            assert(first_open_pull(rest) is None);
        } else {
            let k = if i > 0 {
                i - 1
            } else {
                0
            };
            assert forall|j: int| 0 <= j < rest.len() implies rest[j] == prs[j + 1] by {}
            if prs[i].state == Some("OPEN"@) {
                assert forall|j: int| 0 <= j < k implies (#[trigger] rest[j]).state != Some(
                    "OPEN"@,
                ) by {
                    assert(prs[j + 1].state != Some("OPEN"@));
                }
            } else {
                assert forall|j: int| 0 <= j < rest.len() implies (#[trigger] rest[j]).state
                    != Some("OPEN"@) by {
                    assert(prs[j + 1].state != Some("OPEN"@));
                }
            }
            lemma_chosen_pull(rest, k);
        }
    }
}

/// The merge request that stands for a branch is the first that is open, and
/// the first of all where none is. It is open, or closed when it was closed,
/// merged or locked, and it is known by its own number, URL and pipeline; the
/// pipeline counts only while it is open.
pub proof fn law_the_first_open_merge_request_stands(mrs: Seq<MergeView>, i: int)
    requires
        0 <= i < mrs.len(),
        mrs[i].state == Some("opened"@) || i == 0,
        mrs[i].state == Some("opened"@) ==> forall|j: int|
            0 <= j < i ==> (#[trigger] mrs[j]).state != Some("opened"@),
        mrs[i].state != Some("opened"@) ==> forall|j: int|
            0 <= j < mrs.len() ==> (#[trigger] mrs[j]).state != Some("opened"@),
    ensures
        ({
            let r = merges_status(mrs);
            let mr = mrs[i];
            let open = mr.state == Some("opened"@);
            let closed = mr.state == Some("closed"@) || mr.state == Some("merged"@) || mr.state
                == Some("locked"@);
            &&& r.item == WorkItem::Open <==> open
            &&& r.item == WorkItem::Closed <==> closed
            &&& r.item == WorkItem::Unknown <==> !open && !closed
            &&& open ==> r.pipeline == pipeline_state(mr.pipeline)
            &&& !open ==> r.pipeline == Pipeline::Unknown
            &&& r.url == mr.web_url
            &&& mr.iid matches Some(n) ==> r.label == Some("MR !"@ + decimal(n as nat))
            &&& mr.iid is None ==> r.label is None
            &&& open || closed ==> r.reason is None
            &&& !open && !closed && mr.state is Some ==> r.reason == Some(
                "glab reports MR state "@ + quoted(mr.state->0),
            )
        }),
{
    lemma_pull_states();
    lemma_chosen_merge(mrs, i);
}

proof fn lemma_chosen_merge(mrs: Seq<MergeView>, i: int)
    requires
        0 <= i < mrs.len(),
        mrs[i].state == Some("opened"@) ==> forall|j: int|
            0 <= j < i ==> (#[trigger] mrs[j]).state != Some("opened"@),
        mrs[i].state != Some("opened"@) ==> forall|j: int|
            0 <= j < mrs.len() ==> (#[trigger] mrs[j]).state != Some("opened"@),
    ensures
        first_open_merge(mrs) == if mrs[i].state == Some("opened"@) {
            Some(mrs[i])
        } else {
            None
        },
    decreases mrs.len(),
{
    let rest = mrs.drop_first();
    if mrs[0].state != Some("opened"@) {
        if mrs.len() == 1 {
            assert(first_open_merge(rest) is None);
        } else {
            let k = if i > 0 {
                i - 1
            } else {
                0
            };
            assert forall|j: int| 0 <= j < rest.len() implies rest[j] == mrs[j + 1] by {}
            if mrs[i].state == Some("opened"@) {
                assert forall|j: int| 0 <= j < k implies (#[trigger] rest[j]).state != Some(
                    "opened"@,
                ) by {
                    assert(mrs[j + 1].state != Some("opened"@));
                }
            } else {
                assert forall|j: int| 0 <= j < rest.len() implies (#[trigger] rest[j]).state
                    != Some("opened"@) by {
                    assert(mrs[j + 1].state != Some("opened"@));
                }
            }
            lemma_chosen_merge(rest, k);
        }
    }
}

}
