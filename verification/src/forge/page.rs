//! What the pages that a forge prints say.

use vstd::prelude::*;
use vstd::string::*;

use crate::json;
use crate::forge::{unknown_status, ForgeStatus, Pipeline, StatusView, WorkItem};
use crate::forge::item::{
    gh_status, glab_status, law_the_first_open_merge_request_stands,
    law_the_first_open_pull_request_stands, merges_status, pulls_status, MergeRequest, MergeView,
    PullRequest, PullView,
};
use crate::forge::pipeline::{
    law_a_failed_check_fails_the_rollup, law_a_pipeline_goes_by_its_status, rollup_state, Check,
    CheckView,
};
use crate::json::{json_field, json_items, json_number, json_text, json_value};
use crate::text::decimal;

verus! {

// ---------------------------------------------------------------------------
// Pages
// ---------------------------------------------------------------------------

/// One entry of a rollup, read off its JSON.
pub open spec fn check_of(entry: Seq<char>) -> CheckView {
    CheckView {
        status: json_text(json_field(entry, "status"@)),
        conclusion: json_text(json_field(entry, "conclusion"@)),
        state: json_text(json_field(entry, "state"@)),
    }
}

/// A pull request, read off its JSON.
pub open spec fn pull_of(item: Seq<char>) -> PullView {
    PullView {
        state: json_text(json_field(item, "state"@)),
        number: json_number(json_field(item, "number"@)),
        url: json_text(json_field(item, "url"@)),
        rollup: match json_items(json_field(item, "statusCheckRollup"@)) {
            Some(entries) => Some(entries.map_values(|entry: Seq<char>| check_of(entry))),
            None => None,
        },
    }
}

/// A merge request, read off its JSON.
pub open spec fn merge_of(item: Seq<char>) -> MergeView {
    MergeView {
        state: json_text(json_field(item, "state"@)),
        iid: json_number(json_field(item, "iid"@)),
        web_url: json_text(json_field(item, "web_url"@)),
        pipeline: json_text(json_field(json_field(item, "head_pipeline"@), "status"@)),
    }
}

/// The items of a page that a CLI printed, or why it is no page.
pub open spec fn page_of(program: Seq<char>, text: Seq<char>) -> Result<Seq<Seq<char>>, Seq<char>> {
    match json_value(text) {
        Err(e) => Err("unparseable "@ + program + " output: "@ + e),
        Ok(value) => match json_items(value) {
            Some(items) => Ok(items),
            None => Err(program + " output is not a list"@),
        },
    }
}

/// Whether a CLI answered with an empty page.
pub open spec fn is_empty_page(program: Seq<char>, said: Result<Seq<char>, Seq<char>>) -> bool {
    said matches Ok(text) && (page_of(program, text) matches Ok(items) && items.len() == 0)
}

/// What an answer of `gh` comes to; every failure is unknown, with its reason.
pub open spec fn gh_answer(said: Result<Seq<char>, Seq<char>>) -> StatusView {
    match said {
        Err(reason) => unknown_status(reason),
        Ok(text) => match page_of("gh"@, text) {
            Err(reason) => unknown_status(reason),
            Ok(items) => pulls_status(items.map_values(|item: Seq<char>| pull_of(item))),
        },
    }
}

/// What an answer of `glab` comes to, in the same way.
pub open spec fn glab_answer(said: Result<Seq<char>, Seq<char>>) -> StatusView {
    match said {
        Err(reason) => unknown_status(reason),
        Ok(text) => match page_of("glab"@, text) {
            Err(reason) => unknown_status(reason),
            Ok(items) => merges_status(items.map_values(|item: Seq<char>| merge_of(item))),
        },
    }
}

fn read_check(entry: &str) -> (r: Check)
    ensures
        r.deep_view() == check_of(entry@),
{
    Check {
        status: json::text(json::field(entry, "status").as_str()),
        conclusion: json::text(json::field(entry, "conclusion").as_str()),
        state: json::text(json::field(entry, "state").as_str()),
    }
}

fn read_rollup(value: &str) -> (r: Option<Vec<Check>>)
    ensures
        r.deep_view() == match json_items(value@) {
            Some(entries) => Some(entries.map_values(|entry: Seq<char>| check_of(entry))),
            None => None,
        },
{
    let Some(entries) = json::items(value) else {
        return None;
    };
    let mut out: Vec<Check> = Vec::new();
    let mut i: usize = 0;
    while i < entries.len()
        invariant
            i <= entries@.len(),
            out@.len() == i,
            forall|j: int|
                0 <= j < i ==> (#[trigger] out.deep_view()[j]) == check_of(entries.deep_view()[j]),
        decreases entries@.len() - i,
    {
        let check = read_check(entries[i].as_str());
        let ghost before = out.deep_view();
        let ghost one = check.deep_view();
        out.push(check);
        assert(out.deep_view() =~= before.push(one));
        i += 1;
    }
    assert(out.deep_view() =~= entries.deep_view().map_values(
        |entry: Seq<char>| check_of(entry),
    ));
    Some(out)
}

fn read_pull(item: &str) -> (r: PullRequest)
    ensures
        r.deep_view() == pull_of(item@),
{
    PullRequest {
        state: json::text(json::field(item, "state").as_str()),
        number: json::number(json::field(item, "number").as_str()),
        url: json::text(json::field(item, "url").as_str()),
        rollup: read_rollup(json::field(item, "statusCheckRollup").as_str()),
    }
}

fn read_merge(item: &str) -> (r: MergeRequest)
    ensures
        r.deep_view() == merge_of(item@),
{
    let pipeline = json::field(item, "head_pipeline");
    MergeRequest {
        state: json::text(json::field(item, "state").as_str()),
        iid: json::number(json::field(item, "iid").as_str()),
        web_url: json::text(json::field(item, "web_url").as_str()),
        pipeline: json::text(json::field(pipeline.as_str(), "status").as_str()),
    }
}

/// The outcome of a run with its text as characters.
pub open spec fn said_view(said: Result<String, String>) -> Result<Seq<char>, Seq<char>> {
    match said {
        Ok(text) => Ok(text@),
        Err(reason) => Err(reason@),
    }
}

fn read_page(program: &str, text: &str) -> (r: Result<Vec<String>, String>)
    ensures
        match r {
            Ok(items) => page_of(program@, text@) == Ok::<Seq<Seq<char>>, Seq<char>>(
                items.deep_view(),
            ),
            Err(reason) => page_of(program@, text@) == Err::<Seq<Seq<char>>, Seq<char>>(reason@),
        },
{
    match json::value(text) {
        Err(e) => {
            let mut reason = "unparseable ".to_owned();
            reason.append(program);
            reason.append(" output: ");
            reason.append(e.as_str());
            Err(reason)
        },
        Ok(value) => match json::items(value.as_str()) {
            Some(items) => Ok(items),
            None => {
                let mut reason = program.to_owned();
                reason.append(" output is not a list");
                Err(reason)
            },
        },
    }
}

/// Whether a CLI answered with an empty page.
pub(crate) fn empty_page(program: &str, said: &Result<String, String>) -> (r: bool)
    ensures
        r == is_empty_page(program@, said_view(*said)),
{
    match said {
        Ok(text) => match read_page(program, text.as_str()) {
            Ok(items) => {
                assert(items.deep_view().len() == items@.len());
                items.len() == 0
            },
            Err(_) => false,
        },
        Err(_) => false,
    }
}

/// What an answer of `gh` comes to.
pub fn read_gh(said: &Result<String, String>) -> (r: ForgeStatus)
    ensures
        r.deep_view() == gh_answer(said_view(*said)),
{
    let text = match said {
        Ok(text) => text,
        Err(reason) => return ForgeStatus::unknown(reason.clone()),
    };
    let items = match read_page("gh", text.as_str()) {
        Ok(items) => items,
        Err(reason) => return ForgeStatus::unknown(reason),
    };
    let mut prs: Vec<PullRequest> = Vec::new();
    let mut i: usize = 0;
    while i < items.len()
        invariant
            i <= items@.len(),
            prs@.len() == i,
            forall|j: int|
                0 <= j < i ==> (#[trigger] prs.deep_view()[j]) == pull_of(items.deep_view()[j]),
        decreases items@.len() - i,
    {
        let pr = read_pull(items[i].as_str());
        let ghost before = prs.deep_view();
        let ghost one = pr.deep_view();
        prs.push(pr);
        assert(prs.deep_view() =~= before.push(one));
        i += 1;
    }
    assert(prs.deep_view() =~= items.deep_view().map_values(|item: Seq<char>| pull_of(item)));
    gh_status(&prs)
}

/// What an answer of `glab` comes to.
pub fn read_glab(said: &Result<String, String>) -> (r: ForgeStatus)
    ensures
        r.deep_view() == glab_answer(said_view(*said)),
{
    let text = match said {
        Ok(text) => text,
        Err(reason) => return ForgeStatus::unknown(reason.clone()),
    };
    let items = match read_page("glab", text.as_str()) {
        Ok(items) => items,
        Err(reason) => return ForgeStatus::unknown(reason),
    };
    let mut mrs: Vec<MergeRequest> = Vec::new();
    let mut i: usize = 0;
    while i < items.len()
        invariant
            i <= items@.len(),
            mrs@.len() == i,
            forall|j: int|
                0 <= j < i ==> (#[trigger] mrs.deep_view()[j]) == merge_of(items.deep_view()[j]),
        decreases items@.len() - i,
    {
        let mr = read_merge(items[i].as_str());
        let ghost before = mrs.deep_view();
        let ghost one = mr.deep_view();
        mrs.push(mr);
        assert(mrs.deep_view() =~= before.push(one));
        i += 1;
    }
    assert(mrs.deep_view() =~= items.deep_view().map_values(|item: Seq<char>| merge_of(item)));
    glab_status(&mrs)
}

// ---------------------------------------------------------------------------
// What the pages promise
// ---------------------------------------------------------------------------

/// Every failure - a run that failed, output that is not JSON, output that is
/// no list - is `Unknown` with its reason, never a guess.
pub proof fn law_failures_are_unknown(said: Result<Seq<char>, Seq<char>>)
    ensures
        said is Err || page_of("gh"@, said->Ok_0) is Err ==> gh_answer(said).item
            == WorkItem::Unknown && gh_answer(said).reason is Some,
        said is Err || page_of("glab"@, said->Ok_0) is Err ==> glab_answer(said).item
            == WorkItem::Unknown && glab_answer(said).reason is Some,
{
}

/// A reason is carried exactly where the item is unknown, and a pipeline only
/// where it is open.
pub proof fn law_unknown_carries_its_reason(said: Result<Seq<char>, Seq<char>>)
    ensures
        gh_answer(said).reason is Some <==> gh_answer(said).item == WorkItem::Unknown,
        glab_answer(said).reason is Some <==> glab_answer(said).item == WorkItem::Unknown,
        gh_answer(said).pipeline != Pipeline::Unknown ==> gh_answer(said).item == WorkItem::Open,
        glab_answer(said).pipeline != Pipeline::Unknown ==> glab_answer(said).item
            == WorkItem::Open,
{
}

/// The JSON of a rollup entry says that it failed.
pub open spec fn says_failed(entry: Seq<char>) -> bool {
    let conclusion = json_text(json_field(entry, "conclusion"@));
    let state = json_text(json_field(entry, "state"@));
    ||| conclusion == Some("FAILURE"@)
    ||| conclusion == Some("CANCELLED"@)
    ||| conclusion == Some("TIMED_OUT"@)
    ||| conclusion == Some("ACTION_REQUIRED"@)
    ||| conclusion == Some("STARTUP_FAILURE"@)
    ||| state == Some("FAILURE"@)
    ||| state == Some("ERROR"@)
}

/// The JSON of a rollup entry says that it succeeded.
pub open spec fn says_succeeded(entry: Seq<char>) -> bool {
    let conclusion = json_text(json_field(entry, "conclusion"@));
    ||| json_text(json_field(entry, "status"@)) == Some("COMPLETED"@) && (conclusion == Some(
        "SUCCESS"@,
    ) || conclusion == Some("NEUTRAL"@) || conclusion == Some("SKIPPED"@))
    ||| json_text(json_field(entry, "state"@)) == Some("SUCCESS"@)
}

/// A page of pull requests is read by the fields of its items: the state, the
/// number, the URL, and of each check of the rollup its status, conclusion and
/// state. The first item whose state is `OPEN` stands, or the first of all.
pub proof fn law_a_page_of_pull_requests_reads_its_fields(
    text: Seq<char>,
    value: Seq<char>,
    items: Seq<Seq<char>>,
    i: int,
)
    requires
        json_value(text) == Ok::<Seq<char>, Seq<char>>(value),
        json_items(value) == Some(items),
        0 <= i < items.len(),
        ({
            let open = |j: int| json_text(json_field(items[j], "state"@)) == Some("OPEN"@);
            ||| open(i) && forall|j: int| 0 <= j < i ==> !#[trigger] open(j)
            ||| i == 0 && forall|j: int| 0 <= j < items.len() ==> !#[trigger] open(j)
        }),
    ensures
        ({
            let r = gh_answer(Ok(text));
            let state = json_text(json_field(items[i], "state"@));
            let entries = json_items(json_field(items[i], "statusCheckRollup"@));
            &&& r.item == WorkItem::Open <==> state == Some("OPEN"@)
            &&& r.item == WorkItem::Closed <==> state == Some("CLOSED"@) || state == Some(
                "MERGED"@,
            )
            &&& r.url == json_text(json_field(items[i], "url"@))
            &&& json_number(json_field(items[i], "number"@)) matches Some(n) ==> r.label == Some(
                "PR #"@ + decimal(n as nat),
            )
            &&& state == Some("OPEN"@) && entries is Some ==> {
                &&& r.pipeline == Pipeline::Failed <==> exists|j: int|
                    0 <= j < entries->0.len() && says_failed(#[trigger] entries->0[j])
                &&& r.pipeline == Pipeline::Succeeded ==> entries->0.len() > 0 && forall|j: int|
                    0 <= j < entries->0.len() ==> says_succeeded(#[trigger] entries->0[j])
            }
            &&& state != Some("OPEN"@) || entries is None ==> r.pipeline == Pipeline::Unknown
        }),
{
    let prs = items.map_values(|item: Seq<char>| pull_of(item));
    let open = |j: int| json_text(json_field(items[j], "state"@)) == Some("OPEN"@);
    assert forall|j: int| 0 <= j < prs.len() implies (#[trigger] prs[j]).state == json_text(
        json_field(items[j], "state"@),
    ) && ((prs[j].state == Some("OPEN"@)) == open(j)) by {}
    law_the_first_open_pull_request_stands(prs, i);
    let entries = json_items(json_field(items[i], "statusCheckRollup"@));
    if entries is Some {
        let checks = entries->0.map_values(|entry: Seq<char>| check_of(entry));
        law_a_failed_check_fails_the_rollup(checks);
        assert(prs[i].rollup == Some(checks));
        assert forall|j: int| 0 <= j < checks.len() implies #[trigger] checks[j] == check_of(
            entries->0[j],
        ) by {}
        assert forall|j: int| 0 <= j < checks.len() implies (#[trigger] checks[j]).failed()
            == says_failed(entries->0[j]) && checks[j].succeeded() == says_succeeded(
            entries->0[j],
        ) by {}
        if exists|j: int| 0 <= j < checks.len() && says_failed(#[trigger] entries->0[j]) {
            let j = choose|j: int| 0 <= j < checks.len() && says_failed(#[trigger] entries->0[j]);
            assert(checks[j].failed());
        }
        assert forall|j: int| 0 <= j < checks.len() implies says_failed(#[trigger] entries->0[j])
            == checks[j].failed() && says_succeeded(entries->0[j]) == checks[j].succeeded() by {}
        assert(rollup_state(Some(checks)) == Pipeline::Failed <==> exists|j: int|
            0 <= j < checks.len() && (#[trigger] checks[j]).failed());
    }
}

/// A page of merge requests is read by the fields of its items: the state, the
/// number within the project, the URL, and the status of the head pipeline.
/// The first item whose state is `opened` stands, or the first of all.
pub proof fn law_a_page_of_merge_requests_reads_its_fields(
    text: Seq<char>,
    value: Seq<char>,
    items: Seq<Seq<char>>,
    i: int,
)
    requires
        json_value(text) == Ok::<Seq<char>, Seq<char>>(value),
        json_items(value) == Some(items),
        0 <= i < items.len(),
        ({
            let open = |j: int| json_text(json_field(items[j], "state"@)) == Some("opened"@);
            ||| open(i) && forall|j: int| 0 <= j < i ==> !#[trigger] open(j)
            ||| i == 0 && forall|j: int| 0 <= j < items.len() ==> !#[trigger] open(j)
        }),
    ensures
        ({
            let r = glab_answer(Ok(text));
            let state = json_text(json_field(items[i], "state"@));
            let status = json_text(json_field(json_field(items[i], "head_pipeline"@), "status"@));
            &&& r.item == WorkItem::Open <==> state == Some("opened"@)
            &&& r.item == WorkItem::Closed <==> state == Some("closed"@) || state == Some(
                "merged"@,
            ) || state == Some("locked"@)
            &&& r.url == json_text(json_field(items[i], "web_url"@))
            &&& json_number(json_field(items[i], "iid"@)) matches Some(n) ==> r.label == Some(
                "MR !"@ + decimal(n as nat),
            )
            &&& r.pipeline == Pipeline::Succeeded <==> state == Some("opened"@) && status == Some(
                "success"@,
            )
            &&& r.pipeline == Pipeline::Failed <==> state == Some("opened"@) && status == Some(
                "failed"@,
            )
            &&& r.pipeline == Pipeline::Busy <==> state == Some("opened"@) && (status == Some(
                "created"@,
            ) || status == Some("waiting_for_resource"@) || status == Some("preparing"@) || status
                == Some("pending"@) || status == Some("running"@))
        }),
{
    let mrs = items.map_values(|item: Seq<char>| merge_of(item));
    let open = |j: int| json_text(json_field(items[j], "state"@)) == Some("opened"@);
    assert forall|j: int| 0 <= j < mrs.len() implies (#[trigger] mrs[j]).state == json_text(
        json_field(items[j], "state"@),
    ) && ((mrs[j].state == Some("opened"@)) == open(j)) by {}
    law_the_first_open_merge_request_stands(mrs, i);
    let status = json_text(json_field(json_field(items[i], "head_pipeline"@), "status"@));
    if status is Some {
        law_a_pipeline_goes_by_its_status(status->0);
    }
}

/// A page without items says that there is none; what is no page, and a run
/// that failed, say why nothing is known.
pub proof fn law_what_is_no_page_says_why(text: Seq<char>, why: Seq<char>)
    ensures
        gh_answer(Err(why)).reason == Some(why),
        glab_answer(Err(why)).reason == Some(why),
        json_value(text) == Err::<Seq<char>, Seq<char>>(why) ==> {
            &&& gh_answer(Ok(text)).item == WorkItem::Unknown
            &&& glab_answer(Ok(text)).item == WorkItem::Unknown
            &&& gh_answer(Ok(text)).reason == Some("unparseable "@ + "gh"@ + " output: "@ + why)
            &&& glab_answer(Ok(text)).reason == Some(
                "unparseable "@ + "glab"@ + " output: "@ + why,
            )
        },
        json_value(text) is Ok && json_items(json_value(text)->Ok_0) is None ==> {
            &&& gh_answer(Ok(text)).item == WorkItem::Unknown
            &&& glab_answer(Ok(text)).item == WorkItem::Unknown
            &&& gh_answer(Ok(text)).reason == Some("gh"@ + " output is not a list"@)
            &&& glab_answer(Ok(text)).reason == Some("glab"@ + " output is not a list"@)
        },
        json_value(text) is Ok && json_items(json_value(text)->Ok_0) == Some(
            Seq::<Seq<char>>::empty(),
        ) ==> {
            &&& gh_answer(Ok(text)).item == WorkItem::NotExisting
            &&& glab_answer(Ok(text)).item == WorkItem::NotExisting
            &&& gh_answer(Ok(text)).reason is None
            &&& glab_answer(Ok(text)).reason is None
        },
{
}

}
