//! The forge matrix: every work-item and pipeline state, plus every failure
//! mode, through scripted `gh`/`glab` runs - so no real CLI and no network is
//! ever involved.

use std::cell::RefCell;

use agent_sessions::command::Output;
use agent_sessions::forge::{
    cli_for, gh_pipeline, gh_status, glab_pipeline, glab_status, parse_remote, read_attempt,
    read_gh, read_glab, Attempt, Check, Cli, Forge, ForgeCache, ForgeStatus, MergeRequest,
    Pipeline, PullRequest, WorkItem,
};
use agent_sessions::time::{Duration, Instant};

/// A CLI that answers every query with `body` and `code`, on the path under
/// its own name. What it was called with is logged, one line a call.
struct Stub {
    program: &'static str,
    body: String,
    code: i32,
    /// Only a query that holds this text is answered with the body; any other
    /// with an empty list.
    only: Option<&'static str>,
    log: RefCell<Vec<String>>,
}

impl Stub {
    fn new(program: &'static str, body: &str, code: i32) -> Stub {
        Stub { program, body: body.to_owned(), code, only: None, log: RefCell::new(Vec::new()) }
    }

    fn answering_only(program: &'static str, flag: &'static str, body: &str) -> Stub {
        Stub { only: Some(flag), ..Stub::new(program, body, 0) }
    }

    fn attempt(&self, args: &Vec<String>) -> Attempt {
        let line = args.join(" ");
        let body = match self.only {
            Some(flag) if !line.contains(flag) => "[]".to_owned(),
            _ => self.body.clone(),
        };
        self.log.borrow_mut().push(line);
        Attempt::Ran(Output {
            code: Some(self.code),
            stdout: body.clone(),
            stderr: body,
        })
    }

    fn status(&self, remote_url: &str, branch: &str) -> ForgeStatus {
        let locate = |program: &String| {
            if program == self.program {
                Some(format!("/bin/{program}"))
            } else {
                None
            }
        };
        let attempt = |exe: &String, args: &Vec<String>| {
            assert_eq!(*exe, format!("/bin/{}", self.program));
            self.attempt(args)
        };
        Forge { locate, attempt }.status(remote_url, branch)
    }

    fn calls(&self) -> Vec<String> {
        self.log.borrow().clone()
    }
}

fn gh_pr(number: u64, state: &str, rollup: &str) -> String {
    format!(
        r#"[{{"number":{number},"state":"{state}","url":"https://github.com/o/r/pull/{number}","statusCheckRollup":{rollup}}}]"#
    )
}

fn glab_mr(iid: u64, state: &str, pipeline: &str) -> String {
    format!(
        r#"[{{"iid":{iid},"state":"{state}","web_url":"https://gitlab.com/o/r/-/merge_requests/{iid}","head_pipeline":{pipeline}}}]"#
    )
}

fn status_of(program: &'static str, body: &str, remote_url: &str) -> ForgeStatus {
    Stub::new(program, body, 0).status(remote_url, "b")
}

#[test]
fn remote_urls_parse_to_host_and_path_or_nothing() {
    for (url, expected) in [
        ("git@github.com:o/r.git", Some(("github.com", "o/r"))),
        ("git@gitlab.com:group/sub/r.git", Some(("gitlab.com", "group/sub/r"))),
        ("ssh://git@gitlab.com/o/r.git", Some(("gitlab.com", "o/r"))),
        ("https://github.com/o/r.git", Some(("github.com", "o/r"))),
        ("https://ghe.acme.example:8443/o/r", Some(("ghe.acme.example", "o/r"))),
        ("https://github.com/o/r/", Some(("github.com", "o/r"))),
    ] {
        assert_eq!(
            parse_remote(url).map(|(h, p)| (h.as_str().to_owned(), p.as_str().to_owned())),
            expected.map(|(h, p)| (h.to_owned(), p.to_owned())),
            "{url}"
        );
    }
    for url in ["/abs/path.git", "relative/path", "https://host", "host:", ":path", "a/b:c"] {
        assert_eq!(parse_remote(url), None, "{url}");
    }
}

#[test]
fn hosts_route_to_their_cli() {
    assert_eq!(cli_for("github.com"), Some(Cli::Gh));
    assert_eq!(cli_for("GitHub.Acme.Example"), Some(Cli::Gh));
    assert_eq!(cli_for("gitlab.acme.example"), Some(Cli::Glab));
    assert_eq!(cli_for("git.example.com"), None);
}

#[test]
fn github_hosts_route_to_gh_and_map_every_state() {
    let stub = Stub::new(
        "gh",
        &gh_pr(191, "OPEN", r#"[{"status":"COMPLETED","conclusion":"SUCCESS"}]"#),
        0,
    );
    let status = stub.status("https://github.com/o/r.git", "feat");
    assert_eq!(status.item, WorkItem::Open);
    assert_eq!(status.pipeline, Pipeline::Succeeded);
    assert_eq!(status.label.as_deref(), Some("PR #191"));
    assert_eq!(status.url.as_deref(), Some("https://github.com/o/r/pull/191"));
    assert_eq!(status.reason, None);
    // Routing: the repo argument carries host/owner/repo for `gh`, and the
    // open items are asked for first.
    let argv = stub.calls().join(" ");
    assert!(argv.contains("pr list"), "{argv}");
    assert!(argv.contains("--repo github.com/o/r"), "{argv}");
    assert!(argv.contains("--head feat"), "{argv}");
    assert!(argv.contains("--state open"), "{argv}");
    assert_eq!(
        stub.calls(),
        ["pr list --repo github.com/o/r --head feat --state open \
          --json number,state,url,statusCheckRollup --limit 20"]
    );

    // The scp-style remote spelling routes identically.
    let status = stub.status("git@github.com:o/r.git", "feat");
    assert_eq!(status.item, WorkItem::Open);
    assert!(stub.calls().join(" ").contains("--repo github.com/o/r"));
}

#[test]
fn github_pipeline_states() {
    let cases = [
        (r#"[{"status":"IN_PROGRESS"}]"#, Pipeline::Busy),
        (r#"[{"state":"PENDING"}]"#, Pipeline::Busy),
        (r#"[{"status":"COMPLETED","conclusion":"FAILURE"}]"#, Pipeline::Failed),
        (r#"[{"state":"ERROR"}]"#, Pipeline::Failed),
        (
            r#"[{"status":"COMPLETED","conclusion":"SUCCESS"},{"status":"COMPLETED","conclusion":"SKIPPED"}]"#,
            Pipeline::Succeeded,
        ),
        // A shape neither pending, failed nor succeeded is unknown.
        (r#"[{"unexpected":"shape"}]"#, Pipeline::Unknown),
        (r#"[]"#, Pipeline::Unknown),
        (r#"null"#, Pipeline::Unknown),
    ];
    for (rollup, expected) in cases {
        let status = status_of("gh", &gh_pr(1, "OPEN", rollup), "https://github.com/o/r");
        assert_eq!(status.pipeline, expected, "rollup {rollup}");
    }
    // Failed wins over still-running, and busy wins over nothing.
    let rollup = r#"[{"status":"IN_PROGRESS"},{"status":"COMPLETED","conclusion":"FAILURE"}]"#;
    assert_eq!(
        status_of("gh", &gh_pr(1, "OPEN", rollup), "https://github.com/o/r").pipeline,
        Pipeline::Failed
    );
}

#[test]
fn github_item_states() {
    let cases = [
        ("OPEN", WorkItem::Open),
        ("MERGED", WorkItem::Closed),
        ("CLOSED", WorkItem::Closed),
        ("SOMETHING_NEW", WorkItem::Unknown),
    ];
    for (state, expected) in cases {
        let status = status_of("gh", &gh_pr(1, state, "[]"), "https://github.com/o/r");
        assert_eq!(status.item, expected, "state {state}");
    }
    let status = status_of("gh", &gh_pr(1, "SOMETHING_NEW", "[]"), "https://github.com/o/r");
    assert_eq!(status.reason.as_deref(), Some("gh reports PR state \"SOMETHING_NEW\""));
    // Only closed items exist.
    let page = format!(
        "[{},{}]",
        gh_pr(2, "CLOSED", "[]").trim_matches(['[', ']']),
        gh_pr(1, "MERGED", "[]").trim_matches(['[', ']'])
    );
    assert_eq!(status_of("gh", &page, "https://github.com/o/r").item, WorkItem::Closed);
    // None at all.
    assert_eq!(status_of("gh", "[]", "https://github.com/o/r").item, WorkItem::NotExisting);
}

#[test]
fn gitlab_hosts_route_to_glab_and_map_every_state() {
    let cases = [
        ("opened", WorkItem::Open),
        ("merged", WorkItem::Closed),
        ("closed", WorkItem::Closed),
        ("locked", WorkItem::Closed),
        ("surprising", WorkItem::Unknown),
    ];
    for (state, expected) in cases {
        let stub = Stub::new("glab", &glab_mr(7, state, "null"), 0);
        let status = stub.status("git@gitlab.com:o/r.git", "feat");
        assert_eq!(status.item, expected, "state {state}");
        if expected == WorkItem::Open {
            assert_eq!(status.label.as_deref(), Some("MR !7"));
        }
        let argv = stub.calls().join(" ");
        assert!(argv.contains("mr list"), "{argv}");
        assert!(argv.contains("--repo gitlab.com/o/r"), "{argv}");
        assert!(argv.contains("--source-branch feat"), "{argv}");
    }
    // Pipeline states from head_pipeline.status.
    let cases = [
        (r#"{"status":"running"}"#, Pipeline::Busy),
        (r#"{"status":"pending"}"#, Pipeline::Busy),
        (r#"{"status":"success"}"#, Pipeline::Succeeded),
        (r#"{"status":"failed"}"#, Pipeline::Failed),
        (r#"{"status":"canceled"}"#, Pipeline::Unknown),
        ("null", Pipeline::Unknown),
    ];
    for (pipeline, expected) in cases {
        let status =
            status_of("glab", &glab_mr(7, "opened", pipeline), "https://gitlab.com/o/r");
        assert_eq!(status.pipeline, expected, "pipeline {pipeline}");
    }
    assert_eq!(status_of("glab", "[]", "https://gitlab.com/o/r").item, WorkItem::NotExisting);
}

#[test]
fn every_failure_mode_is_unknown_and_nonfatal() {
    // No CLI for the host at all.
    let stub = Stub::new("nothing", "", 0);
    let status = stub.status("https://git.example.com/o/r", "b");
    assert_eq!(status.item, WorkItem::Unknown);
    assert!(status.reason.unwrap().contains("no forge CLI"));

    // A local path is not a forge remote.
    let status = stub.status("/srv/repos/r.git", "b");
    assert_eq!(status.item, WorkItem::Unknown);
    assert!(status.reason.unwrap().contains("not a forge remote"));

    // The host's CLI is not installed.
    let status = stub.status("https://github.com/o/r", "b");
    assert_eq!(status.item, WorkItem::Unknown);
    assert!(status.reason.unwrap().contains("not on PATH"));
    assert!(stub.calls().is_empty());

    // Authentication failure and command failure are both `unknown`, on
    // either forge CLI.
    for (code, stderr) in [(4, "gh auth login"), (1, "boom")] {
        let status = Stub::new("gh", stderr, code).status("https://github.com/o/r", "b");
        assert_eq!(status.item, WorkItem::Unknown, "exit {code}");
        assert_eq!(status.reason.unwrap(), format!("/bin/gh exited Some({code}): {stderr}"));

        let status = Stub::new("glab", stderr, code).status("https://gitlab.com/o/r", "b");
        assert_eq!(status.item, WorkItem::Unknown, "glab exit {code}");
    }

    // Unparseable success output is still `unknown`.
    let status = status_of("gh", "not json", "https://github.com/o/r");
    assert_eq!(status.item, WorkItem::Unknown);
    assert!(status.reason.unwrap().contains("unparseable"));

    let status = status_of("gh", "{}", "https://github.com/o/r");
    assert_eq!(status.item, WorkItem::Unknown);
    assert_eq!(status.reason.as_deref(), Some("gh output is not a list"));

    let status = status_of("glab", "not json", "https://gitlab.com/o/r");
    assert_eq!(status.item, WorkItem::Unknown);
    assert!(status.reason.unwrap().contains("unparseable"));

    let status = status_of("glab", "{}", "https://gitlab.com/o/r");
    assert_eq!(status.item, WorkItem::Unknown);
}

#[test]
fn an_empty_open_page_sends_a_second_existence_query() {
    // gh: the open page answers empty, the all-state page holds the item.
    let stub = Stub::answering_only("gh", "--state all", &gh_pr(2, "CLOSED", "[]"));
    let status = stub.status("https://github.com/o/r", "b");
    assert_eq!(status.item, WorkItem::Closed);
    assert_eq!(stub.calls().len(), 2, "open query, then all states");

    // An open item on the all-state page still wins - the client-side filter
    // keeps a misbehaving filter from hiding it.
    let stub = Stub::answering_only("gh", "--state all", &gh_pr(3, "OPEN", "[]"));
    let status = stub.status("https://github.com/o/r", "b");
    assert_eq!(status.item, WorkItem::Open);
    assert_eq!(status.label.as_deref(), Some("PR #3"));

    // Empty on both pages is not_existing, and costs the second call.
    let stub = Stub::answering_only("gh", "--state all", "[]");
    let status = stub.status("https://github.com/o/r", "b");
    assert_eq!(status.item, WorkItem::NotExisting);
    assert_eq!(stub.calls().len(), 2);

    // glab: same shape, with `--all` as the existence flag.
    let stub = Stub::answering_only("glab", "--all", &glab_mr(7, "merged", "null"));
    let status = stub.status("https://gitlab.com/o/r", "b");
    assert_eq!(status.item, WorkItem::Closed);
    assert_eq!(stub.calls().len(), 2, "open query, then all states");

    let stub = Stub::answering_only("glab", "--all", "[]");
    let status = stub.status("https://gitlab.com/o/r", "b");
    assert_eq!(status.item, WorkItem::NotExisting);
}

#[test]
fn the_cache_serves_network_facts_without_reasking() {
    let stub = Stub::new("gh", &gh_pr(1, "OPEN", "[]"), 0);
    let forge = Forge {
        locate: |program: &String| Some(program.clone()),
        attempt: |_: &String, args: &Vec<String>| stub.attempt(args),
    };
    let mut cache = ForgeCache::new(Duration::from_secs(300));
    let secs = |n: u128| Instant { nanos: (1_000 + n) * 1_000_000_000 };
    let t0 = secs(0);

    let url = "https://github.com/o/r";
    assert_eq!(cache.status(&forge, url, "b", t0).item, WorkItem::Open);
    assert_eq!(cache.status(&forge, url, "b", t0).item, WorkItem::Open);
    assert_eq!(stub.calls().len(), 1, "the second ask is cached");
    // A different branch is a different fact.
    cache.status(&forge, url, "other", t0);
    assert_eq!(stub.calls().len(), 2);
    // Just short of the TTL it still is.
    cache.status(&forge, url, "b", secs(299));
    assert_eq!(stub.calls().len(), 2);
    // Past the TTL the fact is re-collected.
    cache.status(&forge, url, "b", secs(301));
    assert_eq!(stub.calls().len(), 3);
    // And served again from then on.
    cache.status(&forge, url, "b", secs(600));
    assert_eq!(stub.calls().len(), 3);
    // A clock that went back ages nothing.
    cache.status(&forge, url, "b", t0);
    assert_eq!(stub.calls().len(), 3);
}

#[test]
fn forge_status_is_a_plain_value() {
    // Unknown is informational by construction: it carries its reason and
    // blocks nothing.
    let status = ForgeStatus {
        item: WorkItem::Unknown,
        pipeline: Pipeline::Unknown,
        label: None,
        url: None,
        reason: Some("offline".to_owned()),
    };
    assert_eq!(status.item, WorkItem::Unknown);
    assert_eq!(status.clone(), status);
}

#[test]
fn a_busy_executable_is_tried_again_for_a_while() {
    let tries = RefCell::new(0);
    let busy_for = |n: u32| {
        *tries.borrow_mut() = 0;
        let forge = Forge {
            locate: |program: &String| Some(program.clone()),
            attempt: |_: &String, _: &Vec<String>| {
                *tries.borrow_mut() += 1;
                if *tries.borrow() <= n {
                    Attempt::Busy("Text file busy".to_owned())
                } else {
                    Attempt::Ran(Output {
                        code: Some(0),
                        stdout: gh_pr(1, "OPEN", "[]"),
                        stderr: String::new(),
                    })
                }
            },
        };
        forge.status("https://github.com/o/r", "b")
    };
    assert_eq!(busy_for(5).item, WorkItem::Open);
    assert_eq!(*tries.borrow(), 6);
    let status = busy_for(6);
    assert_eq!(status.item, WorkItem::Unknown);
    assert_eq!(status.reason.as_deref(), Some("gh: Text file busy"));
    assert_eq!(*tries.borrow(), 6);
}

#[test]
fn a_missing_executable_is_an_error_not_a_panic() {
    let failed = Attempt::Failed("No such file or directory".to_owned());
    assert_eq!(
        read_attempt("/definitely/not/an/exe", failed),
        Err("/definitely/not/an/exe: No such file or directory".to_owned())
    );
    let killed =
        Attempt::Ran(Output { code: None, stdout: String::new(), stderr: "killed".to_owned() });
    assert_eq!(read_attempt("gh", killed), Err("gh exited None: killed".to_owned()));
}

#[test]
fn answers_are_read_off_their_json() {
    let body = r#"[ {"state": "MERGED", "number": 4, "url": "u4"},
                    {"state": "OPEN", "number": 9, "url": null, "statusCheckRollup": [
                        {"status": "COMPLETED", "conclusion": "NEUTRAL"}, {"state": "SUCCESS"}]} ]"#;
    let status = read_gh(&Ok(body.to_owned()));
    assert_eq!(status.item, WorkItem::Open);
    assert_eq!(status.label.as_deref(), Some("PR #9"));
    assert_eq!(status.url, None);
    assert_eq!(status.pipeline, Pipeline::Succeeded);
    // A number that is no unsigned integer labels nothing.
    let status = read_gh(&Ok(r#"[{"state": "OPEN", "number": "9"}]"#.to_owned()));
    assert_eq!(status.label, None);
    let status = read_gh(&Ok(r#"[{"state": "OPEN", "number": -9}]"#.to_owned()));
    assert_eq!(status.label, None);
    // An item without a state is not open, and says so.
    let status = read_gh(&Ok(r#"[{"number": 1}, 7]"#.to_owned()));
    assert_eq!(status.reason.as_deref(), Some("gh reports PR state \"\""));
    let status = read_glab(&Ok(r#"[{"iid": 3, "state": "a\"b"}]"#.to_owned()));
    assert_eq!(status.item, WorkItem::Unknown);
    assert_eq!(status.reason.as_deref(), Some(r#"glab reports MR state "a\"b""#));
    let status = read_glab(&Err("offline".to_owned()));
    assert_eq!(status.reason.as_deref(), Some("offline"));
}

#[test]
fn checks_fold_into_one_pipeline() {
    let check = |status: Option<&str>, conclusion: Option<&str>, state: Option<&str>| Check {
        status: status.map(str::to_owned),
        conclusion: conclusion.map(str::to_owned),
        state: state.map(str::to_owned),
    };
    let ok = || check(Some("COMPLETED"), Some("SUCCESS"), None);
    assert_eq!(gh_pipeline(&None), Pipeline::Unknown);
    assert_eq!(gh_pipeline(&Some(vec![])), Pipeline::Unknown);
    assert_eq!(gh_pipeline(&Some(vec![ok(), ok()])), Pipeline::Succeeded);
    assert_eq!(gh_pipeline(&Some(vec![ok(), check(None, None, None)])), Pipeline::Unknown);
    assert_eq!(
        gh_pipeline(&Some(vec![check(None, None, None), check(Some("QUEUED"), None, None)])),
        Pipeline::Busy
    );
    // A success that is not completed is no success.
    assert_eq!(
        gh_pipeline(&Some(vec![check(Some("ODD"), Some("SUCCESS"), None)])),
        Pipeline::Unknown
    );
    assert_eq!(
        gh_pipeline(&Some(vec![check(None, None, Some("EXPECTED")), check(None, None, Some("FAILURE"))])),
        Pipeline::Failed
    );
    assert_eq!(glab_pipeline(&Some("created".to_owned())), Pipeline::Busy);
    assert_eq!(glab_pipeline(&None), Pipeline::Unknown);
}

#[test]
fn an_open_item_wins_over_closed_predecessors() {
    let pull = |number: u64, state: &str| PullRequest {
        state: Some(state.to_owned()),
        number: Some(number),
        url: None,
        rollup: None,
    };
    let status = gh_status(&vec![pull(3, "CLOSED"), pull(2, "OPEN"), pull(1, "OPEN")]);
    assert_eq!(status.label.as_deref(), Some("PR #2"));
    assert_eq!(gh_status(&vec![pull(3, "CLOSED")]).item, WorkItem::Closed);
    assert_eq!(gh_status(&vec![]).item, WorkItem::NotExisting);
    let merge = |iid: u64, state: &str, pipeline: &str| MergeRequest {
        state: Some(state.to_owned()),
        iid: Some(iid),
        web_url: None,
        pipeline: Some(pipeline.to_owned()),
    };
    let status = glab_status(&vec![merge(3, "merged", "failed"), merge(2, "opened", "running")]);
    assert_eq!(status.label.as_deref(), Some("MR !2"));
    assert_eq!(status.pipeline, Pipeline::Busy);
    // The pipeline of an item that is not open counts for nothing.
    assert_eq!(glab_status(&vec![merge(3, "merged", "failed")]).pipeline, Pipeline::Unknown);
}
