//! Runtime evidence: pane resolution, claim validation and pane ownership.

use agent_sessions::command::{Output, Reply};
use agent_sessions::evidence::Evidence;
use agent_sessions::process::{
    Liveness, ProcessInstance, ProcessRow, ProcessStart, ProcessTable,
};
use agent_sessions::runtime::{
    AgentSessionKey, EvidenceSource, PaneSource, Placement, ProcessClaim, Provider,
    ResolvedAttachment, Runtime,
};
use agent_sessions::time::Timestamp;
use agent_sessions::tmux::{Pane, PaneId, PaneInventory, PaneRef, SessionId, WindowId};

const NOW: u64 = 1_800_000_000;

fn placement_of(r: &ResolvedAttachment) -> &'static str {
    match &r.placement {
        Placement::Bound(_) => "bound",
        Placement::Superseded => "superseded",
        Placement::Dead(_) => "dead",
        Placement::Unknown(_) => "unknown",
    }
}

fn liveness_of(l: &Liveness) -> &'static str {
    match l {
        Liveness::Instance => "instance",
        Liveness::PidOnly(_) => "pid-only",
        Liveness::Unverifiable(_) => "unverifiable",
        Liveness::Dead(_) => "dead",
    }
}

fn is_unknown<T>(evidence: &Evidence<T>) -> bool {
    matches!(evidence, Evidence::Unknown(_))
}

fn fake_pane(socket: &str, id: &str, pid: u32, tty: &str) -> Pane {
    Pane {
        socket: socket.to_owned(),
        id: PaneId::parse(id).unwrap(),
        window: WindowId::parse("@1").unwrap(),
        session: SessionId::parse("$1").unwrap(),
        session_name: "s".to_owned(),
        pid,
        command: "sh".to_owned(),
        cwd: None,
        tty: Some(tty.to_owned()),
        active: true,
        last: false,
        window_active: true,
        window_activity: None,
        session_attached: 1,
        wt_adminid: None,
        wt_handle: None,
    }
}

fn inventory(panes: Vec<Pane>) -> PaneInventory {
    PaneInventory { panes, servers: Vec::new(), warnings: Vec::new() }
}

fn fake_row(pid: u32, ppid: u32, tty: Option<&str>) -> ProcessRow {
    ProcessRow {
        pid,
        ppid,
        start: ProcessStart::At(1_700_000_000),
        exe: Some("worker".to_owned()),
        tty: tty.map(str::to_owned),
        state: 'S',
    }
}

fn runtime(panes: Vec<Pane>, rows: Vec<ProcessRow>) -> Runtime {
    Runtime {
        processes: Some(ProcessTable::from_rows(rows)),
        panes: inventory(panes),
        observed_at: Timestamp::from_secs(NOW),
    }
}

fn bare_claim(pid: u32) -> ProcessClaim {
    ProcessClaim {
        session: None,
        pid,
        pid_start: ProcessStart::Unavailable,
        expected_exe: None,
        published_pane: None,
        source: EvidenceSource::Derived,
        observed_at: Timestamp::from_secs(NOW),
    }
}

fn pane_ref(pane: &Pane) -> PaneRef {
    PaneRef { socket: pane.socket.clone(), pane: pane.id.clone() }
}

/// A refresh of what `ps` and the servers at their sockets printed.
fn observed(ps: &str, servers: &[(&str, &str)]) -> Runtime {
    let said = |text: &str| -> Reply {
        Ok(Output { code: Some(0), stdout: text.to_owned(), stderr: String::new() })
    };
    let run = |args: &Vec<String>| -> Reply {
        match servers.iter().find(|(socket, _)| *socket == args[1]) {
            Some((_, text)) => said(text),
            None => Ok(Output {
                code: Some(1),
                stdout: String::new(),
                stderr: "no server running".to_owned(),
            }),
        }
    };
    let sockets: Vec<String> = servers.iter().map(|(socket, _)| socket.to_string()).collect();
    let at = Timestamp::from_secs(NOW);
    Runtime::observe_over(&said(ps), at, &run, &|p: &String| Ok(p.clone()), &sockets, at)
}

fn pane_in<'a>(rt: &'a Runtime, session: &str) -> &'a Pane {
    rt.panes.panes.iter().find(|pane| pane.session_name == session).expect("a pane")
}

#[test]
fn disagreeing_derived_evidence_is_a_contradiction() {
    // pid 11 sits in pane %1's tree but holds pane %2's tty: two honest
    // sources that disagree, and the binding fails closed.
    let rt = runtime(
        vec![
            fake_pane("/sock/a", "%1", 10, "/dev/ttyA"),
            fake_pane("/sock/b", "%2", 20, "/dev/ttyB"),
        ],
        vec![fake_row(10, 1, Some("/dev/ttyA")), fake_row(11, 10, Some("/dev/ttyB"))],
    );
    let binding = rt.resolve_pane(11, None);
    assert!(is_unknown(&binding));
    let Evidence::Unknown(reason) = binding else {
        panic!("a contradiction is Unknown")
    };
    assert!(reason.contains("ancestry"), "{reason}");
    assert!(reason.contains("%2"), "{reason}");
    assert_eq!(
        reason,
        "ancestry resolves pid 11 to /sock/a:%1 but its tty belongs to /sock/b:%2"
    );
}

#[test]
fn a_published_handle_against_the_tty_is_a_contradiction() {
    // The handle names %1, but the claim's tty belongs to %2's pane.
    let rt = runtime(
        vec![
            fake_pane("/sock/a", "%1", 10, "/dev/ttyA"),
            fake_pane("/sock/b", "%2", 20, "/dev/ttyB"),
        ],
        vec![fake_row(11, 1, Some("/dev/ttyB"))],
    );
    let binding = rt.resolve_pane(11, Some("%1"));
    let Evidence::Unknown(reason) = binding else {
        panic!("a contradiction is Unknown")
    };
    assert!(reason.contains("the controlling tty"), "{reason}");
    assert_eq!(
        reason,
        "published handle names /sock/a:%1 but the controlling tty resolves to /sock/b:%2"
    );
}

#[test]
fn an_evidenceless_pid_is_unknown() {
    // No tty and no reachable pane_pid: nothing to resolve with.
    let rt = runtime(
        vec![fake_pane("/sock/a", "%1", 10, "/dev/ttyA")],
        vec![fake_row(10, 1, Some("/dev/ttyA")), fake_row(11, 999, None)],
    );
    assert!(is_unknown(&rt.resolve_pane(11, None)));
    // A pid not in the table at all is just as evidenceless, while a pid
    // under a pane_pid does resolve - the Known edge of the same check.
    assert!(is_unknown(&rt.resolve_pane(999, None)));
    assert!(!is_unknown(&rt.resolve_pane(10, None)));

    // A tty shared by two panes is ambiguous and resolves nothing.
    let rt = runtime(
        vec![
            fake_pane("/sock/a", "%1", 10, "/dev/ttyS"),
            fake_pane("/sock/b", "%2", 20, "/dev/ttyS"),
        ],
        vec![fake_row(11, 999, Some("/dev/ttyS"))],
    );
    assert!(is_unknown(&rt.resolve_pane(11, None)));
}

#[test]
fn the_newest_observation_owns_the_pane() {
    // Two live claims land on %1: the newer binds, the older retires.
    let rt = runtime(
        vec![fake_pane("/sock/a", "%1", 10, "/dev/ttyA")],
        vec![
            fake_row(10, 1, Some("/dev/ttyA")),
            fake_row(11, 10, Some("/dev/ttyA")),
            fake_row(12, 10, Some("/dev/ttyA")),
        ],
    );
    let claims = vec![
        bare_claim(11),
        ProcessClaim { observed_at: Timestamp::from_secs(NOW + 60), ..bare_claim(12) },
    ];
    let resolved = rt.resolve_attachments(&claims);
    assert_eq!(placement_of(&resolved[0]), "superseded");
    assert_eq!(placement_of(&resolved[1]), "bound");
    assert_eq!(liveness_of(&resolved[1].liveness), "pid-only");

    // A claim carrying the instance's own start time validates as the
    // instance itself.
    let claim = ProcessClaim { pid_start: ProcessStart::At(1_700_000_000), ..bare_claim(11) };
    assert_eq!(liveness_of(&rt.liveness(&claim)), "instance");
}

#[test]
fn a_lone_bound_claim_keeps_its_pane() {
    // One claim resolves, one does not: the pane's single claimant is not
    // contested.
    let rt = runtime(
        vec![fake_pane("/sock/a", "%1", 10, "/dev/ttyA")],
        vec![
            fake_row(10, 1, Some("/dev/ttyA")),
            fake_row(11, 10, Some("/dev/ttyA")),
            fake_row(12, 999, None),
        ],
    );
    let resolved = rt.resolve_attachments(&vec![bare_claim(11), bare_claim(12)]);
    assert_eq!(placement_of(&resolved[0]), "bound");
    assert_eq!(resolved[0].attachment.pane.as_ref().unwrap().pane.as_str(), "%1");
    assert_eq!(placement_of(&resolved[1]), "unknown");
}

#[test]
fn a_dead_claim_binds_no_pane() {
    let rt = runtime(
        vec![fake_pane("/sock/a", "%1", 1, "/dev/tty1")],
        vec![fake_row(1, 0, Some("/dev/tty1"))],
    );
    let claims = vec![ProcessClaim {
        session: Some(AgentSessionKey {
            provider: Provider::Claude,
            session_id: "x".to_owned(),
        }),
        pid: 4_000_000,
        pid_start: ProcessStart::Unavailable,
        expected_exe: None,
        published_pane: Some("%1".to_owned()),
        source: EvidenceSource::Published,
        observed_at: Timestamp::from_secs(NOW),
    }];
    let resolved = rt.resolve_attachments(&claims);
    assert_eq!(placement_of(&resolved[0]), "dead");
    assert_eq!(liveness_of(&resolved[0].liveness), "dead");
    assert_eq!(resolved[0].attachment.pane, None);
    assert!(!resolved[0].liveness.may_be_live());
    // What the claim carried is carried over.
    assert_eq!(resolved[0].attachment.session, claims[0].session);
    assert_eq!(resolved[0].attachment.process, claims[0].instance());
    assert_eq!(resolved[0].attachment.source, EvidenceSource::Published);
    assert_eq!(resolved[0].attachment.observed_at, Timestamp::from_secs(NOW));
}

#[test]
fn an_unreadable_table_verifies_nothing() {
    let runtime = Runtime {
        processes: None,
        panes: inventory(vec![]),
        observed_at: Timestamp::from_secs(NOW),
    };
    let claim = bare_claim(1);
    assert_eq!(liveness_of(&runtime.liveness(&claim)), "unverifiable");
    let resolved = runtime.resolve_attachments(&vec![claim]);
    assert_eq!(placement_of(&resolved[0]), "unknown");
    // A `ps` that failed leaves the table out.
    let at = Timestamp::from_secs(NOW);
    let rt = Runtime::from_evidence(&Err("no ps".to_owned()), at, inventory(vec![]), at);
    assert!(rt.processes.is_none());
}

#[test]
fn a_shell_only_pane_resolves_by_ancestry() {
    let rt = observed(
        "50 1 00:10 Ss pts/5 bash\n",
        &[("/s/one", "%0|50|/dev/pts/5|bash|/p|1|0|@0|1|0|$0|t|0||\n")],
    );
    let pane = pane_in(&rt, "t");
    // The pane's own shell resolves to its own pane with no hops at all: the
    // ancestry walk starts at the pid itself.
    let Evidence::Known(binding) = rt.resolve_pane(pane.pid, None) else {
        panic!("the pane's shell resolves")
    };
    assert_eq!(binding.pane, pane_ref(pane));
    assert_eq!(binding.source, PaneSource::Ancestry);
}

#[test]
fn a_two_hop_child_resolves_to_its_pane() {
    let rt = observed(
        "50 1 00:10 Ss pts/5 sh\n51 50 00:10 S pts/5 sh\n52 51 00:10 S pts/5 sleep\n",
        &[("/s/one", "%0|50|/dev/pts/5|sh|/p|1|0|@0|1|0|$0|t|0||\n")],
    );
    let pane = pane_in(&rt, "t");
    let chain = rt.processes.as_ref().unwrap().ancestors(52);
    assert_eq!(chain.iter().position(|p| *p == pane.pid), Some(2), "{chain:?}");
    let Evidence::Known(binding) = rt.resolve_pane(52, None) else {
        panic!("the grandchild resolves")
    };
    assert_eq!(binding.pane, pane_ref(pane));
    assert_eq!(binding.source, PaneSource::Ancestry);
}

#[test]
fn panes_and_windows_resolve_independently() {
    let rt = observed(
        "50 1 00:10 S pts/5 sleep\n51 1 00:10 S pts/6 sleep\n52 1 00:10 S pts/7 sleep\n",
        &[(
            "/s/one",
            "%0|50|/dev/pts/5|sleep|/p|1|0|@0|1|0|$0|t|0||\n\
             %1|51|/dev/pts/6|sleep|/p|0|0|@0|1|0|$0|t|0||\n\
             %2|52|/dev/pts/7|sleep|/p|1|0|@1|0|0|$0|t|0||\n",
        )],
    );
    assert_eq!(rt.panes.panes.len(), 3);
    // Each pane's root pid resolves to exactly its own pane, and exactly one
    // window differs from the other two.
    let mut windows = Vec::new();
    for pane in &rt.panes.panes {
        let Evidence::Known(binding) = rt.resolve_pane(pane.pid, None) else {
            panic!("pane {} resolves", pane.id.as_str())
        };
        assert_eq!(binding.pane, pane_ref(pane));
        windows.push(pane.window.clone());
    }
    windows.sort();
    windows.dedup();
    assert_eq!(windows.len(), 2, "three panes across two windows");
}

#[test]
fn two_servers_merge_into_one_inventory() {
    let said = |text: &str| -> Reply {
        Ok(Output { code: Some(0), stdout: text.to_owned(), stderr: String::new() })
    };
    let run = |args: &Vec<String>| -> Reply {
        match args[1].as_str() {
            "/base/tmux-9/one" => said("%0|50|/dev/pts/5|sleep|/p|1|0|@0|1|0|$0|s1|0||\n"),
            _ => said("%0|60|/dev/pts/6|sleep|/p|1|0|@0|1|0|$0|s2|0||\n"),
        }
    };
    let list = |_: &String| vec!["/base/tmux-9/two".to_owned(), "/base/tmux-9/one".to_owned()];
    let at = Timestamp::from_secs(NOW);
    // Discovery sees both sockets through the shared base directory.
    let rt = Runtime::observe_in(
        &said("50 1 00:10 S pts/5 sleep\n60 1 00:10 S pts/6 sleep\n"),
        at,
        &run,
        &|p: &String| Ok(p.clone()),
        &list,
        Some(9),
        Some("/base"),
        None,
        at,
    );
    assert_eq!(rt.panes.servers.len(), 2, "two answering servers");
    let a = pane_in(&rt, "s1");
    let b = pane_in(&rt, "s2");
    assert_eq!(a.socket, "/base/tmux-9/one");
    assert_eq!(b.socket, "/base/tmux-9/two");

    // Both servers name a `%0`; a bare published pane id is therefore
    // ambiguous and ancestry wins the fallthrough.
    let Evidence::Known(binding) = rt.resolve_pane(a.pid, Some(a.id.as_str())) else {
        panic!("s1's pane resolves")
    };
    assert_eq!(binding.pane, pane_ref(a));
    assert_eq!(binding.source, PaneSource::Ancestry);

    // Fully qualified, the same pane resolves through the published handle
    // even while its pane id is not unique.
    let handle = format!("{}:{}.{}", a.session_name, a.window.as_str(), a.id.as_str());
    let Evidence::Known(binding) = rt.resolve_pane(a.pid, Some(&handle)) else {
        panic!("the qualified handle resolves")
    };
    assert_eq!(binding.pane, pane_ref(a));
    assert_eq!(binding.source, PaneSource::Published);
}

#[test]
fn detached_and_attached_sessions_report_attachment() {
    let ps = "50 1 00:10 S pts/5 sleep\n";
    let rt = observed(ps, &[("/s", "%0|50|/dev/pts/5|sleep|/p|1|0|@0|1|0|$0|t|0||\n")]);
    let pane = pane_in(&rt, "t");
    assert_eq!(pane.session_attached, 0);
    assert!(rt.panes.in_detached_sessions().iter().any(|p| p.id == pane.id));

    let rt = observed(ps, &[("/s", "%0|50|/dev/pts/5|sleep|/p|1|0|@0|1|0|$0|t|1||\n")]);
    assert_eq!(pane_in(&rt, "t").session_attached, 1);
    assert!(rt.panes.in_detached_sessions().is_empty());
}

#[test]
fn a_dead_pane_is_dead_within_one_refresh() {
    let keeper = "%1|60|/dev/pts/6|sleep|/p|1|0|@1|1|0|$1|keeper|0||\n";
    let both = format!("%0|50|/dev/pts/5|sleep|/p|1|0|@0|1|0|$0|t|0||\n{keeper}");
    let rt = observed("50 1 00:10 S pts/5 sleep\n60 1 00:10 S pts/6 sleep\n", &[("/s", &both)]);
    let pid = pane_in(&rt, "t").pid;
    let start = rt.processes.as_ref().and_then(|t| t.get(pid).map(|r| r.start)).unwrap();
    assert_eq!(start, ProcessStart::At(NOW - 10));

    // One refresh is enough: a fresh observation carries no cache, so the
    // pane is absent and the pid reports dead immediately.
    let rt = observed("60 1 00:10 S pts/6 sleep\n", &[("/s", keeper)]);
    let table = rt.processes.as_ref().unwrap();
    let instance = ProcessInstance { pid, pid_start: start };
    assert!(matches!(table.is_live(&instance, None), Liveness::Dead(_)));
    let resolved = rt.resolve_attachments(&vec![bare_claim(pid)]);
    assert!(matches!(resolved[0].placement, Placement::Dead(_)));
}

#[test]
fn claims_are_validated_by_start_time_and_executable() {
    let rt = observed(
        "50 1 00:10 S pts/5 sleep\n",
        &[("/s", "%0|50|/dev/pts/5|sleep|/p|1|0|@0|1|0|$0|t|0||\n")],
    );
    let table = rt.processes.as_ref().unwrap();
    let pid = pane_in(&rt, "t").pid;
    let ProcessStart::At(start) = table.get(pid).unwrap().start else {
        panic!("the pane's process has a start time")
    };
    let at = |pid_start| ProcessInstance { pid, pid_start };
    // The true instance validates.
    assert_eq!(table.is_live(&at(ProcessStart::At(start)), Some("sleep")), Liveness::Instance);
    // A pid reused by a process started at another time rejects.
    assert!(matches!(
        table.is_live(&at(ProcessStart::At(start + 600)), None),
        Liveness::Dead(_)
    ));
    // A reused executable rejects.
    assert!(matches!(
        table.is_live(&at(ProcessStart::At(start)), Some("vim")),
        Liveness::Dead(_)
    ));
    // No start time on the claim is pid-only evidence.
    assert!(matches!(
        table.is_live(&at(ProcessStart::Unavailable), None),
        Liveness::PidOnly(_)
    ));
}

#[test]
fn published_handles_bind_contradict_and_fall_through() {
    let rt = observed(
        "50 1 00:10 S pts/5 sleep\n51 1 00:10 S pts/6 sleep\n",
        &[(
            "/s",
            "%0|50|/dev/pts/5|sleep|/p|1|0|@0|1|0|$0|t|0||\n\
             %1|51|/dev/pts/6|sleep|/p|0|0|@0|1|0|$0|t|0||\n",
        )],
    );
    let (a, b) = (&rt.panes.panes[0], &rt.panes.panes[1]);

    // A published handle naming a's pane binds through `Published`.
    let handle = format!("{}:{}.{}", a.session_name, a.window.as_str(), a.id.as_str());
    let Evidence::Known(binding) = rt.resolve_pane(a.pid, Some(&handle)) else {
        panic!("the published handle binds")
    };
    assert_eq!(binding.pane, pane_ref(a));
    assert_eq!(binding.source, PaneSource::Published);

    // A published handle naming the *other* live pane contradicts the
    // ancestry evidence: the binding is Unknown, not a pick.
    let wrong = format!("{}:{}.{}", b.session_name, b.window.as_str(), b.id.as_str());
    let binding = rt.resolve_pane(a.pid, Some(&wrong));
    assert!(
        matches!(binding, Evidence::Unknown(ref r) if r.contains("contradict") || r.contains("published")),
        "{binding:?}"
    );

    // A handle naming no live pane is stale and falls through to ancestry,
    // which still resolves exactly.
    let Evidence::Known(binding) = rt.resolve_pane(a.pid, Some("ghosts:@99.%999")) else {
        panic!("a stale handle falls through to ancestry")
    };
    assert_eq!(binding.pane, pane_ref(a));
    assert_eq!(binding.source, PaneSource::Ancestry);

    // The same for a handle whose session narrows it to nothing.
    let foreign = format!("nosuch:{}.{}", a.window.as_str(), a.id.as_str());
    let Evidence::Known(binding) = rt.resolve_pane(a.pid, Some(&foreign)) else {
        panic!("a session-mismatched handle falls through")
    };
    assert_eq!(binding.pane, pane_ref(a));

    // A handle without a pane component cannot pinpoint a pane.
    let Evidence::Known(binding) = rt.resolve_pane(a.pid, Some(a.window.as_str())) else {
        panic!("a window-only handle falls through")
    };
    assert_eq!(binding.pane, pane_ref(a));
    assert_eq!(binding.source, PaneSource::Ancestry);
}

#[test]
fn an_orphan_keeps_its_tty_and_resolves() {
    // 52 was reparented away but still holds the pane's controlling tty.
    let rt = observed(
        "50 1 00:10 S pts/5 sh\n51 50 00:10 S pts/5 sleep\n52 1 00:10 S pts/5 sleep\n",
        &[("/s", "%0|50|/dev/pts/5|sh|/p|1|0|@0|1|0|$0|t|0||\n")],
    );
    let pane = pane_in(&rt, "t");
    let Evidence::Known(binding) = rt.resolve_pane(52, None) else {
        panic!("the orphan resolves")
    };
    assert_eq!(binding.pane, pane_ref(pane));
    assert_eq!(binding.source, PaneSource::Tty);

    let Evidence::Known(binding) = rt.resolve_pane(51, None) else {
        panic!("the anchored child resolves")
    };
    assert_eq!(binding.pane, pane_ref(pane));
    assert_eq!(binding.source, PaneSource::Ancestry);
}

#[test]
fn pane_ownership_is_reconciled_per_pane() {
    // Two live processes in one pane's tree: a pane hosts at most one current
    // attachment.
    let rt = observed(
        "50 1 00:10 S pts/5 sh\n51 50 00:10 S pts/5 sleep\n52 50 00:10 S pts/5 sleep\n",
        &[("/s", "%0|50|/dev/pts/5|sh|/p|1|0|@0|1|0|$0|t|0||\n")],
    );
    let pane = pane_in(&rt, "t");

    // Same observation instant: nothing orders the claims, so both are
    // contradictory Unknown rather than a guess.
    let resolved = rt.resolve_attachments(&vec![bare_claim(51), bare_claim(52)]);
    for r in &resolved {
        assert_eq!(
            r.placement,
            Placement::Unknown(
                "2 live claims bind /s:%0 with no newer observation to order them".to_owned()
            )
        );
        assert_eq!(r.attachment.pane, None);
    }

    // Order them and the newer claim owns the pane; the older binding is
    // superseded, its pane retired.
    let newer = ProcessClaim { observed_at: Timestamp::from_secs(NOW + 1), ..bare_claim(52) };
    let resolved = rt.resolve_attachments(&vec![bare_claim(51), newer]);
    assert!(matches!(resolved[0].placement, Placement::Superseded));
    assert_eq!(resolved[0].attachment.pane, None);
    assert!(matches!(resolved[1].placement, Placement::Bound(PaneSource::Ancestry)));
    assert_eq!(resolved[1].attachment.pane, Some(pane_ref(pane)));

    // An older third claim does not order the two that tie: all are unknown.
    let older = ProcessClaim { observed_at: Timestamp::from_secs(NOW - 1), ..bare_claim(50) };
    let resolved = rt.resolve_attachments(&vec![bare_claim(51), older, bare_claim(52)]);
    assert!(resolved.iter().all(|r| matches!(r.placement, Placement::Unknown(_))));
}

#[test]
fn a_worktree_binds_windows_by_stored_then_derived_evidence() {
    let plain = |p: &String| Ok(p.clone());
    let ps = "50 1 00:10 S pts/5 sleep\n";
    let worktree = "/tmp/worktree";
    let rt = observed(ps, &[("/s", "%0|50|/dev/pts/5|sleep|/tmp/worktree|1|0|@0|1|0|$0|t|0||\n")]);
    let pane = pane_in(&rt, "t");
    assert_eq!(pane.cwd.as_deref(), Some(worktree));

    // No stored edge: the pane's cwd inside the worktree binds the window.
    assert_eq!(rt.panes.windows_bound(&plain, None, worktree), 1);
    assert_eq!(
        rt.panes.windows_bound(&plain, Some("other-admin"), worktree),
        1,
        "no stored edge means the derived edge still binds"
    );

    // A stored `@wt_adminid` decides outright: matching binds, and a stored
    // id naming another worktree unbinds even with cwd inside.
    let rt = observed(
        ps,
        &[(
            "/s",
            "%0|50|/dev/pts/5|sleep|/tmp/worktree|1|0|@0|1|0|$0|t|0|admin-1|feature-x\n",
        )],
    );
    let pane = pane_in(&rt, "t");
    assert_eq!(pane.wt_adminid.as_deref(), Some("admin-1"));
    assert_eq!(pane.wt_handle.as_deref(), Some("feature-x"));
    assert_eq!(rt.panes.windows_bound(&plain, Some("admin-1"), worktree), 1);
    assert_eq!(
        rt.panes.windows_bound(&plain, Some("other-admin"), worktree),
        0,
        "the stored edge owns the binding when present"
    );
    assert_eq!(rt.panes.windows_bound(&plain, None, worktree), 0);
}

#[test]
fn no_server_is_an_empty_inventory_and_unknown_panes() {
    // No sockets at all: still a valid empty inventory.
    let rt = observed("50 1 00:10 S ? sleep\n", &[]);
    assert!(rt.panes.panes.is_empty());
    assert!(rt.panes.servers.is_empty());
    assert!(is_unknown(&rt.resolve_pane(50, None)));
}

#[test]
fn a_recorded_warning_keeps_the_rest_of_the_inventory() {
    // A cwd containing the record separator inflates the field count: the
    // pane is dropped as a warning, not silently guessed.
    let rt = observed(
        "50 1 00:10 S pts/5 sleep\n",
        &[(
            "/s",
            "%0|50|/dev/pts/5|sleep|/p|1|0|@0|1|0|$0|holder|0||\n\
             %1|51|/dev/pts/6|sleep|/tmp/wt|weird|1|0|@1|1|0|$1|weird|0||\n",
        )],
    );
    assert!(rt.panes.warnings.iter().any(|w| w.contains("weird")), "{:?}", rt.panes.warnings);
    // The well-formed panes still parsed.
    assert!(rt.panes.panes.iter().any(|p| p.session_name == "holder"));
    assert!(rt.panes.servers.iter().all(|s| s.error.is_none()));
}

#[test]
fn a_cwd_never_resolves_a_pane() {
    let rows = || vec![fake_row(10, 1, None), fake_row(11, 999, None)];
    let mut inside = fake_pane("/sock/a", "%1", 10, "/dev/ttyA");
    inside.cwd = Some("/work/of/11".to_owned());
    let mut outside = fake_pane("/sock/a", "%1", 10, "/dev/ttyA");
    outside.cwd = None;
    let (a, b) = (runtime(vec![inside], rows()), runtime(vec![outside], rows()));
    for pid in [10, 11] {
        for handle in [None, Some("%1"), Some("@1"), Some("s:@1.%1")] {
            let (x, y) = (a.resolve_pane(pid, handle), b.resolve_pane(pid, handle));
            assert_eq!(format!("{x:?}"), format!("{y:?}"));
        }
    }
    assert!(is_unknown(&a.resolve_pane(11, None)));
    // A window or a session alone pinpoints nothing.
    assert!(is_unknown(&a.resolve_pane(11, Some("s:@1"))));
    assert!(!is_unknown(&a.resolve_pane(11, Some("s:@1.%1"))));
}

#[test]
fn one_pane_in_two_spellings_has_one_owner() {
    let rt = runtime(
        vec![
            fake_pane("/sock//a", "%1", 10, "/dev/ttyA"),
            fake_pane("/sock/a", "%1", 20, "/dev/ttyB"),
        ],
        vec![fake_row(10, 1, None), fake_row(20, 1, None)],
    );
    let resolved = rt.resolve_attachments(&vec![bare_claim(10), bare_claim(20)]);
    for r in &resolved {
        assert_eq!(
            r.placement,
            Placement::Unknown(
                "2 live claims bind /sock//a:%1 with no newer observation to order them".to_owned()
            )
        );
    }
}
