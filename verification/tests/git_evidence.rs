//! The verdict table: a scripted repository holding every Git shape cleanup
//! has to classify, asserted field by field and verdict by verdict - exactly,
//! including reason lists.

use std::cell::RefCell;
use std::collections::BTreeMap;

use agent_sessions::command::{Output, Reply};
use agent_sessions::evidence::Evidence;
use agent_sessions::forge::{ForgeStatus, Pipeline, WorkItem};
use agent_sessions::git::{Head, Repo};
use agent_sessions::time::Timestamp;
use agent_sessions::vector::{
    anchors, collect, collect_cached, Anchor, Landed, RemoteCache, RuntimeFacts, UpstreamState,
    WindowCount, WorkState,
};
use agent_sessions::verdict::{cleanup, Verdict};

fn out(code: i32, stdout: &str, stderr: &str) -> Reply {
    Ok(Output { code: Some(code), stdout: stdout.to_owned(), stderr: stderr.to_owned() })
}

fn ok(stdout: &str) -> Reply {
    out(0, stdout, "")
}

/// The repository whose canonical common dir is `common_dir`.
fn repo_at(common_dir: &str) -> Repo {
    let git = |_: &Vec<String>, _: &Vec<String>| ok(common_dir);
    let canonicalize = |path: &String| Ok(path.clone());
    Repo::discover(&git, &canonicalize, common_dir).unwrap().unwrap()
}

/// The forge asked successfully and found no work item.
fn no_item() -> ForgeStatus {
    ForgeStatus {
        item: WorkItem::NotExisting,
        pipeline: Pipeline::Unknown,
        label: None,
        url: None,
        reason: None,
    }
}

fn open_item() -> ForgeStatus {
    ForgeStatus {
        item: WorkItem::Open,
        pipeline: Pipeline::Busy,
        label: Some("PR #191".to_owned()),
        url: Some("https://github.com/o/r/pull/191".to_owned()),
        reason: None,
    }
}

fn quiet() -> RuntimeFacts {
    RuntimeFacts::default()
}

/// What Git knows of one tip.
#[derive(Clone)]
struct Tip {
    /// The branch name, or the commit of a detached HEAD.
    name: String,
    /// `branch.<name>.remote` and `.merge`.
    remote: Option<String>,
    merge: Option<String>,
    /// Whether the remote still lists the merge ref.
    listed: bool,
    /// Commits past the base.
    ahead: u64,
    /// Commits past `@{u}`, where that resolves.
    unpushed: Option<u64>,
    /// Commits no ref reaches.
    unique: u64,
    ancestor: bool,
    related: bool,
    /// Paths changed since the merge base, and whether the base has them.
    changed: Vec<String>,
    same: bool,
    dirty: bool,
}

/// A pushed branch with `ahead` commits on files of its own.
fn pushed(name: &str, ahead: u64) -> Tip {
    Tip {
        name: name.to_owned(),
        remote: Some("origin".to_owned()),
        merge: Some(format!("refs/heads/{name}")),
        listed: true,
        ahead,
        unpushed: Some(0),
        unique: 0,
        ancestor: ahead == 0,
        related: true,
        changed: if ahead > 0 { vec![format!("{name}.txt")] } else { vec![] },
        same: false,
        dirty: false,
    }
}

/// A branch that was never pushed.
fn local(name: &str, ahead: u64) -> Tip {
    Tip { remote: None, merge: None, unpushed: None, ..pushed(name, ahead) }
}

/// One checkout: its directory name, the tip it is on, and how.
struct Checkout {
    dir: &'static str,
    on: &'static str,
    shape: Shape,
}

#[derive(PartialEq)]
enum Shape {
    Branch,
    Detached,
    Unborn,
    Locked,
    Lost,
}

/// A repository at `/f/main` with its remote.
struct Fixture {
    common_dir: &'static str,
    tips: Vec<Tip>,
    checkouts: Vec<Checkout>,
    remotes: Vec<&'static str>,
    /// What the remote says its HEAD is: none where it advertises none, and
    /// nothing at all where it cannot be reached.
    remote_head: Option<Option<&'static str>>,
    local_head: Option<&'static str>,
    base_fetched: bool,
    log: RefCell<Vec<String>>,
}

impl Fixture {
    fn new(tips: Vec<Tip>, checkouts: Vec<Checkout>) -> Fixture {
        Fixture {
            common_dir: "/f/main/.git",
            tips,
            checkouts,
            remotes: vec!["origin"],
            remote_head: Some(Some("main")),
            local_head: Some("main"),
            base_fetched: true,
            log: RefCell::new(Vec::new()),
        }
    }

    /// One pushed branch `feat`, checked out in a worktree.
    fn feat() -> Fixture {
        Fixture::new(
            vec![pushed("main", 0), pushed("feat", 1)],
            vec![
                Checkout { dir: "main", on: "main", shape: Shape::Branch },
                Checkout { dir: "wt-feat", on: "feat", shape: Shape::Branch },
            ],
        )
    }

    fn tip(&self, reference: &str) -> Option<&Tip> {
        let name = reference.strip_prefix("refs/heads/").unwrap_or(reference);
        self.tips.iter().find(|tip| tip.name == name)
    }

    fn dir(&self, name: &str) -> String {
        format!("/f/{name}")
    }

    fn repo(&self) -> Repo {
        repo_at(self.common_dir)
    }

    fn git(&self, global: &Vec<String>, args: &Vec<String>) -> Reply {
        self.log.borrow_mut().push(args.join(" "));
        let words: Vec<&str> = args.iter().map(String::as_str).collect();
        let fatal = || out(128, "", "fatal: bad revision");
        match words.as_slice() {
            ["worktree", "list", "--porcelain", "-z"] => {
                let mut text = String::new();
                for c in &self.checkouts {
                    text += &format!("worktree {}\0", self.dir(c.dir));
                    text += &match c.shape {
                        Shape::Detached => format!("HEAD {}\0detached\0", c.on),
                        Shape::Unborn => {
                            format!("HEAD {}\0branch refs/heads/{}\0", "0".repeat(40), c.on)
                        }
                        _ => format!("HEAD abc\0branch refs/heads/{}\0", c.on),
                    };
                    if c.shape == Shape::Locked {
                        text += "locked\0";
                    }
                    text += "\0";
                }
                ok(&text)
            }
            ["for-each-ref", ..] => {
                let names = self.tips.iter().filter(|t| !t.name.starts_with("sha-"));
                ok(&names.map(|t| format!("refs/heads/{}\n", t.name)).collect::<String>())
            }
            ["remote"] => ok(&self.remotes.iter().map(|r| format!("{r}\n")).collect::<String>()),
            ["config", "--local", "--get", key] => {
                let value = match key.strip_prefix("branch.") {
                    Some(rest) => {
                        let (name, what) = rest.rsplit_once('.').unwrap();
                        let tip = self.tip(name);
                        match what {
                            "remote" => tip.and_then(|t| t.remote.clone()),
                            _ => tip.and_then(|t| t.merge.clone()),
                        }
                    }
                    None if self.remotes.iter().any(|r| *key == format!("remote.{r}.url")) => {
                        Some("https://github.com/o/r.git".to_owned())
                    }
                    None => None,
                };
                match value {
                    Some(value) => ok(&format!("{value}\n")),
                    None => out(1, "", ""),
                }
            }
            ["symbolic-ref", "-q", reference] => match self.local_head {
                Some(head) if reference.ends_with("/HEAD") => {
                    ok(&format!("{}{head}\n", reference.strip_suffix("HEAD").unwrap()))
                }
                _ => out(1, "", ""),
            },
            ["ls-remote", "--symref", remote, "HEAD"] => match self.remote_head {
                Some(Some(head)) if self.reaches(remote) => {
                    ok(&format!("ref: refs/heads/{head}\tHEAD\nabc\tHEAD\n"))
                }
                Some(None) if self.reaches(remote) => ok("abc\tHEAD\n"),
                _ => out(128, "", "fatal: unable to access"),
            },
            ["ls-remote", remote] => {
                if self.remote_head.is_none() || !self.reaches(remote) {
                    return out(128, "", "fatal: unable to access");
                }
                let listed = self.tips.iter().filter(|t| t.listed && t.merge.is_some());
                ok(&listed
                    .map(|t| format!("abc\t{}\n", t.merge.as_ref().unwrap()))
                    .collect::<String>())
            }
            ["rev-parse", "--verify", "-q", _] => {
                if self.base_fetched {
                    ok("abc\n")
                } else {
                    out(1, "", "")
                }
            }
            ["rev-list", "--count", head, "--not", "--glob=refs/*"] => match self.tip(head) {
                Some(tip) => ok(&format!("{}\n", tip.unique)),
                None => fatal(),
            },
            ["rev-list", "--count", range] => {
                let (from, to) = range.split_once("..").unwrap();
                match (self.tip(to), from.ends_with("@{u}")) {
                    (Some(tip), true) => match tip.unpushed {
                        Some(n) => ok(&format!("{n}\n")),
                        None => fatal(),
                    },
                    (Some(tip), false) => ok(&format!("{}\n", tip.ahead)),
                    (None, _) => fatal(),
                }
            }
            ["merge-base", "--is-ancestor", head, _] => match self.tip(head) {
                Some(tip) if tip.ancestor => ok(""),
                Some(_) => out(1, "", ""),
                None => fatal(),
            },
            ["merge-base", head, _] => match self.tip(head) {
                Some(tip) if tip.related => ok("base\n"),
                Some(_) => out(1, "", ""),
                None => fatal(),
            },
            ["diff", "--name-only", "-z", "base", head] => match self.tip(head) {
                Some(tip) => ok(&tip.changed.iter().map(|p| format!("{p}\0")).collect::<String>()),
                None => fatal(),
            },
            ["diff", "--quiet", head, _, "--", paths @ ..] => match self.tip(head) {
                // A literal path that differs is a difference, whatever it is
                // named.
                Some(tip) if tip.same && paths == tip.changed.as_slice() => ok(""),
                Some(_) => out(1, "", ""),
                None => fatal(),
            },
            ["status", ..] => {
                let here = self.checkouts.iter().find(|c| self.dir(c.dir) == global[1]);
                match here {
                    Some(c) if c.shape == Shape::Lost => {
                        out(128, "", "fatal: cannot change to directory")
                    }
                    Some(c) if self.tip(c.on).is_some_and(|t| t.dirty) => {
                        ok(" M dirty-seed.txt\n?? untracked.txt\n")
                    }
                    _ => ok(""),
                }
            }
            other => panic!("asked {other:?}"),
        }
    }

    fn reaches(&self, remote: &str) -> bool {
        remote == "." || self.remotes.contains(&remote)
    }

    fn anchors(&self) -> Vec<Anchor> {
        let canonicalize = |path: &String| Ok(path.clone());
        let read = |path: &String| {
            path.strip_prefix("/f/")
                .and_then(|p| p.strip_suffix("/.git"))
                .filter(|dir| *dir != "main")
                .map(|dir| format!("gitdir: /f/main/.git/worktrees/{dir}\n"))
        };
        anchors(&|g: &Vec<String>, a: &Vec<String>| self.git(g, a), &canonicalize, &read, &self.repo())
            .expect("anchors")
    }

    fn anchor(&self, branch: &str) -> Anchor {
        self.anchors()
            .into_iter()
            .find(|a| a.branch() == Some(branch))
            .unwrap_or_else(|| panic!("no anchor on {branch}"))
    }

    fn collect(&self, anchor: &Anchor, runtime: RuntimeFacts) -> WorkState {
        let git = |g: &Vec<String>, a: &Vec<String>| self.git(g, a);
        collect(&git, &reflog, &no_mtime, &self.repo(), anchor, runtime)
    }

    fn collect_cached(&self, cache: &mut RemoteCache, anchor: &Anchor) -> WorkState {
        let git = |g: &Vec<String>, a: &Vec<String>| self.git(g, a);
        collect_cached(&git, &reflog, &no_mtime, &self.repo(), cache, anchor, quiet())
    }
}

fn reflog(_: &String) -> Option<String> {
    Some("0 1 fixture <f@invalid> 1700000000 +0000\tcommit: x\n".to_owned())
}

fn no_mtime(_: &String) -> Option<Timestamp> {
    None
}

/// The scenario set every row assertion runs against.
fn standard() -> Fixture {
    let checkout = |dir: &'static str, on: &'static str| Checkout { dir, on, shape: Shape::Branch };
    let tips = vec![
        pushed("main", 0),
        // Ancestor-merged, pushed, clean worktree.
        pushed("landed", 0),
        // Squash-merged, cherry-picked: content landed, identity did not.
        Tip { same: true, ..pushed("squashed", 2) },
        Tip { same: true, ..pushed("picked", 2) },
        // Pushed but never merged.
        pushed("wip", 2),
        // Pushed, then one more local-only commit.
        Tip { unpushed: Some(1), ..pushed("unpushed", 2) },
        // Pushed, dirty worktree (tracked edit plus an untracked file).
        Tip { dirty: true, ..pushed("dirty", 2) },
        // Squash-landed and then deleted on the remote.
        Tip { same: true, listed: false, ..pushed("gone", 1) },
        // Local-only work: no upstream configured at all.
        local("local", 1),
        // A branch that tracks a different remote ref than its own name.
        pushed("release", 1),
        Tip { merge: Some("refs/heads/release".to_owned()), ..pushed("tracks-release", 1) },
        // Detached HEADs: with a commit no ref reaches, at the base tip, and
        // at another branch's tip.
        Tip { unique: 1, ..local("sha-unique", 1) },
        local("sha-base", 0),
        pushed("kept", 1),
        local("sha-kept", 1),
        // Landed but the worktree is locked: the user marked it hands-off.
        pushed("locked", 0),
        // A worktree whose directory was deleted underneath it.
        pushed("lost", 1),
        // Upstream configured, but the local tracking ref is gone.
        Tip { unpushed: None, ..pushed("stale", 1) },
        // Half an upstream: a remote without a merge ref.
        Tip { remote: Some("origin".to_owned()), ..local("partial", 1) },
        // A history that shares no ancestor with main.
        Tip { related: false, ..pushed("unrelated", 1) },
        // Commits that cancel out: ahead of base, but a zero delta.
        Tip { changed: vec![], ..pushed("reverted", 2) },
        // A pathspec-magic filename that differs.
        Tip { changed: vec![":(glob)zzz-no-match".to_owned()], ..pushed("magicpath", 1) },
        // Branch-only rows: pushed and unmerged, and landed.
        pushed("shelved", 1),
        pushed("shipped", 0),
    ];
    let checkouts = vec![
        checkout("main", "main"),
        checkout("wt-landed", "landed"),
        checkout("wt-squashed", "squashed"),
        checkout("wt-picked", "picked"),
        checkout("wt-wip", "wip"),
        checkout("wt-unpushed", "unpushed"),
        checkout("wt-dirty", "dirty"),
        checkout("wt-gone", "gone"),
        checkout("wt-local", "local"),
        checkout("wt-tracks-release", "tracks-release"),
        Checkout { dir: "wt-detached", on: "sha-unique", shape: Shape::Detached },
        Checkout { dir: "wt-detached-clean", on: "sha-base", shape: Shape::Detached },
        Checkout { dir: "wt-detached-shared", on: "sha-kept", shape: Shape::Detached },
        Checkout { dir: "wt-locked", on: "locked", shape: Shape::Locked },
        Checkout { dir: "wt-unborn", on: "unborn", shape: Shape::Unborn },
        Checkout { dir: "wt-lost", on: "lost", shape: Shape::Lost },
        checkout("wt-stale", "stale"),
        checkout("wt-partial", "partial"),
        checkout("wt-unrelated", "unrelated"),
        checkout("wt-reverted", "reverted"),
        checkout("wt-magicpath", "magicpath"),
    ];
    Fixture::new(tips, checkouts)
}

/// All anchors of the fixture, keyed by a name the table can assert against.
/// One `RemoteCache` for the batch, as the collectors will share one pass.
fn collect_all(f: &Fixture) -> BTreeMap<String, WorkState> {
    let mut cache = RemoteCache::default();
    f.anchors()
        .into_iter()
        .map(|anchor| {
            let key = match &anchor {
                Anchor::Branch { name } => format!("branch:{name}"),
                Anchor::Worktree { path, head, .. } => {
                    let dir = path.rsplit('/').next().unwrap();
                    match head {
                        Head::Branch(name) | Head::Unborn(name) => format!("wt:{name}@{dir}"),
                        Head::Detached(_) => format!("wt:detached@{dir}"),
                    }
                }
            };
            let state = f.collect_cached(&mut cache, &anchor);
            (key, state)
        })
        .collect()
}

/// Assert the worktree-removal and branch-deletion verdicts of one row.
fn expect(
    states: &BTreeMap<String, WorkState>,
    key: &str,
    removal: (Verdict, &[&str]),
    deletion: (Verdict, &[&str]),
) {
    let state = states.get(key).unwrap_or_else(|| panic!("no anchor {key}"));
    let (r, d) = cleanup(state, &no_item());
    let rr: Vec<&str> = r.reasons.iter().map(String::as_str).collect();
    let dr: Vec<&str> = d.reasons.iter().map(String::as_str).collect();
    assert_eq!((r.verdict, rr), (removal.0, removal.1.to_vec()), "{key}: worktree removal");
    assert_eq!((d.verdict, dr), (deletion.0, deletion.1.to_vec()), "{key}: branch deletion");
}

#[test]
fn the_fixture_table() {
    let f = standard();
    let states = collect_all(&f);
    let after = |dir: &str| {
        format!("checked out in {}; deleted after the worktree is removed", f.dir(dir))
    };
    let stuck =
        |dir: &str| format!("checked out in {}, and its removal is blocked", f.dir(dir));

    // The main checkout itself is a row, but `git worktree remove` always
    // refuses it, so its removal can never be safe.
    expect(
        &states,
        "wt:main@main",
        (Verdict::Blocked, &["main worktree"]),
        (Verdict::Blocked, &[&stuck("main")]),
    );

    expect(
        &states,
        "wt:landed@wt-landed",
        (Verdict::Safe, &["clean", "nothing live", "landed on origin/main (ancestor)"]),
        (
            Verdict::SafeAfterWorktreeRemoval,
            &["merged into origin/main", "nothing unpushed", &after("wt-landed")],
        ),
    );

    for squash_like in ["squashed", "picked"] {
        expect(
            &states,
            &format!("wt:{squash_like}@wt-{squash_like}"),
            (Verdict::Safe, &["clean", "nothing live", "landed on origin/main (content match)"]),
            (
                Verdict::Review,
                &[
                    "requires `git branch -D`",
                    "landed on origin/main by content, not ancestry",
                    &after(&format!("wt-{squash_like}")),
                ],
            ),
        );
    }

    expect(
        &states,
        "wt:wip@wt-wip",
        (
            Verdict::Review,
            &[
                "2 commits ahead of origin/main and not landed",
                "removal keeps branch wip and its commits",
            ],
        ),
        (
            Verdict::Review,
            &["requires `git branch -D`", "not landed on origin/main", &after("wt-wip")],
        ),
    );

    expect(
        &states,
        "wt:dirty@wt-dirty",
        (Verdict::Blocked, &["uncommitted changes"]),
        (Verdict::Blocked, &[&stuck("wt-dirty")]),
    );

    expect(
        &states,
        "wt:unpushed@wt-unpushed",
        (Verdict::Blocked, &["1 unpushed commit"]),
        (Verdict::Blocked, &["1 unpushed commit", &stuck("wt-unpushed")]),
    );

    expect(
        &states,
        "wt:gone@wt-gone",
        (
            Verdict::Safe,
            &[
                "clean",
                "nothing live",
                "upstream gone; probably landed",
                "landed on origin/main (content match)",
            ],
        ),
        (
            Verdict::Review,
            &[
                "requires `git branch -D`",
                "landed on origin/main by content, not ancestry",
                &after("wt-gone"),
            ],
        ),
    );

    expect(
        &states,
        "wt:local@wt-local",
        (Verdict::Blocked, &["1 unpushed commit"]),
        (Verdict::Blocked, &["1 unpushed commit", &stuck("wt-local")]),
    );

    expect(
        &states,
        "wt:tracks-release@wt-tracks-release",
        (
            Verdict::Review,
            &[
                "1 commit ahead of origin/main and not landed",
                "removal keeps branch tracks-release and its commits",
            ],
        ),
        (
            Verdict::Review,
            &["requires `git branch -D`", "not landed on origin/main", &after("wt-tracks-release")],
        ),
    );

    // `release` itself is a pushed-but-unmerged branch-only row.
    for shelved in ["branch:release", "branch:shelved"] {
        expect(
            &states,
            shelved,
            (Verdict::NotApplicable, &["no worktree"]),
            (Verdict::Review, &["requires `git branch -D`", "not landed on origin/main"]),
        );
    }

    // A landed branch with no worktree deletes outright.
    expect(
        &states,
        "branch:shipped",
        (Verdict::NotApplicable, &["no worktree"]),
        (Verdict::Safe, &["merged into origin/main", "nothing unpushed"]),
    );

    // Detached unique commits fail closed: removal is unrecoverable.
    expect(
        &states,
        "wt:detached@wt-detached",
        (Verdict::Blocked, &["detached HEAD: 1 unique commit reachable from no ref"]),
        (Verdict::NotApplicable, &["no branch"]),
    );

    // Detached at the base tip: no unique commits, so nothing is lost.
    expect(
        &states,
        "wt:detached@wt-detached-clean",
        (Verdict::Safe, &["clean", "nothing live", "landed on origin/main (ancestor)"]),
        (Verdict::NotApplicable, &["no branch"]),
    );

    // Detached at a branch tip: `kept` reaches the commits, so removal
    // reviews the not-landed facts rather than blocking on phantom loss.
    expect(
        &states,
        "wt:detached@wt-detached-shared",
        (Verdict::Review, &["1 commit ahead of origin/main and not landed"]),
        (Verdict::NotApplicable, &["no branch"]),
    );

    expect(
        &states,
        "wt:locked@wt-locked",
        (Verdict::Blocked, &["worktree is locked"]),
        (Verdict::Blocked, &[&stuck("wt-locked")]),
    );

    expect(
        &states,
        "wt:unborn@wt-unborn",
        (
            Verdict::Blocked,
            &[
                "cannot prove nothing is unpushed (unborn HEAD)",
                "cannot prove commits relative to base (unborn HEAD)",
            ],
        ),
        (
            Verdict::Blocked,
            &[
                "cannot prove nothing is unpushed (unborn HEAD)",
                "cannot prove landing (unborn HEAD)",
                &stuck("wt-unborn"),
            ],
        ),
    );

    // The git error detail varies with the path; assert the stable parts.
    {
        let state = &states["wt:lost@wt-lost"];
        let (removal, deletion) = cleanup(state, &no_item());
        assert_eq!(removal.verdict, Verdict::Blocked);
        assert!(
            removal.reasons.iter().any(|r| r.starts_with("cannot prove the worktree is clean")),
            "{:?}",
            removal.reasons
        );
        assert_eq!(deletion.verdict, Verdict::Blocked);
        assert!(
            deletion.reasons.iter().any(|r| r.contains("its removal is blocked")),
            "{:?}",
            deletion.reasons
        );
    }

    // A stale `@{u}` and a half-configured upstream both fail closed.
    for key in ["wt:stale@wt-stale", "wt:partial@wt-partial"] {
        let state = &states[key];
        let (removal, deletion) = cleanup(state, &no_item());
        assert_eq!(removal.verdict, Verdict::Blocked, "{key}");
        assert!(
            removal.reasons.iter().any(|r| r.starts_with("cannot prove nothing is unpushed")),
            "{key}: {:?}",
            removal.reasons
        );
        assert_eq!(deletion.verdict, Verdict::Blocked, "{key}");
    }
    assert!(matches!(
        states["wt:partial@wt-partial"].vector.upstream_state,
        UpstreamState::Unknown(_)
    ));

    // No shared ancestor: provably not landed, review-able but never safe.
    // A pathspec-magic-named file that differs: not landed, not "content
    // match". Two commits with a zero net delta: not landed.
    for (name, ahead) in [("unrelated", "1 commit"), ("magicpath", "1 commit"), ("reverted", "2 commits")] {
        expect(
            &states,
            &format!("wt:{name}@wt-{name}"),
            (
                Verdict::Review,
                &[
                    &format!("{ahead} ahead of origin/main and not landed"),
                    &format!("removal keeps branch {name} and its commits"),
                ],
            ),
            (
                Verdict::Review,
                &[
                    "requires `git branch -D`",
                    "not landed on origin/main",
                    &after(&format!("wt-{name}")),
                ],
            ),
        );
    }

    // The upstream-tracking state vector itself.
    let v = &states["wt:gone@wt-gone"].vector;
    assert!(matches!(v.upstream_state, UpstreamState::RemoteGone { .. }));
    assert_eq!(v.landed, Evidence::Known(Landed::ContentMerged));
    let v = &states["wt:local@wt-local"].vector;
    assert_eq!(v.upstream_state, UpstreamState::NeverPushed);
    let v = &states["wt:tracks-release@wt-tracks-release"].vector;
    assert!(matches!(
        &v.upstream_state,
        UpstreamState::Advertised { merge_ref, .. } if merge_ref == "refs/heads/release"
    ));
    assert_eq!(v.commits_ahead_of_base, Evidence::Known(1));
    assert_eq!(v.unpushed_commits, Evidence::Known(0));
    assert_eq!(states["wt:dirty@wt-dirty"].vector.dirty, Evidence::Known(true));
    assert_eq!(states["branch:shelved"].vector.dirty, Evidence::Known(false));
    assert!(states["wt:wip@wt-wip"].vector.last_git_activity.is_some());
    assert_eq!(states["wt:wip@wt-wip"].vector.worktree.as_deref(), Some("/f/wt-wip"));
    assert_eq!(states["branch:shelved"].vector.worktree, None);
}

#[test]
fn injected_runtime_facts_change_the_verdict() {
    let f = standard();
    let anchor = f.anchor("landed");

    // A live process or agent session blocks removal.
    for runtime in [
        RuntimeFacts { live_pids: 1, ..quiet() },
        RuntimeFacts { live_agent_sessions: 2, ..quiet() },
    ] {
        let state = f.collect(&anchor, runtime);
        let (removal, _) = cleanup(&state, &no_item());
        assert_eq!(removal.verdict, Verdict::Blocked, "{runtime:?}");
    }

    // Orphaned windows are references, not blockers.
    let state = f.collect(
        &anchor,
        RuntimeFacts { windows: WindowCount { total: 1, orphaned: 1 }, ..quiet() },
    );
    let (removal, _) = cleanup(&state, &no_item());
    assert_eq!(removal.verdict, Verdict::Safe);
}

#[test]
fn an_open_work_item_blocks_and_unknown_does_not() {
    let f = standard();
    let states = collect_all(&f);
    let state = &states["wt:landed@wt-landed"];

    let (removal, deletion) = cleanup(state, &open_item());
    assert_eq!(removal.verdict, Verdict::Blocked);
    assert_eq!(removal.reasons, ["open PR #191"]);
    assert_eq!(deletion.verdict, Verdict::Blocked);
    assert!(deletion.reasons.contains(&"open PR #191".to_owned()));

    // An item without a label is named all the same.
    let (removal, _) = cleanup(state, &ForgeStatus { label: None, ..open_item() });
    assert_eq!(removal.reasons, ["open work item"]);

    // Unknown forge state is informational; it never blocks by itself.
    let unknown = ForgeStatus {
        item: WorkItem::Unknown,
        pipeline: Pipeline::Unknown,
        label: None,
        url: None,
        reason: Some("gh is not on PATH".to_owned()),
    };
    let (removal, _) = cleanup(state, &unknown);
    assert_eq!(removal.verdict, Verdict::Safe);
}

#[test]
fn missing_and_conflicting_remote_head_leave_the_base_unproven() {
    // A remote that advertises no symbolic HEAD at all, and a detached
    // worktree with a unique commit in the same repo.
    let mut f = Fixture::feat();
    f.remote_head = Some(None);
    f.tips.push(Tip { unique: 1, ..local("sha-unique", 1) });
    f.checkouts.push(Checkout { dir: "wt-detached", on: "sha-unique", shape: Shape::Detached });
    let state = f.collect(&f.anchor("feat"), quiet());
    assert!(state.base.reason().unwrap().contains("advertises no HEAD"));
    assert!(
        state.vector.landed.reason().unwrap().contains("no proven base"),
        "{:?}",
        state.vector.landed
    );
    let (removal, _) = cleanup(&state, &no_item());
    assert_eq!(removal.verdict, Verdict::Blocked);
    assert!(removal
        .reasons
        .iter()
        .any(|r| r.contains("cannot prove commits relative to base")));

    // The detached worktree: unique commits need no base to be counted - the
    // unreachable check is ref-local, so the verdict still blocks but now
    // names the true count.
    let anchor = f
        .anchors()
        .into_iter()
        .find(|a| matches!(a, Anchor::Worktree { head: Head::Detached(_), .. }))
        .unwrap();
    let state = f.collect(&anchor, quiet());
    let (removal, _) = cleanup(&state, &no_item());
    assert_eq!(removal.verdict, Verdict::Blocked);
    assert!(
        removal.reasons.iter().any(|r| r.contains("unique commit reachable from no ref")),
        "{:?}",
        removal.reasons
    );

    // A remote whose HEAD moved after the local symref was recorded.
    let mut f = Fixture::feat();
    f.remote_head = Some(Some("trunk"));
    let state = f.collect(&f.anchor("feat"), quiet());
    let reason = state.base.reason().expect("conflict leaves the base unproven");
    assert!(reason.contains("conflicting remote HEAD"), "{reason}");
    assert_eq!(
        reason,
        "conflicting remote HEAD: local refs/remotes/origin/HEAD is main, \
         the remote advertises trunk"
    );
    assert!(state.vector.commits_ahead_of_base.reason().is_some());
}

#[test]
fn an_unreachable_remote_is_unknown_not_gone() {
    let mut f = Fixture::feat();
    f.remote_head = None;
    let state = f.collect(&f.anchor("feat"), quiet());
    // Unreachable is not `remote_gone`, and the local remote-HEAD symref
    // still proves the base on its own.
    assert!(matches!(state.vector.upstream_state, UpstreamState::Unknown(_)));
    assert!(state.base.is_known());
    let (removal, _) = cleanup(&state, &no_item());
    assert_eq!(removal.verdict, Verdict::Review);
}

#[test]
fn a_remote_named_other_than_origin_resolves() {
    let mut f = Fixture::feat();
    f.remotes = vec!["upstream"];
    for tip in &mut f.tips {
        tip.remote = Some("upstream".to_owned());
    }
    let state = f.collect(&f.anchor("feat"), quiet());
    assert!(matches!(
        &state.vector.upstream_state,
        UpstreamState::Advertised { remote, .. } if remote == "upstream"
    ));
    assert_eq!(state.base.known().map(|b| b.label()).as_deref(), Some("upstream/main"));
}

#[test]
fn remote_evidence_is_memoized_within_a_collection_pass() {
    // Two branches on one remote: collecting the second asks nothing the
    // first already answered. Losing the remote between the two proves it.
    let mut f = Fixture::new(
        vec![pushed("main", 0), pushed("one", 1), pushed("two", 1)],
        vec![Checkout { dir: "main", on: "main", shape: Shape::Branch }],
    );
    let (one, two) = (f.anchor("one"), f.anchor("two"));
    let mut cache = RemoteCache::default();
    let state = f.collect_cached(&mut cache, &one);
    assert!(matches!(state.vector.upstream_state, UpstreamState::Advertised { .. }));

    f.remote_head = None;
    f.log.borrow_mut().clear();
    let state = f.collect_cached(&mut cache, &two);
    assert!(
        matches!(state.vector.upstream_state, UpstreamState::Advertised { .. }),
        "{:?}",
        state.vector.upstream_state
    );
    assert!(state.base.is_known(), "{:?}", state.base);
    assert!(!f.log.borrow().iter().any(|argv| argv.starts_with("ls-remote")));
}

#[test]
fn a_shared_remote_cache_scopes_evidence_per_repo() {
    // Two repos whose remotes share the name `origin` but advertise different
    // facts: a cache keyed by remote name alone would hand the second repo the
    // first repo's HEAD and ref listing.
    let mut a = Fixture::feat();
    a.tips.push(pushed("only-on-a", 1));
    let mut b = Fixture::feat();
    b.common_dir = "/g/main/.git";
    b.remote_head = Some(Some("trunk"));
    b.local_head = Some("trunk");
    // A branch tracking a ref only A's remote advertises.
    b.tips.push(Tip {
        merge: Some("refs/heads/only-on-a".to_owned()),
        listed: false,
        ..pushed("bfeat", 0)
    });

    let mut cache = RemoteCache::default();
    let state = a.collect_cached(&mut cache, &a.anchor("feat"));
    assert_eq!(state.base.known().map(|b| b.label()).as_deref(), Some("origin/main"));

    let state = b.collect_cached(&mut cache, &b.anchor("feat"));
    assert_eq!(
        state.base.known().map(|b| b.label()).as_deref(),
        Some("origin/trunk"),
        "{:?}",
        state.base
    );
    let state = b.collect_cached(&mut cache, &b.anchor("bfeat"));
    assert!(
        matches!(state.vector.upstream_state, UpstreamState::RemoteGone { .. }),
        "{:?}",
        state.vector.upstream_state
    );
}

#[test]
fn a_self_referential_remote_resolves_against_the_repo_not_the_cwd() {
    // `branch.<name>.remote = .` means "this repository": the merge ref is a
    // local branch, and `ls-remote .` only answers when it runs from inside
    // the repo.
    let mut f = Fixture::feat();
    f.tips.push(Tip {
        remote: Some(".".to_owned()),
        merge: Some("refs/heads/main".to_owned()),
        ..local("stacked", 1)
    });
    let state = f.collect(&f.anchor("stacked"), quiet());
    assert!(
        matches!(state.vector.upstream_state, UpstreamState::Advertised { .. }),
        "{:?}",
        state.vector.upstream_state
    );
    let base = state.base.known().expect("a proven base");
    assert_eq!(base.local_ref, "refs/heads/main");
    // A `.` remote has no symref of its own to consult.
    assert!(!f.log.borrow().iter().any(|argv| argv.starts_with("symbolic-ref")));
}

#[test]
fn a_worktree_path_with_a_newline_resolves_in_full() {
    let mut f = Fixture::feat();
    f.tips.push(local("sha-x", 0));
    f.checkouts.push(Checkout { dir: "wt-with\nnewline", on: "sha-x", shape: Shape::Detached });
    let anchor = f
        .anchors()
        .into_iter()
        .find(|a| matches!(a, Anchor::Worktree { path, .. } if path == "/f/wt-with\nnewline"))
        .expect("the newline worktree resolves by its full path");
    let state = f.collect(&anchor, quiet());
    assert_eq!(state.vector.dirty, Evidence::Known(false));
}

#[test]
fn a_url_valued_remote_still_feeds_forge_routing() {
    // `branch.<name>.remote` may be the URL itself rather than a named
    // remote: there is no `remote.<name>.url` to look up, but the URL is
    // right there for the forge to route on.
    let mut f = Fixture::feat();
    f.tips[1].remote = Some("https://127.0.0.1:1/o/r.git".to_owned());
    let state = f.collect(&f.anchor("feat"), quiet());
    assert_eq!(state.remote_url.as_deref(), Some("https://127.0.0.1:1/o/r.git"));
    // The remote itself is unreachable: upstream evidence stays Unknown.
    assert!(matches!(state.vector.upstream_state, UpstreamState::Unknown(_)));

    // A named remote gives the URL its name stands for, and a name that
    // stands for nothing gives none.
    let f = Fixture::feat();
    let state = f.collect(&f.anchor("feat"), quiet());
    assert_eq!(state.remote_url.as_deref(), Some("https://github.com/o/r.git"));
    let mut f = Fixture::feat();
    f.tips[1].remote = Some("elsewhere".to_owned());
    let state = f.collect(&f.anchor("feat"), quiet());
    assert_eq!(state.remote_url, None);
}

#[test]
fn the_reads_leave_the_repository_untouched() {
    // Every argv the collection ran is one that can only read.
    let f = standard();
    let states = collect_all(&f);
    for state in states.values() {
        cleanup(state, &no_item());
    }
    for argv in f.log.borrow().iter() {
        let words: Vec<String> = argv.split(' ').map(str::to_owned).collect();
        assert!(agent_sessions::git::check_argv(&words).is_ok(), "{argv}");
    }
}

#[test]
fn a_branch_deleted_mid_read_fails_closed() {
    // The anchor names a branch that no longer exists: every count is
    // unknown, and both actions fail closed rather than trusting a guess.
    let f = Fixture::feat();
    let anchor = Anchor::Branch { name: "ghost".to_owned() };
    let state = f.collect(&anchor, quiet());
    assert!(state.vector.commits_ahead_of_base.reason().is_some());
    assert!(state.vector.landed.reason().is_some());
    assert!(state.vector.unpushed_commits.reason().is_some());
    let (removal, deletion) = cleanup(&state, &no_item());
    assert_eq!(removal.verdict, Verdict::NotApplicable);
    assert_eq!(deletion.verdict, Verdict::Blocked);
    assert_eq!(deletion.reasons.len(), 2, "unpushed and landing are both unproven");
}

#[test]
fn multiple_remotes_and_a_missing_local_base_ref_fail_closed() {
    // With two remotes and no upstream, there is no safe base to pick.
    let mut f = Fixture::feat();
    f.remotes = vec!["origin", "mirror"];
    f.tips[1] = local("feat", 1);
    let state = f.collect(&f.anchor("feat"), quiet());
    assert!(
        state.base.reason().unwrap().contains("2 remotes configured"),
        "{:?}",
        state.base
    );

    // The remote HEAD exists and is advertised, but the local tracking ref it
    // names was never fetched: still no base.
    let mut f = Fixture::feat();
    f.base_fetched = false;
    let state = f.collect(&f.anchor("feat"), quiet());
    assert!(
        state.base.reason().unwrap().contains("not fetched locally"),
        "{:?}",
        state.base
    );
}

#[test]
fn an_unfetched_remote_leaves_no_local_base_evidence() {
    // The remote exists in config but was never fetched: there is no local
    // remote HEAD to fall back on, and ls-remote cannot reach it.
    let mut f = Fixture::feat();
    f.local_head = None;
    f.remote_head = None;
    let state = f.collect(&f.anchor("feat"), quiet());
    assert!(
        state.base.reason().unwrap().contains("unreachable and no local remote HEAD"),
        "{:?}",
        state.base
    );
}

#[test]
fn a_broken_repo_collects_unknowns_not_panics() {
    let git = |_: &Vec<String>, _: &Vec<String>| out(128, "", "fatal: not a repository");
    let repo = repo_at("/tmp/not-a-repo");
    let anchor = Anchor::Branch { name: "x".to_owned() };
    let state = collect(&git, &|_: &String| None, &no_mtime, &repo, &anchor, quiet());
    assert!(matches!(state.vector.upstream_state, UpstreamState::Unknown(_)));
    assert!(!state.base.is_known());
    assert!(!state.vector.commits_ahead_of_base.is_known());
    assert!(!state.vector.landed.is_known());
    assert!(!state.vector.unpushed_commits.is_known());
    assert_eq!(state.vector.last_git_activity, None);
    assert!(anchors(&git, &|p: &String| Ok(p.clone()), &|_: &String| None, &repo).is_err());
}

#[test]
fn a_bare_repo_lists_no_checkouts() {
    // A bare repository's porcelain entry is skipped: it is storage, not a
    // workspace.
    let git = |_: &Vec<String>, args: &Vec<String>| {
        if args[0] == "worktree" {
            ok("worktree /b.git\0bare\0\0")
        } else {
            ok("")
        }
    };
    let repo = repo_at("/b.git");
    let found = anchors(&git, &|p: &String| Ok(p.clone()), &|_: &String| None, &repo).unwrap();
    assert!(found.is_empty());
}

#[test]
fn a_main_worktree_and_its_siblings_are_told_apart() {
    let f = Fixture::feat();
    let found = f.anchors();
    assert_eq!(found.len(), 2);
    assert!(matches!(&found[0], Anchor::Worktree { main: true, admin_id: None, .. }));
    assert!(matches!(
        &found[1],
        Anchor::Worktree { main: false, admin_id: Some(id), .. } if id == "wt-feat"
    ));
}

#[test]
fn every_branch_is_anchored_once() {
    let f = standard();
    let found = f.anchors();
    for tip in f.tips.iter().filter(|tip| !tip.name.starts_with("sha-")) {
        let rows = found.iter().filter(|a| a.branch() == Some(tip.name.as_str())).count();
        assert_eq!(rows, 1, "{}", tip.name);
    }
}
