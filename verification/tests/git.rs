//! The Git substrate against scripted replies: the allowlist, what each read
//! makes of an answer, and path resolution.

use std::cell::RefCell;

use agent_sessions::command::{Output, Reply};
use agent_sessions::evidence::Evidence;
use agent_sessions::git::{
    admin_id, check_argv, git, git_command, parse_worktrees, resolve, Checkout, Error, Head,
    RemoteHead, Repo, Resolved, UpstreamConfig,
};
use agent_sessions::time::Timestamp;

fn strings(words: &[&str]) -> Vec<String> {
    words.iter().map(|w| w.to_string()).collect()
}

fn out(code: i32, stdout: &str, stderr: &str) -> Reply {
    Ok(Output { code: Some(code), stdout: stdout.to_owned(), stderr: stderr.to_owned() })
}

fn ok(stdout: &str) -> Reply {
    out(0, stdout, "")
}

/// The repository whose canonical common dir is `common_dir`.
fn repo_at(common_dir: &str) -> Repo {
    let git = |_: &Vec<String>, _: &Vec<String>| ok(common_dir);
    let canonicalize = |path: &String| Ok(path.clone());
    Repo::discover(&git, &canonicalize, common_dir).unwrap().unwrap()
}

/// A Git that answers every read with the same reply and logs the argv.
fn always<'a>(
    reply: Reply,
    log: &'a RefCell<Vec<String>>,
) -> impl Fn(&Vec<String>, &Vec<String>) -> Reply + 'a {
    move |global: &Vec<String>, args: &Vec<String>| {
        let all: Vec<&str> = global.iter().chain(args).map(String::as_str).collect();
        log.borrow_mut().push(all.join(" "));
        reply.clone()
    }
}

fn repo() -> Repo {
    repo_at("/r/.git")
}

fn bogus(_: &Vec<String>, _: &Vec<String>) -> Reply {
    out(128, "", "fatal: not a git repository: '/r/not-a-repo'\n")
}

fn is_unreachable(head: &RemoteHead) -> bool {
    matches!(head, RemoteHead::Unreachable(_))
}

#[test]
fn the_runner_strips_ambient_git_environment() {
    let cmd = git_command(&strings(&["-C", "/tmp"]), &strings(&["status"]), None);
    assert_eq!(cmd.program, "git");
    assert_eq!(cmd.args, ["-C", "/tmp", "status"]);
    // An ambient GIT_DIR would override -C discovery and attribute every path
    // to the wrong repository; these must be explicit removals.
    for var in [
        "GIT_DIR",
        "GIT_WORK_TREE",
        "GIT_INDEX_FILE",
        "GIT_OBJECT_DIRECTORY",
        "GIT_ALTERNATE_OBJECT_DIRECTORIES",
        "GIT_COMMON_DIR",
        "GIT_NAMESPACE",
        "GIT_QUARANTINE_PATH",
        "GIT_CEILING_DIRECTORIES",
        "GIT_DISCOVERY_ACROSS_FILESYSTEM",
        "GIT_CONFIG_PARAMETERS",
        "GIT_CONFIG_COUNT",
    ] {
        assert!(cmd.removed.iter().any(|r| r == var), "{var}");
    }
    for (var, value) in [
        ("GIT_OPTIONAL_LOCKS", "0"),
        ("LC_ALL", "C"),
        ("GIT_TERMINAL_PROMPT", "0"),
        ("SSH_ASKPASS_REQUIRE", "never"),
        ("GIT_LITERAL_PATHSPECS", "1"),
        // BatchMode is the default only; a caller-set GIT_SSH_COMMAND wins.
        ("GIT_SSH_COMMAND", "ssh -oBatchMode=yes"),
    ] {
        assert!(cmd.set.contains(&(var.to_owned(), value.to_owned())), "{var}");
    }
    let cmd = git_command(&vec![], &vec![], Some("ssh -p 2222"));
    assert!(cmd.set.contains(&("GIT_SSH_COMMAND".to_owned(), "ssh -p 2222".to_owned())));
}

#[test]
fn the_allowlist_admits_only_read_only_git() {
    for allowed in [
        vec!["rev-parse", "HEAD"],
        vec!["status", "--porcelain", "--untracked-files=all"],
        vec!["rev-list", "--count", "a..b"],
        vec!["merge-base", "--is-ancestor", "a", "b"],
        vec!["diff", "--name-only", "-z", "a", "b"],
        vec!["ls-remote", "--symref", "origin", "HEAD"],
        vec!["for-each-ref", "--format=%(refname)", "refs/heads/"],
        vec!["show-ref", "--verify", "refs/heads/main"],
        vec!["worktree", "list"],
        vec!["worktree", "list", "--porcelain"],
        vec!["worktree", "list", "--porcelain", "-z"],
        vec!["remote"],
        vec!["remote", "-v"],
        vec!["remote", "--verbose"],
        vec!["remote", "get-url", "origin"],
        vec!["config", "--get", "branch.main.remote"],
        vec!["config", "--worktree", "--get", "wt.handle"],
        vec!["config", "--get-regexp", "^remote\\."],
        vec!["symbolic-ref", "-q", "--short", "HEAD"],
    ] {
        assert!(check_argv(&strings(&allowed)).is_ok(), "{allowed:?}");
    }
    for denied in [
        vec![],
        vec!["push", "origin", "main"],
        vec!["fetch", "origin"],
        vec!["checkout", "main"],
        vec!["worktree", "remove", "x"],
        vec!["worktree", "add", "x"],
        vec!["worktree", "prune"],
        vec!["remote", "add", "x", "y"],
        vec!["remote", "prune", "origin"],
        // The positional set form carries no read flag.
        vec!["config", "user.name", "x"],
        vec!["config", "--add", "k", "v"],
        vec!["config", "--unset", "k"],
        // A read flag does not launder a mutating one.
        vec!["config", "--get", "k", "--add", "l", "v"],
        vec!["symbolic-ref", "HEAD", "refs/heads/x"],
        vec!["symbolic-ref", "-d", "HEAD"],
        vec!["tag", "v1"],
        vec!["update-ref", "HEAD", "x"],
    ] {
        assert!(check_argv(&strings(&denied)).is_err(), "{denied:?}");
    }
    // The refusal is the subprocess boundary, not just the check before it.
    let unasked = |_: &Vec<String>, _: &Vec<String>| -> Reply { panic!("git was run") };
    let err = git(&unasked, &vec![], &strings(&["push"])).unwrap_err();
    assert_eq!(err.to_string(), "`git push`: argv is not a read-only Git invocation");
    let err = git(&unasked, &vec![], &vec![]).unwrap_err();
    assert_eq!(err.to_string(), "`git `: empty argv");
}

#[test]
fn errors_name_the_argv_and_the_failure() {
    let err = repo().local_branches(&bogus).expect_err("a bogus repo fails");
    assert_eq!(err.code, Some(128));
    assert!(err.to_string().contains("--git-dir="), "{}", err.to_string());
    assert_eq!(
        err.to_string(),
        "`git -C /r --git-dir=/r/.git for-each-ref --format=%(refname) refs/heads/` \
         exited 128: fatal: not a git repository: '/r/not-a-repo'"
    );

    let io = Error::io("canonicalize", "/no/such", "entity not found");
    assert!(io.to_string().contains("canonicalize /no/such"));
    assert_eq!(io.to_string(), "`git canonicalize /no/such`: entity not found");

    // A Git that cannot be started has no exit code.
    let unstarted = |_: &Vec<String>, _: &Vec<String>| -> Reply { Err("no git".to_owned()) };
    let err = repo().remotes(&unstarted).unwrap_err();
    assert_eq!((err.code, err.detail.as_str()), (None, "no git"));
}

#[test]
fn a_broken_repo_fails_closed_everywhere() {
    let repo = repo_at("/r/not-a-repo");
    let nowhere = |_: &String| Err("gone".to_owned());
    let nothing = |_: &String| None;
    assert!(repo.worktrees(&bogus, &nowhere, &nothing).is_err());
    assert!(repo.local_branches(&bogus).is_err());
    assert!(repo.remotes(&bogus).is_err());
    assert!(repo.remote_url(&bogus, "origin").is_err());
    assert!(repo.upstream_config(&bogus, "main").is_err());
    assert!(repo.local_remote_head(&bogus, "origin").is_err());
    assert!(is_unreachable(&repo.remote_head(&bogus, "origin")));
    assert!(!is_unreachable(&RemoteHead::Advertised("x".to_owned())));
    assert!(!repo.remote_refs(&bogus, "origin").is_known());
    assert!(!repo.has_ref(&bogus, "refs/heads/main"));
    assert!(repo.rev_list_count(&bogus, "a", "b").is_err());
    assert!(repo.unreachable_commits(&bogus, "a").is_err());
    assert!(!repo.is_ancestor(&bogus, "a", "b").is_known());
    assert!(repo.merge_base(&bogus, "a", "b").is_err());
    assert!(repo.changed_paths(&bogus, "a", "b").is_err());
    assert!(!repo.paths_match(&bogus, "a", "b", &strings(&["x"])).is_known());
    assert!(!repo.dirty(&bogus, "/also/not/here").is_known());
}

#[test]
fn repo_reads_run_inside_the_repository() {
    let log = RefCell::new(Vec::new());
    let git = always(ok(""), &log);
    repo_at("/r/.git").remotes(&git).unwrap();
    repo_at("/srv/bare.git").remotes(&git).unwrap();
    repo_at("/.git").remotes(&git).unwrap();
    repo().dirty(&git, "/wt");
    assert_eq!(
        *log.borrow(),
        [
            "-C /r --git-dir=/r/.git remote",
            "-C /srv/bare.git --git-dir=/srv/bare.git remote",
            "-C / --git-dir=/.git remote",
            "-C /wt status --porcelain --untracked-files=all",
        ]
    );
    assert_eq!(repo().common_dir(), "/r/.git");
}

#[test]
fn names_are_listed_in_order() {
    let log = RefCell::new(Vec::new());
    let listing = always(ok("refs/heads/wip\nrefs/tags/x\nrefs/heads/a/b\nrefs/heads/main\n"), &log);
    assert_eq!(repo().local_branches(&listing).unwrap(), ["a/b", "main", "wip"]);
    let listing = always(ok(" upstream\r\n\n  origin  \n"), &log);
    assert_eq!(repo().remotes(&listing).unwrap(), ["origin", "upstream"]);
}

#[test]
fn an_upstream_is_a_pair_or_none() {
    let config = |remote: Option<&'static str>, merge: Option<&'static str>| {
        move |_: &Vec<String>, args: &Vec<String>| -> Reply {
            assert_eq!(&args[..3], ["config", "--local", "--get"]);
            let value = match args[3].as_str() {
                "branch.feat.remote" => remote,
                "branch.feat.merge" => merge,
                other => panic!("asked for {other}"),
            };
            match value {
                Some(value) => ok(&format!("{value}\n")),
                None => out(1, "", ""),
            }
        }
    };
    assert!(matches!(
        repo().upstream_config(&config(None, None), "feat"),
        Ok(UpstreamConfig::Unset)
    ));
    assert!(matches!(
        repo().upstream_config(&config(Some("origin"), None), "feat"),
        Ok(UpstreamConfig::Partial)
    ));
    assert!(matches!(
        repo().upstream_config(&config(None, Some("refs/heads/feat")), "feat"),
        Ok(UpstreamConfig::Partial)
    ));
    let Ok(UpstreamConfig::Full { remote, merge }) =
        repo().upstream_config(&config(Some("origin"), Some("refs/heads/feat")), "feat")
    else {
        panic!("a pair")
    };
    assert_eq!((remote.as_str(), merge.as_str()), ("origin", "refs/heads/feat"));
    // Exit 1 that says something is a failure, not an absent key.
    let noisy = |_: &Vec<String>, _: &Vec<String>| out(1, "", "bad config");
    assert!(repo().remote_url(&noisy, "origin").is_err());
    let silent = |_: &Vec<String>, _: &Vec<String>| out(1, "", "");
    assert!(repo().remote_url(&silent, "origin").unwrap().is_none());
}

#[test]
fn remote_heads_are_advertised_or_not() {
    let log = RefCell::new(Vec::new());
    let git = always(ok("ref: refs/heads/trunk\tHEAD\nabc\tHEAD\n"), &log);
    assert_eq!(repo().remote_head(&git, "origin"), RemoteHead::Advertised("trunk".to_owned()));
    let git = always(ok("ref: refs/heads/x\trefs/remotes/o/HEAD\nabc\tHEAD\n"), &log);
    assert_eq!(repo().remote_head(&git, "origin"), RemoteHead::NotAdvertised);
    let git = always(out(128, "", "offline"), &log);
    assert_eq!(
        repo().remote_head(&git, "origin"),
        RemoteHead::Unreachable(
            "ls-remote origin HEAD: `git -C /r --git-dir=/r/.git ls-remote --symref origin HEAD` \
             exited 128: offline"
                .to_owned()
        )
    );
    let git = always(ok("refs/remotes/origin/main\n"), &log);
    assert_eq!(repo().local_remote_head(&git, "origin").unwrap().as_deref(), Some("main"));
    assert_eq!(repo().local_remote_head(&git, "other").unwrap(), None);
    let git = always(out(1, "", ""), &log);
    assert_eq!(repo().local_remote_head(&git, "origin").unwrap(), None);
    let git = always(ok("a\tHEAD\nb\trefs/heads/main\nodd line\n"), &log);
    assert_eq!(
        repo().remote_refs(&git, "origin"),
        Evidence::Known(strings(&["HEAD", "refs/heads/main", "odd line"]))
    );
}

#[test]
fn counts_and_comparisons_read_their_answers() {
    let log = RefCell::new(Vec::new());
    let git = always(ok("3\n"), &log);
    assert_eq!(repo().rev_list_count(&git, "a", "b").unwrap(), 3);
    assert_eq!(repo().unreachable_commits(&git, "sha").unwrap(), 3);
    assert_eq!(
        *log.borrow(),
        [
            "-C /r --git-dir=/r/.git rev-list --count a..b",
            "-C /r --git-dir=/r/.git rev-list --count sha --not --glob=refs/*",
        ]
    );
    let fault = |text: &'static str| {
        let git = move |_: &Vec<String>, _: &Vec<String>| ok(text);
        repo().rev_list_count(&git, "a", "b").unwrap_err().to_string()
    };
    assert_eq!(
        fault("x"),
        "`git rev-list --count a..b`: unparseable count: invalid digit found in string"
    );
    assert_eq!(
        fault(""),
        "`git rev-list --count a..b`: unparseable count: cannot parse integer from empty string"
    );
    assert_eq!(
        fault("99999999999999999999"),
        "`git rev-list --count a..b`: unparseable count: number too large to fit in target type"
    );

    let yes = always(ok(""), &log);
    let no = always(out(1, "", ""), &log);
    assert_eq!(repo().is_ancestor(&yes, "a", "b"), Evidence::Known(true));
    assert_eq!(repo().is_ancestor(&no, "a", "b"), Evidence::Known(false));
    assert_eq!(repo().merge_base(&no, "a", "b").unwrap(), None);
    let sha = always(ok("abc\n"), &log);
    assert_eq!(repo().merge_base(&sha, "a", "b").unwrap().as_deref(), Some("abc"));
    assert!(repo().has_ref(&sha, "refs/heads/main"));
    assert!(!repo().has_ref(&yes, "refs/heads/main"));
    assert_eq!(repo().dirty(&yes, "/wt"), Evidence::Known(false));
    assert_eq!(repo().dirty(&sha, "/wt"), Evidence::Known(true));
    let paths = always(ok("a b\0\0c\nd\0"), &log);
    assert_eq!(repo().changed_paths(&paths, "a", "b").unwrap(), ["a b", "c\nd"]);
}

#[test]
fn paths_are_compared_in_batches() {
    let paths: Vec<String> = (0..450).map(|n| format!("p{n}")).collect();
    let sizes = RefCell::new(Vec::new());
    let counting = |_: &Vec<String>, args: &Vec<String>| -> Reply {
        assert_eq!(&args[..5], ["diff", "--quiet", "a", "b", "--"]);
        sizes.borrow_mut().push(args.len() - 5);
        ok("")
    };
    assert_eq!(repo().paths_match(&counting, "a", "b", &paths), Evidence::Known(true));
    assert_eq!(*sizes.borrow(), [200, 200, 50]);
    // The first batch that differs decides.
    let asked = RefCell::new(0);
    let differing = |_: &Vec<String>, args: &Vec<String>| -> Reply {
        *asked.borrow_mut() += 1;
        if args.contains(&"p250".to_owned()) {
            out(1, "", "")
        } else {
            ok("")
        }
    };
    assert_eq!(repo().paths_match(&differing, "a", "b", &paths), Evidence::Known(false));
    assert_eq!(*asked.borrow(), 2);
    let unasked = |_: &Vec<String>, _: &Vec<String>| -> Reply { panic!("git was run") };
    assert_eq!(repo().paths_match(&unasked, "a", "b", &vec![]), Evidence::Known(true));
}

#[test]
fn worktree_records_are_read_field_by_field() {
    let zeros = "0".repeat(40);
    let text = format!(
        "stray\0worktree /r\0HEAD abc\0branch refs/heads/main\0\0\
         worktree /w\nt\0HEAD def\0detached\0locked on purpose\0\0\
         worktree /u\0HEAD {zeros}\0branch refs/heads/new\0\0\
         worktree /bare\0bare\0\0"
    );
    let found = parse_worktrees(&text);
    assert_eq!(found.len(), 4);
    assert_eq!(found[0].head, Head::Branch("main".to_owned()));
    assert!(found[0].main && !found[0].locked && !found[0].bare);
    assert_eq!(found[1].path, "/w\nt");
    assert_eq!(found[1].head, Head::Detached("def".to_owned()));
    assert!(!found[1].main && found[1].locked);
    assert_eq!(found[2].head, Head::Unborn("new".to_owned()));
    assert!(found[3].bare);
    assert!(parse_worktrees("").is_empty());
}

#[test]
fn worktrees_are_located_on_disk() {
    let log = RefCell::new(Vec::new());
    let git = always(ok("worktree /link\0HEAD a\0detached\0\0worktree /gone\0HEAD b\0detached\0"), &log);
    let canonicalize = |path: &String| match path.as_str() {
        "/link" => Ok("/real".to_owned()),
        "/r/.git/worktrees/wt1" => Ok(path.clone()),
        _ => Err("gone".to_owned()),
    };
    let read = |path: &String| {
        if path == "/real/.git" {
            Some("gitdir: /r/.git/worktrees/wt1\n".to_owned())
        } else {
            None
        }
    };
    let found = repo().worktrees(&git, &canonicalize, &read).unwrap();
    assert_eq!(found[0].path, "/real");
    assert_eq!(found[0].admin_id.as_deref(), Some("wt1"));
    // A prunable record keeps its listed path.
    assert_eq!(found[1].path, "/gone");
    assert_eq!(found[1].admin_id, None);
    assert_eq!(*log.borrow(), ["-C /r --git-dir=/r/.git worktree list --porcelain -z"]);
}

#[test]
fn the_admin_id_comes_from_the_git_file() {
    let common = "/t/repo/.git";
    // What exists on disk: the admin directory and one outside.
    let canonicalize = |path: &String| match path.as_str() {
        "/t/repo/.git/worktrees/wt1" | "/t/outside-target" => Ok(path.clone()),
        _ => Err("no such file".to_owned()),
    };
    let id = |text: Option<&str>| {
        let text = text.map(str::to_owned);
        admin_id(&canonicalize, &|_: &String| text.clone(), "/t/linked", common)
    };
    // A directory `.git` means the main worktree, and an unreadable one says
    // nothing: no admin id.
    assert_eq!(id(None), None);
    // A `.git` file pointing into worktrees/<id> yields the id.
    assert_eq!(id(Some("gitdir: /t/repo/.git/worktrees/wt1\n")).as_deref(), Some("wt1"));
    // A malformed `.git` file, a target outside worktrees/, and a target that
    // no longer exists each resolve to no id rather than a guess.
    assert_eq!(id(Some("garbage")), None);
    assert_eq!(id(Some("gitdir: /t/outside-target\n")), None);
    assert_eq!(id(Some("gitdir: /t/repo/.git/worktrees/gone\n")), None);
}

#[test]
fn reflog_activity_reads_the_last_entry_and_mtime() {
    let repo = repo_at("/t");
    let activity = |text: Option<&str>, mtime: Option<u64>| {
        let text = text.map(str::to_owned);
        let read = |path: &String| {
            assert_eq!(path, "/t/logs/HEAD");
            text.clone()
        };
        repo.reflog_activity(&read, &|_: &String| mtime.map(Timestamp::from_secs), "logs/HEAD")
    };
    // No log at all is no evidence.
    assert_eq!(activity(None, Some(9)), None);
    // A log of only blank lines has no entry to read.
    assert_eq!(activity(Some("  \n\n"), Some(9)), None);
    // Garbage parses to nothing rather than to a guessed time: a line without
    // an epoch field, and a line whose epoch is not a number.
    assert_eq!(activity(Some("onefield\n"), Some(9)), None);
    assert_eq!(activity(Some("not a reflog line\n"), Some(9)), None);

    let log = "0000 1111 A Name <a@b> 1700000000 +0200\tcommit: x\n";
    let at = activity(Some(log), None).expect("a parseable log has a time");
    assert!(at.nanos >= Timestamp::from_secs(1700000000).nanos);
    assert_eq!(at, Timestamp::from_secs(1700000000));
    // The later of the two is the activity.
    assert_eq!(activity(Some(log), Some(1_600_000_000)), Some(at));
    assert_eq!(
        activity(Some(log), Some(1_800_000_000)),
        Some(Timestamp::from_secs(1_800_000_000))
    );
    // The last line that holds anything counts.
    let two = format!("{log}0 1 N <n> 1700000009 +0000\tmerge\n\n");
    assert_eq!(activity(Some(&two), None), Some(Timestamp::from_secs(1700000009)));
    // An epoch no clock can hold is none.
    assert_eq!(activity(Some("0 1 N <n> 18446744073709551615 +0000\tx\n"), None), None);
}

/// A machine with a repository at `/m`, a bare one at `/b.git`, and a plain
/// directory at `/plain`.
fn machine(
    head: &'static str,
) -> (
    impl Fn(&Vec<String>, &Vec<String>) -> Reply,
    impl Fn(&String) -> Result<String, String>,
    impl Fn(&String) -> Option<String>,
) {
    let run = move |global: &Vec<String>, args: &Vec<String>| -> Reply {
        let words: Vec<&str> = args.iter().map(String::as_str).collect();
        match (global[1].as_str(), words.as_slice()) {
            ("/plain", _) => out(128, "", "fatal: not a git repository (or any parent)"),
            ("/file", _) => out(128, "", "fatal: cannot change to '/file'"),
            ("/m" | "/m/sub", ["rev-parse", "--path-format=absolute", "--git-common-dir"]) => {
                ok("/m/.git\n")
            }
            ("/b.git", ["rev-parse", "--path-format=absolute", "--git-common-dir"]) => {
                ok("/b.git\n")
            }
            ("/m" | "/m/sub", ["rev-parse", "--show-toplevel"]) => ok("/m\n"),
            ("/b.git", ["rev-parse", "--show-toplevel"]) => {
                out(128, "", "fatal: this operation must be run in a work tree")
            }
            (_, ["symbolic-ref", "-q", "--short", "HEAD"]) => match head {
                "detached" => out(1, "", ""),
                "broken" => out(128, "", "fatal: broken"),
                _ => ok("main\n"),
            },
            (_, ["rev-parse", "--verify", "-q", "HEAD"]) => match head {
                "unborn" => out(1, "", ""),
                _ => ok("abc\n"),
            },
            (_, ["rev-parse", "HEAD"]) => ok("abc\n"),
            other => panic!("asked {other:?}"),
        }
    };
    let canonicalize = |path: &String| match path.as_str() {
        "/link" => Ok("/m".to_owned()),
        "/missing" => Err("No such file or directory".to_owned()),
        _ => Ok(path.clone()),
    };
    (run, canonicalize, |_: &String| None)
}

#[test]
fn discover_distinguishes_repo_worktree_and_project_space() {
    let (run, canonicalize, read) = machine("main");
    // A plain file is not a path git can read a repo from.
    assert!(Repo::discover(&run, &canonicalize, "/file").is_err());
    let err = Repo::discover(&run, &canonicalize, "/missing").unwrap_err();
    assert_eq!(err.to_string(), "`git canonicalize /missing`: No such file or directory");
    assert!(resolve(&run, &canonicalize, &read, "/file").is_err());

    // A non-git directory is a project space.
    assert!(Repo::discover(&run, &canonicalize, "/plain").unwrap().is_none());
    assert_eq!(
        resolve(&run, &canonicalize, &read, "/plain").unwrap(),
        Resolved::ProjectSpace("/plain".to_owned())
    );

    // A bare repository is a repo with no checkout.
    let repo = Repo::discover(&run, &canonicalize, "/b.git").unwrap().expect("bare is a repo");
    assert_eq!(
        resolve(&run, &canonicalize, &read, "/b.git").unwrap(),
        Resolved::RepoOnly(repo)
    );

    // A link leads to one repository identity.
    let direct = Repo::discover(&run, &canonicalize, "/m").unwrap().unwrap();
    let via_link = Repo::discover(&run, &canonicalize, "/link").unwrap().unwrap();
    assert_eq!(direct, via_link, "one canonical repo id through symlinks");
}

#[test]
fn resolve_reads_unborn_and_detached_heads() {
    let head_of = |head: &'static str| {
        let (run, canonicalize, read) = machine(head);
        resolve(&run, &canonicalize, &read, "/m/sub")
    };
    let checkout = |head: Head| {
        Resolved::Checkout(Checkout {
            repo: repo_at("/m/.git"),
            root: "/m".to_owned(),
            admin_id: None,
            head,
        })
    };
    assert_eq!(head_of("main").unwrap(), checkout(Head::Branch("main".to_owned())));
    assert_eq!(head_of("unborn").unwrap(), checkout(Head::Unborn("main".to_owned())));
    assert_eq!(head_of("detached").unwrap(), checkout(Head::Detached("abc".to_owned())));
    assert!(head_of("broken").is_err());
}
