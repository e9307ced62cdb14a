//! tmux evidence: ids, pane records, handles, bindings and discovery.

use std::cell::RefCell;

use agent_sessions::command::{Output, Reply};
use agent_sessions::time::Timestamp;
use agent_sessions::tmux::{
    parse_pane, socket_dir, sockets, tmux_command, uid, Error, Pane, PaneId, PaneInventory,
    PaneRef, PublishedHandle, SessionId, WindowId,
};

/// A minimal pane for tests that exercise matching and binding rather than
/// parsing.
fn pane(id: &str, window: &str, session: &str) -> Pane {
    Pane {
        socket: "/sock/a".to_owned(),
        id: PaneId::parse(id).unwrap(),
        window: WindowId::parse(window).unwrap(),
        session: SessionId::parse(session).unwrap(),
        session_name: "s".to_owned(),
        pid: 100,
        command: "sleep".to_owned(),
        cwd: None,
        tty: None,
        active: true,
        last: true,
        window_active: true,
        window_activity: None,
        session_attached: 0,
        wt_adminid: None,
        wt_handle: None,
    }
}

/// A one-pass inventory.
fn inventory(panes: Vec<Pane>) -> PaneInventory {
    PaneInventory { panes, servers: Vec::new(), warnings: Vec::new() }
}

fn said(stdout: &str) -> Reply {
    Ok(Output { code: Some(0), stdout: stdout.to_owned(), stderr: String::new() })
}

/// A file system without links.
fn plain(path: &String) -> Result<String, String> {
    Ok(path.clone())
}

#[test]
fn pane_ids_lookup_panes_and_display() {
    let mut a = pane("%3", "@1", "$0");
    a.tty = Some("/dev/ttys001".to_owned());
    let b = pane("%3", "@2", "$0");
    let inv = inventory(vec![a, b]);
    // The same `%3` exists on both sockets; lookup returns all of them, and a
    // PaneRef pins the socket.
    assert_eq!(inv.by_pane_id(&PaneId::parse("%3").unwrap()).len(), 2);
    assert_eq!(inv.by_pane_id(&PaneId::parse("%4").unwrap()).len(), 0);
    assert_eq!(inv.panes[0].id.to_string(), "%3");
    assert_eq!(inv.panes[0].window.to_string(), "@1");
    assert_eq!(inv.panes[0].session.to_string(), "$0");
    let reference = PaneRef { socket: "/sock/a".to_owned(), pane: inv.panes[0].id.clone() };
    assert_eq!(reference.to_string(), "/sock/a:%3");
}

#[test]
fn panes_are_found_by_pid_terminal_and_attachment() {
    let mut a = pane("%1", "@1", "$0");
    a.pid = 10;
    a.tty = Some("/dev/ttys001".to_owned());
    let mut b = pane("%2", "@1", "$0");
    b.pid = 20;
    b.session_attached = 2;
    let inv = inventory(vec![a, b]);
    assert_eq!(inv.by_pane_pid(20).unwrap().id.as_str(), "%2");
    assert!(inv.by_pane_pid(30).is_none());
    assert_eq!(inv.by_tty("/dev/ttys001").len(), 1);
    assert!(inv.by_tty("/dev/ttys002").is_empty());
    let detached: Vec<&str> =
        inv.in_detached_sessions().iter().map(|pane| pane.id.as_str()).collect();
    assert_eq!(detached, ["%1"]);
}

#[test]
fn a_pane_is_the_same_however_its_socket_is_spelled() {
    let at = |socket: &str, id: &str| PaneRef {
        socket: socket.to_owned(),
        pane: PaneId::parse(id).unwrap(),
    };
    assert!(at("/tmp/tmux-1/default", "%1") == at("/tmp//tmux-1/./default/", "%1"));
    assert!(at("/tmp/tmux-1/default", "%1") != at("/tmp/tmux-1/other", "%1"));
    assert!(at("/tmp/tmux-1/default", "%1") != at("/tmp/tmux-1/default", "%2"));
}

#[test]
fn a_stored_worktree_edge_decides_the_binding() {
    let worktree = "/work/tree";
    // Stored id matching the claim binds even with no cwd.
    let mut p = pane("%1", "@1", "$0");
    p.wt_adminid = Some("adm".to_owned());
    assert!(p.binds_worktree(&plain, Some("adm"), worktree));
    assert!(!p.binds_worktree(&plain, Some("other"), worktree));
    assert!(!p.binds_worktree(&plain, None, worktree));
    // No stored edge: a cwd inside the worktree binds, outside does not, and
    // a cwd that cannot be canonicalized binds raw.
    p.wt_adminid = None;
    p.cwd = Some("/work/tree/inside".to_owned());
    assert!(p.binds_worktree(&plain, None, worktree));
    let broken = |_: &String| Err("gone".to_owned());
    assert!(p.binds_worktree(&broken, None, worktree));
    p.cwd = Some("/no/such/dir/here".to_owned());
    assert!(!p.binds_worktree(&broken, None, worktree));
    // A sibling whose name merely begins the same is outside.
    p.cwd = Some("/work/tree-2".to_owned());
    assert!(!p.binds_worktree(&plain, None, worktree));
    // A link is followed before the paths are compared.
    p.cwd = Some("/link".to_owned());
    let linked = |_: &String| Ok("/work/tree/deep".to_owned());
    assert!(p.binds_worktree(&linked, None, worktree));
    p.cwd = None;
    assert!(!p.binds_worktree(&plain, None, worktree));
}

#[test]
fn bound_windows_are_counted_once() {
    let inside = |id: &str, window: &str, socket: &str| {
        let mut p = pane(id, window, "$0");
        p.cwd = Some("/work/tree/x".to_owned());
        p.socket = socket.to_owned();
        p
    };
    let inv = inventory(vec![
        inside("%1", "@1", "/sock/a"),
        inside("%2", "@1", "/sock//a"),
        inside("%3", "@2", "/sock/a"),
        inside("%4", "@1", "/sock/b"),
        pane("%5", "@9", "$0"),
    ]);
    assert_eq!(inv.windows_bound(&plain, None, "/work/tree"), 3);
    assert_eq!(inv.windows_bound(&plain, None, "/work"), 3);
    assert_eq!(inv.windows_bound(&plain, None, "/other"), 0);
}

#[test]
fn matching_uses_every_component_the_handle_carries() {
    let mut a = pane("%3", "@1", "$0");
    a.session_name = "workmux".to_owned();
    let b = pane("%3", "@9", "$0");
    let inv = inventory(vec![a, b]);

    // Pane id alone matches both sockets.
    let handle = PublishedHandle::parse("%3").unwrap();
    assert_eq!(inv.matching(&handle).len(), 2);
    // A window alone narrows to one.
    let handle = PublishedHandle::parse("@1").unwrap();
    assert_eq!(inv.matching(&handle).len(), 1);
    // A session name corroborates down to one.
    let handle = PublishedHandle::parse("workmux:@1.%3").unwrap();
    assert_eq!(inv.matching(&handle).len(), 1);
    // A `$` session id also corroborates.
    let handle = PublishedHandle::parse("$0:@1.%3").unwrap();
    assert_eq!(inv.matching(&handle).len(), 1);
    // A wrong window id matches nothing.
    let handle = PublishedHandle::parse("workmux:@8.%3").unwrap();
    assert!(inv.matching(&handle).is_empty());
    // A handle that carries nothing constrains nothing.
    assert_eq!(inv.matching(&PublishedHandle::default()).len(), 2);
}

#[test]
fn tmux_errors_describe_their_argv() {
    let err = Error {
        argv: "tmux -S x list-panes".to_owned(),
        code: Some(1),
        detail: "no server".to_owned(),
    };
    assert_eq!(err.to_string(), "`tmux -S x list-panes` exited 1: no server");
    let err = Error {
        argv: "tmux list-panes".to_owned(),
        code: None,
        detail: "spawn failed".to_owned(),
    };
    assert_eq!(err.to_string(), "`tmux list-panes`: spawn failed");
}

#[test]
fn ids_validate_their_sigil() {
    assert!(PaneId::parse("%12").is_some());
    assert!(PaneId::parse("%").is_none());
    assert!(PaneId::parse("%a").is_none());
    assert!(PaneId::parse("@12").is_none());
    assert!(WindowId::parse("@0").is_some());
    assert!(SessionId::parse("$3").is_some());
}

#[test]
fn published_handles_parse_every_shape() {
    let full = PublishedHandle::parse("workmux:@149.%162").unwrap();
    assert_eq!(full.pane.as_ref().map(|p| p.as_str()), Some("%162"));
    assert_eq!(full.window.as_ref().map(|w| w.as_str()), Some("@149"));
    assert_eq!(full.session.as_deref(), Some("workmux"));

    let bare = PublishedHandle::parse("%5").unwrap();
    assert_eq!(bare.pane.as_ref().map(|p| p.as_str()), Some("%5"));
    assert_eq!(bare.window, None);
    assert_eq!(bare.session, None);

    // A window+pane without a session.
    let wp = PublishedHandle::parse("@3.%7").unwrap();
    assert_eq!(wp.window.as_ref().map(|w| w.as_str()), Some("@3"));
    assert_eq!(wp.pane.as_ref().map(|p| p.as_str()), Some("%7"));

    // A session plus pane without a window.
    let sp = PublishedHandle::parse("s:.%4").unwrap();
    assert_eq!(sp.pane.as_ref().map(|p| p.as_str()), Some("%4"));

    // Nothing tmux-shaped at all.
    assert!(PublishedHandle::parse("").is_none());
    assert!(PublishedHandle::parse("not-a-handle").is_none());
    // A word before a colon is a session name even alone.
    let sess = PublishedHandle::parse("mysess:").unwrap();
    assert_eq!(sess.session.as_deref(), Some("mysess"));
    assert_eq!(sess.pane, None);
}

#[test]
fn pane_records_parse_and_reject() {
    let socket = "/tmp/tmux-501/default";
    let line = "%3|80255|/dev/ttys010|sleep|/wt/repo|1|0|@0|1|1790348629|$0|main|0|admin-1|handle-x";
    let pane = parse_pane(socket, line).expect("a pane record");
    assert_eq!(pane.id.as_str(), "%3");
    assert_eq!(pane.pid, 80255);
    assert_eq!(pane.tty.as_deref(), Some("/dev/ttys010"));
    assert_eq!(pane.command, "sleep");
    assert_eq!(pane.cwd.as_deref(), Some("/wt/repo"));
    assert!(pane.active);
    assert!(!pane.last);
    assert!(pane.window_active);
    assert_eq!(pane.window.as_str(), "@0");
    assert_eq!(pane.session.as_str(), "$0");
    assert_eq!(pane.session_name, "main");
    assert_eq!(pane.session_attached, 0);
    assert_eq!(pane.window_activity, Some(Timestamp::from_secs(1_790_348_629)));
    assert_eq!(pane.wt_adminid.as_deref(), Some("admin-1"));
    assert_eq!(pane.wt_handle.as_deref(), Some("handle-x"));

    // Empty option and cwd fields read as absent.
    let sparse = parse_pane(socket, "%0|1|ttys001|sh||0|1|@2|0|0|$1|s|1||").unwrap();
    assert_eq!(sparse.tty.as_deref(), Some("/dev/ttys001"));
    assert_eq!(sparse.cwd, None);
    assert_eq!(sparse.window_activity, None);
    assert_eq!(sparse.wt_adminid, None);
    assert_eq!(sparse.session_attached, 1);

    // Wrong field count and bad ids are records we cannot use.
    assert!(parse_pane(socket, "%0|1").is_err());
    assert!(parse_pane(socket, "x|1|/dev/ttys1|sh|/p|0|0|@0|0|0|$0|s|0||").is_err());
    assert!(parse_pane(socket, "%0|x|/dev/ttys1|sh|/p|0|0|@0|0|0|$0|s|0||").is_err());
    // A bad window id, session id or attachment count is the same.
    assert!(parse_pane(socket, "%0|1|/dev/ttys1|sh|/p|0|0|w0|0|0|$0|s|0||").is_err());
    assert!(parse_pane(socket, "%0|1|/dev/ttys1|sh|/p|0|0|@0|0|0|s0|s|0||").is_err());
    assert!(parse_pane(socket, "%0|1|/dev/ttys1|sh|/p|0|0|@0|0|0|$0|s|x||").is_err());

    // What is reported of a record names the number that did not parse.
    let line = "%0|x|/dev/ttys1|sh|/p|0|0|@0|0|0|$0|s|0||";
    assert_eq!(parse_pane(socket, line).unwrap_err(), format!("{line} (pane_pid `x`)"));
    let line = "%0|1|/dev/ttys1|sh|/p|0|0|@0|0|0|$0|s|x||";
    assert_eq!(parse_pane(socket, line).unwrap_err(), format!("{line} (session_attached `x`)"));
    assert_eq!(parse_pane(socket, "%0|1").unwrap_err(), "%0|1");
}

#[test]
fn one_pass_asks_each_server_once() {
    let asked: RefCell<Vec<Vec<String>>> = RefCell::new(Vec::new());
    let run = |args: &Vec<String>| -> Reply {
        asked.borrow_mut().push(args.clone());
        match args[1].as_str() {
            "/sock/a" => said("%0|7||sh|/p|1|0|@0|1|0|$0|main|0||\n\nbad record\n"),
            "/sock/down" => Ok(Output {
                code: Some(1),
                stdout: String::new(),
                stderr: "no server running\n".to_owned(),
            }),
            _ => Err("no tmux".to_owned()),
        }
    };
    let links = |path: &String| {
        if path == "/sock/alias" {
            Ok("/sock/a".to_owned())
        } else if path == "/sock/odd" {
            Err("missing".to_owned())
        } else {
            Ok(path.clone())
        }
    };
    let list: Vec<String> = ["/sock/a", "/sock/alias", "/sock/a", "/sock/down", "/sock/odd"]
        .iter()
        .map(|s| s.to_string())
        .collect();
    let inv = PaneInventory::collect(&run, &links, &list);
    assert_eq!(inv.panes.len(), 1);
    assert_eq!(inv.panes[0].socket, "/sock/a");
    assert_eq!(inv.warnings, ["/sock/a: unparsed pane `bad record`"]);
    let servers: Vec<(&str, Option<&str>)> =
        inv.servers.iter().map(|s| (s.socket.as_str(), s.error.as_deref())).collect();
    assert_eq!(
        servers,
        [
            ("/sock/a", None),
            (
                "/sock/down",
                Some("`tmux -S /sock/down list-panes -a` exited 1: no server running")
            ),
            ("/sock/odd", Some("`tmux list-panes`: no tmux")),
        ]
    );
    // Only ever `list-panes`, and once for each server.
    assert_eq!(asked.borrow().len(), 3);
    for args in asked.borrow().iter() {
        assert_eq!(args[0], "-S");
        assert_eq!(&args[2..5], ["list-panes", "-a", "-F"]);
        assert_eq!(args[5].split('|').count(), 15);
    }
}

#[test]
fn tmux_is_started_in_one_locale() {
    let command = tmux_command(&vec!["-S".to_owned(), "/sock/a".to_owned()]);
    assert_eq!(command.program, "tmux");
    assert_eq!(command.args, ["-S", "/sock/a"]);
    assert_eq!(command.set, [("LC_ALL".to_owned(), "C".to_owned())]);
}

#[test]
fn socket_discovery_lists_the_dir_and_tmux_env() {
    // A socket and a link to it, as the directory lists them.
    let (sock, link) = ("/base/tmux-501/server-a", "/base/tmux-501/linked");
    let entries = vec![sock.to_owned(), link.to_owned()];
    let found = sockets(&entries, None);
    assert_eq!(found, [link, sock]);

    // $TMUX adds its socket and deduplicates a path already listed.
    let found = sockets(&entries, Some("/base/tmux-501/server-a,1,0"));
    assert_eq!(found, [link, sock]);
    let found = sockets(&entries, Some("/elsewhere/sock,1,0"));
    assert!(found.contains(&"/elsewhere/sock".to_owned()));
    assert_eq!(found.len(), 3);
    // A path is the same however it is spelled; the first spelling stands.
    let found = sockets(&entries, Some("/base//tmux-501/server-a,1,0"));
    assert_eq!(found, [link, sock]);
    // An empty $TMUX names nothing.
    assert_eq!(sockets(&entries, Some("")), [link, sock]);
    // Components are compared one by one, not the text as a whole.
    let entries = vec!["/a-b".to_owned(), "/a/b".to_owned()];
    assert_eq!(sockets(&entries, None), ["/a/b", "/a-b"]);

    // No dir and no $TMUX is no sockets.
    assert!(sockets(&vec![], None).is_empty());
}

#[test]
fn the_default_socket_dir_uses_the_uid() {
    assert_eq!(
        socket_dir(Some("/custom"), Some(501)),
        Some("/custom/tmux-501".to_owned())
    );
    // `/tmp` is the base when $TMUX_TMPDIR is unset or empty.
    assert_eq!(socket_dir(None, Some(501)), Some("/tmp/tmux-501".to_owned()));
    assert_eq!(socket_dir(Some(""), Some(501)), Some("/tmp/tmux-501".to_owned()));
    assert_eq!(socket_dir(Some("/custom"), None), None);
}

#[test]
fn the_uid_comes_from_the_id_program() {
    assert_eq!(uid(&said("501\n")), Some(501));
    assert_eq!(uid(&said("not a number")), None);
    assert_eq!(uid(&Err("no id".to_owned())), None);
    let failed = Ok(Output { code: Some(1), stdout: "501".to_owned(), stderr: String::new() });
    assert_eq!(uid(&failed), None);
}

#[test]
fn discovery_asks_the_sockets_of_the_user() {
    let run = |args: &Vec<String>| -> Reply {
        match args[1].as_str() {
            "/base/tmux-7/one" => said("%0|7||sh|/p|1|0|@0|1|0|$0|s1|0||\n"),
            "/two" => said("%0|8||sh|/p|1|0|@0|1|0|$0|s2|0||\n"),
            other => panic!("asked {other}"),
        }
    };
    let list = |dir: &String| -> Vec<String> {
        assert_eq!(dir, "/base/tmux-7");
        vec!["/base/tmux-7/one".to_owned()]
    };
    let inv =
        PaneInventory::discover_in(&run, &plain, &list, Some(7), Some("/base"), Some("/two,1,0"));
    let names: Vec<&str> = inv.panes.iter().map(|p| p.session_name.as_str()).collect();
    assert_eq!(names, ["s1", "s2"]);
    // Without a uid there is no directory to list; `$TMUX` is all there is.
    let inv = PaneInventory::discover_in(&run, &plain, &list, None, Some("/base"), Some("/two"));
    assert_eq!(inv.panes.len(), 1);
}
