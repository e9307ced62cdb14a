//! The merged inventory of every server that answered, and lookups in it.

use vstd::prelude::*;
use vstd::string::*;

use crate::command::{accepts_any, set_var, Invocation, Reply};
use crate::path::{components, same_path, settle, settles};
use crate::text::{
    is_text, law_lines_read_back, line_list, lines, list, same, signed_decimal, terminated, trim,
    trimmed,
};
use crate::tmux::{failure, Error, Pane, PaneId, PaneView};
use crate::tmux::record::{pane_of, parse_pane};
use crate::tmux::socket::takes_inventory;

verus! {

// ---------------------------------------------------------------------------
// The inventory
// ---------------------------------------------------------------------------

/// One socket's contribution to the inventory: the panes it answered with,
/// or the reason it answered nothing.
#[derive(Debug)]
pub struct Server {
    pub socket: String,
    /// Why the server contributed nothing (`None` when it answered).
    pub error: Option<String>,
}

/// The value of a [`Server`], with its text as characters.
pub struct ServerView {
    pub socket: Seq<char>,
    pub error: Option<Seq<char>>,
}

impl DeepView for Server {
    type V = ServerView;

    open spec fn deep_view(&self) -> ServerView {
        ServerView { socket: self.socket@, error: self.error.deep_view() }
    }
}

/// The merged result of one snapshot pass over every reachable server.
#[derive(Debug)]
pub struct PaneInventory {
    pub panes: Vec<Pane>,
    /// One entry per socket attempted, answering or not.
    pub servers: Vec<Server>,
    /// Records the server printed that this tool did not understand - kept
    /// as evidence rather than silently dropped, since an invisible pane
    /// cannot claim liveness.
    pub warnings: Vec<String>,
}

/// The value of a [`PaneInventory`], with its text as characters.
pub struct InventoryView {
    pub panes: Seq<PaneView>,
    pub servers: Seq<ServerView>,
    pub warnings: Seq<Seq<char>>,
}

impl DeepView for PaneInventory {
    type V = InventoryView;

    open spec fn deep_view(&self) -> InventoryView {
        InventoryView {
            panes: self.panes.deep_view(),
            servers: self.servers.deep_view(),
            warnings: self.warnings.deep_view(),
        }
    }
}

/// An inventory with nothing in it.
pub open spec fn no_panes() -> InventoryView {
    InventoryView { panes: seq![], servers: seq![], warnings: seq![] }
}

impl Default for PaneInventory {
    fn default() -> (r: PaneInventory)
        ensures
            r.deep_view() == no_panes(),
    {
        let r = PaneInventory { panes: Vec::new(), servers: Vec::new(), warnings: Vec::new() };
        assert(r.panes.deep_view() =~= seq![]);
        assert(r.servers.deep_view() =~= seq![]);
        assert(r.warnings.deep_view() =~= seq![]);
        r
    }
}

/// The `list-panes -a` format, one field per pane record. Read-only and
/// whole-server: the per-server cost of a refresh is one subprocess.
///
/// `|` is the separator because it is *printable*: tmux does not promise
/// control characters through `-F` output - one build renders a format
/// `\t` literally, another substitutes `_` - and a field value carrying a
/// `|` just costs that one record, which reports as a warning rather
/// than being misread.
pub open spec fn list_format() -> Seq<char> {
    "#{pane_id}|#{pane_pid}|#{pane_tty}|#{pane_current_command}\
     |#{pane_current_path}|#{pane_active}|#{pane_last}|#{window_id}\
     |#{window_active}|#{window_activity}|#{session_id}|#{session_name}\
     |#{session_attached}|#{@wt_adminid}|#{@wt_handle}"@
}

/// The one thing tmux is asked: the panes of the server at `socket`. The
/// socket is always a path, which handles `-L` and `-S` servers identically.
pub open spec fn panes_argv(socket: Seq<char>) -> Seq<Seq<char>> {
    seq!["-S"@, socket, "list-panes"@, "-a"@, "-F"@, list_format()]
}

/// `run` takes the one argv this module hands out, for any socket. Nothing
/// else is asked of it, so nothing else is ever handed to it.
pub open spec fn accepts_list_panes<T: Fn(&Vec<String>) -> Reply>(run: T) -> bool {
    forall|args: Vec<String>, socket: Seq<char>|
        #![trigger call_requires(run, (&args,)), panes_argv(socket)]
        args.deep_view() == panes_argv(socket) ==> call_requires(run, (&args,))
}

/// `reply` is something `run` may come back with from `tmux <args>`.
pub open spec fn tmux_replies<T: Fn(&Vec<String>) -> Reply>(
    run: T,
    args: Seq<Seq<char>>,
    reply: Reply,
) -> bool {
    exists|a: Vec<String>| a.deep_view() == args && #[trigger] call_ensures(run, (&a,), reply)
}

/// How tmux is started with `args`; `LC_ALL=C` keeps the output stable.
pub fn tmux_command(args: &Vec<String>) -> (r: Invocation)
    ensures
        r.program@ == "tmux"@,
        r.args.deep_view() == args.deep_view(),
        r.removed@.len() == 0,
        r.set.deep_view() == seq![("LC_ALL"@, "C"@)],
{
    let mut copy: Vec<String> = Vec::new();
    let mut i: usize = 0;
    while i < args.len()
        invariant
            i <= args@.len(),
            copy.deep_view() =~= args.deep_view().take(i as int),
        decreases args@.len() - i,
    {
        let ghost before = copy.deep_view();
        copy.push(args[i].clone());
        assert(copy.deep_view() =~= before.push(args@[i as int]@));
        i += 1;
    }
    assert(args.deep_view().take(i as int) =~= args.deep_view());
    let mut set: Vec<(String, String)> = Vec::new();
    set_var(&mut set, "LC_ALL", "C");
    assert(set.deep_view() =~= seq![("LC_ALL"@, "C"@)]);
    Invocation { program: "tmux".to_owned(), args: copy, removed: Vec::new(), set }
}

/// The lines that hold anything.
pub open spec fn filled_lines(lines: Seq<Seq<char>>) -> Seq<Seq<char>>
    decreases lines.len(),
{
    if lines.len() == 0 {
        seq![]
    } else {
        let before = filled_lines(lines.drop_last());
        if trimmed(lines.last()).len() == 0 {
            before
        } else {
            before.push(lines.last())
        }
    }
}

/// What is warned of a record that did not parse.
pub open spec fn warning(socket: Seq<char>, reason: Seq<char>) -> Seq<char> {
    socket + ": unparsed pane `"@ + reason + "`"@
}

/// The inventory with one more record of a server in it: its pane, or a
/// warning.
pub open spec fn with_record(inv: InventoryView, socket: Seq<char>, line: Seq<char>) -> (
    InventoryView
) {
    match pane_of(socket, line) {
        Ok(pane) => InventoryView { panes: inv.panes.push(pane), ..inv },
        Err(reason) => InventoryView {
            warnings: inv.warnings.push(warning(socket, reason)),
            ..inv
        },
    }
}

/// The inventory with all the records of a server in it, in order.
pub open spec fn with_records(inv: InventoryView, socket: Seq<char>, lines: Seq<Seq<char>>) -> (
    InventoryView
)
    decreases lines.len(),
{
    if lines.len() == 0 {
        inv
    } else {
        with_record(with_records(inv, socket, lines.drop_last()), socket, lines.last())
    }
}

/// The inventory with one more server attempted.
pub open spec fn with_server(inv: InventoryView, socket: Seq<char>, error: Option<Seq<char>>) -> (
    InventoryView
) {
    InventoryView { servers: inv.servers.push(ServerView { socket, error }), ..inv }
}

/// The inventory with a server's reply merged in: what it answered, or the
/// reason it answered nothing.
pub open spec fn with_reply(inv: InventoryView, socket: Seq<char>, reply: Reply) -> InventoryView {
    match reply {
        Ok(out) => if out.succeeded() {
            with_server(
                with_records(inv, socket, filled_lines(line_list(out.stdout@))),
                socket,
                None,
            )
        } else {
            with_server(
                inv,
                socket,
                Some(
                    failure(
                        "tmux -S "@ + socket + " list-panes -a"@,
                        out.code,
                        trimmed(out.stderr@),
                    ),
                ),
            )
        },
        Err(spawn) => with_server(
            inv,
            socket,
            Some(failure("tmux list-panes"@, None, spawn@)),
        ),
    }
}

/// Whether a path is spelled among the `seen` ones.
pub open spec fn spelled(seen: Seq<Seq<char>>, path: Seq<char>) -> bool {
    exists|i: int|
        0 <= i < seen.len() && components(#[trigger] seen[i]) == components(path)
}

/// What a pass has come to: where the sockets it asked really are, and what
/// they answered.
pub struct Pass {
    pub seen: Seq<Seq<char>>,
    pub inventory: InventoryView,
}

/// `after` is what a pass may come to with one more socket: one that leads
/// where another has led is not asked again - an aliased socket must not
/// return every pane twice.
pub open spec fn visits<
    T: Fn(&Vec<String>) -> Reply,
    C: Fn(&String) -> Result<String, String>,
>(run: T, canonicalize: C, socket: Seq<char>, before: Pass, after: Pass) -> bool {
    exists|place: Seq<char>|
        #[trigger] settles(canonicalize, socket, place) && if spelled(before.seen, place) {
            after == before
        } else {
            after.seen == before.seen.push(place) && asks(
                run,
                socket,
                before.inventory,
                after.inventory,
            )
        }
}

/// `after` is what the inventory may come to once the server has been asked.
pub open spec fn asks<T: Fn(&Vec<String>) -> Reply>(
    run: T,
    socket: Seq<char>,
    before: InventoryView,
    after: InventoryView,
) -> bool {
    exists|reply: Reply|
        #[trigger] tmux_replies(run, panes_argv(socket), reply) && after == with_reply(
            before,
            socket,
            reply,
        )
}

/// `pass` is what a pass over the sockets may come to.
pub open spec fn passes<
    T: Fn(&Vec<String>) -> Reply,
    C: Fn(&String) -> Result<String, String>,
>(run: T, canonicalize: C, sockets: Seq<Seq<char>>, pass: Pass) -> bool
    decreases sockets.len(),
{
    if sockets.len() == 0 {
        pass == (Pass { seen: seq![], inventory: no_panes() })
    } else {
        exists|before: Pass|
            passes(run, canonicalize, sockets.drop_last(), before) && #[trigger] visits(
                run,
                canonicalize,
                sockets.last(),
                before,
                pass,
            )
    }
}

/// Whether a path is spelled among the `seen` ones.
pub(crate) fn is_spelled(seen: &Vec<String>, path: &str) -> (r: bool)
    ensures
        r == spelled(seen.deep_view(), path@),
{
    let mut i: usize = 0;
    while i < seen.len()
        invariant
            i <= seen@.len(),
            forall|j: int|
                0 <= j < i ==> components(#[trigger] seen.deep_view()[j]) != components(path@),
        decreases seen@.len() - i,
    {
        assert(seen.deep_view()[i as int] == seen@[i as int]@);
        if same_path(seen[i].as_str(), path) {
            return true;
        }
        i += 1;
    }
    false
}

impl PaneInventory {
    /// Merge one record of a server.
    fn take_record(&mut self, socket: &str, line: &str)
        ensures
            final(self).deep_view() == with_record(old(self).deep_view(), socket@, line@),
    {
        match parse_pane(socket, line) {
            Ok(pane) => {
                self.panes.push(pane);
                assert(self.panes.deep_view() =~= old(self).panes.deep_view().push(
                    pane.deep_view(),
                ));
            },
            Err(reason) => {
                let mut warning = socket.to_owned();
                warning.append(": unparsed pane `");
                warning.append(reason.as_str());
                warning.append("`");
                self.warnings.push(warning);
                assert(self.warnings.deep_view() =~= old(self).warnings.deep_view().push(
                    warning@,
                ));
            },
        }
    }

    /// Record one server as attempted.
    fn take_server(&mut self, socket: &str, error: Option<String>)
        ensures
            final(self).deep_view() == with_server(
                old(self).deep_view(),
                socket@,
                error.deep_view(),
            ),
    {
        let server = Server { socket: socket.to_owned(), error };
        let ghost view = server.deep_view();
        self.servers.push(server);
        assert(self.servers.deep_view() =~= old(self).servers.deep_view().push(view));
    }

    /// Merge one server's reply.
    pub fn take_reply(&mut self, socket: &str, reply: &Reply)
        ensures
            final(self).deep_view() == with_reply(old(self).deep_view(), socket@, *reply),
    {
        match reply {
            Ok(out) => {
                if !out.success() {
                    let mut argv = "tmux -S ".to_owned();
                    argv.append(socket);
                    argv.append(" list-panes -a");
                    let error = Error { argv, code: out.code, detail: trim(out.stderr.as_str()) };
                    self.take_server(socket, Some(error.to_string()));
                    return;
                }
                let found = lines(out.stdout.as_str());
                let ghost all = found.deep_view();
                let ghost before = self.deep_view();
                let mut i: usize = 0;
                assert(filled_lines(all.take(0)) =~= seq![]);
                while i < found.len()
                    invariant
                        i <= found@.len(),
                        all == found.deep_view(),
                        self.deep_view() == with_records(
                            before,
                            socket@,
                            filled_lines(all.take(i as int)),
                        ),
                    decreases found@.len() - i,
                {
                    let line = found[i].as_str();
                    assert(all.take(i + 1).drop_last() =~= all.take(i as int));
                    assert(all.take(i + 1).last() == line@);
                    if !trim(line).as_str().is_empty() {
                        let ghost read = filled_lines(all.take(i as int));
                        assert(read.push(line@).drop_last() =~= read);
                        self.take_record(socket, line);
                    }
                    i += 1;
                }
                assert(all.take(i as int) =~= all);
                self.take_server(socket, None);
            },
            Err(spawn) => {
                let error = Error {
                    argv: "tmux list-panes".to_owned(),
                    code: None,
                    detail: spawn.clone(),
                };
                self.take_server(socket, Some(error.to_string()));
            },
        }
    }

    /// One snapshot per socket in `sockets`, merged. Each server is asked
    /// exactly once, however many sockets lead to it; unreachable ones are
    /// recorded and skipped.
    pub fn collect<
        T: Fn(&Vec<String>) -> Reply,
        C: Fn(&String) -> Result<String, String>,
    >(run: &T, canonicalize: &C, sockets: &Vec<String>) -> (r: PaneInventory)
        requires
            accepts_list_panes(*run),
            accepts_any(*canonicalize),
        ensures
            takes_inventory(*run, *canonicalize, sockets.deep_view(), r.deep_view()),
    {
        let ghost all = sockets.deep_view();
        let mut inventory = PaneInventory::default();
        let mut seen: Vec<String> = Vec::new();
        let ghost mut pass = Pass { seen: seq![], inventory: no_panes() };
        assert(seen.deep_view() =~= seq![]);
        let mut i: usize = 0;
        while i < sockets.len()
            invariant
                accepts_list_panes(*run),
                accepts_any(*canonicalize),
                i <= sockets@.len(),
                all == sockets.deep_view(),
                seen.deep_view() == pass.seen,
                inventory.deep_view() == pass.inventory,
                passes(*run, *canonicalize, all.take(i as int), pass),
            decreases sockets@.len() - i,
        {
            let socket = &sockets[i];
            let ghost before = pass;
            assert(all.take(i + 1).drop_last() =~= all.take(i as int));
            assert(all.take(i + 1).last() == socket@);
            let place = settle(canonicalize, socket);
            assert(settles(*canonicalize, socket@, place@));
            if !is_spelled(&seen, place.as_str()) {
                let ghost at = place@;
                let args = list(
                    &[
                        "-S",
                        socket.as_str(),
                        "list-panes",
                        "-a",
                        "-F",
                        "#{pane_id}|#{pane_pid}|#{pane_tty}|#{pane_current_command}\
                         |#{pane_current_path}|#{pane_active}|#{pane_last}|#{window_id}\
                         |#{window_active}|#{window_activity}|#{session_id}|#{session_name}\
                         |#{session_attached}|#{@wt_adminid}|#{@wt_handle}",
                    ],
                );
                assert(args.deep_view() =~= panes_argv(socket@));
                let reply = run(&args);
                assert(tmux_replies(*run, panes_argv(socket@), reply));
                inventory.take_reply(socket.as_str(), &reply);
                seen.push(place);
                proof {
                    assert(seen.deep_view() =~= before.seen.push(at));
                    pass = Pass { seen: seen.deep_view(), inventory: inventory.deep_view() };
                    assert(asks(*run, socket@, before.inventory, pass.inventory));
                }
            }
            assert(passes(*run, *canonicalize, all.take(i + 1).drop_last(), before));
            assert(visits(*run, *canonicalize, all.take(i + 1).last(), before, pass));
            assert(passes(*run, *canonicalize, all.take(i + 1), pass));
            i += 1;
        }
        assert(all.take(i as int) =~= all);
        inventory
    }
}

// ---------------------------------------------------------------------------
// Looking panes up
// ---------------------------------------------------------------------------

/// The panes that a test picks, in order.
pub open spec fn picked(panes: Seq<Pane>, test: spec_fn(Pane) -> bool) -> Seq<Pane>
    decreases panes.len(),
{
    if panes.len() == 0 {
        seq![]
    } else {
        let before = picked(panes.drop_last(), test);
        if test(panes.last()) {
            before.push(panes.last())
        } else {
            before
        }
    }
}

/// Exactly the panes that pass are picked.
pub proof fn lemma_picked(panes: Seq<Pane>, test: spec_fn(Pane) -> bool)
    ensures
        forall|i: int|
            0 <= i < picked(panes, test).len() ==> test(#[trigger] picked(panes, test)[i])
                && panes.contains(picked(panes, test)[i]),
        forall|pane: Pane|
            panes.contains(pane) && test(pane) ==> #[trigger] picked(panes, test).contains(pane),
    decreases panes.len(),
{
    if panes.len() > 0 {
        let rest = panes.drop_last();
        let before = picked(rest, test);
        let all = picked(panes, test);
        lemma_picked(rest, test);
        assert forall|i: int| 0 <= i < all.len() implies test(#[trigger] all[i])
            && panes.contains(all[i]) by {
            if i < before.len() {
                assert(all[i] == before[i]);
                let j = choose|j: int| 0 <= j < rest.len() && rest[j] == before[i];
                assert(panes[j] == all[i]);
            } else {
                assert(panes[panes.len() - 1] == all[i]);
            }
        }
        assert forall|pane: Pane| panes.contains(pane) && test(pane) implies #[trigger]
            all.contains(pane) by {
            if pane == panes.last() {
                assert(all[all.len() - 1] == pane);
            } else {
                let j = choose|j: int| 0 <= j < panes.len() && panes[j] == pane;
                assert(rest[j] == pane);
                assert(before.contains(pane));
                let k = choose|k: int| 0 <= k < before.len() && before[k] == pane;
                assert(all[k] == pane);
            }
        }
    }
}

pub open spec fn has_id(id: Seq<char>) -> spec_fn(Pane) -> bool {
    |pane: Pane| pane.id@ == id
}

pub open spec fn has_tty(tty: Seq<char>) -> spec_fn(Pane) -> bool {
    |pane: Pane| pane.tty.deep_view() == Some(tty)
}

pub open spec fn is_detached() -> spec_fn(Pane) -> bool {
    |pane: Pane| pane.session_attached == 0
}

impl PaneInventory {
    /// The pane with this id, wherever it lives. Pane ids are server-local,
    /// so more than one server can answer.
    pub fn by_pane_id(&self, id: &PaneId) -> (r: Vec<&Pane>)
        ensures
            r@.unref() == picked(self.panes@, has_id(id@)),
    {
        let mut out: Vec<&Pane> = Vec::new();
        let mut i: usize = 0;
        assert(out@.unref() =~= seq![]);
        while i < self.panes.len()
            invariant
                i <= self.panes@.len(),
                out@.unref() == picked(self.panes@.take(i as int), has_id(id@)),
            decreases self.panes@.len() - i,
        {
            let pane = &self.panes[i];
            assert(self.panes@.take(i + 1).drop_last() =~= self.panes@.take(i as int));
            let ghost before = out@;
            if same(pane.id.as_str(), id.as_str()) {
                out.push(pane);
                assert(out@.unref() =~= before.unref().push(*pane));
            }
            i += 1;
        }
        assert(self.panes@.take(i as int) =~= self.panes@);
        out
    }

    /// The pane whose root process is `pid` (`pane_pid`), anywhere: the first
    /// one listed.
    pub fn by_pane_pid(&self, pid: u32) -> (r: Option<&Pane>)
        ensures
            match r {
                Some(pane) => first_with_pid(self.panes@, pid) == Some(*pane),
                None => first_with_pid(self.panes@, pid) is None,
            },
    {
        let mut i: usize = 0;
        assert(self.panes@.skip(0) =~= self.panes@);
        while i < self.panes.len()
            invariant
                i <= self.panes@.len(),
                first_with_pid(self.panes@, pid) == first_with_pid(
                    self.panes@.skip(i as int),
                    pid,
                ),
            decreases self.panes@.len() - i,
        {
            assert(self.panes@.skip(i as int).drop_first() =~= self.panes@.skip(i + 1));
            if self.panes[i].pid == pid {
                return Some(&self.panes[i]);
            }
            i += 1;
        }
        None
    }

    /// The pane(s) sharing a controlling terminal. In practice at most one
    /// pane owns a pty; more means the evidence is ambiguous.
    pub fn by_tty(&self, tty: &str) -> (r: Vec<&Pane>)
        ensures
            r@.unref() == picked(self.panes@, has_tty(tty@)),
    {
        let mut out: Vec<&Pane> = Vec::new();
        let mut i: usize = 0;
        assert(out@.unref() =~= seq![]);
        while i < self.panes.len()
            invariant
                i <= self.panes@.len(),
                out@.unref() == picked(self.panes@.take(i as int), has_tty(tty@)),
            decreases self.panes@.len() - i,
        {
            let pane = &self.panes[i];
            assert(self.panes@.take(i + 1).drop_last() =~= self.panes@.take(i as int));
            let ghost before = out@;
            if is_text(&pane.tty, tty) {
                out.push(pane);
                assert(out@.unref() =~= before.unref().push(*pane));
            }
            i += 1;
        }
        assert(self.panes@.take(i as int) =~= self.panes@);
        out
    }

    /// The panes whose session has no client attached.
    pub fn in_detached_sessions(&self) -> (r: Vec<&Pane>)
        ensures
            r@.unref() == picked(self.panes@, is_detached()),
    {
        let mut out: Vec<&Pane> = Vec::new();
        let mut i: usize = 0;
        assert(out@.unref() =~= seq![]);
        while i < self.panes.len()
            invariant
                i <= self.panes@.len(),
                out@.unref() == picked(self.panes@.take(i as int), is_detached()),
            decreases self.panes@.len() - i,
        {
            let pane = &self.panes[i];
            assert(self.panes@.take(i + 1).drop_last() =~= self.panes@.take(i as int));
            let ghost before = out@;
            if pane.session_attached == 0 {
                out.push(pane);
                assert(out@.unref() =~= before.unref().push(*pane));
            }
            i += 1;
        }
        assert(self.panes@.take(i as int) =~= self.panes@);
        out
    }
}

/// The first pane whose root process is `pid`.
pub open spec fn first_with_pid(panes: Seq<Pane>, pid: u32) -> Option<Pane>
    decreases panes.len(),
{
    if panes.len() == 0 {
        None
    } else if panes[0].pid == pid {
        Some(panes[0])
    } else {
        first_with_pid(panes.drop_first(), pid)
    }
}

// ---------------------------------------------------------------------------
// What the inventory promises
// ---------------------------------------------------------------------------

/// An aliased socket does not return every pane twice: the places that were
/// asked are all different, there is one server entry for each of them, and
/// never more of them than sockets.
pub proof fn law_each_server_is_asked_once<
    T: Fn(&Vec<String>) -> Reply,
    C: Fn(&String) -> Result<String, String>,
>(run: T, canonicalize: C, sockets: Seq<Seq<char>>, pass: Pass)
    requires
        passes(run, canonicalize, sockets, pass),
    ensures
        pass.inventory.servers.len() == pass.seen.len(),
        pass.seen.len() <= sockets.len(),
        forall|i: int, j: int|
            0 <= i < j < pass.seen.len() ==> components(#[trigger] pass.seen[i]) != components(
                #[trigger] pass.seen[j],
            ),
    decreases sockets.len(),
{
    if sockets.len() > 0 {
        let before = choose|before: Pass|
            passes(run, canonicalize, sockets.drop_last(), before) && #[trigger] visits(
                run,
                canonicalize,
                sockets.last(),
                before,
                pass,
            );
        law_each_server_is_asked_once(run, canonicalize, sockets.drop_last(), before);
        let place = choose|place: Seq<char>|
            #[trigger] settles(canonicalize, sockets.last(), place) && if spelled(
                before.seen,
                place,
            ) {
                pass == before
            } else {
                pass.seen == before.seen.push(place) && asks(
                    run,
                    sockets.last(),
                    before.inventory,
                    pass.inventory,
                )
            };
        if !spelled(before.seen, place) {
            let reply = choose|reply: Reply|
                #[trigger] tmux_replies(run, panes_argv(sockets.last()), reply)
                    && pass.inventory == with_reply(before.inventory, sockets.last(), reply);
            lemma_reply_adds_one_server(before.inventory, sockets.last(), reply);
            assert forall|i: int, j: int| 0 <= i < j < pass.seen.len() implies components(
                #[trigger] pass.seen[i],
            ) != components(#[trigger] pass.seen[j]) by {
                assert(pass.seen[i] == before.seen[i]);
                if j < before.seen.len() {
                    assert(pass.seen[j] == before.seen[j]);
                }
            }
        }
    }
}

proof fn lemma_reply_adds_one_server(inv: InventoryView, socket: Seq<char>, reply: Reply)
    ensures
        with_reply(inv, socket, reply).servers.len() == inv.servers.len() + 1,
{
    if let Ok(out) = reply {
        law_every_record_is_accounted_for(inv, socket, filled_lines(line_list(out.stdout@)));
    }
}

/// A record that does not parse costs that one record and nothing else: every
/// record is a pane or a warning, and what was there before stays.
pub proof fn law_every_record_is_accounted_for(
    inv: InventoryView,
    socket: Seq<char>,
    lines: Seq<Seq<char>>,
)
    ensures
        ({
            let after = with_records(inv, socket, lines);
            &&& after.panes.len() + after.warnings.len() == inv.panes.len() + inv.warnings.len()
                + lines.len()
            &&& inv.panes.is_prefix_of(after.panes)
            &&& inv.warnings.is_prefix_of(after.warnings)
            &&& after.servers == inv.servers
        }),
    decreases lines.len(),
{
    let after = with_records(inv, socket, lines);
    if lines.len() > 0 {
        let before = with_records(inv, socket, lines.drop_last());
        law_every_record_is_accounted_for(inv, socket, lines.drop_last());
        assert(inv.panes =~= after.panes.subrange(0, inv.panes.len() as int));
        assert(inv.warnings =~= after.warnings.subrange(0, inv.warnings.len() as int));
    } else {
        assert(inv.panes =~= after.panes.subrange(0, inv.panes.len() as int));
        assert(inv.warnings =~= after.warnings.subrange(0, inv.warnings.len() as int));
    }
}

/// Lookups give every pane that has what is looked for, and no other, in the
/// order of the inventory.
pub proof fn law_lookups_give_every_pane(panes: Seq<Pane>, id: Seq<char>, tty: Seq<char>)
    ensures
        picked(panes, has_id(id)) == panes.filter(|pane: Pane| pane.id@ == id),
        picked(panes, has_tty(tty)) == panes.filter(
            |pane: Pane| pane.tty is Some && pane.tty->0@ == tty,
        ),
        picked(panes, is_detached()) == panes.filter(|pane: Pane| pane.session_attached == 0),
{
    lemma_picked_is_filter(panes, has_id(id), |pane: Pane| pane.id@ == id);
    lemma_picked_is_filter(
        panes,
        has_tty(tty),
        |pane: Pane| pane.tty is Some && pane.tty->0@ == tty,
    );
    lemma_picked_is_filter(panes, is_detached(), |pane: Pane| pane.session_attached == 0);
}

pub(crate) proof fn lemma_picked_is_filter(
    panes: Seq<Pane>,
    test: spec_fn(Pane) -> bool,
    other: spec_fn(Pane) -> bool,
)
    requires
        forall|pane: Pane| #[trigger] test(pane) == other(pane),
    ensures
        picked(panes, test) == panes.filter(other),
    decreases panes.len(),
{
    reveal(Seq::filter);
    if panes.len() > 0 {
        lemma_picked_is_filter(panes.drop_last(), test, other);
        assert(test(panes.last()) == other(panes.last()));
    }
}

/// What is picked when one pane passes, when several do, and when none does.
pub(crate) proof fn lemma_how_many_are_picked(
    panes: Seq<Pane>,
    test: spec_fn(Pane) -> bool,
    i: int,
    j: int,
)
    ensures
        0 <= i < panes.len() && test(panes[i]) && (forall|k: int|
            0 <= k < panes.len() && k != i ==> !test(#[trigger] panes[k])) ==> picked(panes, test)
            == seq![panes[i]],
        0 <= i < j < panes.len() && test(panes[i]) && test(panes[j]) ==> picked(
            panes,
            test,
        ).len() >= 2,
        0 <= i < panes.len() && test(panes[i]) ==> picked(panes, test).len() >= 1,
        (forall|k: int| 0 <= k < panes.len() ==> !test(#[trigger] panes[k])) ==> picked(
            panes,
            test,
        ).len() == 0,
    decreases panes.len(),
{
    if panes.len() > 0 {
        let rest = panes.drop_last();
        let last = panes.len() - 1;
        assert(forall|k: int| 0 <= k < last ==> rest[k] == panes[k]);
        lemma_how_many_are_picked(rest, test, i, j);
        if j == last {
            lemma_how_many_are_picked(rest, test, i, i);
        }
        if i == last && (forall|k: int| 0 <= k < panes.len() && k != i ==> !test(
            #[trigger] panes[k],
        )) && test(panes[i]) {
            assert forall|k: int| 0 <= k < rest.len() implies !test(#[trigger] rest[k]) by {
                assert(!test(panes[k]));
            }
            assert(picked(rest, test) =~= seq![]);
            assert(picked(panes, test) =~= seq![panes[i]]);
        } else if 0 <= i < last && (forall|k: int|
            0 <= k < panes.len() && k != i ==> !test(#[trigger] panes[k])) {
            assert(!test(panes[last]));
            assert forall|k: int| 0 <= k < rest.len() && k != i implies !test(
                #[trigger] rest[k],
            ) by {
                assert(!test(panes[k]));
            }
        }
        if forall|k: int| 0 <= k < panes.len() ==> !test(#[trigger] panes[k]) {
            assert(!test(panes[last]));
            assert forall|k: int| 0 <= k < rest.len() implies !test(#[trigger] rest[k]) by {
                assert(!test(panes[k]));
            }
        }
    }
}

/// The pane of a root process is the first one listed with its pid.
pub proof fn law_the_first_pane_of_a_pid_is_found(panes: Seq<Pane>, pid: u32, i: int)
    ensures
        0 <= i < panes.len() && panes[i].pid == pid && (forall|k: int|
            0 <= k < i ==> (#[trigger] panes[k]).pid != pid) ==> first_with_pid(panes, pid) == Some(
            panes[i],
        ),
        (forall|k: int| 0 <= k < panes.len() ==> (#[trigger] panes[k]).pid != pid)
            ==> first_with_pid(panes, pid) is None,
    decreases panes.len(),
{
    if panes.len() > 0 {
        let rest = panes.drop_first();
        assert(forall|k: int| 0 <= k < rest.len() ==> rest[k] == panes[k + 1]);
        law_the_first_pane_of_a_pid_is_found(rest, pid, i - 1);
        if 0 < i < panes.len() && (forall|k: int| 0 <= k < i ==> (#[trigger] panes[k]).pid != pid) {
            assert forall|k: int| 0 <= k < i - 1 implies (#[trigger] rest[k]).pid != pid by {
                assert(panes[k + 1].pid != pid);
            }
            assert(panes[0].pid != pid);
        }
        if forall|k: int| 0 <= k < panes.len() ==> (#[trigger] panes[k]).pid != pid {
            assert(panes[0].pid != pid);
            assert forall|k: int| 0 <= k < rest.len() implies (#[trigger] rest[k]).pid != pid by {
                assert(panes[k + 1].pid != pid);
            }
        }
    }
}

/// What a server's reply adds to the inventory. One that answered adds the
/// pane of each of its records, in order, and is listed without an error; one
/// that failed or did not start adds no pane and no warning, and is listed
/// with what went wrong.
pub proof fn law_a_reply_adds_its_panes(
    inv: InventoryView,
    socket: Seq<char>,
    reply: Reply,
    records: Seq<Seq<char>>,
    panes: Seq<PaneView>,
)
    requires
        forall|i: int|
            0 <= i < records.len() ==> !(#[trigger] records[i]).contains('\n')
                && !records[i].contains('\r') && trimmed(records[i]).len() > 0,
        panes.len() == records.len(),
        forall|i: int|
            0 <= i < records.len() ==> pane_of(socket, #[trigger] records[i]) == Ok::<
                PaneView,
                Seq<char>,
            >(panes[i]),
    ensures
        ({
            let after = with_reply(inv, socket, reply);
            &&& reply matches Ok(out) ==> {
                &&& out.code == Some(0i32) && out.stdout@ == terminated(records, '\n') ==> {
                    &&& after.panes == inv.panes + panes
                    &&& after.warnings == inv.warnings
                    &&& after.servers == inv.servers.push(ServerView { socket, error: None })
                }
                &&& out.code == Some(0i32) ==> after.servers == inv.servers.push(
                    ServerView { socket, error: None },
                )
                &&& out.code is None ==> after == (InventoryView {
                    servers: inv.servers.push(
                        ServerView {
                            socket,
                            error: Some(
                                "`"@ + ("tmux -S "@ + socket + " list-panes -a"@) + "`: "@
                                    + trimmed(out.stderr@),
                            ),
                        },
                    ),
                    ..inv
                })
                &&& out.code is Some && out.code->0 != 0 ==> after == (InventoryView {
                    servers: inv.servers.push(
                        ServerView {
                            socket,
                            error: Some(
                                "`"@ + ("tmux -S "@ + socket + " list-panes -a"@) + "` exited "@
                                    + signed_decimal(out.code->0 as int) + ": "@ + trimmed(
                                    out.stderr@,
                                ),
                            ),
                        },
                    ),
                    ..inv
                })
            }
            &&& reply matches Err(why) ==> after == (InventoryView {
                servers: inv.servers.push(
                    ServerView { socket, error: Some("`"@ + "tmux list-panes"@ + "`: "@ + why@) },
                ),
                ..inv
            })
        }),
{
    if let Ok(out) = reply {
        law_every_record_is_accounted_for(inv, socket, filled_lines(line_list(out.stdout@)));
        if out.stdout@ == terminated(records, '\n') {
            law_lines_read_back(records, false);
            lemma_filled_lines(records);
            lemma_records(inv, socket, records, panes);
        }
    }
}

proof fn lemma_filled_lines(records: Seq<Seq<char>>)
    requires
        forall|i: int| 0 <= i < records.len() ==> trimmed(#[trigger] records[i]).len() > 0,
    ensures
        filled_lines(records) == records,
    decreases records.len(),
{
    if records.len() > 0 {
        let before = records.drop_last();
        assert(forall|i: int| 0 <= i < before.len() ==> before[i] == records[i]);
        lemma_filled_lines(before);
        assert(trimmed(records[records.len() - 1]).len() > 0);
        assert(before.push(records.last()) =~= records);
    } else {
        assert(records =~= seq![]);
    }
}

proof fn lemma_records(
    inv: InventoryView,
    socket: Seq<char>,
    records: Seq<Seq<char>>,
    panes: Seq<PaneView>,
)
    requires
        panes.len() == records.len(),
        forall|i: int|
            0 <= i < records.len() ==> pane_of(socket, #[trigger] records[i]) == Ok::<
                PaneView,
                Seq<char>,
            >(panes[i]),
    ensures
        with_records(inv, socket, records).panes == inv.panes + panes,
        with_records(inv, socket, records).warnings == inv.warnings,
    decreases records.len(),
{
    if records.len() > 0 {
        let before = records.drop_last();
        assert(forall|i: int| 0 <= i < before.len() ==> before[i] == records[i]);
        lemma_records(inv, socket, before, panes.drop_last());
        assert(pane_of(socket, records[records.len() - 1]) is Ok);
        assert((inv.panes + panes.drop_last()).push(panes.last()) =~= inv.panes + panes);
    } else {
        assert(inv.panes + panes =~= inv.panes);
    }
}

/// A record that does not parse is warned of, with the socket it came from and
/// what is wrong with it.
pub proof fn law_a_bad_record_is_warned_of(
    inv: InventoryView,
    socket: Seq<char>,
    line: Seq<char>,
    why: Seq<char>,
)
    requires
        pane_of(socket, line) == Err::<PaneView, Seq<char>>(why),
    ensures
        with_records(inv, socket, seq![line]).warnings == inv.warnings.push(
            socket + ": unparsed pane `"@ + why + "`"@,
        ),
        with_records(inv, socket, seq![line]).panes == inv.panes,
{
    assert(seq![line].drop_last() =~= seq![]);
    reveal_with_fuel(with_records, 2);
}

/// No socket is passed over: where each one leads has been asked by the end,
/// and every server listed is one of the sockets.
pub proof fn law_every_socket_is_covered<
    T: Fn(&Vec<String>) -> Reply,
    C: Fn(&String) -> Result<String, String>,
>(run: T, canonicalize: C, sockets: Seq<Seq<char>>, pass: Pass, i: int)
    requires
        passes(run, canonicalize, sockets, pass),
        0 <= i < sockets.len(),
    ensures
        exists|place: Seq<char>|
            #[trigger] settles(canonicalize, sockets[i], place) && exists|k: int|
                0 <= k < pass.seen.len() && components(#[trigger] pass.seen[k]) == components(
                    place,
                ),
    decreases sockets.len(),
{
    let last = sockets.len() - 1;
    let before = choose|before: Pass|
        passes(run, canonicalize, sockets.drop_last(), before) && #[trigger] visits(
            run,
            canonicalize,
            sockets.last(),
            before,
            pass,
        );
    let at = choose|place: Seq<char>|
        #[trigger] settles(canonicalize, sockets.last(), place) && if spelled(before.seen, place) {
            pass == before
        } else {
            pass.seen == before.seen.push(place) && asks(
                run,
                sockets.last(),
                before.inventory,
                pass.inventory,
            )
        };
    if i == last {
        if !spelled(before.seen, at) {
            assert(pass.seen[before.seen.len() as int] == at);
        }
        assert(settles(canonicalize, sockets[i], at));
    } else {
        assert(sockets.drop_last()[i] == sockets[i]);
        law_every_socket_is_covered(run, canonicalize, sockets.drop_last(), before, i);
        let place = choose|place: Seq<char>|
            #[trigger] settles(canonicalize, sockets[i], place) && exists|k: int|
                0 <= k < before.seen.len() && components(#[trigger] before.seen[k]) == components(
                    place,
                );
        let k = choose|k: int|
            0 <= k < before.seen.len() && components(#[trigger] before.seen[k]) == components(
                place,
            );
        assert(pass.seen[k] == before.seen[k]);
    }
}

/// One socket that leads anywhere is asked for its panes, with the one argv,
/// and what it replies is the inventory.
pub proof fn law_a_socket_is_asked_for_its_panes<
    T: Fn(&Vec<String>) -> Reply,
    C: Fn(&String) -> Result<String, String>,
>(run: T, canonicalize: C, socket: Seq<char>, reply: Reply, r: InventoryView)
    requires
        takes_inventory(run, canonicalize, seq![socket], r),
        forall|a: Vec<String>, other: Reply|
            a.deep_view() == seq![
                "-S"@,
                socket,
                "list-panes"@,
                "-a"@,
                "-F"@,
                "#{pane_id}|#{pane_pid}|#{pane_tty}|#{pane_current_command}\
                 |#{pane_current_path}|#{pane_active}|#{pane_last}|#{window_id}\
                 |#{window_active}|#{window_activity}|#{session_id}|#{session_name}\
                 |#{session_attached}|#{@wt_adminid}|#{@wt_handle}"@,
            ] && #[trigger] call_ensures(run, (&a,), other) ==> other == reply,
    ensures
        r == with_reply(
            InventoryView { panes: seq![], servers: seq![], warnings: seq![] },
            socket,
            reply,
        ),
{
    let pass = choose|pass: Pass| #[trigger]
        passes(run, canonicalize, seq![socket], pass) && r == pass.inventory;
    assert(seq![socket].drop_last() =~= seq![]);
    let before = choose|before: Pass|
        passes(run, canonicalize, seq![socket].drop_last(), before) && #[trigger] visits(
            run,
            canonicalize,
            seq![socket].last(),
            before,
            pass,
        );
    assert(before.seen.len() == 0);
    assert(asks(run, socket, before.inventory, pass.inventory));
    let got = choose|got: Reply|
        #[trigger] tmux_replies(run, panes_argv(socket), got) && pass.inventory == with_reply(
            before.inventory,
            socket,
            got,
        );
    let a = choose|a: Vec<String>|
        a.deep_view() == panes_argv(socket) && #[trigger] call_ensures(run, (&a,), got);
    assert(call_ensures(run, (&a,), got));
}

}
