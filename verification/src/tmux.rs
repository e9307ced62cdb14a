//! Read-only tmux evidence: socket discovery and the merged
//! `list-panes -a` inventory across every reachable server.
//!
//! One whole-server snapshot is taken per socket per observation and the
//! results merge into a single inventory, so a pane on a non-default `-L`
//! or `-S` server resolves exactly like one on the default socket. An
//! absent or unreachable server contributes nothing and is recorded, never
//! an error that takes other evidence down with it.
//!
//! tmux is only ever *read* here. A write - an option, a window name, a
//! killed pane - would fight the user's configuration and the tools that
//! own those writes, so the only argv this module hands out is `list-panes`,
//! and that is all it asks of the function that runs tmux for it.

pub mod binding;
pub mod handle;
pub mod inventory;
pub mod record;
pub mod socket;

use vstd::prelude::*;
use vstd::string::*;

use crate::path::{components, same_path};
use crate::text::{
    chars_of, copy_text, decimal, is_digit, lemma_decimal_reads_back, print_i32, same,
    signed_decimal,
};
use crate::time::Timestamp;

pub use crate::tmux::binding::{
    all_bound, binds, law_each_bound_window_counts_once, law_stored_edge_decides,
    law_without_a_stored_edge_the_place_decides, stands_in, window_key, windows_of,
};
pub use crate::tmux::handle::{
    fits, handle_of, last_id, law_a_handle_matches_what_it_carries, law_handles_read_back,
    session_split, HandleView, PublishedHandle,
};
pub use crate::tmux::inventory::{
    accepts_list_panes, asks, filled_lines, first_with_pid, has_id, has_tty, is_detached,
    law_a_bad_record_is_warned_of, law_a_reply_adds_its_panes, law_a_socket_is_asked_for_its_panes,
    law_each_server_is_asked_once, law_every_record_is_accounted_for, law_every_socket_is_covered,
    law_lookups_give_every_pane, law_the_first_pane_of_a_pid_is_found, lemma_picked, list_format,
    no_panes, panes_argv, passes, picked, spelled, tmux_command, tmux_replies, visits, warning,
    with_record, with_records, with_reply, with_server, InventoryView, PaneInventory, Pass, Server,
    ServerView,
};
pub use crate::tmux::record::{
    bad_number, filled, law_a_pane_record_reads_back, law_pane_fields_mean_what_they_print,
    pane_epoch, pane_of, pane_tty, parse_pane, FIELD_COUNT,
};
pub use crate::tmux::socket::{
    discovers_panes, env_socket, first_spelled, law_discovery_asks_what_it_finds,
    law_every_socket_is_listed_once, law_sockets_are_in_the_users_directory,
    law_the_uid_is_what_id_prints, law_tmux_names_its_socket, lists_dir, lists_once, socket_dir,
    socket_dir_of, sockets, takes_inventory, uid, uid_of,
};

verus! {

// ---------------------------------------------------------------------------
// Ids and panes
// ---------------------------------------------------------------------------

/// A sigil with one or more digits behind it.
pub open spec fn is_id(text: Seq<char>, sigil: char) -> bool {
    text.len() > 1 && text[0] == sigil && forall|i: int|
        1 <= i < text.len() ==> is_digit(#[trigger] text[i])
}

fn has_id_shape(text: &str, sigil: char) -> (r: bool)
    ensures
        r == is_id(text@, sigil),
{
    let chars = chars_of(text);
    if chars.len() < 2 || chars[0] != sigil {
        return false;
    }
    let mut i: usize = 1;
    while i < chars.len()
        invariant
            chars@ == text@,
            1 <= i <= chars@.len(),
            forall|j: int| 1 <= j < i ==> is_digit(#[trigger] text@[j]),
        decreases chars@.len() - i,
    {
        if !('0' <= chars[i] && chars[i] <= '9') {
            assert(!is_digit(text@[i as int]));
            return false;
        }
        i += 1;
    }
    true
}

/// A pane id as the server prints it: `%` and a number. Only ever built
/// from tmux's own output or a provider handle parsed the same way, so it can
/// be spliced into argv without quoting.
#[derive(Debug, PartialEq, Eq, Hash, PartialOrd, Ord)]
pub struct PaneId {
    text: String,
}

impl View for PaneId {
    type V = Seq<char>;

    closed spec fn view(&self) -> Seq<char> {
        self.text@
    }
}

impl Clone for PaneId {
    fn clone(&self) -> (r: PaneId)
        ensures
            r == *self,
    {
        proof {
            use_type_invariant(&*self);
        }
        PaneId { text: self.text.clone() }
    }
}

impl PaneId {
    /// The sigil and the digits are there in every id.
    #[verifier::type_invariant]
    spec fn is_well_formed(self) -> bool {
        is_id(self.text@, '%')
    }

    /// `text` starting with the id's own sigil and all digits after.
    pub fn parse(text: &str) -> (r: Option<PaneId>)
        ensures
            r is Some <==> is_id(text@, '%'),
            r matches Some(id) ==> id@ == text@,
    {
        if has_id_shape(text, '%') {
            Some(PaneId { text: text.to_owned() })
        } else {
            None
        }
    }

    /// The id as the server prints it: its sigil and at least one digit.
    pub fn as_str(&self) -> (r: &str)
        ensures
            r@ == self@,
            is_id(self@, '%'),
    {
        proof {
            use_type_invariant(&*self);
        }
        self.text.as_str()
    }

    /// The id as the server prints it.
    pub fn to_string(&self) -> (r: String)
        ensures
            r@ == self@,
    {
        self.text.clone()
    }
}

/// A window id as the server prints it: `@` and a number. Only ever built
/// from tmux's own output or a provider handle parsed the same way, so it can
/// be spliced into argv without quoting.
#[derive(Debug, PartialEq, Eq, Hash, PartialOrd, Ord)]
pub struct WindowId {
    text: String,
}

impl View for WindowId {
    type V = Seq<char>;

    closed spec fn view(&self) -> Seq<char> {
        self.text@
    }
}

impl Clone for WindowId {
    fn clone(&self) -> (r: WindowId)
        ensures
            r == *self,
    {
        proof {
            use_type_invariant(&*self);
        }
        WindowId { text: self.text.clone() }
    }
}

impl WindowId {
    /// The sigil and the digits are there in every id.
    #[verifier::type_invariant]
    spec fn is_well_formed(self) -> bool {
        is_id(self.text@, '@')
    }

    /// `text` starting with the id's own sigil and all digits after.
    pub fn parse(text: &str) -> (r: Option<WindowId>)
        ensures
            r is Some <==> is_id(text@, '@'),
            r matches Some(id) ==> id@ == text@,
    {
        if has_id_shape(text, '@') {
            Some(WindowId { text: text.to_owned() })
        } else {
            None
        }
    }

    /// The id as the server prints it: its sigil and at least one digit.
    pub fn as_str(&self) -> (r: &str)
        ensures
            r@ == self@,
            is_id(self@, '@'),
    {
        proof {
            use_type_invariant(&*self);
        }
        self.text.as_str()
    }

    /// The id as the server prints it.
    pub fn to_string(&self) -> (r: String)
        ensures
            r@ == self@,
    {
        self.text.clone()
    }
}

/// A session id as the server prints it: `$` and a number. Only ever built
/// from tmux's own output or a provider handle parsed the same way, so it can
/// be spliced into argv without quoting.
#[derive(Debug, PartialEq, Eq, Hash, PartialOrd, Ord)]
pub struct SessionId {
    text: String,
}

impl View for SessionId {
    type V = Seq<char>;

    closed spec fn view(&self) -> Seq<char> {
        self.text@
    }
}

impl Clone for SessionId {
    fn clone(&self) -> (r: SessionId)
        ensures
            r == *self,
    {
        proof {
            use_type_invariant(&*self);
        }
        SessionId { text: self.text.clone() }
    }
}

impl SessionId {
    /// The sigil and the digits are there in every id.
    #[verifier::type_invariant]
    spec fn is_well_formed(self) -> bool {
        is_id(self.text@, '$')
    }

    /// `text` starting with the id's own sigil and all digits after.
    pub fn parse(text: &str) -> (r: Option<SessionId>)
        ensures
            r is Some <==> is_id(text@, '$'),
            r matches Some(id) ==> id@ == text@,
    {
        if has_id_shape(text, '$') {
            Some(SessionId { text: text.to_owned() })
        } else {
            None
        }
    }

    /// The id as the server prints it: its sigil and at least one digit.
    pub fn as_str(&self) -> (r: &str)
        ensures
            r@ == self@,
            is_id(self@, '$'),
    {
        proof {
            use_type_invariant(&*self);
        }
        self.text.as_str()
    }

    /// The id as the server prints it.
    pub fn to_string(&self) -> (r: String)
        ensures
            r@ == self@,
    {
        self.text.clone()
    }
}

/// A pane on a specific server: `%3` is unique within one socket and says
/// nothing across two, so a pane's identity is socket plus id.
#[derive(Debug, Eq)]
pub struct PaneRef {
    /// The socket path the pane was read from; the server's identity.
    pub socket: String,
    pub pane: PaneId,
}

/// The value of a [`PaneRef`], with its text as characters.
pub struct RefView {
    pub socket: Seq<char>,
    pub pane: Seq<char>,
}

impl RefView {
    /// The same pane: the same socket path, however it is spelled, and the
    /// same id.
    pub open spec fn is_same(self, other: RefView) -> bool {
        components(self.socket) == components(other.socket) && self.pane == other.pane
    }

    /// `<socket>:<pane>`.
    pub open spec fn text(self) -> Seq<char> {
        self.socket + ":"@ + self.pane
    }
}

impl DeepView for PaneRef {
    type V = RefView;

    open spec fn deep_view(&self) -> RefView {
        RefView { socket: self.socket@, pane: self.pane@ }
    }
}

impl PaneRef {
    /// `<socket>:<pane>`.
    pub fn to_string(&self) -> (r: String)
        ensures
            r@ == self.deep_view().text(),
    {
        let mut out = self.socket.clone();
        out.append(":");
        out.append(self.pane.as_str());
        out
    }
}

impl PartialEq for PaneRef {
    fn eq(&self, other: &PaneRef) -> (r: bool) {
        same_path(self.socket.as_str(), other.socket.as_str()) && same(
            self.pane.as_str(),
            other.pane.as_str(),
        )
    }
}

impl vstd::std_specs::cmp::PartialEqSpecImpl for PaneRef {
    open spec fn obeys_eq_spec() -> bool {
        true
    }

    open spec fn eq_spec(&self, other: &PaneRef) -> bool {
        self.deep_view().is_same(other.deep_view())
    }
}

impl Clone for PaneRef {
    fn clone(&self) -> (r: PaneRef)
        ensures
            r == *self,
    {
        PaneRef { socket: self.socket.clone(), pane: self.pane.clone() }
    }
}

/// One pane of the merged inventory, as `list-panes -a` reported it.
#[derive(Debug)]
pub struct Pane {
    /// The server this pane lives on.
    pub socket: String,
    pub id: PaneId,
    pub window: WindowId,
    pub session: SessionId,
    /// The session's name - what a provider's published handle carries.
    pub session_name: String,
    /// `pane_pid`: the pane's root process. Descendants resolve here.
    pub pid: u32,
    /// `pane_current_command`.
    pub command: String,
    /// `pane_current_path`, when tmux tracks one.
    pub cwd: Option<String>,
    /// The pane's pty as `/dev/...`; joins to a process's controlling tty.
    pub tty: Option<String>,
    /// The active pane of its window.
    pub active: bool,
    /// The last-active pane of its window.
    pub last: bool,
    /// The current window of its session.
    pub window_active: bool,
    /// `window_activity`: last activity epoch of the pane's window.
    pub window_activity: Option<Timestamp>,
    /// Clients attached to the pane's session; `0` is detached.
    pub session_attached: u32,
    /// The window's stored worktree binding, when the worktree tool
    /// published it. Read-only metadata; absence means nothing.
    pub wt_adminid: Option<String>,
    /// The window's stored handle, when published.
    pub wt_handle: Option<String>,
}

impl Clone for Pane {
    fn clone(&self) -> (r: Pane)
        ensures
            r == *self,
    {
        Pane {
            socket: self.socket.clone(),
            id: self.id.clone(),
            window: self.window.clone(),
            session: self.session.clone(),
            session_name: self.session_name.clone(),
            pid: self.pid,
            command: self.command.clone(),
            cwd: copy_text(&self.cwd),
            tty: copy_text(&self.tty),
            active: self.active,
            last: self.last,
            window_active: self.window_active,
            window_activity: self.window_activity,
            session_attached: self.session_attached,
            wt_adminid: copy_text(&self.wt_adminid),
            wt_handle: copy_text(&self.wt_handle),
        }
    }
}

/// The value of a [`Pane`], with its text as characters.
pub struct PaneView {
    pub socket: Seq<char>,
    pub id: Seq<char>,
    pub window: Seq<char>,
    pub session: Seq<char>,
    pub session_name: Seq<char>,
    pub pid: u32,
    pub command: Seq<char>,
    pub cwd: Option<Seq<char>>,
    pub tty: Option<Seq<char>>,
    pub active: bool,
    pub last: bool,
    pub window_active: bool,
    pub window_activity: Option<Timestamp>,
    pub session_attached: u32,
    pub wt_adminid: Option<Seq<char>>,
    pub wt_handle: Option<Seq<char>>,
}

impl DeepView for Pane {
    type V = PaneView;

    open spec fn deep_view(&self) -> PaneView {
        PaneView {
            socket: self.socket@,
            id: self.id@,
            window: self.window@,
            session: self.session@,
            session_name: self.session_name@,
            pid: self.pid,
            command: self.command@,
            cwd: self.cwd.deep_view(),
            tty: self.tty.deep_view(),
            active: self.active,
            last: self.last,
            window_active: self.window_active,
            window_activity: self.window_activity,
            session_attached: self.session_attached,
            wt_adminid: self.wt_adminid.deep_view(),
            wt_handle: self.wt_handle.deep_view(),
        }
    }
}

/// A tmux read that failed. `code` is the client exit status.
#[derive(Debug)]
pub struct Error {
    pub argv: String,
    pub code: Option<i32>,
    pub detail: String,
}

/// A failed read in words.
pub open spec fn failure(argv: Seq<char>, code: Option<i32>, detail: Seq<char>) -> Seq<char> {
    match code {
        Some(code) => "`"@ + argv + "` exited "@ + signed_decimal(code as int) + ": "@ + detail,
        None => "`"@ + argv + "`: "@ + detail,
    }
}

impl Error {
    /// The failure in words: the argv, the exit code if there is one, and the
    /// detail.
    pub fn to_string(&self) -> (r: String)
        ensures
            r@ == failure(self.argv@, self.code, self.detail@),
    {
        let mut out = "`".to_owned();
        out.append(self.argv.as_str());
        match self.code {
            Some(code) => {
                out.append("` exited ");
                out.append(print_i32(code).as_str());
                out.append(": ");
            },
            None => out.append("`: "),
        }
        out.append(self.detail.as_str());
        out
    }
}

// ---------------------------------------------------------------------------
// What identity promises
// ---------------------------------------------------------------------------

/// Pane identity is an equivalence: every pane is itself, either way round,
/// and across spellings.
pub proof fn law_pane_identity(a: RefView, b: RefView, c: RefView)
    ensures
        a.is_same(a),
        a.is_same(b) == b.is_same(a),
        a.is_same(b) && b.is_same(c) ==> a.is_same(c),
{
}

/// An id is its sigil and a number, and nothing else: not the sigil alone, not
/// another sigil, and nothing with anything but digits behind it.
pub proof fn law_ids_are_a_sigil_and_a_number(n: nat, sigil: char, text: Seq<char>)
    ensures
        is_id(seq![sigil] + decimal(n), sigil),
        text.len() < 2 ==> !is_id(text, sigil),
        text.len() > 0 && text[0] != sigil ==> !is_id(text, sigil),
        (exists|i: int| 0 < i < text.len() && !('0' <= #[trigger] text[i] && text[i] <= '9'))
            ==> !is_id(text, sigil),
{
    lemma_decimal_reads_back(n);
    let id = seq![sigil] + decimal(n);
    assert forall|i: int| 1 <= i < id.len() implies is_digit(#[trigger] id[i]) by {
        assert(is_digit(decimal(n)[i - 1]));
    }
}

}
