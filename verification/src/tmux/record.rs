//! `list-panes` records, field by field.

use vstd::prelude::*;
use vstd::string::*;

use crate::text::{
    begins, decimal, joined, law_parts_read_back, lemma_number_reads_back, parse_u32, parse_u64,
    pieces, same, split, starts_with, unsigned,
};
use crate::time::{Timestamp, NANOS_PER_SEC};
use crate::tmux::{is_id, Pane, PaneId, PaneView, SessionId, WindowId};

verus! {

// ---------------------------------------------------------------------------
// Reading `list-panes`
// ---------------------------------------------------------------------------

/// How many fields a record of the `list-panes` format has.
pub const FIELD_COUNT: usize = 15;

/// The text itself, where there is any.
pub open spec fn filled(text: Seq<char>) -> Option<Seq<char>> {
    if text.len() == 0 {
        None
    } else {
        Some(text)
    }
}

/// A pane's pty as a `/dev/` path.
pub open spec fn pane_tty(text: Seq<char>) -> Option<Seq<char>> {
    if text.len() == 0 {
        None
    } else if begins(text, "/dev/"@) {
        Some(text)
    } else {
        Some("/dev/"@ + text)
    }
}

/// An epoch in seconds; zero, and what no clock can hold, is none.
pub open spec fn pane_epoch(text: Seq<char>) -> Option<Timestamp> {
    match unsigned(text, i64::MAX as nat) {
        Some(secs) => if secs > 0 {
            Some(Timestamp { nanos: (secs * NANOS_PER_SEC as nat) as i128 })
        } else {
            None
        },
        None => None,
    }
}

/// What is reported of a record with a number that does not parse.
pub open spec fn bad_number(line: Seq<char>, what: Seq<char>, text: Seq<char>) -> Seq<char> {
    line + " ("@ + what + " `"@ + text + "`)"@
}

/// One `list-panes` record as a pane, or what is reported of it when it is not
/// what was asked for. Every field was requested explicitly, so a wrong count
/// is a tmux that did not answer the question asked - a record worth
/// reporting, not guessing at.
pub open spec fn pane_of(socket: Seq<char>, line: Seq<char>) -> Result<PaneView, Seq<char>> {
    let f = pieces(line, '|');
    if f.len() != FIELD_COUNT || !is_id(f[0], '%') {
        Err(line)
    } else if unsigned(f[1], u32::MAX as nat) is None {
        Err(bad_number(line, "pane_pid"@, f[1]))
    } else if !is_id(f[7], '@') || !is_id(f[10], '$') {
        Err(line)
    } else if unsigned(f[12], u32::MAX as nat) is None {
        Err(bad_number(line, "session_attached"@, f[12]))
    } else {
        Ok(
            PaneView {
                socket,
                id: f[0],
                window: f[7],
                session: f[10],
                session_name: f[11],
                pid: unsigned(f[1], u32::MAX as nat)->0 as u32,
                command: f[3],
                cwd: filled(f[4]),
                tty: pane_tty(f[2]),
                active: f[5] == "1"@,
                last: f[6] == "1"@,
                window_active: f[8] == "1"@,
                window_activity: pane_epoch(f[9]),
                session_attached: unsigned(f[12], u32::MAX as nat)->0 as u32,
                wt_adminid: filled(f[13]),
                wt_handle: filled(f[14]),
            },
        )
    }
}

fn opt(text: &str) -> (r: Option<String>)
    ensures
        r.deep_view() == filled(text@),
{
    if text.is_empty() {
        None
    } else {
        Some(text.to_owned())
    }
}

fn read_tty(text: &str) -> (r: Option<String>)
    ensures
        r.deep_view() == pane_tty(text@),
{
    if text.is_empty() {
        None
    } else if starts_with(text, "/dev/") {
        Some(text.to_owned())
    } else {
        let mut path = "/dev/".to_owned();
        path.append(text);
        Some(path)
    }
}

fn read_epoch(text: &str) -> (r: Option<Timestamp>)
    ensures
        r == pane_epoch(text@),
{
    match parse_u64(text) {
        Some(secs) => {
            if 0 < secs && secs <= 0x7fff_ffff_ffff_ffff {
                Some(Timestamp::from_secs(secs))
            } else {
                None
            }
        },
        None => None,
    }
}

fn read_number(line: &str, what: &str, text: &str) -> (r: Result<u32, String>)
    ensures
        match r {
            Ok(n) => unsigned(text@, u32::MAX as nat) == Some(n as nat),
            Err(reason) => unsigned(text@, u32::MAX as nat) is None && reason@ == bad_number(
                line@,
                what@,
                text@,
            ),
        },
{
    match parse_u32(text) {
        Some(n) => Ok(n),
        None => {
            let mut reason = line.to_owned();
            reason.append(" (");
            reason.append(what);
            reason.append(" `");
            reason.append(text);
            reason.append("`)");
            Err(reason)
        },
    }
}

/// One `list-panes` record into a [`Pane`]; `Err(line)` when the record is
/// not what was asked for.
pub fn parse_pane(socket: &str, line: &str) -> (r: Result<Pane, String>)
    ensures
        match r {
            Ok(pane) => pane_of(socket@, line@) == Ok::<PaneView, Seq<char>>(pane.deep_view()),
            Err(reason) => pane_of(socket@, line@) == Err::<PaneView, Seq<char>>(reason@),
        },
{
    let fields = split(line, '|');
    let ghost f = fields.deep_view();
    assert(f.len() == fields@.len());
    if fields.len() != FIELD_COUNT {
        return Err(line.to_owned());
    }
    assert(forall|i: int| 0 <= i < FIELD_COUNT ==> f[i] == (#[trigger] fields@[i])@);
    let Some(id) = PaneId::parse(fields[0].as_str()) else {
        return Err(line.to_owned());
    };
    let pid = match read_number(line, "pane_pid", fields[1].as_str()) {
        Ok(pid) => pid,
        Err(reason) => return Err(reason),
    };
    let Some(window) = WindowId::parse(fields[7].as_str()) else {
        return Err(line.to_owned());
    };
    let Some(session) = SessionId::parse(fields[10].as_str()) else {
        return Err(line.to_owned());
    };
    let session_attached = match read_number(line, "session_attached", fields[12].as_str()) {
        Ok(count) => count,
        Err(reason) => return Err(reason),
    };
    Ok(
        Pane {
            socket: socket.to_owned(),
            id,
            window,
            session,
            session_name: fields[11].clone(),
            pid,
            command: fields[3].clone(),
            cwd: opt(fields[4].as_str()),
            tty: read_tty(fields[2].as_str()),
            active: same(fields[5].as_str(), "1"),
            last: same(fields[6].as_str(), "1"),
            window_active: same(fields[8].as_str(), "1"),
            window_activity: read_epoch(fields[9].as_str()),
            session_attached,
            wt_adminid: opt(fields[13].as_str()),
            wt_handle: opt(fields[14].as_str()),
        },
    )
}

// ---------------------------------------------------------------------------
// What a record promises
// ---------------------------------------------------------------------------

/// A record of fifteen fields reads back field by field, each where the format
/// asks for it: the ids, the pids and the counts as they are, empty fields as
/// nothing, flags by `1`, the terminal as a device path, and the activity as
/// an epoch. Any other count of fields, and an id or a number that is none, is
/// reported instead.
pub proof fn law_a_pane_record_reads_back(
    socket: Seq<char>,
    f: Seq<Seq<char>>,
    pid: u32,
    clients: u32,
)
    requires
        f.len() > 0,
        forall|i: int| 0 <= i < f.len() ==> !(#[trigger] f[i]).contains('|'),
    ensures
        ({
            let line = joined(f, seq!['|']);
            let r = pane_of(socket, line);
            let optional = |text: Seq<char>|
                if text.len() == 0 {
                    None::<Seq<char>>
                } else {
                    Some(text)
                };
            let ids = is_id(f[0], '%') && is_id(f[7], '@') && is_id(f[10], '$');
            let whole = f.len() == 15 && ids && f[1] == decimal(pid as nat) && f[12] == decimal(
                clients as nat,
            );
            &&& f.len() != 15 ==> r == Err::<PaneView, Seq<char>>(line)
            &&& f.len() == 15 && !is_id(f[0], '%') ==> r == Err::<PaneView, Seq<char>>(line)
            &&& f.len() == 15 && !ids ==> r is Err
            &&& f.len() == 15 && ids && (forall|n: u32| f[1] != #[trigger] decimal(n as nat))
                && unsigned(f[1], u32::MAX as nat) is None ==> r == Err::<PaneView, Seq<char>>(
                line + " ("@ + "pane_pid"@ + " `"@ + f[1] + "`)"@,
            )
            &&& f.len() == 15 && ids && f[1] == decimal(pid as nat) && unsigned(
                f[12],
                u32::MAX as nat,
            ) is None ==> r == Err::<PaneView, Seq<char>>(
                line + " ("@ + "session_attached"@ + " `"@ + f[12] + "`)"@,
            )
            &&& whole ==> {
                &&& r is Ok
                &&& r->Ok_0.socket == socket
                &&& r->Ok_0.id == f[0]
                &&& r->Ok_0.pid == pid
                &&& r->Ok_0.tty == pane_tty(f[2])
                &&& r->Ok_0.command == f[3]
                &&& r->Ok_0.cwd == optional(f[4])
                &&& r->Ok_0.active == (f[5] == "1"@)
                &&& r->Ok_0.last == (f[6] == "1"@)
                &&& r->Ok_0.window == f[7]
                &&& r->Ok_0.window_active == (f[8] == "1"@)
                &&& r->Ok_0.window_activity == pane_epoch(f[9])
                &&& r->Ok_0.session == f[10]
                &&& r->Ok_0.session_name == f[11]
                &&& r->Ok_0.session_attached == clients
                &&& r->Ok_0.wt_adminid == optional(f[13])
                &&& r->Ok_0.wt_handle == optional(f[14])
            }
        }),
{
    law_parts_read_back(f, '|');
    lemma_number_reads_back(pid as nat, u32::MAX as nat);
    lemma_number_reads_back(clients as nat, u32::MAX as nat);
}

/// A pane's terminal is a device path however it is printed, no text is no
/// terminal, and an activity is the second it is printed as, zero being none.
pub proof fn law_pane_fields_mean_what_they_print(name: Seq<char>, secs: u64)
    requires
        name.len() > 0,
        name[0] != '/',
    ensures
        pane_tty(name) == Some("/dev/"@ + name),
        pane_tty("/dev/"@ + name) == Some("/dev/"@ + name),
        pane_tty(seq![]) is None,
        0 < secs <= i64::MAX ==> pane_epoch(decimal(secs as nat)) == Some(
            Timestamp { nanos: (secs * 1_000_000_000) as i128 },
        ),
        pane_epoch(decimal(0)) is None,
{
    reveal_strlit("/dev/");
    let path = "/dev/"@ + name;
    assert(path.take(5) =~= "/dev/"@);
    assert(!begins(name, "/dev/"@)) by {
        if begins(name, "/dev/"@) {
            assert(name.take(5)[0] == name[0]);
            assert("/dev/"@[0] == '/');
        }
    }
    lemma_number_reads_back(0, i64::MAX as nat);
    if secs <= i64::MAX {
        lemma_number_reads_back(secs as nat, i64::MAX as nat);
    }
}

}
