//! Live-process evidence: one `ps` snapshot per observation, the
//! `(pid, pid_start)` liveness authority, and the parent chain that pane
//! resolution walks.
//!
//! Process start times are compared as epoch seconds within one second.
//! The platform reports elapsed time (`ps -o etime`), which pins a start to
//! a one-second window, and provider-formatted start times are normalized
//! to the same epoch before comparing. A process the platform cannot date
//! is lower-authority evidence: the pid is alive, but reuse cannot be ruled
//! out. A pid alone is never identity - lock files and session records
//! outlive the processes they name, and a recycled pid would otherwise
//! resurrect a dead session.

use std::collections::HashMap;

use vstd::prelude::*;
use vstd::std_specs::hash::*;
use vstd::string::*;
use vstd::utf8::encode_utf8;

use crate::calendar::{date_of, day_number, days_from_civil, law_every_day_has_its_date};
use crate::command::{set_var, Invocation, Reply};
use crate::text::{
    after_last, after_prefix, are_gaps, begins, chars_of, copy_text, decimal, halves, is_digit,
    is_space, is_word, join, joined, last_piece, law_words_read_back, lemma_after_last,
    lemma_after_last_is, lemma_find_is, lemma_first_piece, lemma_number_reads_back,
    lemma_trimmed_line, line_list, lines, list, parse_i64, parse_u32, parse_u64, pieces, print_i32,
    print_u64, same, signed, signed_decimal, spaced, split, split_once, starts_with, strip_prefix,
    trim, trimmed, two_digits, unsigned, word_list, words,
};
use crate::time::{Timestamp, NANOS_PER_SEC};

verus! {

broadcast use vstd::std_specs::hash::group_hash_axioms;

/// When a process started, for telling a live pid from a recycled one.
///
/// Compared within one second: `etime` quantizes to whole seconds and
/// providers report their own quantized times, so an exact match would
/// reject the true instance.
#[derive(Debug, Clone, Copy, PartialEq, Eq, Structural)]
pub enum ProcessStart {
    /// Epoch seconds.
    At(u64),
    /// The platform or provider reported no start time. The instance is
    /// pid-only evidence and cannot be distinguished from reuse.
    Unavailable,
}

impl ProcessStart {
    /// Whether two start times name the same instance.
    pub open spec fn agrees(self, other: ProcessStart) -> Option<bool> {
        match (self, other) {
            (ProcessStart::At(a), ProcessStart::At(b)) => Some(-1 <= a - b <= 1),
            _ => None,
        }
    }

    /// Whether two start times name the same instance: both known and no
    /// more than a second apart. `None` when either side cannot say, which
    /// is neither a match nor a mismatch.
    pub fn matches(&self, other: &ProcessStart) -> (r: Option<bool>)
        ensures
            r == self.agrees(*other),
    {
        match (*self, *other) {
            (ProcessStart::At(a), ProcessStart::At(b)) => {
                if a >= b {
                    Some(a - b <= 1)
                } else {
                    Some(b - a <= 1)
                }
            },
            _ => None,
        }
    }
}

/// A `(pid, pid_start)` claim: the only process identity this tool trusts.
/// Two records naming the same pid are the same process only while their
/// start times agree.
#[derive(Debug, Clone, Copy, PartialEq, Eq, Structural)]
pub struct ProcessInstance {
    pub pid: u32,
    pub pid_start: ProcessStart,
}

/// What a snapshot can prove about a claimed process instance.
#[derive(Debug, PartialEq, Eq)]
pub enum Liveness {
    /// The running process is the claimed instance: the pid is live and,
    /// when both sides carry a start time or an executable name, they agree.
    Instance,
    /// The pid is alive but the instance cannot be proven - a start time is
    /// missing on a side that would need it. Lower-authority evidence:
    /// enough to keep an attachment live, never enough to prove identity.
    PidOnly(String),
    /// The pid is gone or provably belongs to a different instance: dead,
    /// a zombie, a mismatched start time, or a different executable. The
    /// only verdict that retires live claims.
    Dead(String),
    /// Nothing could be checked - the process table itself failed to read.
    /// Neither life nor death is proven; nothing is reaped on this.
    Unverifiable(String),
}

/// The value of a [`Liveness`], with its text as characters.
pub enum LivenessView {
    Instance,
    PidOnly(Seq<char>),
    Dead(Seq<char>),
    Unverifiable(Seq<char>),
}

impl DeepView for Liveness {
    type V = LivenessView;

    open spec fn deep_view(&self) -> LivenessView {
        match *self {
            Liveness::Instance => LivenessView::Instance,
            Liveness::PidOnly(reason) => LivenessView::PidOnly(reason@),
            Liveness::Dead(reason) => LivenessView::Dead(reason@),
            Liveness::Unverifiable(reason) => LivenessView::Unverifiable(reason@),
        }
    }
}

impl Clone for Liveness {
    fn clone(&self) -> (r: Liveness)
        ensures
            r == *self,
    {
        match self {
            Liveness::Instance => Liveness::Instance,
            Liveness::PidOnly(reason) => Liveness::PidOnly(reason.clone()),
            Liveness::Dead(reason) => Liveness::Dead(reason.clone()),
            Liveness::Unverifiable(reason) => Liveness::Unverifiable(reason.clone()),
        }
    }
}

impl Liveness {
    /// Whether the claim is consistent with a still-live process.
    /// `Unverifiable` counts: failing to check is not evidence of death.
    pub fn may_be_live(&self) -> (r: bool)
        ensures
            r == !(*self is Dead),
    {
        match self {
            Liveness::Dead(_) => false,
            _ => true,
        }
    }
}

/// One process-table row: the fields pane resolution and liveness need.
#[derive(Debug)]
pub struct ProcessRow {
    pub pid: u32,
    pub ppid: u32,
    /// Start time derived from `etime`: the snapshot time minus elapsed.
    /// Sub-second error stays inside the one-second comparison window.
    /// `Unavailable` when `ps` reported no parseable elapsed - the pid is
    /// observably live, so the row is kept as pid-only evidence rather
    /// than dropped and reaped as dead.
    pub start: ProcessStart,
    /// The executable basename: `comm`'s path stripped, and the `-` login
    /// shell marker (`-zsh`) removed. `None` where the platform gave nothing.
    pub exe: Option<String>,
    /// The controlling terminal as a `/dev/` path, or `None` (`?`, `??`,
    /// `-`): a daemonized process keeps its tty after losing its ancestry,
    /// which is what makes it the last-resort pane binding.
    pub tty: Option<String>,
    /// First state letter of `stat`. `Z` is a zombie: present in the table
    /// but dead.
    pub state: char,
}

impl Clone for ProcessRow {
    fn clone(&self) -> (r: ProcessRow)
        ensures
            r == *self,
    {
        ProcessRow {
            pid: self.pid,
            ppid: self.ppid,
            start: self.start,
            exe: copy_text(&self.exe),
            tty: copy_text(&self.tty),
            state: self.state,
        }
    }
}

/// The value of a [`ProcessRow`], with its text as characters.
pub struct RowView {
    pub pid: u32,
    pub ppid: u32,
    pub start: ProcessStart,
    pub exe: Option<Seq<char>>,
    pub tty: Option<Seq<char>>,
    pub state: char,
}

impl DeepView for ProcessRow {
    type V = RowView;

    open spec fn deep_view(&self) -> RowView {
        RowView {
            pid: self.pid,
            ppid: self.ppid,
            start: self.start,
            exe: self.exe.deep_view(),
            tty: self.tty.deep_view(),
            state: self.state,
        }
    }
}

impl ProcessRow {
    /// Whether the process is a zombie: a dead child not yet reaped. It
    /// still occupies the pid, so liveness has to say so itself.
    pub fn is_zombie(&self) -> (r: bool)
        ensures
            r == (self.state == 'Z'),
    {
        self.state == 'Z'
    }
}

/// A `ps` that failed. Carries argv and exit state for the evidence view.
#[derive(Debug)]
pub struct Error {
    pub argv: String,
    pub code: Option<i32>,
    pub detail: String,
}

impl Error {
    /// The failure in words: the argv, the exit code if there is one, and the
    /// detail.
    pub fn to_string(&self) -> (r: String)
        ensures
            r@ == match self.code {
                Some(code) => "`"@ + self.argv@ + "` exited "@ + signed_decimal(code as int)
                    + ": "@ + self.detail@,
                None => "`"@ + self.argv@ + "`: "@ + self.detail@,
            },
    {
        let mut out = "`".to_owned();
        out.append(self.argv.as_str());
        match self.code {
            Some(code) => {
                out.append("` exited ");
                out.append(print_i32(code).as_str());
                out.append(": ");
            },
            None => out.append("`: "),
        }
        out.append(self.detail.as_str());
        out
    }
}

// ---------------------------------------------------------------------------
// Reading `ps`
// ---------------------------------------------------------------------------

/// A number of seconds put together from days, hours, minutes and seconds.
pub open spec fn seconds(days: nat, hours: nat, mins: nat, secs: nat) -> nat {
    days * 86_400 + hours * 3_600 + mins * 60 + secs
}

/// `[[hh:]mm:]ss`, without the days: at least minutes and seconds, hours to
/// their left.
pub open spec fn clock_of(text: Seq<char>, days: nat) -> Option<nat> {
    let parts = pieces(text, ':');
    let n = parts.len() as int;
    if n != 2 && n != 3 {
        None
    } else {
        let hours = if n == 3 {
            unsigned(parts[0], u64::MAX as nat)
        } else {
            Some(0nat)
        };
        match (
            hours,
            unsigned(parts[n - 2], u64::MAX as nat),
            unsigned(parts[n - 1], u64::MAX as nat),
        ) {
            (Some(hours), Some(mins), Some(secs)) => {
                let total = seconds(days, hours, mins, secs);
                if total <= u64::MAX {
                    Some(total)
                } else {
                    None
                }
            },
            _ => None,
        }
    }
}

/// `[[dd-]hh:]mm:ss` as `ps -o etime` prints it, in seconds; none where it is
/// anything else, or more than a count of seconds holds.
pub open spec fn elapsed(text: Seq<char>) -> Option<nat> {
    match halves(text, '-') {
        Some((days, rest)) => match unsigned(days, u64::MAX as nat) {
            Some(days) => clock_of(rest, days),
            None => None,
        },
        None => clock_of(text, 0),
    }
}

fn read_clock(text: &str, days: u64) -> (r: Option<u64>)
    ensures
        r is Some <==> clock_of(text@, days as nat) is Some,
        r is Some ==> r->0 == clock_of(text@, days as nat)->0,
{
    let parts = split(text, ':');
    let n: usize = parts.len();
    assert(parts.deep_view().len() == n);
    if n != 2 && n != 3 {
        return None;
    }
    assert(parts.deep_view()[n - 1] == parts@[n - 1]@);
    assert(parts.deep_view()[n - 2] == parts@[n - 2]@);
    assert(parts.deep_view()[0] == parts@[0]@);
    let hours: u64 = if n == 3 {
        match parse_u64(parts[0].as_str()) {
            Some(hours) => hours,
            None => return None,
        }
    } else {
        0
    };
    let Some(mins) = parse_u64(parts[n - 2].as_str()) else {
        return None;
    };
    let Some(secs) = parse_u64(parts[n - 1].as_str()) else {
        return None;
    };
    let total: u128 = (days as u128) * 86_400 + (hours as u128) * 3_600 + (mins as u128) * 60 + (
    secs as u128);
    if total <= 0xffff_ffff_ffff_ffff {
        Some(total as u64)
    } else {
        None
    }
}

/// `[[dd-]hh:]mm:ss` as `ps -o etime` prints it. Seconds are always the
/// last field; hours and days extend to the left.
pub fn parse_etime(text: &str) -> (r: Option<u64>)
    ensures
        r is Some <==> elapsed(text@) is Some,
        r is Some ==> r->0 == elapsed(text@)->0,
{
    match split_once(text, '-') {
        Some((days, rest)) => match parse_u64(days.as_str()) {
            Some(days) => read_clock(rest.as_str(), days),
            None => None,
        },
        None => read_clock(text, 0),
    }
}

/// A start `elapsed` seconds before the snapshot, in whole epoch seconds;
/// unavailable before the epoch.
pub open spec fn started(taken: Timestamp, elapsed: nat) -> ProcessStart {
    let nanos = taken.nanos - elapsed * NANOS_PER_SEC as nat;
    if 0 <= nanos && nanos / NANOS_PER_SEC as int <= u64::MAX {
        ProcessStart::At((nanos / NANOS_PER_SEC as int) as u64)
    } else {
        ProcessStart::Unavailable
    }
}

/// Elapsed time into an approximate start epoch. `etime` is truncated to
/// whole seconds, so the estimate is late by under a second - inside the
/// one-second window instances are compared within.
pub fn start_from_elapsed(taken: Timestamp, elapsed_secs: u64) -> (r: ProcessStart)
    ensures
        r == started(taken, elapsed_secs as nat),
{
    let span: i128 = (elapsed_secs as i128) * (NANOS_PER_SEC as i128);
    if taken.nanos < span {
        return ProcessStart::Unavailable;
    }
    let secs: i128 = (taken.nanos - span) / (NANOS_PER_SEC as i128);
    if secs <= 0xffff_ffff_ffff_ffff {
        ProcessStart::At(secs as u64)
    } else {
        ProcessStart::Unavailable
    }
}

/// The executable basename of a `comm` value: a path becomes its last
/// component and a leading `-` (the login-shell marker on argv0) comes off.
/// None for `?`-style blanks and empty output.
pub open spec fn exe_name(comm: Seq<char>) -> Option<Seq<char>> {
    let base = after_last(comm, '/');
    let name = match after_prefix(base, "-"@) {
        Some(name) => name,
        None => base,
    };
    if name.len() == 0 || name == "?"@ || name == "??"@ {
        None
    } else {
        Some(name)
    }
}

/// The executable basename of a `comm` value.
pub fn normalize_exe(comm: &str) -> (r: Option<String>)
    ensures
        r.deep_view() == exe_name(comm@),
{
    let base = last_piece(comm, '/');
    let name = match strip_prefix(base.as_str(), "-") {
        Some(name) => name,
        None => base,
    };
    if name.as_str().is_empty() || same(name.as_str(), "?") || same(name.as_str(), "??") {
        None
    } else {
        Some(name)
    }
}

/// The controlling terminal as `/dev/<name>`: `ps` prints `ttys003` or
/// `pts/3` while tmux prints `/dev/ttys003` or `/dev/pts/3`, and only the
/// shared form can join them. `?`, `??` and `-` mean no controlling tty.
pub open spec fn tty_path(tty: Seq<char>) -> Option<Seq<char>> {
    if tty == "?"@ || tty == "??"@ || tty == "-"@ {
        None
    } else if begins(tty, "/dev/"@) {
        Some(tty)
    } else {
        Some("/dev/"@ + tty)
    }
}

/// The controlling terminal as `/dev/<name>`.
pub fn normalize_tty(tty: &str) -> (r: Option<String>)
    ensures
        r.deep_view() == tty_path(tty@),
{
    if same(tty, "?") || same(tty, "??") || same(tty, "-") {
        None
    } else if starts_with(tty, "/dev/") {
        Some(tty.to_owned())
    } else {
        let mut path = "/dev/".to_owned();
        path.append(tty);
        Some(path)
    }
}

/// One `ps` output row: `pid ppid etime stat tty comm...`. `comm` is the
/// rest of the line - an argv0 with a space stays one field. A row whose
/// elapsed time does not parse is kept without a start.
pub open spec fn row_of(line: Seq<char>, taken: Timestamp) -> Option<RowView> {
    let fields = word_list(line);
    if fields.len() < 5 {
        None
    } else {
        match (unsigned(fields[0], u32::MAX as nat), unsigned(fields[1], u32::MAX as nat)) {
            (Some(pid), Some(ppid)) => Some(
                RowView {
                    pid: pid as u32,
                    ppid: ppid as u32,
                    start: match elapsed(fields[2]) {
                        Some(secs) => started(taken, secs),
                        None => ProcessStart::Unavailable,
                    },
                    exe: exe_name(trimmed(joined(fields.skip(5), " "@))),
                    tty: tty_path(fields[4]),
                    state: fields[3][0],
                },
            ),
            _ => None,
        }
    }
}

/// No run between white space is empty.
proof fn lemma_words_are_filled(s: Seq<char>)
    ensures
        forall|i: int| 0 <= i < word_list(s).len() ==> (#[trigger] word_list(s)[i]).len() > 0,
    decreases s.len(),
{
    let n = crate::text::word_len(s);
    if s.len() > 0 {
        if 0 < n <= s.len() {
            lemma_words_are_filled(s.skip(n));
            assert forall|i: int| 0 <= i < word_list(s).len() implies (#[trigger] word_list(
                s,
            )[i]).len() > 0 by {
                if i > 0 {
                    assert(word_list(s)[i] == word_list(s.skip(n))[i - 1]);
                }
            }
        } else {
            lemma_words_are_filled(s.drop_first());
            assert(word_list(s) == word_list(s.drop_first()));
        }
    } else {
        assert(word_list(s).len() == 0);
    }
}

/// One `ps` output row, or `None` for a line that is not one.
pub fn parse_row(line: &str, taken: Timestamp) -> (r: Option<ProcessRow>)
    ensures
        r.deep_view() == row_of(line@, taken),
{
    let fields = words(line);
    let ghost all = fields.deep_view();
    assert(all.len() == fields@.len());
    if fields.len() < 5 {
        return None;
    }
    assert(forall|i: int| 0 <= i < 5 ==> all[i] == (#[trigger] fields@[i])@);
    let Some(pid) = parse_u32(fields[0].as_str()) else {
        return None;
    };
    let Some(ppid) = parse_u32(fields[1].as_str()) else {
        return None;
    };
    let start = match parse_etime(fields[2].as_str()) {
        Some(elapsed) => start_from_elapsed(taken, elapsed),
        None => ProcessStart::Unavailable,
    };
    let stat = chars_of(fields[3].as_str());
    proof {
        lemma_words_are_filled(line@);
        assert(word_list(line@)[3].len() > 0);
    }
    let state = stat[0];
    let tty = normalize_tty(fields[4].as_str());
    let mut comm: Vec<String> = Vec::new();
    let mut i: usize = 5;
    while i < fields.len()
        invariant
            5 <= i <= fields@.len(),
            all == fields.deep_view(),
            comm.deep_view() =~= all.subrange(5, i as int),
        decreases fields@.len() - i,
    {
        let ghost before = comm.deep_view();
        comm.push(fields[i].clone());
        assert(comm.deep_view() =~= before.push(fields@[i as int]@));
        i += 1;
    }
    assert(comm.deep_view() =~= all.skip(5));
    let comm = join(&comm, " ");
    let exe = normalize_exe(trim(comm.as_str()).as_str());
    Some(ProcessRow { pid, ppid, start, exe, tty, state })
}

// ---------------------------------------------------------------------------
// The table
// ---------------------------------------------------------------------------

/// One `ps` snapshot. Reading the whole table at once keeps a refresh
/// self-consistent: a pid, its ancestors and its tty all come from the same
/// instant.
#[derive(Debug)]
pub struct ProcessTable {
    rows: HashMap<u32, ProcessRow>,
}

impl View for ProcessTable {
    type V = Map<u32, RowView>;

    closed spec fn view(&self) -> Map<u32, RowView> {
        self.rows@.map_values(|row: ProcessRow| row.deep_view())
    }
}

/// The rows of a table by pid; of two rows with one pid the later stands.
pub open spec fn by_pid(rows: Seq<RowView>) -> Map<u32, RowView>
    decreases rows.len(),
{
    if rows.len() == 0 {
        Map::empty()
    } else {
        by_pid(rows.drop_last()).insert(rows.last().pid, rows.last())
    }
}

/// The rows among the lines of a `ps` listing.
pub open spec fn rows_of(lines: Seq<Seq<char>>, taken: Timestamp) -> Seq<RowView>
    decreases lines.len(),
{
    if lines.len() == 0 {
        seq![]
    } else {
        let before = rows_of(lines.drop_last(), taken);
        match row_of(lines.last(), taken) {
            Some(row) => before.push(row),
            None => before,
        }
    }
}

/// A table without rows.
fn empty_table() -> (r: ProcessTable)
    ensures
        r@ == Map::<u32, RowView>::empty(),
{
    let r = ProcessTable { rows: HashMap::new() };
    assert(r@ =~= Map::empty());
    r
}

/// One more row, in place of any with its pid.
fn put(table: &mut ProcessTable, row: ProcessRow)
    ensures
        final(table)@ == old(table)@.insert(row.pid, row.deep_view()),
{
    table.rows.insert(row.pid, row);
    assert(table@ =~= old(table)@.insert(row.pid, row.deep_view()));
}

/// What the columns asked of `ps` are.
pub open spec fn ps_columns() -> Seq<char> {
    "pid=,ppid=,etime=,stat=,tty=,comm="@
}

/// How the snapshot is taken: `ps -A -o ...`, every process. `LC_ALL=C` keeps
/// the field formats stable across locales.
pub fn ps_command() -> (r: Invocation)
    ensures
        r.program@ == "ps"@,
        r.args.deep_view() == seq!["-A"@, "-o"@, ps_columns()],
        r.args.deep_view() == seq!["-A"@, "-o"@, "pid=,ppid=,etime=,stat=,tty=,comm="@],
        r.removed@.len() == 0,
        r.set.deep_view() == seq![("LC_ALL"@, "C"@)],
{
    let args = list(&["-A", "-o", "pid=,ppid=,etime=,stat=,tty=,comm="]);
    assert(args.deep_view() =~= seq!["-A"@, "-o"@, ps_columns()]);
    let mut set: Vec<(String, String)> = Vec::new();
    set_var(&mut set, "LC_ALL", "C");
    assert(set.deep_view() =~= seq![("LC_ALL"@, "C"@)]);
    Invocation { program: "ps".to_owned(), args, removed: Vec::new(), set }
}

impl ProcessTable {
    /// The table a `ps` reply holds, `taken` being when it came: every line
    /// that is a row, the rest dropped; or how `ps` failed.
    pub fn snapshot(reply: &Reply, taken: Timestamp) -> (r: Result<ProcessTable, Error>)
        ensures
            match *reply {
                Ok(out) => if out.succeeded() {
                    r matches Ok(table) && table@ == by_pid(rows_of(line_list(out.stdout@), taken))
                } else {
                    r matches Err(e) && e.argv@ == "ps -A -o pid=,ppid=,etime=,stat=,tty=,comm="@
                        && e.code == out.code && e.detail@ == trimmed(out.stderr@)
                },
                Err(spawn) => r matches Err(e) && e.argv@
                    == "ps -A -o pid=,ppid=,etime=,stat=,tty=,comm="@ && e.code is None
                    && e.detail@ == spawn@,
            },
    {
        let argv = "ps -A -o pid=,ppid=,etime=,stat=,tty=,comm=".to_owned();
        match reply {
            Err(spawn) => Err(Error { argv, code: None, detail: spawn.clone() }),
            Ok(out) => {
                if !out.success() {
                    return Err(
                        Error { argv, code: out.code, detail: trim(out.stderr.as_str()) },
                    );
                }
                let found = lines(out.stdout.as_str());
                let ghost all = found.deep_view();
                let mut table = empty_table();
                let mut i: usize = 0;
                while i < found.len()
                    invariant
                        i <= found@.len(),
                        all == found.deep_view(),
                        table@ == by_pid(rows_of(all.take(i as int), taken)),
                    decreases found@.len() - i,
                {
                    assert(all.take(i + 1).drop_last() =~= all.take(i as int));
                    assert(all.take(i + 1).last() == found@[i as int]@);
                    let ghost before = rows_of(all.take(i as int), taken);
                    if let Some(row) = parse_row(found[i].as_str(), taken) {
                        let ghost view = row.deep_view();
                        assert(before.push(view).drop_last() =~= before);
                        put(&mut table, row);
                    }
                    i += 1;
                }
                assert(all.take(i as int) =~= all);
                Ok(table)
            },
        }
    }

    /// A table built out of `rows` instead of a live `ps` run - callers
    /// carrying their own process observations, and tests faking a shape a
    /// live machine cannot guarantee.
    pub fn from_rows(rows: Vec<ProcessRow>) -> (r: ProcessTable)
        ensures
            r@ == by_pid(rows.deep_view()),
    {
        let ghost all = rows.deep_view();
        let mut table = empty_table();
        for row in it: rows
            invariant
                it.seq() == rows@,
                all == rows.deep_view(),
                table@ == by_pid(all.take(it.index() as int)),
        {
            assert(all.take(it.index() + 1).drop_last() =~= all.take(it.index() as int));
            assert(all.take(it.index() + 1).last() == row.deep_view());
            put(&mut table, row);
        }
        assert(all.take(all.len() as int) =~= all);
        table
    }

    /// The row for `pid`, when a live-or-zombie process carries it.
    pub fn get(&self, pid: u32) -> (r: Option<&ProcessRow>)
        ensures
            match r {
                Some(row) => self@.contains_key(pid) && row.deep_view() == self@[pid],
                None => !self@.contains_key(pid),
            },
    {
        self.rows.get(&pid)
    }

    /// Every row, for callers that pick processes by parentage or name: one
    /// for each pid, in no particular order.
    pub fn rows(&self) -> (r: Vec<&ProcessRow>)
        ensures
            exists|pids: Seq<u32>| #[trigger] lists_rows(self@, pids, r.deep_view()),
    {
        let mut out: Vec<&ProcessRow> = Vec::new();
        let ghost mut pids: Seq<u32> = seq![];
        assert(self@.dom() =~= self.rows@.dom());
        for pid in it: self.rows.keys()
            invariant
                out@.len() == it.index(),
                it.seq().unref().to_set() == self.rows@.dom(),
                it.seq().no_duplicates(),
                it.seq().len() == self.rows@.dom().len(),
                pids =~= it.seq().unref().take(it.index() as int),
                pids.no_duplicates(),
                it.index() == it.seq().len() ==> pids.to_set() == self@.dom(),
                pids.len() == out@.len(),
                forall|j: int|
                    0 <= j < pids.len() ==> #[trigger] out.deep_view()[j] == self@[pids[j]],
        {
            let ghost before = out.deep_view();
            assert(it.seq().unref()[it.index() as int] == *pid);
            assert(it.seq().unref().to_set().contains(*pid));
            if let Some(row) = self.rows.get(pid) {
                out.push(row);
                assert(out.deep_view() =~= before.push(row.deep_view()));
            }
            proof {
                pids = pids.push(*pid);
                assert forall|i: int, j: int| 0 <= i < j < pids.len() implies pids[i]
                    != pids[j] by {
                    assert(it.seq()[i] != it.seq()[j]);
                }
                assert(self@.dom() =~= self.rows@.dom());
                assert(pids.len() == it.seq().len() ==> pids =~= it.seq().unref());
            }
        }
        proof {
            assert(lists_rows(self@, pids, out.deep_view()));
        }
        out
    }
}

/// `rows` holds the rows of the table, one for each of the `pids`, which are
/// all of them.
pub open spec fn lists_rows(table: Map<u32, RowView>, pids: Seq<u32>, rows: Seq<RowView>) -> bool {
    &&& pids.no_duplicates()
    &&& pids.to_set() == table.dom()
    &&& rows.len() == pids.len()
    &&& forall|i: int| 0 <= i < rows.len() ==> #[trigger] rows[i] == table[pids[i]]
}

// ---------------------------------------------------------------------------
// Ancestry
// ---------------------------------------------------------------------------

/// `pid` itself first, then each parent up to the table's root. A missing row
/// ends the walk, and so does one already walked over: a real table cannot
/// hold a cycle, but a half-read one could.
pub open spec fn ancestry(table: Map<u32, RowView>, pid: u32) -> Seq<u32>
    decreases table.dom().len(),
    when table.dom().finite()
{
    if !table.contains_key(pid) {
        seq![]
    } else if table[pid].ppid == pid {
        seq![pid]
    } else {
        seq![pid] + ancestry(table.remove(pid), table[pid].ppid)
    }
}

/// A snapshot holds finitely many rows.
pub proof fn lemma_table_is_finite(table: ProcessTable)
    ensures
        table@.dom().finite(),
{
    assert(table@.dom() =~= table.rows@.dom());
}

/// Whether `pid` is among the pids walked over.
fn walked(chain: &Vec<u32>, pid: u32) -> (r: bool)
    ensures
        r == chain@.contains(pid),
{
    let mut i: usize = 0;
    while i < chain.len()
        invariant
            i <= chain@.len(),
            forall|j: int| 0 <= j < i ==> chain@[j] != pid,
        decreases chain@.len() - i,
    {
        if chain[i] == pid {
            return true;
        }
        i += 1;
    }
    false
}

impl ProcessTable {
    /// `pid` itself first, then each parent up to the table's root. A
    /// missing row or a cycle (which a real table cannot have, but a
    /// half-read one could) ends the walk.
    pub fn ancestors(&self, pid: u32) -> (r: Vec<u32>)
        ensures
            r@ == ancestry(self@, pid),
    {
        let mut chain: Vec<u32> = Vec::new();
        let mut current: u32 = pid;
        let ghost mut left = self@;
        proof {
            lemma_table_is_finite(*self);
        }
        loop
            invariant
                left.dom().finite(),
                forall|p: u32| #[trigger]
                    left.contains_key(p) <==> self@.contains_key(p) && !chain@.contains(p),
                forall|p: u32| #[trigger] left.contains_key(p) ==> left[p] == self@[p],
                ancestry(self@, pid) =~= chain@ + ancestry(left, current),
            decreases left.dom().len(),
        {
            if walked(&chain, current) {
                return chain;
            }
            let Some(row) = self.get(current) else {
                return chain;
            };
            assert(left.contains_key(current));
            let ghost before = chain@;
            chain.push(current);
            proof {
                assert forall|p: u32| chain@.contains(p) <==> before.contains(p) || p
                    == current by {
                    if before.contains(p) {
                        let i = choose|i: int| 0 <= i < before.len() && before[i] == p;
                        assert(chain@[i] == p);
                    }
                    assert(chain@[before.len() as int] == current);
                }
            }
            if row.ppid == current {
                return chain;
            }
            proof {
                left = left.remove(current);
            }
            current = row.ppid;
        }
    }
}

// ---------------------------------------------------------------------------
// Liveness
// ---------------------------------------------------------------------------

/// Whether the observed basename proves the process is not the claimed
/// executable. `comm` can be a truncation - Linux caps it at 15 bytes and
/// macOS can emit a 16-byte argv0 prefix - so a mismatch where the
/// observed name is a cap-length prefix of the expected one may be the
/// same executable cut short, and proves nothing. A shorter `observed`
/// cannot be a truncation, so the mismatch stands.
pub open spec fn exe_differs(expected: Seq<char>, observed: Seq<char>) -> bool {
    expected != observed && !(encode_utf8(observed).len() >= 15 && begins(expected, observed))
}

/// Whether the observed basename proves the process is not the claimed
/// executable.
pub fn exe_mismatch(expected: &str, observed: &str) -> (r: bool)
    ensures
        r == exe_differs(expected@, observed@),
{
    !same(expected, observed) && !(observed.as_bytes().len() >= 15 && starts_with(
        expected,
        observed,
    ))
}

/// What a table proves of a claim: a missing row, a zombie, a different
/// executable or a different start is death; agreeing starts are the
/// instance; and a start missing on either side leaves the pid alone.
pub open spec fn liveness(
    table: Map<u32, RowView>,
    claim: ProcessInstance,
    expected_exe: Option<Seq<char>>,
) -> LivenessView {
    let pid = "pid "@ + decimal(claim.pid as nat);
    if !table.contains_key(claim.pid) {
        LivenessView::Dead(pid + " has no process"@)
    } else {
        let row = table[claim.pid];
        if row.state == 'Z' {
            LivenessView::Dead(pid + " is a zombie"@)
        } else if expected_exe is Some && row.exe is Some && exe_differs(
            expected_exe->0,
            row.exe->0,
        ) {
            LivenessView::Dead(
                pid + " runs `"@ + row.exe->0 + "`, not `"@ + expected_exe->0 + "`"@,
            )
        } else {
            match claim.pid_start.agrees(row.start) {
                Some(true) => LivenessView::Instance,
                Some(false) => LivenessView::Dead(
                    pid + " started at a different time than claimed"@,
                ),
                None => LivenessView::PidOnly(
                    pid + " is live but its start time is unverifiable"@,
                ),
            }
        }
    }
}

impl ProcessTable {
    /// Whether the claimed instance is the process still running at
    /// `claim.pid`.
    ///
    /// `expected_exe` is what the claim implies about the executable - a
    /// provider's lock or session file names its own kind of process. When
    /// it is given and the running basename differs, the pid was reused or
    /// the process exec'd elsewhere; either way not the claimed instance.
    pub fn is_live(&self, claim: &ProcessInstance, expected_exe: Option<&str>) -> (r: Liveness)
        ensures
            r.deep_view() == liveness(self@, *claim, expected_exe.deep_view()),
    {
        let mut text = "pid ".to_owned();
        text.append(print_u64(claim.pid as u64).as_str());
        let Some(row) = self.get(claim.pid) else {
            text.append(" has no process");
            return Liveness::Dead(text);
        };
        if row.is_zombie() {
            text.append(" is a zombie");
            return Liveness::Dead(text);
        }
        if let (Some(expected), Some(observed)) = (expected_exe, &row.exe) {
            assert(row.deep_view().exe == Some(observed@));
            if exe_mismatch(expected, observed.as_str()) {
                text.append(" runs `");
                text.append(observed.as_str());
                text.append("`, not `");
                text.append(expected);
                text.append("`");
                return Liveness::Dead(text);
            }
        }
        match claim.pid_start.matches(&row.start) {
            Some(true) => Liveness::Instance,
            Some(false) => {
                text.append(" started at a different time than claimed");
                Liveness::Dead(text)
            },
            // A start time missing on either side cannot prove the instance;
            // the pid is live and that is all that is known.
            None => {
                text.append(" is live but its start time is unverifiable");
                Liveness::PidOnly(text)
            },
        }
    }
}

// ---------------------------------------------------------------------------
// Published start times
// ---------------------------------------------------------------------------

/// The number of a month by its English abbreviation.
pub open spec fn month_number(name: Seq<char>) -> Option<int> {
    if name == "Jan"@ {
        Some(1)
    } else if name == "Feb"@ {
        Some(2)
    } else if name == "Mar"@ {
        Some(3)
    } else if name == "Apr"@ {
        Some(4)
    } else if name == "May"@ {
        Some(5)
    } else if name == "Jun"@ {
        Some(6)
    } else if name == "Jul"@ {
        Some(7)
    } else if name == "Aug"@ {
        Some(8)
    } else if name == "Sep"@ {
        Some(9)
    } else if name == "Oct"@ {
        Some(10)
    } else if name == "Nov"@ {
        Some(11)
    } else if name == "Dec"@ {
        Some(12)
    } else {
        None
    }
}

fn month_of(name: &str) -> (r: Option<i64>)
    ensures
        r is Some <==> month_number(name@) is Some,
        r is Some ==> r->0 == month_number(name@)->0 && 1 <= r->0 <= 12,
{
    if same(name, "Jan") {
        Some(1)
    } else if same(name, "Feb") {
        Some(2)
    } else if same(name, "Mar") {
        Some(3)
    } else if same(name, "Apr") {
        Some(4)
    } else if same(name, "May") {
        Some(5)
    } else if same(name, "Jun") {
        Some(6)
    } else if same(name, "Jul") {
        Some(7)
    } else if same(name, "Aug") {
        Some(8)
    } else if same(name, "Sep") {
        Some(9)
    } else if same(name, "Oct") {
        Some(10)
    } else if same(name, "Nov") {
        Some(11)
    } else if same(name, "Dec") {
        Some(12)
    } else {
        None
    }
}

/// `hh:mm:ss` in seconds of the day, a leap second allowed for.
pub open spec fn time_of_day(text: Seq<char>) -> Option<nat> {
    let parts = pieces(text, ':');
    if parts.len() != 3 {
        None
    } else {
        match (
            unsigned(parts[0], u64::MAX as nat),
            unsigned(parts[1], u64::MAX as nat),
            unsigned(parts[2], u64::MAX as nat),
        ) {
            (Some(hour), Some(min), Some(sec)) => if hour <= 23 && min <= 59 && sec <= 60 {
                Some(seconds(0, hour, min, sec))
            } else {
                None
            },
            _ => None,
        }
    }
}

/// `<wday> <month> <day> <hh:mm:ss> <year>` in UTC as epoch seconds; the
/// weekday carries no information beyond a sanity hint and is ignored. None
/// before the epoch, where no instance can have started.
pub open spec fn utc_epoch(text: Seq<char>) -> Option<nat> {
    let fields = word_list(text);
    if fields.len() != 5 {
        None
    } else {
        match (
            month_number(fields[1]),
            unsigned(fields[2], u64::MAX as nat),
            time_of_day(fields[3]),
            signed(fields[4], i64::MIN as int, i64::MAX as nat),
        ) {
            (Some(month), Some(day), Some(secs), Some(year)) => {
                let epoch = day_number(year, month, day as int) * 86_400 + secs;
                if 1 <= day <= 31 && 0 <= epoch <= u64::MAX {
                    Some(epoch as nat)
                } else {
                    None
                }
            },
            _ => None,
        }
    }
}

/// The English abbreviation of a month by its number.
pub open spec fn month_name(month: int) -> Seq<char> {
    if month == 1 {
        "Jan"@
    } else if month == 2 {
        "Feb"@
    } else if month == 3 {
        "Mar"@
    } else if month == 4 {
        "Apr"@
    } else if month == 5 {
        "May"@
    } else if month == 6 {
        "Jun"@
    } else if month == 7 {
        "Jul"@
    } else if month == 8 {
        "Aug"@
    } else if month == 9 {
        "Sep"@
    } else if month == 10 {
        "Oct"@
    } else if month == 11 {
        "Nov"@
    } else {
        "Dec"@
    }
}

/// A second of the day as `hh:mm:ss`.
pub open spec fn clock_text(secs: nat) -> Seq<char> {
    two_digits(secs / 3_600).push(':') + (two_digits(secs / 60 % 60).push(':') + two_digits(
        secs % 60,
    ))
}

/// The words of the UTC ctime form of an epoch second:
/// `<weekday> <month> <day> <hh:mm:ss> <year>`.
pub open spec fn ctime_words(weekday: Seq<char>, epoch: nat) -> Seq<Seq<char>> {
    let date = date_of(epoch / 86_400);
    seq![
        weekday,
        month_name(date.month),
        decimal(date.day as nat),
        clock_text(epoch % 86_400),
        decimal(date.year as nat),
    ]
}

fn read_time_of_day(text: &str) -> (r: Option<u64>)
    ensures
        r is Some <==> time_of_day(text@) is Some,
        r is Some ==> r->0 == time_of_day(text@)->0 && r->0 < 90_000,
{
    let parts = split(text, ':');
    assert(parts.deep_view().len() == parts@.len());
    if parts.len() != 3 {
        return None;
    }
    assert(forall|i: int| 0 <= i < 3 ==> parts.deep_view()[i] == (#[trigger] parts@[i])@);
    let Some(hour) = parse_u64(parts[0].as_str()) else {
        return None;
    };
    let Some(min) = parse_u64(parts[1].as_str()) else {
        return None;
    };
    let Some(sec) = parse_u64(parts[2].as_str()) else {
        return None;
    };
    if hour > 23 || min > 59 || sec > 60 {
        return None;
    }
    Some(hour * 3_600 + min * 60 + sec)
}

/// A provider-published start time normalized to epoch seconds.
///
/// Provider records format starts as UTC ctime
/// (`Tue Sep 22 16:18:53 2026`); the platform reports elapsed time in local
/// terms. Normalizing the published form to epoch makes the two comparable
/// inside the one-second window, which is what the `pid_start` pair exists
/// for.
pub fn parse_utc_ctime(text: &str) -> (r: Option<u64>)
    ensures
        r is Some <==> utc_epoch(text@) is Some,
        r is Some ==> r->0 == utc_epoch(text@)->0,
{
    let fields = words(text);
    assert(fields.deep_view().len() == fields@.len());
    if fields.len() != 5 {
        return None;
    }
    assert(forall|i: int| 0 <= i < 5 ==> fields.deep_view()[i] == (#[trigger] fields@[i])@);
    let Some(month) = month_of(fields[1].as_str()) else {
        return None;
    };
    let Some(day) = parse_u64(fields[2].as_str()) else {
        return None;
    };
    let Some(secs) = read_time_of_day(fields[3].as_str()) else {
        return None;
    };
    let Some(year) = parse_i64(fields[4].as_str()) else {
        return None;
    };
    if day == 0 || day > 31 {
        return None;
    }
    let days = days_from_civil(year, month, day);
    let epoch: i128 = days * 86_400 + secs as i128;
    if 0 <= epoch && epoch <= 0xffff_ffff_ffff_ffff {
        Some(epoch as u64)
    } else {
        None
    }
}

// ---------------------------------------------------------------------------
// What process evidence promises
// ---------------------------------------------------------------------------

/// Start times agree either way round, and a known one agrees with itself.
pub proof fn law_starts_agree_both_ways(a: ProcessStart, b: ProcessStart)
    ensures
        a.agrees(b) == b.agrees(a),
        a is At ==> a.agrees(a) == Some(true),
        a is Unavailable ==> a.agrees(b) is None,
{
}

/// The start estimated from a truncated elapsed time is inside the window
/// that the true start is compared within.
pub proof fn law_estimated_start_names_the_instance(start: Timestamp, taken: Timestamp)
    requires
        0 <= start.nanos <= taken.nanos,
        taken.nanos / NANOS_PER_SEC as i128 <= u64::MAX,
    ensures
        started(
            taken,
            ((taken.nanos - start.nanos) / NANOS_PER_SEC as int) as nat,
        ).agrees(ProcessStart::At((start.nanos / NANOS_PER_SEC as i128) as u64)) == Some(true),
{
    let span = taken.nanos - start.nanos;
    let whole = span / 1_000_000_000;
    assert(span == whole * 1_000_000_000 + span % 1_000_000_000);
    let left = taken.nanos - whole * 1_000_000_000;
    assert(start.nanos <= left < start.nanos + 1_000_000_000);
    assert(left / 1_000_000_000 <= taken.nanos / 1_000_000_000);
    assert(start.nanos / 1_000_000_000 <= left / 1_000_000_000 <= start.nanos / 1_000_000_000 + 1);
}

/// `Instance` is a proven identity: a row that is no zombie, with both starts
/// known and no more than a second apart.
pub proof fn law_instance_is_proven(
    table: Map<u32, RowView>,
    claim: ProcessInstance,
    expected_exe: Option<Seq<char>>,
)
    requires
        liveness(table, claim, expected_exe) is Instance,
    ensures
        table.contains_key(claim.pid),
        table[claim.pid].state != 'Z',
        claim.pid_start is At,
        claim.pid_start.agrees(table[claim.pid].start) == Some(true),
{
}

/// A pid that is gone, or that a zombie holds, is dead whatever is claimed of
/// it.
pub proof fn law_gone_and_zombie_are_dead(
    table: Map<u32, RowView>,
    claim: ProcessInstance,
    expected_exe: Option<Seq<char>>,
)
    requires
        !table.contains_key(claim.pid) || table[claim.pid].state == 'Z',
    ensures
        liveness(table, claim, expected_exe) is Dead,
{
}

/// A claim without a start is never an instance, and a live pid that does not
/// run another executable is never dead for want of a start.
pub proof fn law_undated_claim_is_pid_only(
    table: Map<u32, RowView>,
    claim: ProcessInstance,
    expected_exe: Option<Seq<char>>,
)
    requires
        table.contains_key(claim.pid),
        table[claim.pid].state != 'Z',
        claim.pid_start is Unavailable || table[claim.pid].start is Unavailable,
        expected_exe is None || table[claim.pid].exe is None || !exe_differs(
            expected_exe->0,
            table[claim.pid].exe->0,
        ),
    ensures
        liveness(table, claim, expected_exe) is PidOnly,
{
}

/// The walk starts at the pid, takes each next step to a parent, holds only
/// pids of the table, and none of them twice.
pub proof fn law_ancestry_climbs(table: Map<u32, RowView>, pid: u32)
    requires
        table.dom().finite(),
    ensures
        ancestry(table, pid).len() > 0 <==> table.contains_key(pid),
        ancestry(table, pid).len() > 0 ==> ancestry(table, pid)[0] == pid,
        ancestry(table, pid).no_duplicates(),
        forall|i: int|
            0 <= i < ancestry(table, pid).len() ==> table.contains_key(
                #[trigger] ancestry(table, pid)[i],
            ),
        forall|i: int|
            0 < i < ancestry(table, pid).len() ==> #[trigger] ancestry(table, pid)[i]
                == table[ancestry(table, pid)[i - 1]].ppid,
    decreases table.dom().len(),
{
    if table.contains_key(pid) && table[pid].ppid != pid {
        let rest = table.remove(pid);
        let parent = table[pid].ppid;
        let tail = ancestry(rest, parent);
        let chain = ancestry(table, pid);
        law_ancestry_climbs(rest, parent);
        assert(chain =~= seq![pid] + tail);
        assert forall|i: int| 0 <= i < chain.len() implies table.contains_key(
            #[trigger] chain[i],
        ) by {
            if i > 0 {
                assert(rest.contains_key(tail[i - 1]));
            }
        }
        assert forall|i: int| 0 < i < chain.len() implies #[trigger] chain[i] == table[chain[i
            - 1]].ppid by {
            if i > 1 {
                assert(tail[i - 1] == rest[tail[i - 2]].ppid);
                assert(rest.contains_key(tail[i - 2]));
            }
        }
        assert forall|i: int, j: int| 0 <= i < j < chain.len() implies chain[i] != chain[j] by {
            assert(rest.contains_key(tail[j - 1]));
            if i > 0 {
                assert(tail[i - 1] != tail[j - 1]);
            }
        }
    }
}

/// A row whose elapsed time does not parse is kept, without a start: the pid
/// is observably live, so it is not dropped and reaped as dead.
pub proof fn law_undated_rows_are_kept(line: Seq<char>, taken: Timestamp)
    requires
        word_list(line).len() >= 5,
        unsigned(word_list(line)[0], u32::MAX as nat) is Some,
        unsigned(word_list(line)[1], u32::MAX as nat) is Some,
    ensures
        row_of(line, taken) is Some,
        elapsed(word_list(line)[2]) is None ==> row_of(line, taken)->0.start is Unavailable,
{
}

proof fn lemma_month_reads_back(month: int)
    requires
        1 <= month <= 12,
    ensures
        month_number(month_name(month)) == Some(month),
        is_word(month_name(month)),
{
    reveal_strlit("Jan");
    reveal_strlit("Feb");
    reveal_strlit("Mar");
    reveal_strlit("Apr");
    reveal_strlit("May");
    reveal_strlit("Jun");
    reveal_strlit("Jul");
    reveal_strlit("Aug");
    reveal_strlit("Sep");
    reveal_strlit("Oct");
    reveal_strlit("Nov");
    reveal_strlit("Dec");
    let name = month_name(month);
    assert("Jan"@[0] == 'J' && "Jan"@[1] == 'a' && "Jan"@[2] == 'n');
    assert("Feb"@[0] == 'F' && "Feb"@[1] == 'e' && "Feb"@[2] == 'b');
    assert("Mar"@[0] == 'M' && "Mar"@[1] == 'a' && "Mar"@[2] == 'r');
    assert("Apr"@[0] == 'A' && "Apr"@[1] == 'p' && "Apr"@[2] == 'r');
    assert("May"@[0] == 'M' && "May"@[1] == 'a' && "May"@[2] == 'y');
    assert("Jun"@[0] == 'J' && "Jun"@[1] == 'u' && "Jun"@[2] == 'n');
    assert("Jul"@[0] == 'J' && "Jul"@[1] == 'u' && "Jul"@[2] == 'l');
    assert("Aug"@[0] == 'A' && "Aug"@[1] == 'u' && "Aug"@[2] == 'g');
    assert("Sep"@[0] == 'S' && "Sep"@[1] == 'e' && "Sep"@[2] == 'p');
    assert("Oct"@[0] == 'O' && "Oct"@[1] == 'c' && "Oct"@[2] == 't');
    assert("Nov"@[0] == 'N' && "Nov"@[1] == 'o' && "Nov"@[2] == 'v');
    assert("Dec"@[0] == 'D' && "Dec"@[1] == 'e' && "Dec"@[2] == 'c');
    assert(forall|i: int| 0 <= i < name.len() ==> !is_space(#[trigger] name[i]));
}

proof fn lemma_clock_reads_back(secs: nat)
    requires
        secs < 86_400,
    ensures
        time_of_day(clock_text(secs)) == Some(secs),
        is_word(clock_text(secs)),
{
    let hour = two_digits(secs / 3_600);
    let min = two_digits(secs / 60 % 60);
    let sec = two_digits(secs % 60);
    let text = clock_text(secs);
    lemma_number_reads_back(secs / 3_600, u64::MAX as nat);
    lemma_number_reads_back(secs / 60 % 60, u64::MAX as nat);
    lemma_number_reads_back(secs % 60, u64::MAX as nat);
    assert(!hour.contains(':') && !min.contains(':') && !sec.contains(':'));
    lemma_first_piece(hour, ':', min.push(':') + sec);
    lemma_first_piece(min, ':', sec);
    lemma_first_piece(sec, ':', seq![]);
    assert(pieces(text, ':') =~= seq![hour, min, sec]);
    assert forall|i: int| 0 <= i < text.len() implies !is_space(#[trigger] text[i]) by {
        let h = hour.len();
        let m = min.len();
        if i < h {
            assert(is_digit(hour[i]));
        } else if h < i < h + 1 + m {
            assert(is_digit(min[i - h - 1]));
        } else if i > h + 1 + m {
            assert(is_digit(sec[i - h - m - 2]));
        }
    }
}

/// A published start reads back as the epoch second it was printed from,
/// whatever word stands for the weekday.
pub proof fn law_ctime_reads_back(text: Seq<char>, weekday: Seq<char>, epoch: nat)
    requires
        epoch <= u64::MAX,
        word_list(text) == ctime_words(weekday, epoch),
    ensures
        utc_epoch(text) == Some(epoch),
{
    let date = date_of(epoch / 86_400);
    law_every_day_has_its_date(epoch / 86_400);
    lemma_month_reads_back(date.month);
    lemma_number_reads_back(date.day as nat, u64::MAX as nat);
    lemma_clock_reads_back(epoch % 86_400);
    lemma_number_reads_back(date.year as nat, i64::MAX as nat);
}

/// Any white space may stand between the words of a published start, and
/// around them: it reads back all the same.
pub proof fn law_spaced_ctime_reads_back(weekday: Seq<char>, gaps: Seq<Seq<char>>, epoch: nat)
    requires
        epoch <= u64::MAX,
        is_word(weekday),
        are_gaps(gaps, 5),
    ensures
        utc_epoch(spaced(ctime_words(weekday, epoch), gaps)) == Some(epoch),
{
    let date = date_of(epoch / 86_400);
    let fields = ctime_words(weekday, epoch);
    law_every_day_has_its_date(epoch / 86_400);
    lemma_month_reads_back(date.month);
    lemma_clock_reads_back(epoch % 86_400);
    lemma_number_reads_back(date.day as nat, u64::MAX as nat);
    lemma_number_reads_back(date.year as nat, i64::MAX as nat);
    assert(is_word(fields[2]) && is_word(fields[4]));
    law_words_read_back(fields, gaps);
    law_ctime_reads_back(spaced(fields, gaps), weekday, epoch);
}

/// A claim is dead exactly when its pid has no process, a zombie holds it,
/// another executable runs there, or the process started more than a second
/// before or after the claimed time. It is the instance when both starts are
/// known and no more than a second apart, and pid-only when one is missing.
pub proof fn law_a_recycled_pid_is_dead(
    table: Map<u32, RowView>,
    claim: ProcessInstance,
    expected_exe: Option<Seq<char>>,
)
    ensures
        ({
            let r = liveness(table, claim, expected_exe);
            let row = table[claim.pid];
            let gone = !table.contains_key(claim.pid) || row.state == 'Z';
            let other = match (expected_exe, row.exe) {
                (Some(expected), Some(seen)) => seen != expected && !(encode_utf8(seen).len() >= 15
                    && seen.is_prefix_of(expected)),
                _ => false,
            };
            let recycled = match (claim.pid_start, row.start) {
                (ProcessStart::At(claimed), ProcessStart::At(seen)) => claimed > seen + 1 || seen
                    > claimed + 1,
                _ => false,
            };
            let dated = claim.pid_start is At && row.start is At;
            &&& r is Dead <==> gone || other || recycled
            &&& r is Instance <==> !gone && !other && !recycled && dated
            &&& r is PidOnly <==> !gone && !other && !dated
            &&& r !is Unverifiable
        }),
{
    if table.contains_key(claim.pid) && expected_exe is Some && table[claim.pid].exe is Some {
        let seen = table[claim.pid].exe->0;
        let expected = expected_exe->0;
        assert(begins(expected, seen) == seen.is_prefix_of(expected)) by {
            if seen.len() <= expected.len() {
                assert(seen.is_prefix_of(expected) ==> expected.take(seen.len() as int) =~= seen);
            }
        }
    }
}

/// A death, or a pid that cannot be told from a recycled one, says why.
pub proof fn law_liveness_says_why(
    table: Map<u32, RowView>,
    claim: ProcessInstance,
    expected_exe: Option<Seq<char>>,
)
    ensures
        ({
            let r = liveness(table, claim, expected_exe);
            let row = table[claim.pid];
            let pid = "pid "@ + decimal(claim.pid as nat);
            &&& !table.contains_key(claim.pid) ==> r == LivenessView::Dead(
                pid + " has no process"@,
            )
            &&& table.contains_key(claim.pid) && row.state == 'Z' ==> r == LivenessView::Dead(
                pid + " is a zombie"@,
            )
            &&& table.contains_key(claim.pid) && row.state != 'Z' && (expected_exe is None
                || row.exe is None || expected_exe == row.exe) ==> {
                &&& r is Dead ==> r->Dead_0 == pid + " started at a different time than claimed"@
                &&& r is PidOnly ==> r->PidOnly_0 == pid
                    + " is live but its start time is unverifiable"@
            }
            &&& r is Dead && table.contains_key(claim.pid) && row.state != 'Z' && (
            claim.pid_start is Unavailable || row.start is Unavailable || claim.pid_start
                == row.start) ==> r->Dead_0 == pid + " runs `"@ + row.exe->0 + "`, not `"@
                + expected_exe->0 + "`"@
        }),
{
}

/// An elapsed time reads back as the seconds it was printed from: minutes and
/// seconds, hours to their left, days to the left of those.
pub proof fn law_elapsed_time_reads_back(days: nat, hours: nat, mins: nat, secs: nat)
    requires
        hours < 24,
        mins < 60,
        secs < 60,
        days * 86_400 + 86_399 <= u64::MAX,
    ensures
        elapsed(two_digits(mins).push(':') + two_digits(secs)) == Some(mins * 60 + secs),
        elapsed(
            two_digits(hours).push(':') + (two_digits(mins).push(':') + two_digits(secs)),
        ) == Some(hours * 3_600 + mins * 60 + secs),
        elapsed(
            decimal(days).push('-') + (two_digits(hours).push(':') + (two_digits(mins).push(':')
                + two_digits(secs))),
        ) == Some(days * 86_400 + hours * 3_600 + mins * 60 + secs),
{
    let h = two_digits(hours);
    let m = two_digits(mins);
    let s = two_digits(secs);
    let d = decimal(days);
    let short = m.push(':') + s;
    let clock = h.push(':') + short;
    let long = d.push('-') + clock;
    lemma_number_reads_back(hours, u64::MAX as nat);
    lemma_number_reads_back(mins, u64::MAX as nat);
    lemma_number_reads_back(secs, u64::MAX as nat);
    lemma_number_reads_back(days, u64::MAX as nat);
    assert(!h.contains(':') && !m.contains(':') && !s.contains(':'));
    lemma_first_piece(h, ':', short);
    lemma_first_piece(m, ':', s);
    lemma_first_piece(s, ':', seq![]);
    assert(pieces(short, ':') =~= seq![m, s]);
    assert(pieces(clock, ':') =~= seq![h, m, s]);
    assert(forall|i: int| 0 <= i < short.len() ==> short[i] != '-') by {
        assert forall|i: int| 0 <= i < short.len() implies short[i] != '-' by {
            if i < m.len() {
                assert(is_digit(m[i]));
            } else if i > m.len() {
                assert(is_digit(s[i - m.len() - 1]));
            }
        }
    }
    assert forall|i: int| 0 <= i < clock.len() implies clock[i] != '-' by {
        if i < h.len() {
            assert(is_digit(h[i]));
        } else if i > h.len() {
            assert(clock[i] == short[i - h.len() - 1]);
        }
    }
    assert forall|i: int| 0 <= i < d.len() implies long[i] != '-' by {
        assert(is_digit(d[i]));
    }
    lemma_find_is(short, '-', short.len() as int);
    lemma_find_is(clock, '-', clock.len() as int);
    lemma_find_is(long, '-', d.len() as int);
    assert(long.take(d.len() as int) =~= d);
    assert(long.skip(d.len() as int + 1) =~= clock);
}

/// A process started as long before the snapshot as it has run, in whole
/// seconds; a start before the epoch is no start.
pub proof fn law_start_is_the_snapshot_less_the_elapsed_time(now: nat, part: nat, run: nat)
    requires
        now <= u64::MAX,
        part < 1_000_000_000,
    ensures
        run <= now ==> started(
            Timestamp { nanos: (now * 1_000_000_000 + part) as i128 },
            run,
        ) == ProcessStart::At((now - run) as u64),
        run > now ==> started(
            Timestamp { nanos: (now * 1_000_000_000 + part) as i128 },
            run,
        ) is Unavailable,
{
    let left = now * 1_000_000_000 + part - run * 1_000_000_000;
    if run <= now {
        assert(left == (now - run) * 1_000_000_000 + part);
        assert(left / 1_000_000_000 == now - run);
    }
}

/// A listed process reads back field by field, whatever white space the
/// columns are set apart by: its pid and its parent's, its start, the first
/// letter of its state, its terminal, and its executable.
pub proof fn law_a_listed_process_reads_back(
    pid: u32,
    ppid: u32,
    etime: Seq<char>,
    stat: Seq<char>,
    tty: Seq<char>,
    comm: Seq<char>,
    gaps: Seq<Seq<char>>,
    taken: Timestamp,
)
    requires
        is_word(etime),
        is_word(stat),
        is_word(tty),
        is_word(comm),
        are_gaps(gaps, 6),
    ensures
        ({
            let line = spaced(
                seq![decimal(pid as nat), decimal(ppid as nat), etime, stat, tty, comm],
                gaps,
            );
            row_of(line, taken) matches Some(row) && {
                &&& row.pid == pid
                &&& row.ppid == ppid
                &&& row.start == match elapsed(etime) {
                    Some(secs) => started(taken, secs),
                    None => ProcessStart::Unavailable,
                }
                &&& row.state == stat[0]
                &&& row.tty == tty_path(tty)
                &&& row.exe == exe_name(comm)
            }
        }),
{
    let fields = seq![decimal(pid as nat), decimal(ppid as nat), etime, stat, tty, comm];
    let line = spaced(fields, gaps);
    lemma_number_reads_back(pid as nat, u32::MAX as nat);
    lemma_number_reads_back(ppid as nat, u32::MAX as nat);
    assert(is_word(fields[0]) && is_word(fields[1]));
    law_words_read_back(fields, gaps);
    assert(word_list(line) == fields);
    assert(fields.skip(5) =~= seq![comm]);
    reveal_with_fuel(joined, 2);
    assert(joined(seq![comm], " "@) =~= comm);
    lemma_trimmed_line(comm);
}

/// A terminal is a path below `/dev`, however `ps` prints it, and the three
/// marks for none are none.
pub proof fn law_terminals_are_device_paths(name: Seq<char>)
    requires
        name.len() > 0,
        name[0] != '/',
    ensures
        tty_path("/dev/"@ + name) == Some("/dev/"@ + name),
        name != "?"@ && name != "??"@ && name != "-"@ ==> tty_path(name) == Some(
            "/dev/"@ + name,
        ),
        tty_path("?"@) is None,
        tty_path("??"@) is None,
        tty_path("-"@) is None,
{
    reveal_strlit("/dev/");
    reveal_strlit("?");
    reveal_strlit("??");
    reveal_strlit("-");
    let path = "/dev/"@ + name;
    assert(path[0] == '/');
    assert("?"@[0] == '?' && "??"@[0] == '?' && "-"@[0] == '-');
    assert(path.take(5) =~= "/dev/"@);
    assert(!begins(name, "/dev/"@)) by {
        if begins(name, "/dev/"@) {
            assert(name.take(5)[0] == name[0]);
            assert("/dev/"@[0] == '/');
        }
    }
}

/// An executable goes by its basename, without the mark of a login shell; a
/// blank is no name.
pub proof fn law_executables_go_by_their_basename(dir: Seq<char>, name: Seq<char>)
    requires
        name.len() > 0,
        name[0] != '-',
        !name.contains('/'),
        name != "?"@,
        name != "??"@,
    ensures
        exe_name(name) == Some(name),
        exe_name(seq!['-'] + name) == Some(name),
        exe_name(dir.push('/') + name) == Some(name),
        exe_name(dir.push('/') + (seq!['-'] + name)) == Some(name),
        exe_name(dir.push('/')) is None,
        exe_name(seq![]) is None,
        exe_name("?"@) is None,
        exe_name("??"@) is None,
{
    reveal_strlit("-");
    reveal_strlit("?");
    reveal_strlit("??");
    assert("-"@ =~= seq!['-']);
    assert("?"@ =~= seq!['?']);
    assert("??"@ =~= seq!['?', '?']);
    let shell = seq!['-'] + name;
    assert(!shell.contains('/')) by {
        assert forall|i: int| 0 <= i < shell.len() implies shell[i] != '/' by {
            if i > 0 {
                assert(name.contains(name[i - 1]));
            }
        }
    }
    lemma_basename(dir, name);
    lemma_basename(dir, shell);
    lemma_basename(dir, seq![]);
    lemma_basename(dir, "?"@);
    lemma_basename(dir, "??"@);
    assert(dir.push('/') + Seq::<char>::empty() =~= dir.push('/'));
    assert(shell.take(1) =~= "-"@);
    assert(shell.skip(1) =~= name);
    assert(!begins(name, "-"@)) by {
        assert(name.take(1)[0] == name[0]);
    }
    assert(!begins("?"@, "-"@)) by {
        assert("?"@.take(1)[0] == '?');
    }
    assert(!begins("??"@, "-"@)) by {
        assert("??"@.take(1)[0] == '?');
    }
}

proof fn lemma_basename(dir: Seq<char>, name: Seq<char>)
    requires
        !name.contains('/'),
    ensures
        after_last(name, '/') == name,
        after_last(dir.push('/') + name, '/') == name,
{
    let path = dir.push('/') + name;
    assert forall|i: int| 0 <= i < name.len() implies name[i] != '/' by {
        assert(name.contains(name[i]));
    }
    assert forall|i: int| dir.len() < i < path.len() implies #[trigger] path[i] != '/' by {
        assert(path[i] == name[i - dir.len() - 1]);
    }
    lemma_after_last_is(path, '/', dir.len() as int);
    assert(path.skip(dir.len() as int + 1) =~= name);
    lemma_after_last(name, '/');
    assert(after_last(name, '/').len() == name.len());
    assert(name.skip(0) =~= name);
}

/// Every listed line that is a row is in the table under its pid, and nothing
/// else is; of two rows with one pid the one listed last stands.
#[verifier::rlimit(60)]
pub proof fn law_every_row_is_in_the_table(lines: Seq<Seq<char>>, taken: Timestamp, pid: u32)
    ensures
        ({
            let table = by_pid(rows_of(lines, taken));
            &&& table.contains_key(pid) <==> exists|i: int|
                0 <= i < lines.len() && is_row_of(#[trigger] lines[i], taken, pid)
            &&& forall|i: int|
                0 <= i < lines.len() && is_row_of(#[trigger] lines[i], taken, pid) && (
                forall|j: int|
                    i < j < lines.len() ==> !is_row_of(#[trigger] lines[j], taken, pid))
                    ==> table[pid] == row_of(lines[i], taken)->0
        }),
    decreases lines.len(),
{
    let table = by_pid(rows_of(lines, taken));
    if lines.len() > 0 {
        let before = lines.drop_last();
        let last = lines.len() - 1;
        law_every_row_is_in_the_table(before, taken, pid);
        let rows = rows_of(before, taken);
        if row_of(lines[last], taken) is Some {
            let row = row_of(lines[last], taken)->0;
            assert(rows.push(row).drop_last() =~= rows);
            assert(table == by_pid(rows).insert(row.pid, row));
        }
        assert(forall|i: int| 0 <= i < before.len() ==> before[i] == lines[i]);
        if table.contains_key(pid) && !is_row_of(lines[last], taken, pid) {
            let i = choose|i: int|
                0 <= i < before.len() && is_row_of(#[trigger] before[i], taken, pid);
            assert(is_row_of(lines[i], taken, pid));
        }
        if exists|i: int| 0 <= i < lines.len() && is_row_of(#[trigger] lines[i], taken, pid) {
            let i = choose|i: int|
                0 <= i < lines.len() && is_row_of(#[trigger] lines[i], taken, pid);
            if i < last {
                assert(is_row_of(before[i], taken, pid));
            }
        }
        assert forall|i: int|
            0 <= i < lines.len() && is_row_of(#[trigger] lines[i], taken, pid) && (forall|j: int|
                i < j < lines.len() ==> !is_row_of(
                    #[trigger] lines[j],
                    taken,
                    pid,
                )) implies table[pid] == row_of(lines[i], taken)->0 by {
            if i < last {
                assert(!is_row_of(lines[last], taken, pid));
                assert(is_row_of(before[i], taken, pid));
                assert forall|j: int| i < j < before.len() implies !is_row_of(
                    #[trigger] before[j],
                    taken,
                    pid,
                ) by {
                    assert(!is_row_of(lines[j], taken, pid));
                }
                assert(by_pid(rows)[pid] == row_of(before[i], taken)->0);
            }
        }
    }
}

/// The line is a row of the process `pid`.
pub open spec fn is_row_of(line: Seq<char>, taken: Timestamp, pid: u32) -> bool {
    row_of(line, taken) matches Some(row) && row.pid == pid
}

/// The walk up the ancestors ends only where it must: at a process without a
/// parent in the table, at one that is its own parent, or before a pid that
/// it has been at.
pub proof fn law_ancestry_ends_at_the_root(table: Map<u32, RowView>, pid: u32)
    requires
        table.dom().finite(),
        table.contains_key(pid),
    ensures
        ({
            let chain = ancestry(table, pid);
            let parent = table[chain.last()].ppid;
            chain.len() > 0 && (!table.contains_key(parent) || chain.contains(parent))
        }),
    decreases table.dom().len(),
{
    law_ancestry_climbs(table, pid);
    let chain = ancestry(table, pid);
    if table[pid].ppid == pid {
        assert(chain[0] == pid);
    } else {
        let rest = table.remove(pid);
        let up = table[pid].ppid;
        let tail = ancestry(rest, up);
        assert(chain =~= seq![pid] + tail);
        if rest.contains_key(up) {
            law_ancestry_ends_at_the_root(rest, up);
            law_ancestry_climbs(rest, up);
            assert(chain.last() == tail.last());
            assert(rest.contains_key(tail[tail.len() - 1]));
            let parent = rest[tail.last()].ppid;
            if tail.contains(parent) {
                let i = choose|i: int| 0 <= i < tail.len() && tail[i] == parent;
                assert(chain[i + 1] == parent);
            } else if table.contains_key(parent) {
                assert(parent == pid);
                assert(chain[0] == pid);
            }
        } else {
            assert(tail.len() == 0);
            assert(chain.last() == pid);
        }
    }
}

/// A listed process is known by the basename of its whole command, spaces and
/// all, and has none where no command is listed. A line with fewer columns, or
/// without the two pids, is no process.
pub proof fn law_a_command_keeps_its_spaces(
    pid: u32,
    ppid: u32,
    lead: Seq<Seq<char>>,
    comm: Seq<Seq<char>>,
    gaps: Seq<Seq<char>>,
    taken: Timestamp,
)
    requires
        forall|i: int| 0 <= i < lead.len() ==> is_word(#[trigger] lead[i]),
        forall|i: int| 0 <= i < comm.len() ==> is_word(#[trigger] comm[i]),
        are_gaps(gaps, (lead + comm).len()),
    ensures
        ({
            let line = spaced(lead + comm, gaps);
            &&& lead.len() == 5 && lead[0] == decimal(pid as nat) && lead[1] == decimal(ppid as nat)
                ==> row_of(line, taken) is Some && row_of(line, taken)->0.exe == exe_name(
                trimmed(joined(comm, " "@)),
            ) && row_of(line, taken)->0.pid == pid && row_of(line, taken)->0.ppid == ppid
            &&& lead.len() < 5 && comm.len() == 0 ==> row_of(line, taken) is None
            &&& lead.len() > 0 && !is_digit(lead[0][0]) && lead[0][0] != '+' ==> row_of(line, taken)
                is None
            &&& lead.len() > 1 && !is_digit(lead[1][0]) && lead[1][0] != '+' ==> row_of(line, taken)
                is None
        }),
{
    let fields = lead + comm;
    assert forall|i: int| 0 <= i < fields.len() implies is_word(#[trigger] fields[i]) by {
        if i < lead.len() {
            assert(is_word(lead[i]));
        } else {
            assert(is_word(comm[i - lead.len()]));
        }
    }
    law_words_read_back(fields, gaps);
    lemma_number_reads_back(pid as nat, u32::MAX as nat);
    lemma_number_reads_back(ppid as nat, u32::MAX as nat);
    assert(word_list(spaced(fields, gaps)) == fields);
    if lead.len() == 5 {
        assert(fields.skip(5) =~= comm);
        assert(fields[0] == lead[0] && fields[1] == lead[1]);
    }
    if lead.len() > 0 {
        assert(is_word(lead[0]) && fields[0] == lead[0]);
    }
    if lead.len() > 1 {
        assert(is_word(lead[1]) && fields[1] == lead[1]);
    }
}

}
