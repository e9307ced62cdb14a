//! Process evidence: `ps` parsing, start times, ancestry and liveness.

use agent_sessions::calendar::days_from_civil;
use agent_sessions::command::Output;
use agent_sessions::process::{
    exe_mismatch, normalize_exe, normalize_tty, parse_etime, parse_row, parse_utc_ctime,
    ps_command, start_from_elapsed, Error, Liveness, ProcessInstance, ProcessRow, ProcessStart,
    ProcessTable,
};
use agent_sessions::time::Timestamp;

fn row(pid: u32, ppid: u32) -> ProcessRow {
    ProcessRow {
        pid,
        ppid,
        start: ProcessStart::At(1_700_000_000),
        exe: Some("worker".to_owned()),
        tty: None,
        state: 'S',
    }
}

fn claim(pid: u32, pid_start: ProcessStart) -> ProcessInstance {
    ProcessInstance { pid, pid_start }
}

#[test]
fn start_times_compare_within_one_second() {
    let at = ProcessStart::At(1_000);
    assert_eq!(at.matches(&ProcessStart::At(1_001)), Some(true));
    assert_eq!(at.matches(&ProcessStart::At(999)), Some(true));
    assert_eq!(at.matches(&ProcessStart::At(1_002)), Some(false));
    assert_eq!(at.matches(&ProcessStart::Unavailable), None);
    assert_eq!(ProcessStart::Unavailable.matches(&at), None);
}

#[test]
fn etime_parses_every_ps_shape() {
    assert_eq!(parse_etime("00:07"), Some(7));
    assert_eq!(parse_etime("58:07"), Some(3_487));
    assert_eq!(parse_etime("02:03:04"), Some(7_384));
    assert_eq!(parse_etime("05-02:03:04"), Some(439_384));
    assert_eq!(parse_etime(""), None);
    assert_eq!(parse_etime("garbage"), None);
    assert_eq!(parse_etime("1:2:3:4"), None);
    assert_eq!(parse_etime("x-00:00"), None);
    // ps always prints at least `mm:ss`: a bare field is not an etime.
    assert_eq!(parse_etime("07"), None);
    assert_eq!(parse_etime("x:07"), None);
    // A tty that arrives already absolute keeps its path.
    assert_eq!(normalize_tty("/dev/pts/4").as_deref(), Some("/dev/pts/4"));
}

#[test]
fn an_elapsed_time_past_all_counting_is_none() {
    assert_eq!(parse_etime("18446744073709551615-00:00:00"), None);
    assert_eq!(parse_etime("00:18446744073709551615"), Some(u64::MAX));
}

#[test]
fn ps_rows_parse_and_normalize() {
    let taken = Timestamp::from_secs(1_000_000);
    let row =
        parse_row("  3091  3090 05-05:58:07 S+   ttys042  -/bin/zsh", taken).expect("a ps row");
    assert_eq!(row.pid, 3091);
    assert_eq!(row.ppid, 3090);
    // 5 days, 5:58:07 = 453_487 s before the snapshot.
    assert_eq!(row.start, ProcessStart::At(1_000_000 - 453_487));
    assert_eq!(row.state, 'S');
    assert_eq!(row.tty.as_deref(), Some("/dev/ttys042"));
    assert_eq!(row.exe.as_deref(), Some("zsh"));

    let full_path = parse_row("  1     0 38-23:29:04 Ss   ??       /sbin/launchd", taken).unwrap();
    assert_eq!(full_path.tty, None);
    assert_eq!(full_path.exe.as_deref(), Some("launchd"));
    assert!(!full_path.is_zombie());

    let zombie = parse_row("  5     1 00:00 Z    ?       <defunct>", taken).unwrap();
    assert!(zombie.is_zombie());
    assert_eq!(zombie.exe.as_deref(), Some("<defunct>"));

    // A missing command column and a nonsense line both fail cleanly.
    let bare = parse_row("  9     1 00:01 S    -", taken).unwrap();
    assert_eq!(bare.exe, None);
    assert_eq!(bare.tty, None);
    assert!(parse_row("not a process row", taken).is_none());
    assert!(parse_row("", taken).is_none());
    // A row whose pid or ppid does not parse is not a process row.
    for bad in ["  x     1 00:01 S    ttys0  zsh", "  9     x 00:01 S    ttys0  zsh"] {
        assert!(parse_row(bad, taken).is_none(), "{bad}");
    }
    // An unparseable etime keeps the row with an unavailable start: the pid
    // is observably live, so it is pid-only evidence, not a dead one.
    let undated = parse_row("  9     1 xx:xx S    ttys0  zsh", taken).unwrap();
    assert_eq!(undated.start, ProcessStart::Unavailable);
    let table = ProcessTable::from_rows(vec![undated]);
    let claim = ProcessInstance { pid: 9, pid_start: ProcessStart::At(1_000_000) };
    assert!(matches!(table.is_live(&claim, None), Liveness::PidOnly(_)));
}

#[test]
fn names_and_terminals_are_normalized() {
    assert_eq!(normalize_exe("/usr/bin/my tool").as_deref(), Some("my tool"));
    assert_eq!(normalize_exe("-zsh").as_deref(), Some("zsh"));
    assert_eq!(normalize_exe("??"), None);
    assert_eq!(normalize_exe(""), None);
    assert_eq!(normalize_tty("pts/3").as_deref(), Some("/dev/pts/3"));
    assert_eq!(normalize_tty("?"), None);
}

#[test]
fn a_start_before_the_epoch_is_unavailable() {
    let taken = Timestamp { nanos: 5_900_000_000 };
    assert_eq!(start_from_elapsed(taken, 3), ProcessStart::At(2));
    assert_eq!(start_from_elapsed(taken, 6), ProcessStart::Unavailable);
}

#[test]
fn an_estimated_start_is_inside_the_window() {
    // Started at 1.9 s, seen at 11.2 s: 9.3 s elapsed, which prints as 9.
    let start = start_from_elapsed(Timestamp { nanos: 11_200_000_000 }, 9);
    assert_eq!(start, ProcessStart::At(2));
    assert_eq!(start.matches(&ProcessStart::At(1)), Some(true));
}

#[test]
fn utc_ctime_parses_to_epoch() {
    // 2026-09-22 16:18:53 UTC.
    assert_eq!(parse_utc_ctime("Tue Sep 22 16:18:53 2026"), Some(1_790_093_933));
    // A provider may pad the day; a weekday is not verified.
    assert_eq!(parse_utc_ctime("Mon  Sep  1 00:00:00 2025"), Some(1_756_684_800));
    // January exercises the civil-date wrap.
    assert_eq!(parse_utc_ctime("Thu Jan 1 00:00:00 2026"), Some(1_767_225_600));
    for bad in [
        "",
        "Sep 22 16:18:53 2026",
        "Tue Sep 22 16:18:53",
        "Tue Foo 22 16:18:53 2026",
        "Tue Sep 0 16:18:53 2026",
        "Tue Sep 32 16:18:53 2026",
        "Tue Sep 22 25:18:53 2026",
        "Tue Sep 22 16:18:53:9 2026",
        "Tue Sep x 16:18:53 2026",
        "Tue Sep 22 x:18:53 2026",
        "Tue Sep 22 16:x:53 2026",
        "Tue Sep 22 16:18:x 2026",
        "Tue Sep 22 16:18:53 x",
        // Short times: a minute or hour is not a ctime.
        "Tue Sep 22 16 2026",
        "Tue Sep 22 16:18 2026",
        // Before the epoch: parses but cannot be an instance stamp.
        "Thu Jan 1 00:00:00 1900",
        "Thu Jan 1 00:00:00 0",
    ] {
        assert_eq!(parse_utc_ctime(bad), None, "{bad}");
    }
    // A year no epoch reaches is none, too.
    assert_eq!(parse_utc_ctime("Thu Jan 1 00:00:00 9223372036854775807"), None);
    assert_eq!(parse_utc_ctime("Thu Jan 1 00:00:00 -9223372036854775808"), None);
}

#[test]
fn civil_dates_are_numbered_from_the_epoch() {
    assert_eq!(days_from_civil(1970, 1, 1), 0);
    assert_eq!(days_from_civil(1969, 12, 31), -1);
    assert_eq!(days_from_civil(2000, 2, 29) + 1, days_from_civil(2000, 3, 1));
    assert_eq!(days_from_civil(1900, 2, 28) + 1, days_from_civil(1900, 3, 1));
    assert_eq!(days_from_civil(2024, 12, 31) + 1, days_from_civil(2025, 1, 1));
    assert_eq!(days_from_civil(0, 3, 1), -719_468);
}

#[test]
fn process_errors_describe_their_argv() {
    let err = Error {
        argv: "ps".to_owned(),
        code: Some(1),
        detail: "no such field".to_owned(),
    };
    assert_eq!(err.to_string(), "`ps` exited 1: no such field");
    let err = Error { argv: "ps".to_owned(), code: None, detail: "spawn failed".to_owned() };
    assert_eq!(err.to_string(), "`ps`: spawn failed");
}

#[test]
fn a_snapshot_reads_the_table() {
    let stdout = "    1     0 10-00:00:00 Ss   ?        /sbin/init\n\
                  garbage\n\
                  \x20  40     1 00:05 S    pts/1    -bash\n\
                  \x20  41    40 00:04 S    pts/1    sleep\n\
                  \x20  41    40 00:03 S    pts/1    later\n";
    let reply = Ok(Output {
        code: Some(0),
        stdout: stdout.to_owned(),
        stderr: String::new(),
    });
    let table = ProcessTable::snapshot(&reply, Timestamp::from_secs(2_000_000)).expect("a table");
    assert_eq!(table.get(40).unwrap().exe.as_deref(), Some("bash"));
    // Of two rows with one pid the later stands.
    assert_eq!(table.get(41).unwrap().exe.as_deref(), Some("later"));
    assert_eq!(table.ancestors(41), [41, 40, 1]);
    let bogus = 4_000_000;
    assert!(table.get(bogus).is_none());
    assert!(table.ancestors(bogus).is_empty());
    let mut pids: Vec<u32> = table.rows().iter().map(|row| row.pid).collect();
    pids.sort_unstable();
    assert_eq!(pids, [1, 40, 41]);
}

#[test]
fn a_failed_snapshot_says_how() {
    let failed = Ok(Output {
        code: Some(2),
        stdout: String::new(),
        stderr: " bad field \n".to_owned(),
    });
    let err = ProcessTable::snapshot(&failed, Timestamp::from_secs(0)).unwrap_err();
    assert_eq!(
        err.to_string(),
        "`ps -A -o pid=,ppid=,etime=,stat=,tty=,comm=` exited 2: bad field"
    );
    let err = ProcessTable::snapshot(&Err("no ps".to_owned()), Timestamp::from_secs(0)).unwrap_err();
    assert_eq!((err.code, err.detail.as_str()), (None, "no ps"));
}

#[test]
fn ps_is_asked_for_every_process_in_one_locale() {
    let command = ps_command();
    assert_eq!(command.program, "ps");
    assert_eq!(command.args, ["-A", "-o", "pid=,ppid=,etime=,stat=,tty=,comm="]);
    assert_eq!(command.set, [("LC_ALL".to_owned(), "C".to_owned())]);
    assert!(command.removed.is_empty());
}

#[test]
fn a_cycle_or_a_missing_parent_ends_the_walk() {
    let table = ProcessTable::from_rows(vec![row(1, 1), row(5, 7), row(6, 5), row(7, 6)]);
    assert_eq!(table.ancestors(5), [5, 7, 6]);
    assert_eq!(table.ancestors(1), [1]);
    let table = ProcessTable::from_rows(vec![row(9, 8)]);
    assert_eq!(table.ancestors(9), [9]);
    assert!(table.ancestors(8).is_empty());
}

#[test]
fn liveness_proves_and_rejects() {
    let start = ProcessStart::At(1_700_000_000);
    let table = ProcessTable::from_rows(vec![
        row(11, 1),
        ProcessRow { exe: None, ..row(12, 1) },
    ]);
    assert_eq!(table.is_live(&claim(11, start), None), Liveness::Instance);
    // A pid-only claim is pid-only evidence.
    assert_eq!(
        table.is_live(&claim(11, ProcessStart::Unavailable), None),
        Liveness::PidOnly("pid 11 is live but its start time is unverifiable".to_owned())
    );
    // A wrong start time is a different instance, not a weak one.
    assert_eq!(
        table.is_live(&claim(11, ProcessStart::At(1_700_003_600)), None),
        Liveness::Dead("pid 11 started at a different time than claimed".to_owned())
    );
    // A wrong expected executable rejects; the right one passes, and an
    // executable the platform cannot report degrades the check to start-time
    // evidence alone.
    assert_eq!(
        table.is_live(&claim(11, start), Some("other")),
        Liveness::Dead("pid 11 runs `worker`, not `other`".to_owned())
    );
    assert_eq!(table.is_live(&claim(11, start), Some("worker")), Liveness::Instance);
    assert_eq!(table.is_live(&claim(12, start), Some("other")), Liveness::Instance);
    // A basename that is only a platform-truncated prefix of the expected
    // name proves nothing: the check falls through to the start time.
    let truncated = ProcessTable::from_rows(vec![ProcessRow {
        exe: Some("provider-with-l".to_owned()),
        ..row(13, 1)
    }]);
    assert_eq!(
        truncated.is_live(&claim(13, start), Some("provider-with-long-name")),
        Liveness::Instance
    );
    // A same-cap basename that is not a prefix is still a proven mismatch.
    let live = truncated.is_live(&claim(13, start), Some("provider-with-x"));
    assert!(matches!(live, Liveness::Dead(_)));
    // A dead pid is dead.
    assert_eq!(
        table.is_live(&claim(4_000_000, ProcessStart::Unavailable), None),
        Liveness::Dead("pid 4000000 has no process".to_owned())
    );
}

#[test]
fn a_truncated_name_is_measured_in_bytes() {
    // Eight two-byte letters are sixteen bytes: long enough to be cut short.
    assert!(!exe_mismatch("éééééééé-tool", "éééééééé"));
    assert!(exe_mismatch("ééééééé-tool", "ééééééé"));
    assert!(!exe_mismatch("same", "same"));
}

#[test]
fn a_zombie_is_dead_evidence() {
    let table = ProcessTable::from_rows(vec![ProcessRow { state: 'Z', ..row(21, 1) }]);
    let live = table.is_live(&claim(21, ProcessStart::Unavailable), None);
    assert_eq!(live, Liveness::Dead("pid 21 is a zombie".to_owned()));
    assert!(!live.may_be_live());
    assert!(Liveness::Unverifiable("no table".to_owned()).may_be_live());
    assert!(Liveness::PidOnly(String::new()).may_be_live());
    assert!(Liveness::Instance.may_be_live());
}

/// `epoch` rendered as the UTC ctime shape providers publish, the exact inverse
/// of the parser.
fn epoch_to_utc_ctime(epoch: u64) -> String {
    const MONTHS: [&str; 12] =
        ["Jan", "Feb", "Mar", "Apr", "May", "Jun", "Jul", "Aug", "Sep", "Oct", "Nov", "Dec"];
    const WEEKDAYS: [&str; 7] = ["Sun", "Mon", "Tue", "Wed", "Thu", "Fri", "Sat"];
    let secs = epoch % 86_400;
    let z = (epoch / 86_400) as i64 + 719_468;
    let era = if z >= 0 { z } else { z - 146_096 } / 146_097;
    let doe = z - era * 146_097;
    let yoe = (doe - doe / 1_460 + doe / 36_524 - doe / 146_096) / 365;
    let doy = doe - (365 * yoe + yoe / 4 - yoe / 100);
    let mp = (5 * doy + 2) / 153;
    let day = doy - (153 * mp + 2) / 5 + 1;
    let month = if mp < 10 { mp + 3 } else { mp - 9 };
    let year = yoe + era * 400 + i64::from(month <= 2);
    format!(
        "{} {} {} {:02}:{:02}:{:02} {}",
        WEEKDAYS[(z - 719_468 + 4).rem_euclid(7) as usize],
        MONTHS[(month - 1) as usize],
        day,
        secs / 3_600,
        (secs / 60) % 60,
        secs % 60,
        year
    )
}

#[test]
fn published_starts_round_trip() {
    for epoch in [0, 59, 86_399, 951_782_400, 1_709_164_800, 1_790_093_933, 4_107_542_399] {
        let ctime = epoch_to_utc_ctime(epoch);
        assert_eq!(parse_utc_ctime(&ctime), Some(epoch), "{ctime} round-trips");
    }
}

#[test]
fn published_starts_round_trip_in_every_month() {
    // Every day of a leap century year, a leap year and a common year.
    for first in [946_684_800, 1_704_067_200, 1_735_689_600] {
        for day in 0..366 {
            let epoch = first + day * 86_400 + 43_261;
            let ctime = epoch_to_utc_ctime(epoch);
            assert_eq!(parse_utc_ctime(&ctime), Some(epoch), "{ctime} round-trips");
        }
    }
    assert_eq!(epoch_to_utc_ctime(951_782_400), "Tue Feb 29 00:00:00 2000");
    for epoch in [1 << 40, u64::MAX] {
        let ctime = epoch_to_utc_ctime(epoch);
        assert_eq!(parse_utc_ctime(&ctime), Some(epoch), "{ctime} round-trips");
    }
}

#[test]
fn published_starts_round_trip_with_any_blanks() {
    for epoch in [0, 951_782_400, 1_709_164_800, 1_790_093_933] {
        let ctime = epoch_to_utc_ctime(epoch);
        for gap in ["  ", "\t", " \u{a0} ", "\r\n"] {
            let text = format!("{gap}{}{gap}", ctime.replace(' ', gap));
            assert_eq!(parse_utc_ctime(&text), Some(epoch), "{text:?} round-trips");
        }
        let (_, rest) = ctime.split_once(' ').unwrap();
        assert_eq!(parse_utc_ctime(&format!("someday {rest}")), Some(epoch));
    }
}
