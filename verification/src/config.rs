//! Authored configuration: an optional TOML file, `AGENT_SESSIONS_*`
//! environment overrides and built-in defaults. The environment wins over the
//! file, and the file over the defaults.
//!
//! Nothing here is required to run; a missing file is the normal case and a
//! malformed one is reported, not fatal.

use vstd::prelude::*;
use vstd::string::*;

use crate::command::answers;
use crate::path::{below, join, law_names_go_below_their_base};
use crate::text::{
    chars_of, decimal, is_digit, is_word, lemma_decimal_reads_back, lemma_trimmed_line, parse_u64,
    print_u64, quote, quoted, same, text_of, trim, trim_left, trim_right, trimmed, unsigned,
    unsigned_digits,
};
use crate::time::Duration;

verus! {

/// Unfinished work with no live process enters `Forgotten` after this much
/// time without meaningful activity, in seconds: a fortnight.
pub const DEFAULT_FORGOTTEN_SECS: u64 = 14 * 24 * 60 * 60;

#[derive(Debug, PartialEq, Eq, Structural)]
pub struct Config {
    pub forgotten_after: Duration,
}

impl Config {
    /// The built-in configuration.
    pub open spec fn built_in() -> Config {
        Config { forgotten_after: Duration::of_secs(DEFAULT_FORGOTTEN_SECS as nat) }
    }
}

impl Default for Config {
    fn default() -> (r: Config)
        ensures
            r == Config::built_in(),
    {
        Config { forgotten_after: Duration::from_secs(DEFAULT_FORGOTTEN_SECS) }
    }
}

/// The configuration that was resolved plus anything the user should hear
/// once. A warning never fails a load: the defaults stay in effect for the
/// parts that could not be read.
#[derive(Debug)]
pub struct Loaded {
    pub config: Config,
    pub warnings: Vec<String>,
}

/// The value of a [`Loaded`], with its text as characters.
pub struct LoadedView {
    pub config: Config,
    pub warnings: Seq<Seq<char>>,
}

impl DeepView for Loaded {
    type V = LoadedView;

    open spec fn deep_view(&self) -> LoadedView {
        LoadedView { config: self.config, warnings: self.warnings.deep_view() }
    }
}

// ---------------------------------------------------------------------------
// Durations
// ---------------------------------------------------------------------------

/// How many seconds a unit stands for.
pub open spec fn unit_secs(unit: char) -> Option<nat> {
    if unit == 's' {
        Some(1)
    } else if unit == 'm' {
        Some(60)
    } else if unit == 'h' {
        Some(3_600)
    } else if unit == 'd' {
        Some(86_400)
    } else {
        None
    }
}

/// `<n><unit>` with `s`, `m`, `h` or `d`, in seconds; none where it is anything
/// else or more than a count of seconds holds.
pub open spec fn duration_secs(text: Seq<char>) -> Option<nat> {
    let text = trimmed(text);
    if text.len() == 0 {
        None
    } else {
        match (unit_secs(text.last()), unsigned(text.drop_last(), u64::MAX as nat)) {
            (Some(secs), Some(n)) => if n * secs <= u64::MAX {
                Some(n * secs)
            } else {
                None
            },
            _ => None,
        }
    }
}

/// What is said of a text that is not a duration.
pub open spec fn not_a_duration(text: Seq<char>) -> Seq<char> {
    "`"@ + trimmed(text) + "` is not a duration: use <n><unit> with s, m, h or d"@
}

/// What a duration text gives: the duration, or why it is none.
pub open spec fn duration_of(text: Seq<char>) -> Result<Duration, Seq<char>> {
    match duration_secs(text) {
        Some(secs) => Ok(Duration::of_secs(secs)),
        None => Err(not_a_duration(text)),
    }
}

fn invalid(text: &str) -> (r: String)
    ensures
        r@ == "`"@ + text@ + "` is not a duration: use <n><unit> with s, m, h or d"@,
{
    let mut out = "`".to_owned();
    out.append(text);
    out.append("` is not a duration: use <n><unit> with s, m, h or d");
    out
}

/// `<n><unit>` with `s`, `m`, `h` or `d` - the one spelling the config file
/// and the `age:<duration>` list filter share.
pub fn parse_duration(text: &str) -> (r: Result<Duration, String>)
    ensures
        match r {
            Ok(duration) => duration_of(text@) == Ok::<Duration, Seq<char>>(duration),
            Err(reason) => duration_of(text@) == Err::<Duration, Seq<char>>(reason@),
        },
{
    let text = trim(text);
    let chars = chars_of(text.as_str());
    if chars.len() == 0 {
        return Err(invalid(text.as_str()));
    }
    // The unit is a character, not a trailing byte: a multi-byte tail is
    // malformed input like any other.
    let unit = chars[chars.len() - 1];
    let multiplier: u64 = if unit == 's' {
        1
    } else if unit == 'm' {
        60
    } else if unit == 'h' {
        3_600
    } else if unit == 'd' {
        86_400
    } else {
        return Err(invalid(text.as_str()));
    };
    let digits = text_of(&chars, 0, chars.len() - 1);
    assert(digits@ =~= text@.drop_last());
    match parse_u64(digits.as_str()) {
        Some(n) => match n.checked_mul(multiplier) {
            Some(secs) => Ok(Duration::from_secs(secs)),
            None => Err(invalid(text.as_str())),
        },
        None => Err(invalid(text.as_str())),
    }
}

/// The shortest spelling of a number of seconds in one unit.
pub open spec fn duration_text(secs: nat) -> Seq<char> {
    if secs >= 86_400 && secs % 86_400 == 0 {
        decimal(secs / 86_400) + "d"@
    } else if secs >= 3_600 && secs % 3_600 == 0 {
        decimal(secs / 3_600) + "h"@
    } else if secs >= 60 && secs % 60 == 0 {
        decimal(secs / 60) + "m"@
    } else {
        decimal(secs) + "s"@
    }
}

/// The inverse of [`parse_duration`], for messages that name a duration back.
/// A part of a second is dropped.
pub fn format_duration(duration: Duration) -> (r: String)
    ensures
        r@ == duration_text(duration.secs as nat),
{
    let seconds: u64 = duration.secs;
    if seconds >= 86_400 && seconds % 86_400 == 0 {
        let mut out = print_u64(seconds / 86_400);
        out.append("d");
        out
    } else if seconds >= 3_600 && seconds % 3_600 == 0 {
        let mut out = print_u64(seconds / 3_600);
        out.append("h");
        out
    } else if seconds >= 60 && seconds % 60 == 0 {
        let mut out = print_u64(seconds / 60);
        out.append("m");
        out
    } else {
        let mut out = print_u64(seconds);
        out.append("s");
        out
    }
}

// ---------------------------------------------------------------------------
// Locations
// ---------------------------------------------------------------------------

/// `env` may be asked for any variable.
pub open spec fn accepts_names<E: Fn(&str) -> Option<String>>(env: E) -> bool {
    forall|name: &str| #[trigger] call_requires(env, (name,))
}

/// `value` is what `env` may say of the variable `name`.
pub open spec fn env_says<E: Fn(&str) -> Option<String>>(
    env: E,
    name: Seq<char>,
    value: Option<String>,
) -> bool {
    exists|n: &str| n@ == name && #[trigger] call_ensures(env, (n,), value)
}

/// The configuration file below its base directory.
pub open spec fn config_file(base: Seq<char>) -> Seq<char> {
    below(below(base, "agent-sessions"@), "config.toml"@)
}

/// Where a directory stands: the one its own variable names, or one below the
/// home directory when that variable is unset.
pub open spec fn base_dir(
    own: Option<Seq<char>>,
    home: Option<Seq<char>>,
    below_home: spec_fn(Seq<char>) -> Seq<char>,
) -> Option<Seq<char>> {
    match own {
        Some(dir) => Some(dir),
        None => match home {
            Some(home) => Some(below_home(home)),
            None => None,
        },
    }
}

/// The configuration file, from `$XDG_CONFIG_HOME` and `$HOME`.
pub open spec fn config_path(xdg: Option<Seq<char>>, home: Option<Seq<char>>) -> Option<
    Seq<char>,
> {
    match base_dir(xdg, home, |home: Seq<char>| below(home, ".config"@)) {
        Some(base) => Some(config_file(base)),
        None => None,
    }
}

/// The state directory, from `$XDG_STATE_HOME` and `$HOME`.
pub open spec fn state_path(xdg: Option<Seq<char>>, home: Option<Seq<char>>) -> Option<Seq<char>> {
    match base_dir(xdg, home, |home: Seq<char>| below(below(home, ".local"@), "state"@)) {
        Some(base) => Some(below(base, "agent-sessions"@)),
        None => None,
    }
}

/// `path` is where the environment may be found to place the configuration
/// file: `$HOME` is asked only where `$XDG_CONFIG_HOME` is unset.
pub open spec fn finds_config<E: Fn(&str) -> Option<String>>(env: E, path: Option<Seq<char>>) -> (
    bool
) {
    exists|xdg: Option<String>|
        #[trigger] env_says(env, "XDG_CONFIG_HOME"@, xdg) && if xdg is Some {
            path == config_path(xdg.deep_view(), None)
        } else {
            exists|home: Option<String>|
                #[trigger] env_says(env, "HOME"@, home) && path == config_path(
                    None,
                    home.deep_view(),
                )
        }
}

/// `path` is where the environment may be found to place the state directory.
pub open spec fn finds_state<E: Fn(&str) -> Option<String>>(env: E, path: Option<Seq<char>>) -> (
    bool
) {
    exists|xdg: Option<String>|
        #[trigger] env_says(env, "XDG_STATE_HOME"@, xdg) && if xdg is Some {
            path == state_path(xdg.deep_view(), None)
        } else {
            exists|home: Option<String>|
                #[trigger] env_says(env, "HOME"@, home) && path == state_path(
                    None,
                    home.deep_view(),
                )
        }
}

impl Config {
    /// `$XDG_CONFIG_HOME/agent-sessions/config.toml`, falling back to
    /// `~/.config/agent-sessions/config.toml` when XDG is unset. `None` when
    /// neither variable can place it.
    pub fn path<E: Fn(&str) -> Option<String>>(env: &E) -> (r: Option<String>)
        requires
            accepts_names(*env),
        ensures
            finds_config(*env, r.deep_view()),
    {
        let xdg = env("XDG_CONFIG_HOME");
        assert(env_says(*env, "XDG_CONFIG_HOME"@, xdg));
        let base = match &xdg {
            Some(dir) => dir.clone(),
            None => {
                let home = env("HOME");
                assert(env_says(*env, "HOME"@, home));
                match &home {
                    Some(home) => join(home.as_str(), ".config"),
                    None => return None,
                }
            },
        };
        Some(join(join(base.as_str(), "agent-sessions").as_str(), "config.toml"))
    }

    /// `$XDG_STATE_HOME/agent-sessions/`, falling back to
    /// `~/.local/state/agent-sessions/`.
    pub fn state_dir<E: Fn(&str) -> Option<String>>(env: &E) -> (r: Option<String>)
        requires
            accepts_names(*env),
        ensures
            finds_state(*env, r.deep_view()),
    {
        let xdg = env("XDG_STATE_HOME");
        assert(env_says(*env, "XDG_STATE_HOME"@, xdg));
        let base = match &xdg {
            Some(dir) => dir.clone(),
            None => {
                let home = env("HOME");
                assert(env_says(*env, "HOME"@, home));
                match &home {
                    Some(home) => join(join(home.as_str(), ".local").as_str(), "state"),
                    None => return None,
                }
            },
        };
        Some(join(base.as_str(), "agent-sessions"))
    }
}

// ---------------------------------------------------------------------------
// The file
// ---------------------------------------------------------------------------

/// What the `toml` crate reads a text as: the keys of the top-level table in
/// its order, each with its value where that is a string, or why the text is
/// not TOML.
pub uninterp spec fn toml_entries(text: Seq<char>) -> Result<
    Seq<(Seq<char>, Option<Seq<char>>)>,
    Seq<char>,
>;

/// `<toml::Table as FromStr>::from_str`, each value as `toml::Value::as_str`
/// gives it. Nothing is claimed but that the outcome is the one named for the
/// text.
#[verifier::external_body]
fn table_entries(text: &str) -> (r: Result<Vec<(String, Option<String>)>, String>)
    ensures
        match r {
            Ok(entries) => toml_entries(text@) == Ok::<
                Seq<(Seq<char>, Option<Seq<char>>)>,
                Seq<char>,
            >(entries.deep_view()),
            Err(e) => toml_entries(text@) == Err::<
                Seq<(Seq<char>, Option<Seq<char>>)>,
                Seq<char>,
            >(e@),
        },
{
    match text.parse::<toml::Table>() {
        Ok(table) => {
            Ok(table.into_iter().map(|(k, v)| (k, v.as_str().map(str::to_owned))).collect())
        },
        Err(e) => Err(e.to_string()),
    }
}

/// What one entry of the file makes of the configuration. Unknown keys are
/// ignored so a file written for a newer release still loads under this one.
pub open spec fn with_entry(config: Config, entry: (Seq<char>, Option<Seq<char>>)) -> Result<
    Config,
    Seq<char>,
> {
    if entry.0 == "forgotten_after"@ {
        match entry.1 {
            Some(raw) => match duration_of(raw) {
                Ok(forgotten_after) => Ok(Config { forgotten_after }),
                Err(reason) => Err(reason),
            },
            None => Err("`forgotten_after` must be a duration string like \"14d\""@),
        }
    } else {
        Ok(config)
    }
}

/// What the entries of the file make of the built-in configuration, one after
/// the other; the first that is malformed fails them all.
pub open spec fn with_entries(entries: Seq<(Seq<char>, Option<Seq<char>>)>) -> Result<
    Config,
    Seq<char>,
>
    decreases entries.len(),
{
    if entries.len() == 0 {
        Ok(Config::built_in())
    } else {
        match with_entries(entries.drop_last()) {
            Ok(config) => with_entry(config, entries.last()),
            Err(reason) => Err(reason),
        }
    }
}

/// What the text of the file gives.
pub open spec fn file_config(text: Seq<char>) -> Result<Config, Seq<char>> {
    match toml_entries(text) {
        Ok(entries) => with_entries(entries),
        Err(e) => Err(e),
    }
}

impl Config {
    /// The configuration that the entries of a file make.
    pub fn from_entries(entries: &Vec<(String, Option<String>)>) -> (r: Result<Config, String>)
        ensures
            match r {
                Ok(config) => with_entries(entries.deep_view()) == Ok::<Config, Seq<char>>(config),
                Err(reason) => with_entries(entries.deep_view()) == Err::<Config, Seq<char>>(
                    reason@,
                ),
            },
    {
        let ghost all = entries.deep_view();
        let mut config = Config::default();
        let mut i: usize = 0;
        while i < entries.len()
            invariant
                i <= entries@.len(),
                all == entries.deep_view(),
                with_entries(all.take(i as int)) == Ok::<Config, Seq<char>>(config),
            decreases entries@.len() - i,
        {
            let entry = &entries[i];
            assert(all.take(i + 1).drop_last() =~= all.take(i as int));
            assert(all.take(i + 1).last() == entries@[i as int].deep_view());
            if same(entry.0.as_str(), "forgotten_after") {
                let parsed = match &entry.1 {
                    Some(raw) => parse_duration(raw.as_str()),
                    None => Err(
                        "`forgotten_after` must be a duration string like \"14d\"".to_owned(),
                    ),
                };
                match parsed {
                    Ok(duration) => {
                        config = Config { forgotten_after: duration };
                    },
                    Err(reason) => {
                        proof {
                            lemma_entries_fail(all, i + 1, reason@);
                        }
                        return Err(reason);
                    },
                }
            }
            i += 1;
        }
        assert(all.take(i as int) =~= all);
        Ok(config)
    }

    /// The configuration that the text of a file gives.
    pub fn parse(text: &str) -> (r: Result<Config, String>)
        ensures
            match r {
                Ok(config) => file_config(text@) == Ok::<Config, Seq<char>>(config),
                Err(reason) => file_config(text@) == Err::<Config, Seq<char>>(reason@),
            },
    {
        match table_entries(text) {
            Ok(entries) => Config::from_entries(&entries),
            Err(e) => Err(e),
        }
    }
}

/// A malformed entry fails the file, whatever follows it.
proof fn lemma_entries_fail(
    entries: Seq<(Seq<char>, Option<Seq<char>>)>,
    n: int,
    reason: Seq<char>,
)
    requires
        0 <= n <= entries.len(),
        with_entries(entries.take(n)) == Err::<Config, Seq<char>>(reason),
    ensures
        with_entries(entries) == Err::<Config, Seq<char>>(reason),
    decreases entries.len(),
{
    if n == entries.len() {
        assert(entries.take(n) =~= entries);
    } else {
        assert(entries.drop_last().take(n) =~= entries.take(n));
        lemma_entries_fail(entries.drop_last(), n, reason);
    }
}

// ---------------------------------------------------------------------------
// Loading
// ---------------------------------------------------------------------------

/// What reading a file comes to.
#[derive(Debug)]
pub enum FileText {
    Text(String),
    /// There is no such file, which is the normal case.
    Missing,
    /// It is there and cannot be read, and why.
    Failed(String),
}

/// What a file that could not be used is reported as.
pub open spec fn file_warning(path: Seq<char>, reason: Seq<char>) -> Seq<char> {
    path + ": "@ + reason + "; using defaults"@
}

/// The configuration after the file: the defaults stay in effect where it is
/// missing, and, with a warning, where it cannot be used.
pub open spec fn after_file(path: Seq<char>, file: FileText) -> LoadedView {
    match file {
        FileText::Text(text) => match file_config(text@) {
            Ok(config) => LoadedView { config, warnings: seq![] },
            Err(reason) => LoadedView {
                config: Config::built_in(),
                warnings: seq![file_warning(path, reason)],
            },
        },
        FileText::Missing => LoadedView { config: Config::built_in(), warnings: seq![] },
        FileText::Failed(e) => LoadedView {
            config: Config::built_in(),
            warnings: seq![file_warning(path, e@)],
        },
    }
}

/// The configuration after the environment: an override wins over the file,
/// and one that is malformed is reported and changes nothing.
pub open spec fn after_env(loaded: LoadedView, value: Option<Seq<char>>) -> LoadedView {
    match value {
        None => loaded,
        Some(value) => match duration_of(value) {
            Ok(forgotten_after) => LoadedView { config: Config { forgotten_after }, ..loaded },
            Err(reason) => LoadedView {
                warnings: loaded.warnings.push(
                    "AGENT_SESSIONS_FORGOTTEN_AFTER="@ + quoted(value) + ": "@ + reason
                        + "; keeping "@ + duration_text(
                        loaded.config.forgotten_after.secs as nat,
                    ),
                ),
                ..loaded
            },
        },
    }
}

/// `loaded` is what the file may be found to give; without a place for it
/// there is none.
pub open spec fn finds_file<R: Fn(&String) -> FileText>(
    read: R,
    path: Option<Seq<char>>,
    loaded: LoadedView,
) -> bool {
    match path {
        None => loaded == (LoadedView { config: Config::built_in(), warnings: seq![] }),
        Some(path) => exists|file: FileText|
            #[trigger] answers(read, path, file) && loaded == after_file(path, file),
    }
}

/// `loaded` is what may be loaded: defaults, then the file, then the
/// environment.
pub open spec fn loads<E: Fn(&str) -> Option<String>, R: Fn(&String) -> FileText>(
    env: E,
    read: R,
    loaded: LoadedView,
) -> bool {
    exists|path: Option<Seq<char>>, file: LoadedView, value: Option<String>|
        {
            &&& #[trigger] finds_config(env, path)
            &&& #[trigger] finds_file(read, path, file)
            &&& #[trigger] env_says(env, "AGENT_SESSIONS_FORGOTTEN_AFTER"@, value)
            &&& loaded == after_env(file, value.deep_view())
        }
}

impl Loaded {
    fn defaults() -> (r: Loaded)
        ensures
            r.deep_view() == (LoadedView { config: Config::built_in(), warnings: seq![] }),
    {
        let r = Loaded { config: Config::default(), warnings: Vec::new() };
        assert(r.warnings.deep_view() =~= seq![]);
        r
    }

    /// The built-in configuration, and one warning.
    fn warned(path: &str, reason: &str) -> (r: Loaded)
        ensures
            r.deep_view() == (LoadedView {
                config: Config::built_in(),
                warnings: seq![file_warning(path@, reason@)],
            }),
    {
        let mut warning = path.to_owned();
        warning.append(": ");
        warning.append(reason);
        warning.append("; using defaults");
        let mut warnings: Vec<String> = Vec::new();
        warnings.push(warning);
        assert(warnings.deep_view() =~= seq![file_warning(path@, reason@)]);
        Loaded { config: Config::default(), warnings }
    }

    /// The configuration after the file at `path`.
    pub fn from_file(path: &str, file: &FileText) -> (r: Loaded)
        ensures
            r.deep_view() == after_file(path@, *file),
    {
        match file {
            FileText::Text(text) => match Config::parse(text.as_str()) {
                Ok(config) => {
                    let r = Loaded { config, warnings: Vec::new() };
                    assert(r.warnings.deep_view() =~= seq![]);
                    r
                },
                Err(reason) => Loaded::warned(path, reason.as_str()),
            },
            FileText::Missing => Loaded::defaults(),
            FileText::Failed(e) => Loaded::warned(path, e.as_str()),
        }
    }

    /// The configuration after the environment's override.
    pub fn override_with(self, value: Option<&str>) -> (r: Loaded)
        ensures
            r.deep_view() == after_env(self.deep_view(), value.deep_view()),
    {
        let Some(value) = value else {
            return self;
        };
        match parse_duration(value) {
            Ok(duration) => Loaded {
                config: Config { forgotten_after: duration },
                warnings: self.warnings,
            },
            Err(reason) => {
                let mut warning = "AGENT_SESSIONS_FORGOTTEN_AFTER=".to_owned();
                warning.append(quote(value).as_str());
                warning.append(": ");
                warning.append(reason.as_str());
                warning.append("; keeping ");
                warning.append(format_duration(self.config.forgotten_after).as_str());
                let ghost before = self.warnings.deep_view();
                let ghost one = warning@;
                let mut warnings = self.warnings;
                warnings.push(warning);
                assert(warnings.deep_view() =~= before.push(one));
                Loaded { config: self.config, warnings }
            },
        }
    }
}

impl Config {
    /// Resolve against an injected environment, so tests never touch process
    /// state: file location, override variables and `$HOME` all come from the
    /// same closure, and the file's text from `read`.
    pub fn load_with<E: Fn(&str) -> Option<String>, R: Fn(&String) -> FileText>(
        env: &E,
        read: &R,
    ) -> (r: Loaded)
        requires
            accepts_names(*env),
            forall|path: String| #[trigger] call_requires(*read, (&path,)),
        ensures
            loads(*env, *read, r.deep_view()),
    {
        let path = Config::path(env);
        let ghost place = path.deep_view();
        let loaded = match &path {
            Some(path) => {
                let file = read(path);
                assert(place == Some(path@));
                assert(answers(*read, place->0, file));
                let loaded = Loaded::from_file(path.as_str(), &file);
                assert(finds_file(*read, place, loaded.deep_view()));
                loaded
            },
            None => Loaded::defaults(),
        };
        assert(finds_file(*read, place, loaded.deep_view()));
        let value = env("AGENT_SESSIONS_FORGOTTEN_AFTER");
        assert(env_says(*env, "AGENT_SESSIONS_FORGOTTEN_AFTER"@, value));
        let given: Option<&str> = match &value {
            Some(value) => Some(value.as_str()),
            None => None,
        };
        assert(given.deep_view() == value.deep_view());
        loaded.override_with(given)
    }
}

// ---------------------------------------------------------------------------
// What configuration promises
// ---------------------------------------------------------------------------

proof fn lemma_trimmed_is_itself(s: Seq<char>)
    requires
        s.len() > 0,
        !crate::text::is_space(s[0]),
        !crate::text::is_space(s.last()),
    ensures
        trimmed(s) == s,
{
    assert(trim_left(s) == s);
    assert(trim_right(s) == s);
}

proof fn lemma_count_reads_back(count: nat, name: char, secs: nat)
    requires
        unit_secs(name) == Some(secs),
        count <= u64::MAX,
        count * secs <= u64::MAX,
    ensures
        duration_secs(decimal(count) + seq![name]) == Some(count * secs),
{
    let digits = decimal(count);
    let text = digits + seq![name];
    lemma_decimal_reads_back(count);
    assert(text[0] == digits[0]);
    lemma_trimmed_is_itself(text);
    assert(text.drop_last() =~= digits);
    assert(unsigned_digits(digits) == digits);
}

/// Formatting a duration and parsing it back gives its whole seconds: the two
/// are inverse.
pub proof fn law_durations_read_back(secs: nat)
    requires
        secs <= u64::MAX,
    ensures
        duration_secs(duration_text(secs)) == Some(secs),
        duration_of(duration_text(secs)) == Ok::<Duration, Seq<char>>(Duration::of_secs(secs)),
{
    reveal_strlit("d");
    reveal_strlit("h");
    reveal_strlit("m");
    reveal_strlit("s");
    assert("d"@ =~= seq!['d']);
    assert("h"@ =~= seq!['h']);
    assert("m"@ =~= seq!['m']);
    assert("s"@ =~= seq!['s']);
    if secs >= 86_400 && secs % 86_400 == 0 {
        assert(secs / 86_400 * 86_400 == secs);
        lemma_count_reads_back(secs / 86_400, 'd', 86_400);
    } else if secs >= 3_600 && secs % 3_600 == 0 {
        assert(secs / 3_600 * 3_600 == secs);
        lemma_count_reads_back(secs / 3_600, 'h', 3_600);
    } else if secs >= 60 && secs % 60 == 0 {
        assert(secs / 60 * 60 == secs);
        lemma_count_reads_back(secs / 60, 'm', 60);
    } else {
        lemma_count_reads_back(secs, 's', 1);
    }
}

/// The environment wins over the file, the file over the defaults.
pub proof fn law_precedence(path: Seq<char>, file: FileText, value: Option<Seq<char>>)
    ensures
        value is Some && duration_of(value->0) is Ok ==> after_env(
            after_file(path, file),
            value,
        ).config.forgotten_after == duration_of(value->0)->Ok_0,
        !(value is Some && duration_of(value->0) is Ok) ==> after_env(
            after_file(path, file),
            value,
        ).config == after_file(path, file).config,
        file matches FileText::Text(text) && file_config(text@) is Ok ==> after_file(
            path,
            file,
        ).config == file_config(file->Text_0@)->Ok_0,
        !(file matches FileText::Text(text) && file_config(text@) is Ok) ==> after_file(
            path,
            file,
        ).config == Config::built_in(),
{
}

/// Each source that cannot be used is reported once, and one that can, or is
/// missing, not at all: a load never fails.
pub proof fn law_each_fault_is_reported_once(
    path: Seq<char>,
    file: FileText,
    value: Option<Seq<char>>,
)
    ensures
        after_env(after_file(path, file), value).warnings.len() == (if file is Failed || (
        file matches FileText::Text(text) && file_config(text@) is Err) {
            1int
        } else {
            0
        }) + (if value is Some && duration_of(value->0) is Err {
            1int
        } else {
            0
        }),
{
}

/// A key this release does not know changes nothing.
pub proof fn law_unknown_keys_are_ignored(config: Config, entry: (Seq<char>, Option<Seq<char>>))
    requires
        entry.0 != "forgotten_after"@,
    ensures
        with_entry(config, entry) == Ok::<Config, Seq<char>>(config),
{
}

/// A duration is a count and a unit: seconds, minutes, hours or days, and what
/// no count of seconds holds is none. Anything without a unit of these, or
/// without a count, is none either.
pub proof fn law_durations_are_counts_of_their_unit(n: nat, text: Seq<char>)
    ensures
        n <= u64::MAX ==> duration_of(decimal(n) + seq!['s']) == Ok::<Duration, Seq<char>>(
            Duration { secs: n as u64, nanos: 0 },
        ),
        n * 60 <= u64::MAX ==> duration_of(decimal(n) + seq!['m']) == Ok::<Duration, Seq<char>>(
            Duration { secs: (n * 60) as u64, nanos: 0 },
        ),
        n * 3_600 <= u64::MAX ==> duration_of(decimal(n) + seq!['h']) == Ok::<Duration, Seq<char>>(
            Duration { secs: (n * 3_600) as u64, nanos: 0 },
        ),
        n * 86_400 <= u64::MAX ==> duration_of(decimal(n) + seq!['d']) == Ok::<
            Duration,
            Seq<char>,
        >(Duration { secs: (n * 86_400) as u64, nanos: 0 }),
        n <= u64::MAX && n * 86_400 > u64::MAX ==> duration_of(decimal(n) + seq!['d']) is Err,
        n <= u64::MAX && n * 3_600 > u64::MAX ==> duration_of(decimal(n) + seq!['h']) is Err,
        n <= u64::MAX && n * 60 > u64::MAX ==> duration_of(decimal(n) + seq!['m']) is Err,
        is_word(text) && text.last() != 's' && text.last() != 'm' && text.last() != 'h'
            && text.last() != 'd' ==> duration_of(text) == Err::<Duration, Seq<char>>(
            "`"@ + text + "` is not a duration: use <n><unit> with s, m, h or d"@,
        ),
        is_word(text) && text.len() > 1 && (exists|i: int|
            0 < i < text.len() - 1 && !is_digit(#[trigger] text[i])) ==> duration_of(text) is Err,
        is_word(text) && text.len() == 1 ==> duration_of(text) is Err,
        duration_of(seq![]) is Err,
{
    lemma_one_unit(n, 's');
    lemma_one_unit(n, 'm');
    lemma_one_unit(n, 'h');
    lemma_one_unit(n, 'd');
    if is_word(text) {
        lemma_trimmed_line(text);
        if exists|i: int| 0 < i < text.len() - 1 && !is_digit(#[trigger] text[i]) {
            let i = choose|i: int| 0 < i < text.len() - 1 && !is_digit(#[trigger] text[i]);
            let digits = text.drop_last();
            assert(digits[i] == text[i]);
            if unsigned_digits(digits) != digits {
                assert(digits.drop_first()[i - 1] == text[i]);
            }
        }
    }
    let none = Seq::<char>::empty();
    assert(trimmed(none) =~= none);
}

proof fn lemma_one_unit(n: nat, unit: char)
    requires
        unit_secs(unit) is Some,
    ensures
        n <= u64::MAX && n * unit_secs(unit)->0 <= u64::MAX ==> duration_secs(
            decimal(n) + seq![unit],
        ) == Some(n * unit_secs(unit)->0),
        n <= u64::MAX && n * unit_secs(unit)->0 > u64::MAX ==> duration_secs(
            decimal(n) + seq![unit],
        ) is None,
{
    let digits = decimal(n);
    let text = digits + seq![unit];
    lemma_decimal_reads_back(n);
    assert(text[0] == digits[0]);
    assert(is_digit(digits[0]));
    lemma_trimmed_is_itself(text);
    assert(text.drop_last() =~= digits);
    assert(unsigned_digits(digits) == digits);
}

proof fn lemma_whole_days(n: nat)
    ensures
        n * 86_400 / 86_400 == n,
        n * 86_400 % 86_400 == 0,
{
}

proof fn lemma_whole_hours(n: nat)
    ensures
        n * 3_600 / 3_600 == n,
        n * 3_600 % 3_600 == 0,
        n % 24 != 0 ==> n * 3_600 % 86_400 != 0,
{
    let q = n / 24;
    let r = n % 24;
    assert(n * 3_600 == 86_400 * q + 3_600 * r);
}

proof fn lemma_whole_minutes(n: nat)
    ensures
        n * 60 / 60 == n,
        n * 60 % 60 == 0,
        n % 60 != 0 ==> n * 60 % 3_600 != 0 && n * 60 % 86_400 != 0,
{
    let q = n / 60;
    let r = n % 60;
    assert(n * 60 == 3_600 * q + 60 * r);
    let d = n * 60 / 86_400;
    let e = n * 60 % 86_400;
    assert(n * 60 == 86_400 * d + e);
    assert(86_400 * d == 3_600 * (24 * d));
}

/// A duration is printed in the largest unit that counts it whole.
pub proof fn law_durations_are_printed_in_their_largest_unit(n: nat)
    requires
        n > 0,
    ensures
        duration_text(n * 86_400) == decimal(n) + "d"@,
        n % 24 != 0 ==> duration_text(n * 3_600) == decimal(n) + "h"@,
        n % 60 != 0 ==> duration_text(n * 60) == decimal(n) + "m"@,
        n % 60 != 0 ==> duration_text(n) == decimal(n) + "s"@,
        duration_text(0) == decimal(0) + "s"@,
{
    lemma_whole_days(n);
    lemma_whole_hours(n);
    lemma_whole_minutes(n);
    assert(n % 60 != 0 ==> n % 3_600 != 0 && n % 86_400 != 0);
}

/// What the file sets is the duration of its `forgotten_after`, wherever that
/// stands among other keys; without one the default of fourteen days stays,
/// and one that is no duration, or no text, fails the file.
pub proof fn law_the_file_sets_what_it_names(
    before: Seq<(Seq<char>, Option<Seq<char>>)>,
    value: Option<Seq<char>>,
    after: Seq<(Seq<char>, Option<Seq<char>>)>,
)
    requires
        forall|i: int| 0 <= i < before.len() ==> (#[trigger] before[i]).0 != "forgotten_after"@,
        forall|i: int| 0 <= i < after.len() ==> (#[trigger] after[i]).0 != "forgotten_after"@,
    ensures
        with_entries(before) == Ok::<Config, Seq<char>>(
            Config { forgotten_after: Duration { secs: 1_209_600, nanos: 0 } },
        ),
        ({
            let r = with_entries(before.push(("forgotten_after"@, value)) + after);
            match value {
                Some(text) => match duration_of(text) {
                    Ok(forgotten_after) => r == Ok::<Config, Seq<char>>(Config { forgotten_after }),
                    Err(why) => r == Err::<Config, Seq<char>>(why),
                },
                None => r == Err::<Config, Seq<char>>(
                    "`forgotten_after` must be a duration string like \"14d\""@,
                ),
            }
        }),
    decreases before.len() + after.len(),
{
    let own = before.push(("forgotten_after"@, value));
    let all = own + after;
    if before.len() > 0 {
        let fewer = before.drop_last();
        assert(forall|i: int| 0 <= i < fewer.len() ==> fewer[i] == before[i]);
        law_the_file_sets_what_it_names(fewer, value, seq![]);
        assert(before[before.len() - 1].0 != "forgotten_after"@);
    }
    if after.len() == 0 {
        assert(all =~= own);
        assert(all.drop_last() =~= before);
        assert(all.last() == ("forgotten_after"@, value));
    } else {
        let fewer = after.drop_last();
        assert(forall|i: int| 0 <= i < fewer.len() ==> fewer[i] == after[i]);
        law_the_file_sets_what_it_names(before, value, fewer);
        assert(all.drop_last() =~= own + fewer);
        assert(all.last() == after[after.len() - 1]);
    }
}

/// Where the file and the state are: below the directory that the variable for
/// it names, or below the home directory where it is unset, and nowhere
/// without either.
pub proof fn law_files_are_where_the_environment_places_them(
    dir: Seq<char>,
    home: Option<Seq<char>>,
)
    requires
        dir.len() > 0,
        dir.last() != '/',
    ensures
        config_path(Some(dir), home) == Some(
            dir + seq!['/'] + "agent-sessions"@ + seq!['/'] + "config.toml"@,
        ),
        config_path(None, Some(dir)) == Some(
            dir + seq!['/'] + ".config"@ + seq!['/'] + "agent-sessions"@ + seq!['/']
                + "config.toml"@,
        ),
        config_path(None, None) is None,
        state_path(Some(dir), home) == Some(dir + seq!['/'] + "agent-sessions"@),
        state_path(None, Some(dir)) == Some(
            dir + seq!['/'] + ".local"@ + seq!['/'] + "state"@ + seq!['/'] + "agent-sessions"@,
        ),
        state_path(None, None) is None,
{
    reveal_strlit("agent-sessions");
    reveal_strlit("config.toml");
    reveal_strlit(".config");
    reveal_strlit(".local");
    reveal_strlit("state");
    assert(!"agent-sessions"@.contains('/') && !"config.toml"@.contains('/')
        && !".config"@.contains('/') && !".local"@.contains('/') && !"state"@.contains('/'));
    law_names_go_below_their_base(dir, "agent-sessions"@);
    law_names_go_below_their_base(dir, ".config"@);
    law_names_go_below_their_base(dir, ".local"@);
    let own = dir + seq!['/'] + "agent-sessions"@;
    assert(own.last() == 's');
    law_names_go_below_their_base(own, "config.toml"@);
    let config = dir + seq!['/'] + ".config"@;
    assert(config.last() == 'g');
    law_names_go_below_their_base(config, "agent-sessions"@);
    let inner = config + seq!['/'] + "agent-sessions"@;
    assert(inner.last() == 's');
    law_names_go_below_their_base(inner, "config.toml"@);
    let local = dir + seq!['/'] + ".local"@;
    assert(local.last() == 'l');
    law_names_go_below_their_base(local, "state"@);
    let state = local + seq!['/'] + "state"@;
    assert(state.last() == 'e');
    law_names_go_below_their_base(state, "agent-sessions"@);
}

/// Whenever it is asked, the environment says so of the variable.
pub open spec fn always_set<E: Fn(&str) -> Option<String>>(
    env: E,
    name: Seq<char>,
    value: Option<Seq<char>>,
) -> bool {
    forall|n: &str, said: Option<String>|
        n@ == name && #[trigger] call_ensures(env, (n,), said) ==> said.deep_view() == value
}

/// A load reads the one file that the environment places, and then the one
/// override; it gives the file's own duration, or the override's where that is
/// one, and warns of each that cannot be used and of nothing else.
pub proof fn law_a_load_reads_the_file_and_the_override<
    E: Fn(&str) -> Option<String>,
    R: Fn(&String) -> FileText,
>(
    env: E,
    read: R,
    xdg: Option<Seq<char>>,
    home: Option<Seq<char>>,
    value: Option<Seq<char>>,
    file: FileText,
    loaded: LoadedView,
)
    requires
        loads(env, read, loaded),
        always_set(env, "XDG_CONFIG_HOME"@, xdg),
        always_set(env, "HOME"@, home),
        always_set(env, "AGENT_SESSIONS_FORGOTTEN_AFTER"@, value),
        config_path(xdg, home) is Some ==> forall|path: String, text: FileText|
            path@ == config_path(xdg, home)->0 && #[trigger] call_ensures(read, (&path,), text)
                ==> text == file,
    ensures
        ({
            let place = config_path(xdg, home);
            let own = if place is Some && file is Text && file_config(file->Text_0@) is Ok {
                file_config(file->Text_0@)->Ok_0.forgotten_after
            } else {
                Duration { secs: 1_209_600, nanos: 0 }
            };
            let warned = if place is Some && file is Text && file_config(file->Text_0@) is Err {
                seq![place->0 + ": "@ + file_config(file->Text_0@)->Err_0 + "; using defaults"@]
            } else if place is Some && file is Failed {
                seq![place->0 + ": "@ + file->Failed_0@ + "; using defaults"@]
            } else {
                seq![]
            };
            &&& value is None ==> loaded.config.forgotten_after == own && loaded.warnings == warned
            &&& value matches Some(text) ==> match duration_of(text) {
                Ok(given) => loaded.config.forgotten_after == given && loaded.warnings == warned,
                Err(why) => loaded.config.forgotten_after == own && loaded.warnings == warned.push(
                    "AGENT_SESSIONS_FORGOTTEN_AFTER="@ + quoted(text) + ": "@ + why + "; keeping "@
                        + duration_text(own.secs as nat),
                ),
            }
        }),
{
    let (path, found, said) = choose|
        path: Option<Seq<char>>,
        file: LoadedView,
        value: Option<String>,
    |
        {
            &&& #[trigger] finds_config(env, path)
            &&& #[trigger] finds_file(read, path, file)
            &&& #[trigger] env_says(env, "AGENT_SESSIONS_FORGOTTEN_AFTER"@, value)
            &&& loaded == after_env(file, value.deep_view())
        };
    assert forall|name: Seq<char>, told: Option<String>, is: Option<Seq<char>>| #[trigger]
        env_says(env, name, told) && #[trigger] always_set(env, name, is) implies told.deep_view()
        == is by {
        let n = choose|n: &str| n@ == name && #[trigger] call_ensures(env, (n,), told);
        assert(call_ensures(env, (n,), told));
    }
    assert(said.deep_view() == value);
    assert(path == config_path(xdg, home));
    if let Some(place) = path {
        let text = choose|text: FileText|
            #[trigger] answers(read, place, text) && found == after_file(place, text);
        let s = choose|s: String| s@ == place && #[trigger] call_ensures(read, (&s,), text);
        assert(call_ensures(read, (&s,), text));
    }
}

}
