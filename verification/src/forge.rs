//! Optional pull/merge-request enrichment through the host's own CLI.
//!
//! The remote URL's host selects the tool: `gh` for GitHub hosts, `glab` for
//! GitLab hosts, nothing for anything else. Forge access is never required -
//! absence, authentication failure and command failure all map to
//! `WorkItem::Unknown` and are informational rather than blocking - and
//! network facts live behind [`ForgeCache`] so no query ever runs on a render
//! path. Landing itself is Git evidence; this is only the work-item overlay.

pub mod ask;
pub mod cache;
pub mod item;
pub mod page;
pub mod pipeline;

use vstd::prelude::*;
use vstd::string::*;

use crate::text::{
    after_last, begins, contains, contains_char, copy_text, cut, ends, halves, last_piece,
    lemma_after_last, lemma_after_last_is, lemma_find, lemma_find_is, lemma_first_piece, lower,
    lowered, occurs, pieces, split, split_once, split_once_text, stands_at, trim_end_matches,
    without_suffix,
};

pub use crate::forge::ask::{
    accepts_queries, always_fails, always_says, asks, asks_cli, asks_gh, asks_glab, both_empty,
    code_text, comes_to, ends_with, gh_argv, glab_argv, is_list_query,
    law_a_busy_file_is_tried_again, law_a_run_says_what_it_printed, law_an_unserved_remote_says_why,
    law_gh_is_asked_for_open_items_first, law_glab_is_asked_for_open_items_first,
    law_no_item_takes_two_empty_pages, law_unserved_remotes_are_unknown, program_of, read_attempt,
    repo_arg, report, runs, served_by, Attempt, Forge, RETRIES,
};
pub use crate::forge::cache::{law_answers_are_served_until_expiry, serves, ForgeCache};
pub use crate::forge::item::{
    chosen_merge, chosen_pull, first_open_merge, first_open_pull, gh_status, glab_status, label_of,
    law_an_open_merge_request_wins, law_an_open_pull_request_wins,
    law_the_first_open_merge_request_stands, law_the_first_open_pull_request_stands, merge_status,
    merges_status, pull_status, pulls_status, state_text, MergeRequest, MergeView, PullRequest,
    PullView,
};
pub use crate::forge::page::{
    check_of, gh_answer, glab_answer, is_empty_page, law_a_page_of_merge_requests_reads_its_fields,
    law_a_page_of_pull_requests_reads_its_fields, law_failures_are_unknown,
    law_unknown_carries_its_reason, law_what_is_no_page_says_why, merge_of, page_of, pull_of,
    read_gh, read_glab, said_view, says_failed, says_succeeded,
};
pub use crate::forge::pipeline::{
    gh_pipeline, glab_pipeline, law_a_failed_check_fails_the_rollup,
    law_a_pipeline_goes_by_its_status, law_success_is_proven, pipeline_state, rollup_state, Check,
    CheckView,
};

verus! {

/// State of the pull request or merge request a branch feeds.
#[derive(Debug, Clone, Copy, PartialEq, Eq, Structural)]
pub enum WorkItem {
    /// Not asked, not asked successfully, or no CLI can ask this host.
    Unknown,
    /// The forge answered: no work item exists for the branch.
    NotExisting,
    Open,
    /// Merged or closed; the work item is no longer open either way.
    Closed,
}

/// Pipeline state of an open work item.
#[derive(Debug, Clone, Copy, PartialEq, Eq, Structural)]
pub enum Pipeline {
    Busy,
    Succeeded,
    Failed,
    Unknown,
}

#[derive(Debug, PartialEq, Eq)]
pub struct ForgeStatus {
    pub item: WorkItem,
    /// Only meaningful while `item` is `Open`; `Unknown` otherwise.
    pub pipeline: Pipeline,
    /// `PR #191`, `MR !7` - a short human label for reasons.
    pub label: Option<String>,
    pub url: Option<String>,
    /// Why `item` is `Unknown`, when it is.
    pub reason: Option<String>,
}

// ---------------------------------------------------------------------------
// Remotes
// ---------------------------------------------------------------------------

/// The repository part of a remote: trailing slashes and `.git` taken off.
pub open spec fn repo_path(path: Seq<char>) -> Seq<char> {
    without_suffix(without_suffix(path, "/"@), ".git"@)
}

/// `(host, owner/repo-path)` of a remote URL, or `None` for a local path:
/// ssh (`git@host:path`), `ssh://` and `https://` are remotes a forge can
/// serve; a bare path is not.
pub open spec fn remote_parts(url: Seq<char>) -> Option<(Seq<char>, Seq<char>)> {
    match cut(url, "://"@) {
        Some((_, rest)) => match halves(after_last(rest, '@'), '/') {
            Some((hostport, path)) => Some((pieces(hostport, ':')[0], repo_path(path))),
            None => None,
        },
        // scp syntax: [user@]host:path. No `:` means a local path.
        None => match halves(url, ':') {
            Some((head, path)) => {
                let host = after_last(head, '@');
                if path.len() == 0 || head.contains('/') || host.len() == 0 {
                    None
                } else {
                    Some((host, repo_path(path)))
                }
            },
            None => None,
        },
    }
}

fn strip(path: &str) -> (r: String)
    ensures
        r@ == repo_path(path@),
{
    trim_end_matches(trim_end_matches(path, "/").as_str(), ".git")
}

/// `(host, owner/repo-path)` from a remote URL, or `None` for a local path.
pub fn parse_remote(url: &str) -> (r: Option<(String, String)>)
    ensures
        r.deep_view() == remote_parts(url@),
{
    if let Some((_, rest)) = split_once_text(url, "://") {
        let rest = last_piece(rest.as_str(), '@');
        match split_once(rest.as_str(), '/') {
            Some((hostport, path)) => {
                let parts = split(hostport.as_str(), ':');
                let host = parts[0].clone();
                assert(host@ == parts.deep_view()[0]);
                Some((host, strip(path.as_str())))
            },
            None => None,
        }
    } else {
        match split_once(url, ':') {
            Some((head, path)) => {
                let host = last_piece(head.as_str(), '@');
                if path.as_str().is_empty() || contains_char(head.as_str(), '/')
                    || host.as_str().is_empty() {
                    None
                } else {
                    Some((host, strip(path.as_str())))
                }
            },
            None => None,
        }
    }
}

/// Which CLI serves a remote host.
#[derive(Debug, Clone, Copy, PartialEq, Eq, Structural)]
pub enum Cli {
    Gh,
    Glab,
}

/// The CLI that serves a host: one containing "github" is served by `gh`, one
/// containing "gitlab" by `glab` - which also routes enterprise deployments.
/// Anything else has no CLI we can drive.
pub open spec fn cli_of(host: Seq<char>) -> Option<Cli> {
    let host = lowered(host);
    if occurs(host, "github"@) {
        Some(Cli::Gh)
    } else if occurs(host, "gitlab"@) {
        Some(Cli::Glab)
    } else {
        None
    }
}

/// The CLI that serves a host.
pub fn cli_for(host: &str) -> (r: Option<Cli>)
    ensures
        r == cli_of(host@),
{
    let host = lower(host);
    if contains(host.as_str(), "github") {
        Some(Cli::Gh)
    } else if contains(host.as_str(), "gitlab") {
        Some(Cli::Glab)
    } else {
        None
    }
}

// ---------------------------------------------------------------------------
// Statuses
// ---------------------------------------------------------------------------

/// The value of a [`ForgeStatus`], with its text as characters.
pub struct StatusView {
    pub item: WorkItem,
    pub pipeline: Pipeline,
    pub label: Option<Seq<char>>,
    pub url: Option<Seq<char>>,
    pub reason: Option<Seq<char>>,
}

impl DeepView for ForgeStatus {
    type V = StatusView;

    open spec fn deep_view(&self) -> StatusView {
        StatusView {
            item: self.item,
            pipeline: self.pipeline,
            label: self.label.deep_view(),
            url: self.url.deep_view(),
            reason: self.reason.deep_view(),
        }
    }
}

impl Clone for ForgeStatus {
    fn clone(&self) -> (r: ForgeStatus)
        ensures
            r == *self,
    {
        ForgeStatus {
            item: self.item,
            pipeline: self.pipeline,
            label: copy_text(&self.label),
            url: copy_text(&self.url),
            reason: copy_text(&self.reason),
        }
    }
}

/// A work item nothing is known of, and why.
pub open spec fn unknown_status(reason: Seq<char>) -> StatusView {
    StatusView {
        item: WorkItem::Unknown,
        pipeline: Pipeline::Unknown,
        label: None,
        url: None,
        reason: Some(reason),
    }
}

/// The forge answered: there is no work item.
pub open spec fn no_item() -> StatusView {
    StatusView {
        item: WorkItem::NotExisting,
        pipeline: Pipeline::Unknown,
        label: None,
        url: None,
        reason: None,
    }
}

impl ForgeStatus {
    fn unknown(reason: String) -> (r: ForgeStatus)
        ensures
            r.deep_view() == unknown_status(reason@),
    {
        ForgeStatus {
            item: WorkItem::Unknown,
            pipeline: Pipeline::Unknown,
            label: None,
            url: None,
            reason: Some(reason),
        }
    }

    fn not_existing() -> (r: ForgeStatus)
        ensures
            r.deep_view() == no_item(),
    {
        ForgeStatus {
            item: WorkItem::NotExisting,
            pipeline: Pipeline::Unknown,
            label: None,
            url: None,
            reason: None,
        }
    }
}

// ---------------------------------------------------------------------------
// What remotes promise
// ---------------------------------------------------------------------------

proof fn lemma_cut_needs_its_needle(s: Seq<char>, needle: Seq<char>)
    requires
        needle.len() > 0,
        cut(s, needle) is Some,
    ensures
        s.contains(needle[0]),
    decreases s.len(),
{
    if begins(s, needle) {
        assert(s.take(needle.len() as int)[0] == needle[0]);
        assert(s[0] == needle[0]);
    } else {
        lemma_cut_needs_its_needle(s.drop_first(), needle);
        let i = choose|i: int|
            0 <= i < s.drop_first().len() && s.drop_first()[i] == needle[0];
        assert(s[i + 1] == needle[0]);
    }
}

/// A path without a colon is local, and no forge serves it.
pub proof fn law_local_paths_are_no_remotes(url: Seq<char>)
    requires
        !url.contains(':'),
    ensures
        remote_parts(url) is None,
{
    reveal_strlit("://");
    if cut(url, "://"@) is Some {
        lemma_cut_needs_its_needle(url, "://"@);
    }
    lemma_find(url, ':');
}

/// The tails that a repository's path may carry: none, a slash, `.git`, or
/// both.
pub open spec fn is_repo_tail(tail: Seq<char>) -> bool {
    tail == ""@ || tail == "/"@ || tail == ".git"@ || tail == ".git/"@
}

proof fn lemma_tail_comes_off(path: Seq<char>, tail: Seq<char>)
    requires
        is_repo_tail(tail),
        !ends(path, "/"@),
        !ends(path, ".git"@),
    ensures
        repo_path(path + tail) == path,
{
    reveal_strlit("");
    reveal_strlit("/");
    reveal_strlit(".git");
    reveal_strlit(".git/");
    let whole = path + tail;
    let n = path.len() as int;
    assert(path + ""@ =~= path);
    let dotted = path + ".git"@;
    assert(dotted.skip(n) =~= ".git"@);
    assert(dotted.take(n) =~= path);
    assert(!ends(dotted, "/"@)) by {
        assert(dotted.skip(n + 3)[0] == 't');
        assert("/"@[0] == '/');
    }
    let slashed = path + "/"@;
    assert(slashed.skip(n) =~= "/"@);
    assert(slashed.take(n) =~= path);
    let both = path + ".git/"@;
    assert(both.skip(n + 4) =~= "/"@);
    assert(both.take(n + 4) =~= dotted);
    reveal_with_fuel(without_suffix, 3);
}

proof fn lemma_cut_is(s: Seq<char>, needle: Seq<char>)
    requires
        cut(s, needle) is Some,
    ensures
        cut(s, needle) matches Some((left, right)) && s == left + needle + right,
    decreases s.len(),
{
    let (left, right) = cut(s, needle)->0;
    if begins(s, needle) {
        assert(s =~= left + needle + right);
    } else {
        lemma_cut_is(s.drop_first(), needle);
        let (short, _) = cut(s.drop_first(), needle)->0;
        assert(s =~= seq![s[0]] + s.drop_first());
        assert(s =~= left + needle + right);
    }
}

proof fn lemma_halves(head: Seq<char>, sep: char, rest: Seq<char>)
    requires
        !head.contains(sep),
    ensures
        halves(head.push(sep) + rest, sep) == Some((head, rest)),
{
    let whole = head.push(sep) + rest;
    assert forall|i: int| 0 <= i < head.len() implies whole[i] != sep by {
        assert(head.contains(head[i]));
    }
    lemma_find_is(whole, sep, head.len() as int);
    assert(whole.take(head.len() as int) =~= head);
    assert(whole.skip(head.len() as int + 1) =~= rest);
}

proof fn lemma_behind_last(head: Seq<char>, sep: char, rest: Seq<char>)
    requires
        !rest.contains(sep),
    ensures
        after_last(rest, sep) == rest,
        after_last(head.push(sep) + rest, sep) == rest,
{
    let whole = head.push(sep) + rest;
    let n = head.len() as int;
    assert forall|i: int| n < i < whole.len() implies #[trigger] whole[i] != sep by {
        assert(rest.contains(rest[i - n - 1]));
    }
    lemma_after_last_is(whole, sep, n);
    assert(whole.skip(n + 1) =~= rest);
    lemma_after_last(rest, sep);
    if after_last(rest, sep).len() < rest.len() {
        assert(rest.contains(rest[rest.len() - after_last(rest, sep).len() - 1]));
    }
    assert(rest.skip(0) =~= rest);
}

proof fn lemma_lacks(head: Seq<char>, rest: Seq<char>, c: char)
    requires
        !rest.contains(c),
    ensures
        !head.contains(c) ==> !(head + rest).contains(c),
        forall|x: Seq<char>, sep: char|
            head == #[trigger] x.push(sep) && !x.contains(c) && sep != c ==> !(head
                + rest).contains(c),
{
    let whole = head + rest;
    if whole.contains(c) {
        let i = choose|i: int| 0 <= i < whole.len() && whole[i] == c;
        if i >= head.len() {
            assert(rest.contains(rest[i - head.len()]));
        } else {
            assert(head[i] == c);
            assert forall|x: Seq<char>, sep: char|
                head == #[trigger] x.push(sep) && sep != c implies x.contains(c) by {
                assert(x.push(sep)[i] == c);
                assert(i < x.len());
                assert(x[i] == c);
            }
        }
    }
}

proof fn lemma_one_url(
    scheme: Seq<char>,
    rest: Seq<char>,
    hostport: Seq<char>,
    host: Seq<char>,
    path: Seq<char>,
    tail: Seq<char>,
)
    requires
        !scheme.contains(':'),
        after_last(rest, '@') == hostport.push('/') + (path + tail),
        !hostport.contains('/'),
        pieces(hostport, ':')[0] == host,
        is_repo_tail(tail),
        !ends(path, "/"@),
        !ends(path, ".git"@),
    ensures
        remote_parts(scheme + "://"@ + rest) == Some((host, path)),
{
    lemma_scheme(scheme, rest);
    lemma_halves(hostport, '/', path + tail);
    lemma_tail_comes_off(path, tail);
}

/// A remote URL names its host and its repository, whatever the scheme, the
/// user and the port, and whether or not it ends in `.git` or a slash.
pub proof fn law_urls_name_host_and_repository(
    scheme: Seq<char>,
    user: Seq<char>,
    host: Seq<char>,
    port: Seq<char>,
    path: Seq<char>,
    tail: Seq<char>,
)
    requires
        !scheme.contains(':'),
        !host.contains(':'),
        !host.contains('/'),
        !host.contains('@'),
        !port.contains('/'),
        !port.contains('@'),
        !path.contains('@'),
        is_repo_tail(tail),
        !ends(path, "/"@),
        !ends(path, ".git"@),
    ensures
        remote_parts(scheme + "://"@ + (host.push('/') + (path + tail))) == Some((host, path)),
        remote_parts(scheme + "://"@ + (host.push(':') + port.push('/') + (path + tail))) == Some(
            (host, path),
        ),
        remote_parts(scheme + "://"@ + (user.push('@') + (host.push('/') + (path + tail)))) == Some(
            (host, path),
        ),
        remote_parts(
            scheme + "://"@ + (user.push('@') + (host.push(':') + port.push('/') + (path + tail))),
        ) == Some((host, path)),
{
    let named = path + tail;
    let plain = host.push('/') + named;
    let hostport = host.push(':') + port;
    let ported = hostport.push('/') + named;
    assert(ported =~= host.push(':') + port.push('/') + named);
    assert(!tail.contains('@')) by {
        reveal_strlit("");
        reveal_strlit("/");
        reveal_strlit(".git");
        reveal_strlit(".git/");
    }
    lemma_lacks(path, tail, '@');
    lemma_lacks(host.push('/'), named, '@');
    lemma_lacks(host.push(':'), port, '@');
    lemma_lacks(host.push(':'), port, '/');
    lemma_lacks(hostport.push('/'), named, '@');
    lemma_behind_last(user, '@', plain);
    lemma_behind_last(user, '@', ported);
    lemma_first_piece(host, ':', port);
    lemma_one_url(scheme, plain, host, host, path, tail);
    lemma_one_url(scheme, ported, hostport, host, path, tail);
    lemma_one_url(scheme, user.push('@') + plain, host, host, path, tail);
    lemma_one_url(scheme, user.push('@') + ported, hostport, host, path, tail);
}

proof fn lemma_scheme(scheme: Seq<char>, rest: Seq<char>)
    requires
        !scheme.contains(':'),
    ensures
        cut(scheme + "://"@ + rest, "://"@) == Some((scheme, rest)),
    decreases scheme.len(),
{
    reveal_strlit("://");
    let whole = scheme + "://"@ + rest;
    if scheme.len() == 0 {
        assert(whole.take(3) =~= "://"@);
        assert(whole.skip(3) =~= rest);
        assert(scheme =~= seq![]);
    } else {
        assert(scheme.contains(scheme[0]));
        assert(whole[0] == scheme[0]);
        assert(!begins(whole, "://"@)) by {
            if begins(whole, "://"@) {
                assert(whole.take(3)[0] == whole[0]);
            }
        }
        assert(!scheme.drop_first().contains(':')) by {
            assert forall|i: int| 0 <= i < scheme.drop_first().len() implies scheme.drop_first()[i]
                != ':' by {
                assert(scheme.contains(scheme[i + 1]));
            }
        }
        lemma_scheme(scheme.drop_first(), rest);
        assert(whole.drop_first() =~= scheme.drop_first() + "://"@ + rest);
        assert(seq![scheme[0]] + scheme.drop_first() =~= scheme);
    }
}

/// `[user@]host:path` names its host and its repository in the same way.
pub proof fn law_short_remotes_name_host_and_repository(
    user: Seq<char>,
    host: Seq<char>,
    path: Seq<char>,
    tail: Seq<char>,
)
    requires
        !user.contains(':'),
        !user.contains('/'),
        host.len() > 0,
        !host.contains(':'),
        !host.contains('/'),
        !host.contains('@'),
        path.len() > 0,
        path[0] != '/',
        !path.contains(':'),
        is_repo_tail(tail),
        !ends(path, "/"@),
        !ends(path, ".git"@),
    ensures
        remote_parts(host.push(':') + (path + tail)) == Some((host, path)),
        remote_parts(user.push('@') + host.push(':') + (path + tail)) == Some((host, path)),
{
    let named = path + tail;
    let head = user.push('@') + host;
    reveal_strlit("");
    reveal_strlit("/");
    reveal_strlit(".git");
    reveal_strlit(".git/");
    assert(user.push('@') + host.push(':') + named =~= head.push(':') + named);
    assert(!head.contains(':') && !head.contains('/')) by {
        assert forall|i: int| 0 <= i < head.len() implies head[i] != ':' && head[i] != '/' by {
            if i < user.len() {
                assert(user.contains(user[i]));
            } else if i > user.len() {
                assert(host.contains(host[i - user.len() - 1]));
            }
        }
    }
    assert(!tail.contains(':'));
    assert(!named.contains(':')) by {
        assert forall|i: int| 0 <= i < named.len() implies named[i] != ':' by {
            if i < path.len() {
                assert(path.contains(path[i]));
            } else {
                assert(tail.contains(tail[i - path.len()]));
            }
        }
    }
    lemma_tail_comes_off(path, tail);
    lemma_no_scheme(host, named);
    lemma_no_scheme(head, named);
    lemma_halves(host, ':', named);
    lemma_halves(head, ':', named);
    lemma_behind_last(user, '@', host);
}

proof fn lemma_no_scheme(head: Seq<char>, named: Seq<char>)
    requires
        !head.contains(':'),
        !named.contains(':'),
        named.len() > 0,
        named[0] != '/',
    ensures
        cut(head.push(':') + named, "://"@) is None,
{
    reveal_strlit("://");
    let whole = head.push(':') + named;
    if cut(whole, "://"@) is Some {
        lemma_cut_is(whole, "://"@);
        let (left, _) = cut(whole, "://"@)->0;
        let at = left.len() as int;
        assert(whole[at] == ':' && whole[at + 1] == '/');
        if at < head.len() {
            assert(head.contains(head[at]));
        } else if at > head.len() {
            assert(named.contains(named[at - head.len() - 1]));
        } else {
            assert(whole[at + 1] == named[0]);
        }
    }
}

/// A path on this machine is no remote, colon or not: what stands before the
/// first colon of one holds a slash, or is empty, or nothing follows it.
pub proof fn law_paths_with_a_colon_are_no_remotes(head: Seq<char>, named: Seq<char>)
    requires
        !head.contains(':'),
        !named.contains(':'),
        named.len() > 0 ==> named[0] != '/',
        head.contains('/') || head.len() == 0 || named.len() == 0,
    ensures
        remote_parts(head.push(':') + named) is None,
{
    let whole = head.push(':') + named;
    lemma_halves(head, ':', named);
    if named.len() > 0 {
        lemma_no_scheme(head, named);
    } else {
        reveal_strlit("://");
        if cut(whole, "://"@) is Some {
            lemma_cut_is(whole, "://"@);
            let (left, _) = cut(whole, "://"@)->0;
            let at = left.len() as int;
            assert(whole[at] == ':');
            if at < head.len() {
                assert(head.contains(head[at]));
            }
        }
    }
    if head.len() == 0 {
        lemma_behind_last(seq![], '@', head);
    }
}

/// A host with `github` in its name is served by `gh`, one with `gitlab` in it
/// by `glab`, capitals or not, and any other by neither.
pub proof fn law_hosts_choose_their_cli(host: Seq<char>)
    ensures
        ({
            let name = |word: Seq<char>|
                exists|i: int|
                    0 <= i <= host.len() - 6 && #[trigger] lowered(host).subrange(i, i + 6) == word;
            &&& cli_of(host) == Some(Cli::Gh) <==> name("github"@)
            &&& cli_of(host) == Some(Cli::Glab) <==> !name("github"@) && name("gitlab"@)
        }),
{
    reveal_strlit("github");
    reveal_strlit("gitlab");
    lemma_named(lowered(host), "github"@);
    lemma_named(lowered(host), "gitlab"@);
}

proof fn lemma_named(host: Seq<char>, word: Seq<char>)
    requires
        word.len() == 6,
    ensures
        occurs(host, word) == exists|i: int|
            0 <= i <= host.len() - 6 && #[trigger] host.subrange(i, i + 6) == word,
{
    if occurs(host, word) {
        let at = choose|at: int| stands_at(host, word, at);
        assert(host.skip(at).take(6) =~= host.subrange(at, at + 6));
    }
    if exists|i: int| 0 <= i <= host.len() - 6 && #[trigger] host.subrange(i, i + 6) == word {
        let i = choose|i: int|
            0 <= i <= host.len() - 6 && #[trigger] host.subrange(i, i + 6) == word;
        assert(host.skip(i).take(6) =~= host.subrange(i, i + 6));
        assert(stands_at(host, word, i));
    }
}

}
