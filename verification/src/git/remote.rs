//! Branches, remotes and configuration, and what remotes advertise.

use vstd::prelude::*;
use vstd::string::*;

use crate::command::Reply;
use crate::evidence::{Evidence, EvidenceView};
use crate::git::{
    accepts_reads, always_complains, always_exits, always_prints, exited_one, in_repo, lemma_says,
    never_answers, outcome, repo_globals, Error, ErrorView, Repo,
};
use crate::git::argv::{
    branches_argv, config_argv, law_every_invocation_is_read_only, lemma_config_is_read_only,
    remote_head_argv, remote_refs_argv, remotes_argv, symref_argv,
};
use crate::text::{
    after_last, after_prefix, begins, halves, is_space, is_word, last_piece, law_lines_read_back,
    lemma_after_last_is, lemma_find_is, lemma_trimmed_line, line_list, lines, same, sort, sorted,
    split_once, strip_prefix, terminated, trim, trimmed,
};

verus! {

// ---------------------------------------------------------------------------
// Branches, remotes and configuration
// ---------------------------------------------------------------------------

/// The branch names among ref names under `refs/heads/`, one a line.
pub open spec fn branch_names(lines: Seq<Seq<char>>) -> Seq<Seq<char>>
    decreases lines.len(),
{
    if lines.len() == 0 {
        seq![]
    } else {
        let before = branch_names(lines.drop_last());
        match after_prefix(lines.last(), "refs/heads/"@) {
            Some(name) => before.push(name),
            None => before,
        }
    }
}

/// The remote names, one a line: what is left of each line without white
/// space around it, blank lines dropped.
pub open spec fn remote_names(lines: Seq<Seq<char>>) -> Seq<Seq<char>>
    decreases lines.len(),
{
    if lines.len() == 0 {
        seq![]
    } else {
        let before = remote_names(lines.drop_last());
        let name = trimmed(lines.last());
        if name.len() > 0 {
            before.push(name)
        } else {
            before
        }
    }
}

/// `names` holds exactly the names `listed`, in order.
pub open spec fn in_order(names: Seq<Seq<char>>, listed: Seq<Seq<char>>) -> bool {
    sorted(names) && names.to_multiset() == listed.to_multiset()
}

/// The value of a configuration key: exit 1 with no output is how Git reports
/// a missing one.
pub open spec fn config_value(said: Result<Seq<char>, ErrorView>) -> Result<
    Option<Seq<char>>,
    ErrorView,
> {
    match said {
        Ok(value) => Ok(Some(trimmed(value))),
        Err(e) => if e.code == Some(1i32) && e.detail.len() == 0 {
            Ok(None)
        } else {
            Err(e)
        },
    }
}

/// `branch.<name>.remote` plus `branch.<name>.merge`, as configured. Both keys
/// must exist before an upstream is considered configured at all; a partial
/// pair is evidence that cannot be acted on, not an absent one.
#[derive(Debug)]
pub enum UpstreamConfig {
    Unset,
    Partial,
    Full { remote: String, merge: String },
}

/// The value of an [`UpstreamConfig`], with its text as characters.
pub enum UpstreamConfigView {
    Unset,
    Partial,
    Full { remote: Seq<char>, merge: Seq<char> },
}

impl DeepView for UpstreamConfig {
    type V = UpstreamConfigView;

    open spec fn deep_view(&self) -> UpstreamConfigView {
        match *self {
            UpstreamConfig::Unset => UpstreamConfigView::Unset,
            UpstreamConfig::Partial => UpstreamConfigView::Partial,
            UpstreamConfig::Full { remote, merge } => UpstreamConfigView::Full {
                remote: remote@,
                merge: merge@,
            },
        }
    }
}

/// The pair the two keys make.
pub open spec fn upstream_pair(remote: Option<Seq<char>>, merge: Option<Seq<char>>) -> (
    UpstreamConfigView
) {
    match (remote, merge) {
        (None, None) => UpstreamConfigView::Unset,
        (Some(remote), Some(merge)) => UpstreamConfigView::Full { remote, merge },
        _ => UpstreamConfigView::Partial,
    }
}

pub open spec fn remote_url_key(name: Seq<char>) -> Seq<char> {
    "remote."@ + name + ".url"@
}

pub open spec fn branch_remote_key(branch: Seq<char>) -> Seq<char> {
    "branch."@ + branch + ".remote"@
}

pub open spec fn branch_merge_key(branch: Seq<char>) -> Seq<char> {
    "branch."@ + branch + ".merge"@
}

impl Repo {
    /// `r` is what the local branches may be read as.
    pub open spec fn has_branches<G: Fn(&Vec<String>, &Vec<String>) -> Reply>(
        self,
        run: G,
        r: Result<Seq<Seq<char>>, ErrorView>,
    ) -> bool {
        exists|said: Result<Seq<char>, ErrorView>|
            #[trigger] self.reads(run, branches_argv(), said) && match said {
                Err(e) => r == Err::<Seq<Seq<char>>, ErrorView>(e),
                Ok(text) => r matches Ok(names) && in_order(names, branch_names(line_list(text))),
            }
    }

    /// `r` is what the remote names may be read as.
    pub open spec fn has_remotes<G: Fn(&Vec<String>, &Vec<String>) -> Reply>(
        self,
        run: G,
        r: Result<Seq<Seq<char>>, ErrorView>,
    ) -> bool {
        exists|said: Result<Seq<char>, ErrorView>|
            #[trigger] self.reads(run, remotes_argv(), said) && match said {
                Err(e) => r == Err::<Seq<Seq<char>>, ErrorView>(e),
                Ok(text) => r matches Ok(names) && in_order(names, remote_names(line_list(text))),
            }
    }

    /// `r` is what the configuration key may be read as.
    pub open spec fn has_config<G: Fn(&Vec<String>, &Vec<String>) -> Reply>(
        self,
        run: G,
        key: Seq<char>,
        r: Result<Option<Seq<char>>, ErrorView>,
    ) -> bool {
        exists|said: Result<Seq<char>, ErrorView>|
            #[trigger] self.reads(run, config_argv(key), said) && r == config_value(said)
    }

    /// `r` is what the upstream of `branch` may be read as: the first of the
    /// two keys that cannot be read fails the pair.
    pub open spec fn has_upstream<G: Fn(&Vec<String>, &Vec<String>) -> Reply>(
        self,
        run: G,
        branch: Seq<char>,
        r: Result<UpstreamConfigView, ErrorView>,
    ) -> bool {
        exists|remote: Result<Option<Seq<char>>, ErrorView>|
            #[trigger] self.has_config(run, branch_remote_key(branch), remote) && match remote {
                Err(e) => r == Err::<UpstreamConfigView, ErrorView>(e),
                Ok(remote) => self.has_merge(run, branch, remote, r),
            }
    }

    /// The second half of [`Repo::has_upstream`], once the remote is read.
    pub open spec fn has_merge<G: Fn(&Vec<String>, &Vec<String>) -> Reply>(
        self,
        run: G,
        branch: Seq<char>,
        remote: Option<Seq<char>>,
        r: Result<UpstreamConfigView, ErrorView>,
    ) -> bool {
        exists|merge: Result<Option<Seq<char>>, ErrorView>|
            #[trigger] self.has_config(run, branch_merge_key(branch), merge) && match merge {
                Err(e) => r == Err::<UpstreamConfigView, ErrorView>(e),
                Ok(merge) => r == Ok::<UpstreamConfigView, ErrorView>(
                    upstream_pair(remote, merge),
                ),
            }
    }

    /// Local branch names, sorted.
    pub fn local_branches<G: Fn(&Vec<String>, &Vec<String>) -> Reply>(&self, run: &G) -> (r: Result<
        Vec<String>,
        Error,
    >)
        requires
            accepts_reads(*run),
        ensures
            self.has_branches(*run, outcome(r)),
    {
        let args: &[&str] = &["for-each-ref", "--format=%(refname)", "refs/heads/"];
        assert(args.deep_view() =~= branches_argv());
        let said = in_repo(run, self, args);
        assert(self.reads(*run, branches_argv(), outcome(said)));
        let text = match said {
            Ok(text) => text,
            Err(e) => return Err(e),
        };
        let found = lines(text.as_str());
        let ghost all = found.deep_view();
        let mut names: Vec<String> = Vec::new();
        let mut i: usize = 0;
        assert(names.deep_view() =~= seq![]);
        while i < found.len()
            invariant
                i <= found@.len(),
                all == found.deep_view(),
                names.deep_view() == branch_names(all.take(i as int)),
            decreases found@.len() - i,
        {
            assert(all.take(i + 1).drop_last() =~= all.take(i as int));
            assert(all.take(i + 1).last() == found@[i as int]@);
            if let Some(name) = strip_prefix(found[i].as_str(), "refs/heads/") {
                let ghost before = names.deep_view();
                let ghost one = name@;
                names.push(name);
                assert(names.deep_view() =~= before.push(one));
            }
            i += 1;
        }
        assert(all.take(i as int) =~= all);
        Ok(sort(names))
    }

    /// Configured remote names, sorted.
    pub fn remotes<G: Fn(&Vec<String>, &Vec<String>) -> Reply>(&self, run: &G) -> (r: Result<
        Vec<String>,
        Error,
    >)
        requires
            accepts_reads(*run),
        ensures
            self.has_remotes(*run, outcome(r)),
    {
        let args: &[&str] = &["remote"];
        assert(args.deep_view() =~= remotes_argv());
        let said = in_repo(run, self, args);
        assert(self.reads(*run, remotes_argv(), outcome(said)));
        let text = match said {
            Ok(text) => text,
            Err(e) => return Err(e),
        };
        let found = lines(text.as_str());
        let ghost all = found.deep_view();
        let mut names: Vec<String> = Vec::new();
        let mut i: usize = 0;
        assert(names.deep_view() =~= seq![]);
        while i < found.len()
            invariant
                i <= found@.len(),
                all == found.deep_view(),
                names.deep_view() == remote_names(all.take(i as int)),
            decreases found@.len() - i,
        {
            assert(all.take(i + 1).drop_last() =~= all.take(i as int));
            assert(all.take(i + 1).last() == found@[i as int]@);
            let name = trim(found[i].as_str());
            if !name.as_str().is_empty() {
                let ghost before = names.deep_view();
                let ghost one = name@;
                names.push(name);
                assert(names.deep_view() =~= before.push(one));
            }
            i += 1;
        }
        assert(all.take(i as int) =~= all);
        Ok(sort(names))
    }

    /// A single `git config --local --get`: absent key is `Ok(None)`, not an
    /// error.
    fn config_get<G: Fn(&Vec<String>, &Vec<String>) -> Reply>(&self, run: &G, key: &str) -> (r:
        Result<Option<String>, Error>)
        requires
            accepts_reads(*run),
        ensures
            self.has_config(*run, key@, outcome(r)),
    {
        let args: &[&str] = &["config", "--local", "--get", key];
        assert(args.deep_view() =~= config_argv(key@));
        let said = in_repo(run, self, args);
        assert(self.reads(*run, config_argv(key@), outcome(said)));
        match said {
            Ok(value) => Ok(Some(trim(value.as_str()))),
            Err(e) => {
                let missing = match e.code {
                    Some(code) => code == 1 && e.detail.as_str().is_empty(),
                    None => false,
                };
                if missing {
                    Ok(None)
                } else {
                    Err(e)
                }
            },
        }
    }

    /// `remote.<name>.url`, or `None` when unset.
    pub fn remote_url<G: Fn(&Vec<String>, &Vec<String>) -> Reply>(&self, run: &G, name: &str) -> (r:
        Result<Option<String>, Error>)
        requires
            accepts_reads(*run),
        ensures
            self.has_config(*run, remote_url_key(name@), outcome(r)),
    {
        let mut key = "remote.".to_owned();
        key.append(name);
        key.append(".url");
        self.config_get(run, key.as_str())
    }

    /// The configured upstream pair for a branch.
    pub fn upstream_config<G: Fn(&Vec<String>, &Vec<String>) -> Reply>(
        &self,
        run: &G,
        branch: &str,
    ) -> (r: Result<UpstreamConfig, Error>)
        requires
            accepts_reads(*run),
        ensures
            self.has_upstream(*run, branch@, outcome(r)),
    {
        let mut key = "branch.".to_owned();
        key.append(branch);
        key.append(".remote");
        let remote = self.config_get(run, key.as_str());
        assert(self.has_config(*run, branch_remote_key(branch@), outcome(remote)));
        let remote = match remote {
            Ok(remote) => remote,
            Err(e) => return Err(e),
        };
        let mut key = "branch.".to_owned();
        key.append(branch);
        key.append(".merge");
        let merge = self.config_get(run, key.as_str());
        assert(self.has_config(*run, branch_merge_key(branch@), outcome(merge)));
        let merge = match merge {
            Ok(merge) => merge,
            Err(e) => {
                assert(self.has_merge(*run, branch@, remote.deep_view(), Err(e.deep_view())));
                return Err(e);
            },
        };
        let ghost pair = upstream_pair(remote.deep_view(), merge.deep_view());
        assert(self.has_merge(*run, branch@, remote.deep_view(), Ok(pair)));
        Ok(
            match (remote, merge) {
                (None, None) => UpstreamConfig::Unset,
                (Some(remote), Some(merge)) => UpstreamConfig::Full { remote, merge },
                _ => UpstreamConfig::Partial,
            },
        )
    }
}

// ---------------------------------------------------------------------------
// Remote evidence
// ---------------------------------------------------------------------------

/// Where the remote's default branch evidence landed.
#[derive(Debug, PartialEq, Eq)]
pub enum RemoteHead {
    /// `ls-remote --symref` advertised `refs/heads/<0>` as the remote HEAD.
    Advertised(String),
    /// The remote answered but carries no symbolic HEAD.
    NotAdvertised,
    /// The remote could not be asked (offline, unreachable, failure).
    Unreachable(String),
}

/// The value of a [`RemoteHead`], with its text as characters.
pub enum RemoteHeadView {
    Advertised(Seq<char>),
    NotAdvertised,
    Unreachable(Seq<char>),
}

impl DeepView for RemoteHead {
    type V = RemoteHeadView;

    open spec fn deep_view(&self) -> RemoteHeadView {
        match *self {
            RemoteHead::Advertised(branch) => RemoteHeadView::Advertised(branch@),
            RemoteHead::NotAdvertised => RemoteHeadView::NotAdvertised,
            RemoteHead::Unreachable(reason) => RemoteHeadView::Unreachable(reason@),
        }
    }
}

impl Clone for RemoteHead {
    fn clone(&self) -> (r: RemoteHead)
        ensures
            r == *self,
    {
        match self {
            RemoteHead::Advertised(branch) => RemoteHead::Advertised(branch.clone()),
            RemoteHead::NotAdvertised => RemoteHead::NotAdvertised,
            RemoteHead::Unreachable(reason) => RemoteHead::Unreachable(reason.clone()),
        }
    }
}

pub open spec fn remote_prefix(remote: Seq<char>) -> Seq<char> {
    "refs/remotes/"@ + remote + "/"@
}

/// The branch a local remote HEAD symref names; exit 1 means there is none.
pub open spec fn symref_branch(
    remote: Seq<char>,
    said: Result<Seq<char>, ErrorView>,
) -> Result<Option<Seq<char>>, ErrorView> {
    match said {
        Ok(target) => Ok(after_prefix(trimmed(target), remote_prefix(remote))),
        Err(e) => if e.code == Some(1i32) {
            Ok(None)
        } else {
            Err(e)
        },
    }
}

/// The branch one line of `ls-remote --symref` advertises as HEAD.
pub open spec fn advertised_branch(line: Seq<char>) -> Option<Seq<char>> {
    match after_prefix(line, "ref: refs/heads/"@) {
        Some(rest) => match halves(rest, '\t') {
            Some((branch, name)) => if name == "HEAD"@ {
                Some(branch)
            } else {
                None
            },
            None => None,
        },
        None => None,
    }
}

/// The branch the first advertising line names.
pub open spec fn first_advertised(lines: Seq<Seq<char>>) -> Option<Seq<char>>
    decreases lines.len(),
{
    if lines.len() == 0 {
        None
    } else {
        match advertised_branch(lines[0]) {
            Some(branch) => Some(branch),
            None => first_advertised(lines.drop_first()),
        }
    }
}

/// What an answer to `ls-remote --symref <remote> HEAD` says.
pub open spec fn remote_head_of(
    remote: Seq<char>,
    said: Result<Seq<char>, ErrorView>,
) -> RemoteHeadView {
    match said {
        Ok(text) => match first_advertised(line_list(text)) {
            Some(branch) => RemoteHeadView::Advertised(branch),
            None => RemoteHeadView::NotAdvertised,
        },
        Err(e) => RemoteHeadView::Unreachable("ls-remote "@ + remote + " HEAD: "@ + e.text()),
    }
}

/// What an answer to `ls-remote <remote>` says: the name at the end of each
/// line.
pub open spec fn remote_refs_of(
    remote: Seq<char>,
    said: Result<Seq<char>, ErrorView>,
) -> EvidenceView<Seq<Seq<char>>> {
    match said {
        Ok(text) => EvidenceView::Known(
            line_list(text).map_values(|line: Seq<char>| after_last(line, '\t')),
        ),
        Err(e) => EvidenceView::Unknown("ls-remote "@ + remote + ": "@ + e.text()),
    }
}

/// Whether a listing holds the ref; an unread listing proves neither.
pub open spec fn advertises(refs: EvidenceView<Seq<Seq<char>>>, reference: Seq<char>) -> (
    EvidenceView<bool>
) {
    match refs {
        EvidenceView::Known(refs) => EvidenceView::Known(refs.contains(reference)),
        EvidenceView::Unknown(reason) => EvidenceView::Unknown(reason),
    }
}

impl Repo {
    /// `r` is what the local remote HEAD symref may be read as.
    pub open spec fn has_local_head<G: Fn(&Vec<String>, &Vec<String>) -> Reply>(
        self,
        run: G,
        remote: Seq<char>,
        r: Result<Option<Seq<char>>, ErrorView>,
    ) -> bool {
        exists|said: Result<Seq<char>, ErrorView>|
            #[trigger] self.reads(run, symref_argv(remote_prefix(remote) + "HEAD"@), said) && r
                == symref_branch(remote, said)
    }

    /// `r` is what the remote may be read as advertising as its HEAD.
    pub open spec fn has_remote_head<G: Fn(&Vec<String>, &Vec<String>) -> Reply>(
        self,
        run: G,
        remote: Seq<char>,
        r: RemoteHeadView,
    ) -> bool {
        exists|said: Result<Seq<char>, ErrorView>|
            #[trigger] self.reads(run, remote_head_argv(remote), said) && r == remote_head_of(
                remote,
                said,
            )
    }

    /// `r` is what the remote may be read as listing.
    pub open spec fn has_remote_refs<G: Fn(&Vec<String>, &Vec<String>) -> Reply>(
        self,
        run: G,
        remote: Seq<char>,
        r: EvidenceView<Seq<Seq<char>>>,
    ) -> bool {
        exists|said: Result<Seq<char>, ErrorView>|
            #[trigger] self.reads(run, remote_refs_argv(remote), said) && r == remote_refs_of(
                remote,
                said,
            )
    }

    /// The local `refs/remotes/<remote>/HEAD` symref target's branch name, if
    /// the symref exists. This is what the last fetch recorded; it can be
    /// stale but it is never a guess.
    pub fn local_remote_head<G: Fn(&Vec<String>, &Vec<String>) -> Reply>(
        &self,
        run: &G,
        remote: &str,
    ) -> (r: Result<Option<String>, Error>)
        requires
            accepts_reads(*run),
        ensures
            self.has_local_head(*run, remote@, outcome(r)),
    {
        let mut prefix = "refs/remotes/".to_owned();
        prefix.append(remote);
        prefix.append("/");
        let mut reference = prefix.clone();
        reference.append("HEAD");
        let args: &[&str] = &["symbolic-ref", "-q", reference.as_str()];
        assert(args.deep_view() =~= symref_argv(remote_prefix(remote@) + "HEAD"@));
        let said = in_repo(run, self, args);
        assert(self.reads(
            *run,
            symref_argv(remote_prefix(remote@) + "HEAD"@),
            outcome(said),
        ));
        match said {
            Ok(target) => {
                let target = trim(target.as_str());
                Ok(strip_prefix(target.as_str(), prefix.as_str()))
            },
            Err(e) => {
                if exited_one(&e) {
                    Ok(None)
                } else {
                    Err(e)
                }
            },
        }
    }

    /// `ls-remote --symref <remote> HEAD`: what the remote advertises as its
    /// default branch, read-only and without fetching.
    pub fn remote_head<G: Fn(&Vec<String>, &Vec<String>) -> Reply>(
        &self,
        run: &G,
        remote: &str,
    ) -> (r: RemoteHead)
        requires
            accepts_reads(*run),
        ensures
            self.has_remote_head(*run, remote@, r.deep_view()),
    {
        let args: &[&str] = &["ls-remote", "--symref", remote, "HEAD"];
        assert(args.deep_view() =~= remote_head_argv(remote@));
        let said = in_repo(run, self, args);
        assert(self.reads(*run, remote_head_argv(remote@), outcome(said)));
        match said {
            Ok(text) => {
                let found = lines(text.as_str());
                let ghost all = found.deep_view();
                let mut i: usize = 0;
                assert(all.skip(0) =~= all);
                while i < found.len()
                    invariant
                        i <= found@.len(),
                        all == found.deep_view(),
                        all == line_list(text@),
                        first_advertised(all) == first_advertised(all.skip(i as int)),
                        self.reads(*run, remote_head_argv(remote@), Ok(text@)),
                    decreases found@.len() - i,
                {
                    let line = found[i].as_str();
                    assert(all.skip(i as int)[0] == line@);
                    assert(all.skip(i as int).drop_first() =~= all.skip(i + 1));
                    if let Some(rest) = strip_prefix(line, "ref: refs/heads/") {
                        if let Some((branch, name)) = split_once(rest.as_str(), '\t') {
                            if same(name.as_str(), "HEAD") {
                                return RemoteHead::Advertised(branch);
                            }
                        }
                    }
                    i += 1;
                }
                RemoteHead::NotAdvertised
            },
            Err(e) => {
                let mut reason = "ls-remote ".to_owned();
                reason.append(remote);
                reason.append(" HEAD: ");
                reason.append(e.to_string().as_str());
                RemoteHead::Unreachable(reason)
            },
        }
    }

    /// Every refname the remote advertises, proven by one `ls-remote`
    /// listing (no fetch, no local mutation). Membership checks against the
    /// listing answer any per-ref question without asking again. `Unknown`
    /// when the remote could not be asked.
    pub fn remote_refs<G: Fn(&Vec<String>, &Vec<String>) -> Reply>(
        &self,
        run: &G,
        remote: &str,
    ) -> (r: Evidence<Vec<String>>)
        requires
            accepts_reads(*run),
        ensures
            self.has_remote_refs(*run, remote@, r.deep_view()),
    {
        let args: &[&str] = &["ls-remote", remote];
        assert(args.deep_view() =~= remote_refs_argv(remote@));
        let said = in_repo(run, self, args);
        assert(self.reads(*run, remote_refs_argv(remote@), outcome(said)));
        match said {
            Ok(text) => {
                let found = lines(text.as_str());
                let ghost all = found.deep_view();
                let mut refs: Vec<String> = Vec::new();
                let mut i: usize = 0;
                while i < found.len()
                    invariant
                        i <= found@.len(),
                        all == found.deep_view(),
                        refs@.len() == i,
                        forall|j: int|
                            0 <= j < i ==> refs.deep_view()[j] == after_last(
                                #[trigger] all[j],
                                '\t',
                            ),
                    decreases found@.len() - i,
                {
                    let name = last_piece(found[i].as_str(), '\t');
                    let ghost before = refs.deep_view();
                    let ghost one = name@;
                    refs.push(name);
                    assert(refs.deep_view() =~= before.push(one));
                    i += 1;
                }
                assert(refs.deep_view() =~= all.map_values(
                    |line: Seq<char>| after_last(line, '\t'),
                ));
                Evidence::Known(refs)
            },
            Err(e) => {
                let mut reason = "ls-remote ".to_owned();
                reason.append(remote);
                reason.append(": ");
                reason.append(e.to_string().as_str());
                Evidence::Unknown(reason)
            },
        }
    }
}

// ---------------------------------------------------------------------------
// What branches and remotes promise
// ---------------------------------------------------------------------------

/// The local branches are those that Git lists below `refs/heads/`, by their
/// names and in order; the remotes are those that Git lists. Where Git fails,
/// neither is known.
pub proof fn law_branches_and_remotes_are_those_listed<
    G: Fn(&Vec<String>, &Vec<String>) -> Reply,
>(
    run: G,
    repo: Repo,
    names: Seq<Seq<char>>,
    code: int,
    branches: Result<Seq<Seq<char>>, ErrorView>,
    remotes: Result<Seq<Seq<char>>, ErrorView>,
)
    requires
        repo.has_branches(run, branches),
        repo.has_remotes(run, remotes),
        forall|i: int| 0 <= i < names.len() ==> is_word(#[trigger] names[i]),
    ensures
        ({
            let global = repo_globals(repo.deep_view());
            let heads = seq!["for-each-ref"@, "--format=%(refname)"@, "refs/heads/"@];
            let listed = names.map_values(|name: Seq<char>| "refs/heads/"@ + name);
            &&& always_prints(run, global, heads, terminated(listed, '\n')) ==> branches is Ok
                && sorted(branches->Ok_0) && branches->Ok_0.to_multiset() == names.to_multiset()
            &&& code != 0 && always_exits(run, global, heads, code) ==> branches is Err
            &&& always_prints(run, global, seq!["remote"@], terminated(names, '\n')) ==> remotes
                is Ok && sorted(remotes->Ok_0) && remotes->Ok_0.to_multiset()
                == names.to_multiset()
            &&& code != 0 && always_exits(run, global, seq!["remote"@], code) ==> remotes is Err
        }),
{
    let global = repo_globals(repo.deep_view());
    law_every_invocation_is_read_only(seq![], seq![], seq![]);
    lemma_says(run, global, branches_argv());
    lemma_says(run, global, remotes_argv());
    let listed = names.map_values(|name: Seq<char>| "refs/heads/"@ + name);
    reveal_strlit("refs/heads/");
    assert(is_space('\n') && is_space('\r'));
    assert forall|i: int| 0 <= i < names.len() implies !(#[trigger] names[i]).contains('\n')
        && !names[i].contains('\r') by {
        assert(is_word(names[i]));
        assert forall|k: int| 0 <= k < names[i].len() implies names[i][k] != '\n' && names[i][k]
            != '\r' by {
            assert(!is_space(names[i][k]));
        }
    }
    assert forall|i: int| 0 <= i < listed.len() implies !(#[trigger] listed[i]).contains('\n')
        && !listed[i].contains('\r') by {
        let name = names[i];
        assert(!name.contains('\n') && !name.contains('\r'));
        assert forall|k: int| 0 <= k < listed[i].len() implies listed[i][k] != '\n' && listed[i][k]
            != '\r' by {
            if k >= 11 {
                assert(name.contains(name[k - 11]));
            }
        }
    }
    law_lines_read_back(listed, false);
    law_lines_read_back(names, false);
    lemma_branch_names(names);
    lemma_remote_names(names);
}

pub(crate) proof fn lemma_remotes_are_those_listed<G: Fn(&Vec<String>, &Vec<String>) -> Reply>(
    run: G,
    repo: Repo,
    names: Seq<Seq<char>>,
    remotes: Result<Seq<Seq<char>>, ErrorView>,
)
    requires
        repo.has_remotes(run, remotes),
        forall|i: int| 0 <= i < names.len() ==> is_word(#[trigger] names[i]),
        always_prints(
            run,
            repo_globals(repo.deep_view()),
            seq!["remote"@],
            terminated(names, '\n'),
        ),
    ensures
        remotes is Ok,
        sorted(remotes->Ok_0),
        remotes->Ok_0.to_multiset() == names.to_multiset(),
{
    let global = repo_globals(repo.deep_view());
    lemma_says(run, global, remotes_argv());
    assert(is_space('\n') && is_space('\r'));
    assert forall|i: int| 0 <= i < names.len() implies !(#[trigger] names[i]).contains('\n')
        && !names[i].contains('\r') by {
        assert(is_word(names[i]));
        assert forall|k: int| 0 <= k < names[i].len() implies names[i][k] != '\n' && names[i][k]
            != '\r' by {
            assert(!is_space(names[i][k]));
        }
    }
    law_lines_read_back(names, false);
    lemma_remote_names(names);
}

proof fn lemma_branch_names(names: Seq<Seq<char>>)
    ensures
        branch_names(names.map_values(|name: Seq<char>| "refs/heads/"@ + name)) == names,
    decreases names.len(),
{
    let listed = names.map_values(|name: Seq<char>| "refs/heads/"@ + name);
    if names.len() > 0 {
        let before = names.drop_last();
        lemma_branch_names(before);
        assert(listed.drop_last() =~= before.map_values(
            |name: Seq<char>| "refs/heads/"@ + name,
        ));
        let last = "refs/heads/"@ + names.last();
        assert(last.take("refs/heads/"@.len() as int) =~= "refs/heads/"@);
        assert(last.skip("refs/heads/"@.len() as int) =~= names.last());
        assert(before.push(names.last()) =~= names);
    } else {
        assert(names =~= seq![]);
    }
}

proof fn lemma_remote_names(names: Seq<Seq<char>>)
    requires
        forall|i: int| 0 <= i < names.len() ==> is_word(#[trigger] names[i]),
    ensures
        remote_names(names) == names,
    decreases names.len(),
{
    if names.len() > 0 {
        let before = names.drop_last();
        assert(forall|i: int| 0 <= i < before.len() ==> before[i] == names[i]);
        lemma_remote_names(before);
        assert(is_word(names[names.len() - 1]));
        lemma_trimmed_line(names.last());
        assert(before.push(names.last()) =~= names);
    } else {
        assert(names =~= seq![]);
    }
}

/// A key has the value that Git prints for it and none where Git says nothing
/// and exits with one; anything else is a failure, not an absent key.
pub proof fn law_a_key_has_the_value_git_prints<G: Fn(&Vec<String>, &Vec<String>) -> Reply>(
    run: G,
    repo: Repo,
    key: Seq<char>,
    value: Seq<char>,
    code: int,
    message: Seq<char>,
    r: Result<Option<Seq<char>>, ErrorView>,
)
    requires
        repo.has_config(run, key, r),
        key.len() > 0,
        key[0] != '-',
        is_word(value),
        is_word(message),
    ensures
        ({
            let global = repo_globals(repo.deep_view());
            let asked = seq!["config"@, "--local"@, "--get"@, key];
            &&& always_prints(run, global, asked, value.push('\n')) ==> r == Ok::<
                Option<Seq<char>>,
                ErrorView,
            >(Some(value))
            &&& always_complains(run, global, asked, 1, seq![]) ==> r == Ok::<
                Option<Seq<char>>,
                ErrorView,
            >(None)
            &&& always_complains(run, global, asked, 1, message) ==> r is Err
            &&& code != 0 && code != 1 && always_exits(run, global, asked, code) ==> r is Err
            &&& never_answers(run, global, asked) ==> r is Err
        }),
{
    let global = repo_globals(repo.deep_view());
    lemma_config_is_read_only(key);
    lemma_says(run, global, config_argv(key));
    lemma_trimmed_line(value);
    lemma_trimmed_line(message);
    let none = Seq::<char>::empty();
    assert(trimmed(none) =~= none);
}

/// An upstream is configured when a branch has both a remote and a merge ref,
/// is not when it has neither, and is incomplete when it has one of them.
pub proof fn law_an_upstream_takes_both_keys<G: Fn(&Vec<String>, &Vec<String>) -> Reply>(
    run: G,
    repo: Repo,
    branch: Seq<char>,
    remote: Seq<char>,
    merge: Seq<char>,
    r: Result<UpstreamConfigView, ErrorView>,
)
    requires
        repo.has_upstream(run, branch, r),
        is_word(remote),
        is_word(merge),
    ensures
        ({
            let global = repo_globals(repo.deep_view());
            let on = seq!["config"@, "--local"@, "--get"@, "branch."@ + branch + ".remote"@];
            let into = seq!["config"@, "--local"@, "--get"@, "branch."@ + branch + ".merge"@];
            let has_remote = always_prints(run, global, on, remote.push('\n'));
            let has_merge = always_prints(run, global, into, merge.push('\n'));
            let no_remote = always_complains(run, global, on, 1, seq![]);
            let no_merge = always_complains(run, global, into, 1, seq![]);
            &&& has_remote && has_merge ==> r == Ok::<UpstreamConfigView, ErrorView>(
                UpstreamConfigView::Full { remote, merge },
            )
            &&& no_remote && no_merge ==> r == Ok::<UpstreamConfigView, ErrorView>(
                UpstreamConfigView::Unset,
            )
            &&& (has_remote && no_merge) || (no_remote && has_merge) ==> r == Ok::<
                UpstreamConfigView,
                ErrorView,
            >(UpstreamConfigView::Partial)
            &&& never_answers(run, global, on) || never_answers(run, global, into) && (has_remote
                || no_remote) ==> r is Err
        }),
{
    let global = repo_globals(repo.deep_view());
    law_every_invocation_is_read_only(branch, seq![], seq![]);
    lemma_says(run, global, config_argv(branch_remote_key(branch)));
    lemma_says(run, global, config_argv(branch_merge_key(branch)));
    lemma_trimmed_line(remote);
    lemma_trimmed_line(merge);
    let none = Seq::<char>::empty();
    assert(trimmed(none) =~= none);
}

/// What a remote says of its HEAD: the branch on the line that advertises it,
/// and none where no line does; a remote that cannot be asked says neither.
pub proof fn law_a_remote_head_is_what_it_advertises<G: Fn(&Vec<String>, &Vec<String>) -> Reply>(
    run: G,
    repo: Repo,
    remote: Seq<char>,
    branch: Seq<char>,
    sha: Seq<char>,
    code: int,
    r: RemoteHeadView,
)
    requires
        repo.has_remote_head(run, remote, r),
        is_word(branch),
        is_word(sha),
        sha[0] != 'r',
    ensures
        ({
            let global = repo_globals(repo.deep_view());
            let asked = seq!["ls-remote"@, "--symref"@, remote, "HEAD"@];
            let symref = ("ref: refs/heads/"@ + branch).push('\t') + "HEAD"@;
            let commit = sha.push('\t') + "HEAD"@;
            &&& always_prints(run, global, asked, terminated(seq![symref, commit], '\n')) ==> r
                == RemoteHeadView::Advertised(branch)
            &&& always_prints(run, global, asked, terminated(seq![commit], '\n')) ==> r
                is NotAdvertised
            &&& always_prints(run, global, asked, seq![]) ==> r is NotAdvertised
            &&& code != 0 && always_exits(run, global, asked, code) ==> r is Unreachable
            &&& never_answers(run, global, asked) ==> r is Unreachable
        }),
{
    let global = repo_globals(repo.deep_view());
    law_every_invocation_is_read_only(remote, seq![], seq![]);
    lemma_says(run, global, remote_head_argv(remote));
    reveal_strlit("ref: refs/heads/");
    reveal_strlit("HEAD");
    let lead = "ref: refs/heads/"@ + branch;
    let symref = lead.push('\t') + "HEAD"@;
    let commit = sha.push('\t') + "HEAD"@;
    assert(is_space('\n') && is_space('\r') && is_space('\t'));
    assert forall|k: int| 0 <= k < branch.len() implies !is_space(#[trigger] branch[k]) by {}
    assert(!symref.contains('\n') && !symref.contains('\r')) by {
        assert forall|k: int| 0 <= k < symref.len() implies symref[k] != '\n' && symref[k]
            != '\r' by {
            if 16 <= k < lead.len() {
                assert(symref[k] == branch[k - 16]);
            } else if k > lead.len() {
                assert(symref[k] == "HEAD"@[k - lead.len() - 1]);
            }
        }
    }
    assert(!commit.contains('\n') && !commit.contains('\r')) by {
        assert forall|k: int| 0 <= k < commit.len() implies commit[k] != '\n' && commit[k]
            != '\r' by {
            if k < sha.len() {
                assert(!is_space(sha[k]));
            } else if k > sha.len() {
                assert(commit[k] == "HEAD"@[k - sha.len() - 1]);
            }
        }
    }
    law_lines_read_back(seq![symref, commit], false);
    law_lines_read_back(seq![commit], false);
    law_lines_read_back(seq![], false);
    assert(terminated(seq![], '\n') =~= Seq::<char>::empty());
    assert(symref.take(16) =~= "ref: refs/heads/"@);
    let rest = symref.skip(16);
    assert(rest =~= branch.push('\t') + "HEAD"@);
    assert forall|k: int| 0 <= k < branch.len() implies rest[k] != '\t' by {
        assert(!is_space(branch[k]));
    }
    lemma_find_is(rest, '\t', branch.len() as int);
    assert(rest.take(branch.len() as int) =~= branch);
    assert(rest.skip(branch.len() as int + 1) =~= "HEAD"@);
    assert(advertised_branch(symref) == Some(branch));
    assert(!begins(commit, "ref: refs/heads/"@)) by {
        if begins(commit, "ref: refs/heads/"@) {
            assert(commit.take(16)[0] == sha[0]);
            assert("ref: refs/heads/"@[0] == 'r');
        }
    }
    assert(advertised_branch(commit) is None);
    reveal_with_fuel(first_advertised, 3);
    assert(seq![commit].drop_first() =~= seq![]);
    assert(seq![symref, commit][0] == symref);
}

/// What a remote lists is the ref on each of its lines; a remote that cannot
/// be asked lists nothing that could be missed.
pub proof fn law_a_remote_lists_its_refs<G: Fn(&Vec<String>, &Vec<String>) -> Reply>(
    run: G,
    repo: Repo,
    remote: Seq<char>,
    sha: Seq<char>,
    refs: Seq<Seq<char>>,
    reference: Seq<char>,
    code: int,
    r: EvidenceView<Seq<Seq<char>>>,
)
    requires
        repo.has_remote_refs(run, remote, r),
        is_word(sha),
        forall|i: int| 0 <= i < refs.len() ==> is_word(#[trigger] refs[i]),
    ensures
        ({
            let global = repo_globals(repo.deep_view());
            let asked = seq!["ls-remote"@, remote];
            let printed = refs.map_values(|name: Seq<char>| sha.push('\t') + name);
            &&& always_prints(run, global, asked, terminated(printed, '\n')) ==> r
                == EvidenceView::Known(refs) && advertises(r, reference) == EvidenceView::Known(
                refs.contains(reference),
            )
            &&& code != 0 && always_exits(run, global, asked, code) ==> r is Unknown && advertises(
                r,
                reference,
            ) is Unknown
            &&& never_answers(run, global, asked) ==> r is Unknown && advertises(r, reference)
                is Unknown
        }),
{
    let global = repo_globals(repo.deep_view());
    law_every_invocation_is_read_only(remote, seq![], seq![]);
    lemma_says(run, global, remote_refs_argv(remote));
    let printed = refs.map_values(|name: Seq<char>| sha.push('\t') + name);
    assert(is_space('\n') && is_space('\r') && is_space('\t'));
    let n = sha.len() as int;
    assert forall|i: int| 0 <= i < printed.len() implies !(#[trigger] printed[i]).contains('\n')
        && !printed[i].contains('\r') && after_last(printed[i], '\t') == refs[i] by {
        let name = refs[i];
        let line = printed[i];
        assert(is_word(name));
        assert forall|k: int| 0 <= k < line.len() implies line[k] != '\n' && line[k] != '\r' by {
            if k < n {
                assert(!is_space(sha[k]));
            } else if k > n {
                assert(!is_space(name[k - n - 1]));
            }
        }
        assert forall|k: int| n < k < line.len() implies #[trigger] line[k] != '\t' by {
            assert(!is_space(name[k - n - 1]));
        }
        lemma_after_last_is(line, '\t', n);
        assert(line.skip(n + 1) =~= name);
    }
    law_lines_read_back(printed, false);
    assert(printed.map_values(|line: Seq<char>| after_last(line, '\t')) =~= refs);
}

/// The local note of a remote's HEAD names the branch that it points at, and
/// none where there is no such note.
pub proof fn law_a_local_head_is_where_it_points<G: Fn(&Vec<String>, &Vec<String>) -> Reply>(
    run: G,
    repo: Repo,
    remote: Seq<char>,
    branch: Seq<char>,
    r: Result<Option<Seq<char>>, ErrorView>,
)
    requires
        repo.has_local_head(run, remote, r),
        is_word(remote),
        is_word(branch),
    ensures
        ({
            let global = repo_globals(repo.deep_view());
            let home = "refs/remotes/"@ + remote + "/"@;
            let asked = seq!["symbolic-ref"@, "-q"@, home + "HEAD"@];
            &&& always_prints(run, global, asked, (home + branch).push('\n')) ==> r == Ok::<
                Option<Seq<char>>,
                ErrorView,
            >(Some(branch))
            &&& always_exits(run, global, asked, 1) ==> r == Ok::<Option<Seq<char>>, ErrorView>(
                None,
            )
            &&& never_answers(run, global, asked) ==> r is Err
        }),
{
    let global = repo_globals(repo.deep_view());
    law_every_invocation_is_read_only(remote, seq![], seq![]);
    lemma_says(run, global, symref_argv(remote_prefix(remote) + "HEAD"@));
    reveal_strlit("refs/remotes/");
    reveal_strlit("/");
    let home = remote_prefix(remote);
    let target = home + branch;
    assert forall|k: int| 0 <= k < target.len() implies !is_space(#[trigger] target[k]) by {
        if 13 <= k < 13 + remote.len() {
            assert(!is_space(remote[k - 13]));
        } else if k > 13 + remote.len() {
            assert(!is_space(branch[k - 14 - remote.len()]));
        }
    }
    lemma_trimmed_line(target);
    assert(target.take(home.len() as int) =~= home);
    assert(target.skip(home.len() as int) =~= branch);
}

}
