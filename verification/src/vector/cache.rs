//! Remote evidence, memoised so that each remote is asked once.

use vstd::prelude::*;
use vstd::string::*;

use crate::command::Reply;
use crate::evidence::{Evidence, EvidenceView};
use crate::git::{accepts_reads, advertises, RemoteHead, RemoteHeadView, Repo};
use crate::text::{contains_text, same};

verus! {

// ---------------------------------------------------------------------------
// Remote evidence, asked once
// ---------------------------------------------------------------------------

/// One answer of one remote of one repository.
struct Kept<T> {
    common_dir: String,
    remote: String,
    answer: T,
}

/// Remote evidence of one collection pass: what a remote answered once is not
/// asked again. Evidence is kept per repository, since two repositories may
/// give their remotes the same name.
pub struct RemoteCache {
    heads: Vec<Kept<RemoteHead>>,
    refs: Vec<Kept<Evidence<Vec<String>>>>,
}

/// The first answer kept under the key.
spec fn first_kept<T: DeepView>(
    entries: Seq<Kept<T>>,
    key: (Seq<char>, Seq<char>),
) -> Option<T::V>
    decreases entries.len(),
{
    if entries.len() == 0 {
        None
    } else {
        match first_kept(entries.drop_last(), key) {
            Some(answer) => Some(answer),
            None => if (entries.last().common_dir@, entries.last().remote@) == key {
                Some(entries.last().answer.deep_view())
            } else {
                None
            },
        }
    }
}

/// The answers kept, by common directory and remote name.
spec fn kept_map<T: DeepView>(entries: Seq<Kept<T>>) -> Map<(Seq<char>, Seq<char>), T::V> {
    Map::new(
        |key: (Seq<char>, Seq<char>)| first_kept(entries, key) is Some,
        |key: (Seq<char>, Seq<char>)| first_kept(entries, key)->0,
    )
}

/// One more answer, under a key that had none, extends the map by that key.
proof fn lemma_kept_push<T: DeepView>(entries: Seq<Kept<T>>, entry: Kept<T>)
    requires
        first_kept(entries, (entry.common_dir@, entry.remote@)) is None,
    ensures
        kept_map(entries.push(entry)) == kept_map(entries).insert(
            (entry.common_dir@, entry.remote@),
            entry.answer.deep_view(),
        ),
{
    let longer = entries.push(entry);
    assert(longer.drop_last() =~= entries);
    assert(kept_map(longer) =~= kept_map(entries).insert(
        (entry.common_dir@, entry.remote@),
        entry.answer.deep_view(),
    ));
}

/// An answer found in a prefix is the first of the whole.
proof fn lemma_kept_prefix<T: DeepView>(
    entries: Seq<Kept<T>>,
    n: int,
    key: (Seq<char>, Seq<char>),
)
    requires
        0 <= n <= entries.len(),
        first_kept(entries.take(n), key) is Some,
    ensures
        first_kept(entries, key) == first_kept(entries.take(n), key),
    decreases entries.len(),
{
    if n == entries.len() {
        assert(entries.take(n) =~= entries);
    } else {
        assert(entries.drop_last().take(n) =~= entries.take(n));
        lemma_kept_prefix(entries.drop_last(), n, key);
    }
}

/// The position of the first answer kept under the key.
fn find_kept<T: DeepView>(entries: &Vec<Kept<T>>, common_dir: &str, remote: &str) -> (r: Option<
    usize,
>)
    ensures
        match r {
            Some(i) => i < entries@.len() && first_kept(entries@, (common_dir@, remote@)) == Some(
                entries@[i as int].answer.deep_view(),
            ),
            None => first_kept(entries@, (common_dir@, remote@)) is None,
        },
{
    let ghost key = (common_dir@, remote@);
    let mut i: usize = 0;
    while i < entries.len()
        invariant
            i <= entries@.len(),
            key == (common_dir@, remote@),
            first_kept(entries@.take(i as int), key) is None,
        decreases entries@.len() - i,
    {
        let entry = &entries[i];
        assert(entries@.take(i + 1).drop_last() =~= entries@.take(i as int));
        assert(entries@.take(i + 1).last() == *entry);
        if same(entry.common_dir.as_str(), common_dir) && same(entry.remote.as_str(), remote) {
            proof {
                lemma_kept_prefix(entries@, i + 1, key);
            }
            return Some(i);
        }
        i += 1;
    }
    assert(entries@.take(i as int) =~= entries@);
    None
}

impl RemoteCache {
    /// The HEADs kept, by common directory and remote name.
    pub closed spec fn heads(self) -> Map<(Seq<char>, Seq<char>), RemoteHeadView> {
        kept_map(self.heads@)
    }

    /// The listings kept, by common directory and remote name.
    pub closed spec fn refs(self) -> Map<(Seq<char>, Seq<char>), EvidenceView<Seq<Seq<char>>>> {
        kept_map(self.refs@)
    }

    /// Nothing kept yet.
    pub open spec fn is_fresh(self) -> bool {
        self.heads() == Map::<(Seq<char>, Seq<char>), RemoteHeadView>::empty() && self.refs()
            == Map::<(Seq<char>, Seq<char>), EvidenceView<Seq<Seq<char>>>>::empty()
    }
}

/// `head` is what may be learned of the remote's HEAD: what the cache keeps, or
/// else an answer of the remote, which the cache keeps from then on.
pub open spec fn learns_head<G: Fn(&Vec<String>, &Vec<String>) -> Reply>(
    run: G,
    repo: Repo,
    before: RemoteCache,
    remote: Seq<char>,
    head: RemoteHeadView,
    after: RemoteCache,
) -> bool {
    let key = (repo.deep_view(), remote);
    &&& if before.heads().contains_key(key) {
        head == before.heads()[key] && after.heads() == before.heads()
    } else {
        repo.has_remote_head(run, remote, head) && after.heads() == before.heads().insert(
            key,
            head,
        )
    }
    &&& after.refs() == before.refs()
}

/// `refs` is what may be learned of the remote's listing, in the same way.
pub open spec fn learns_refs<G: Fn(&Vec<String>, &Vec<String>) -> Reply>(
    run: G,
    repo: Repo,
    before: RemoteCache,
    remote: Seq<char>,
    refs: EvidenceView<Seq<Seq<char>>>,
    after: RemoteCache,
) -> bool {
    let key = (repo.deep_view(), remote);
    &&& if before.refs().contains_key(key) {
        refs == before.refs()[key] && after.refs() == before.refs()
    } else {
        repo.has_remote_refs(run, remote, refs) && after.refs() == before.refs().insert(key, refs)
    }
    &&& after.heads() == before.heads()
}

/// `r` is what may be learned of whether the remote lists `reference`.
pub open spec fn learns_advertised<G: Fn(&Vec<String>, &Vec<String>) -> Reply>(
    run: G,
    repo: Repo,
    before: RemoteCache,
    remote: Seq<char>,
    reference: Seq<char>,
    r: EvidenceView<bool>,
    after: RemoteCache,
) -> bool {
    exists|refs: EvidenceView<Seq<Seq<char>>>|
        #[trigger] learns_refs(run, repo, before, remote, refs, after) && r == advertises(
            refs,
            reference,
        )
}

impl Default for RemoteCache {
    fn default() -> (r: RemoteCache)
        ensures
            r.is_fresh(),
    {
        let r = RemoteCache { heads: Vec::new(), refs: Vec::new() };
        assert(r.heads() =~= Map::empty());
        assert(r.refs() =~= Map::empty());
        r
    }
}

impl RemoteCache {
    /// What the remote advertises as its HEAD, asked at most once.
    pub fn remote_head<G: Fn(&Vec<String>, &Vec<String>) -> Reply>(
        &mut self,
        run: &G,
        repo: &Repo,
        remote: &str,
    ) -> (r: RemoteHead)
        requires
            accepts_reads(*run),
        ensures
            learns_head(*run, *repo, *old(self), remote@, r.deep_view(), *final(self)),
    {
        if let Some(i) = find_kept(&self.heads, repo.common_dir(), remote) {
            return self.heads[i].answer.clone();
        }
        let head = repo.remote_head(run, remote);
        let entry = Kept {
            common_dir: repo.common_dir().to_owned(),
            remote: remote.to_owned(),
            answer: head.clone(),
        };
        proof {
            lemma_kept_push(self.heads@, entry);
        }
        self.heads.push(entry);
        head
    }

    /// Whether the remote lists `reference`, its listing asked for at most
    /// once. An unreachable remote is `Unknown`, not a no.
    pub fn remote_advertises<G: Fn(&Vec<String>, &Vec<String>) -> Reply>(
        &mut self,
        run: &G,
        repo: &Repo,
        remote: &str,
        reference: &str,
    ) -> (r: Evidence<bool>)
        requires
            accepts_reads(*run),
        ensures
            learns_advertised(
                *run,
                *repo,
                *old(self),
                remote@,
                reference@,
                r.deep_view(),
                *final(self),
            ),
    {
        let at: usize = match find_kept(&self.refs, repo.common_dir(), remote) {
            Some(i) => i,
            None => {
                let refs = repo.remote_refs(run, remote);
                let entry = Kept {
                    common_dir: repo.common_dir().to_owned(),
                    remote: remote.to_owned(),
                    answer: refs,
                };
                proof {
                    lemma_kept_push(self.refs@, entry);
                }
                self.refs.push(entry);
                self.refs.len() - 1
            },
        };
        let refs = &self.refs[at].answer;
        assert(learns_refs(*run, *repo, *old(self), remote@, refs.deep_view(), *self));
        match refs {
            Evidence::Known(refs) => Evidence::Known(contains_text(refs, reference)),
            Evidence::Unknown(reason) => Evidence::Unknown(reason.clone()),
        }
    }
}

// ---------------------------------------------------------------------------
// What the cache promises
// ---------------------------------------------------------------------------

/// What the cache keeps of a remote it gives back unasked and unchanged, and
/// what it learns of one remote changes nothing of any other, in this
/// repository or another.
pub proof fn law_evidence_is_asked_once_and_scoped<G: Fn(&Vec<String>, &Vec<String>) -> Reply>(
    run: G,
    repo: Repo,
    before: RemoteCache,
    remote: Seq<char>,
    head: RemoteHeadView,
    after: RemoteCache,
    key: (Seq<char>, Seq<char>),
)
    requires
        learns_head(run, repo, before, remote, head, after),
    ensures
        after.heads().contains_key((repo.deep_view(), remote)),
        after.heads()[(repo.deep_view(), remote)] == head,
        before.heads().contains_key((repo.deep_view(), remote)) ==> after.heads() == before.heads(),
        key != (repo.deep_view(), remote) ==> after.heads().contains_key(key)
            == before.heads().contains_key(key),
        key != (repo.deep_view(), remote) && before.heads().contains_key(key)
            ==> after.heads()[key] == before.heads()[key],
        after.refs() == before.refs(),
{
}

/// The same of listings.
pub proof fn law_listings_are_asked_once_and_scoped<G: Fn(&Vec<String>, &Vec<String>) -> Reply>(
    run: G,
    repo: Repo,
    before: RemoteCache,
    remote: Seq<char>,
    refs: EvidenceView<Seq<Seq<char>>>,
    after: RemoteCache,
    key: (Seq<char>, Seq<char>),
)
    requires
        learns_refs(run, repo, before, remote, refs, after),
    ensures
        after.refs().contains_key((repo.deep_view(), remote)),
        after.refs()[(repo.deep_view(), remote)] == refs,
        before.refs().contains_key((repo.deep_view(), remote)) ==> after.refs() == before.refs(),
        key != (repo.deep_view(), remote) ==> after.refs().contains_key(key)
            == before.refs().contains_key(key),
        key != (repo.deep_view(), remote) && before.refs().contains_key(key) ==> after.refs()[key]
            == before.refs()[key],
        after.heads() == before.heads(),
{
}

}
