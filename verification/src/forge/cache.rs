//! Forge answers, kept until they expire.

use vstd::prelude::*;
use vstd::string::*;

use crate::forge::{ForgeStatus, StatusView};
use crate::forge::ask::{asks, Attempt, Forge};
use crate::text::same;
use crate::time::{Duration, Instant};

verus! {

// ---------------------------------------------------------------------------
// The cache
// ---------------------------------------------------------------------------

/// One kept answer.
struct CacheEntry {
    remote_url: String,
    branch: String,
    at: Instant,
    status: ForgeStatus,
}

/// Keeps network facts off the render path: a cached answer is served until
/// `ttl` old, and only an explicit collection asks the CLI again.
pub struct ForgeCache {
    ttl: Duration,
    entries: Vec<CacheEntry>,
}

impl CacheEntry {
    spec fn key(self) -> (Seq<char>, Seq<char>) {
        (self.remote_url@, self.branch@)
    }

    spec fn fact(self) -> (Instant, StatusView) {
        (self.at, self.status.deep_view())
    }
}

/// The first answer kept under the key.
spec fn first_fact(entries: Seq<CacheEntry>, key: (Seq<char>, Seq<char>)) -> Option<
    (Instant, StatusView),
>
    decreases entries.len(),
{
    if entries.len() == 0 {
        None
    } else if entries[0].key() == key {
        Some(entries[0].fact())
    } else {
        first_fact(entries.drop_first(), key)
    }
}

/// A cache asked at `now`: an answer that is fresh is served and nothing
/// changes; otherwise the forge is asked, and its answer is kept.
pub open spec fn serves<
    L: Fn(&String) -> Option<String>,
    A: Fn(&String, &Vec<String>) -> Attempt,
>(
    before: ForgeCache,
    forge: Forge<L, A>,
    remote_url: Seq<char>,
    branch: Seq<char>,
    now: Instant,
    r: StatusView,
    after: ForgeCache,
) -> bool {
    let key = (remote_url, branch);
    &&& after.ttl() == before.ttl()
    &&& if before.is_fresh(key, now) {
        r == before.facts()[key].1 && after.facts() == before.facts()
    } else {
        asks(forge, remote_url, branch, r) && after.facts() == before.facts().insert(key, (now, r))
    }
}

impl ForgeCache {
    /// How old an answer may be and still be served.
    pub closed spec fn ttl(self) -> Duration {
        self.ttl
    }

    /// The answers kept, by remote URL and branch, each with when it came.
    pub closed spec fn facts(self) -> Map<(Seq<char>, Seq<char>), (Instant, StatusView)> {
        Map::new(
            |key: (Seq<char>, Seq<char>)| first_fact(self.entries@, key) is Some,
            |key: (Seq<char>, Seq<char>)| first_fact(self.entries@, key)->0,
        )
    }

    /// Whether an answer is kept that may be served at `now`.
    pub open spec fn is_fresh(self, key: (Seq<char>, Seq<char>), now: Instant) -> bool {
        self.facts().contains_key(key) && now.since(self.facts()[key].0) < self.ttl().total_nanos()
    }

    pub fn new(ttl: Duration) -> (r: ForgeCache)
        ensures
            r.ttl() == ttl,
            r.facts() == Map::<(Seq<char>, Seq<char>), (Instant, StatusView)>::empty(),
    {
        let r = ForgeCache { ttl, entries: Vec::new() };
        assert(r.facts() =~= Map::empty());
        r
    }

    /// The position of the first answer kept under the key.
    fn find(&self, remote_url: &str, branch: &str) -> (r: Option<usize>)
        ensures
            match r {
                Some(i) => {
                    &&& i < self.entries@.len()
                    &&& self.entries@[i as int].key() == (remote_url@, branch@)
                    &&& forall|j: int|
                        0 <= j < i ==> (#[trigger] self.entries@[j]).key() != (remote_url@, branch@)
                },
                None => forall|j: int|
                    0 <= j < self.entries@.len() ==> (#[trigger] self.entries@[j]).key() != (
                        remote_url@,
                        branch@,
                    ),
            },
    {
        let mut i: usize = 0;
        while i < self.entries.len()
            invariant
                i <= self.entries@.len(),
                forall|j: int|
                    0 <= j < i ==> (#[trigger] self.entries@[j]).key() != (remote_url@, branch@),
            decreases self.entries@.len() - i,
        {
            let entry = &self.entries[i];
            if same(entry.remote_url.as_str(), remote_url) && same(entry.branch.as_str(), branch) {
                return Some(i);
            }
            i += 1;
        }
        None
    }

    /// The work-item state of `branch` on `remote_url`, out of the cache while
    /// it is fresh. `now` is a parameter so tests drive expiry without
    /// sleeping.
    pub fn status<L: Fn(&String) -> Option<String>, A: Fn(&String, &Vec<String>) -> Attempt>(
        &mut self,
        forge: &Forge<L, A>,
        remote_url: &str,
        branch: &str,
        now: Instant,
    ) -> (r: ForgeStatus)
        requires
            forge.is_ready(),
        ensures
            serves(*old(self), *forge, remote_url@, branch@, now, r.deep_view(), *final(self)),
    {
        let ghost key = (remote_url@, branch@);
        let ghost before = self.entries@;
        let found = self.find(remote_url, branch);
        if let Some(i) = found {
            proof {
                lemma_first_fact(before, key, i as int);
            }
            let entry = &self.entries[i];
            if now.nanos_since(entry.at) < self.ttl.as_nanos() {
                return entry.status.clone();
            }
        } else {
            proof {
                lemma_no_fact(before, key);
            }
        }
        let status = forge.status(remote_url, branch);
        let entry = CacheEntry {
            remote_url: remote_url.to_owned(),
            branch: branch.to_owned(),
            at: now,
            status: status.clone(),
        };
        let ghost kept = entry;
        match found {
            Some(i) => {
                self.entries[i] = entry;
            },
            None => {
                self.entries.push(entry);
            },
        }
        proof {
            let at = match found {
                Some(i) => i as int,
                None => before.len() as int,
            };
            assert forall|k: (Seq<char>, Seq<char>)|
                first_fact(self.entries@, k) == if k == key {
                    Some((now, status.deep_view()))
                } else {
                    #[trigger] first_fact(before, k)
                } by {
                lemma_kept_fact(before, self.entries@, at, key, k);
            }
            assert(self.facts() =~= old(self).facts().insert(key, (now, status.deep_view())));
        }
        status
    }
}

proof fn lemma_first_fact(entries: Seq<CacheEntry>, key: (Seq<char>, Seq<char>), i: int)
    requires
        0 <= i < entries.len(),
        entries[i].key() == key,
        forall|j: int| 0 <= j < i ==> (#[trigger] entries[j]).key() != key,
    ensures
        first_fact(entries, key) == Some(entries[i].fact()),
    decreases entries.len(),
{
    if i > 0 {
        let rest = entries.drop_first();
        assert(entries[0].key() != key);
        assert forall|j: int| 0 <= j < i - 1 implies (#[trigger] rest[j]).key() != key by {
            assert(rest[j] == entries[j + 1]);
        }
        lemma_first_fact(rest, key, i - 1);
    }
}

proof fn lemma_no_fact(entries: Seq<CacheEntry>, key: (Seq<char>, Seq<char>))
    requires
        forall|j: int| 0 <= j < entries.len() ==> (#[trigger] entries[j]).key() != key,
    ensures
        first_fact(entries, key) is None,
    decreases entries.len(),
{
    if entries.len() > 0 {
        let rest = entries.drop_first();
        assert(entries[0].key() != key);
        assert forall|j: int| 0 <= j < rest.len() implies (#[trigger] rest[j]).key() != key by {
            assert(rest[j] == entries[j + 1]);
        }
        lemma_no_fact(rest, key);
    }
}

/// Putting one answer in the place of the first kept under its key, or behind
/// all others when there is none, changes what is kept under that key alone.
proof fn lemma_kept_fact(
    before: Seq<CacheEntry>,
    after: Seq<CacheEntry>,
    at: int,
    key: (Seq<char>, Seq<char>),
    k: (Seq<char>, Seq<char>),
)
    requires
        0 <= at <= before.len(),
        at < after.len(),
        after.len() == if at < before.len() {
            before.len()
        } else {
            before.len() + 1
        },
        after[at].key() == key,
        forall|j: int| 0 <= j < before.len() && j != at ==> #[trigger] after[j] == before[j],
        at < before.len() ==> before[at].key() == key,
        forall|j: int| 0 <= j < at ==> (#[trigger] before[j]).key() != key,
    ensures
        first_fact(after, k) == if k == key {
            Some(after[at].fact())
        } else {
            first_fact(before, k)
        },
    decreases before.len(),
{
    if at == 0 {
        if before.len() > 0 {
            assert(after.drop_first() =~= before.drop_first());
        } else {
            assert(after.drop_first() =~= seq![]);
            assert(first_fact(after.drop_first(), k) is None);
        }
    } else {
        assert(after[0] == before[0]);
        assert(before[0].key() != key);
        let x = before.drop_first();
        let y = after.drop_first();
        assert forall|j: int| 0 <= j < x.len() && j != at - 1 implies #[trigger] y[j] == x[j] by {
            assert(after[j + 1] == before[j + 1]);
        }
        assert forall|j: int| 0 <= j < at - 1 implies (#[trigger] x[j]).key() != key by {
            assert(x[j] == before[j + 1]);
        }
        lemma_kept_fact(x, y, at - 1, key, k);
    }
}

// ---------------------------------------------------------------------------
// What the cache promises
// ---------------------------------------------------------------------------

/// An answer that the forge gave is served again until it is `ttl` old, and
/// from then on the forge is asked anew. Neither touches another answer.
pub proof fn law_answers_are_served_until_expiry<
    L: Fn(&String) -> Option<String>,
    A: Fn(&String, &Vec<String>) -> Attempt,
>(
    forge: Forge<L, A>,
    remote_url: Seq<char>,
    branch: Seq<char>,
    before: ForgeCache,
    now: Instant,
    first: StatusView,
    between: ForgeCache,
    later: Instant,
    second: StatusView,
    after: ForgeCache,
    other: (Seq<char>, Seq<char>),
)
    requires
        !before.is_fresh((remote_url, branch), now),
        serves(before, forge, remote_url, branch, now, first, between),
        serves(between, forge, remote_url, branch, later, second, after),
    ensures
        asks(forge, remote_url, branch, first),
        later.since(now) < before.ttl().total_nanos() ==> second == first && after.facts()
            == between.facts(),
        later.since(now) >= before.ttl().total_nanos() ==> asks(forge, remote_url, branch, second)
            && after.facts()[(remote_url, branch)] == (later, second),
        other != (remote_url, branch) ==> {
            &&& after.facts().contains_key(other) <==> before.facts().contains_key(other)
            &&& before.facts().contains_key(other) ==> after.facts()[other]
                == before.facts()[other]
        },
{
}

}
