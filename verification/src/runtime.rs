//! Runtime evidence fused into live attachments: whether a claimed
//! `(pid, pid_start)` is still the running process, and which pane that
//! process belongs to.
//!
//! Pane resolution is ordered and fails closed - a provider-published
//! handle, then the parent chain to a `pane_pid`, then the controlling
//! tty, then `Unknown`. Cwd never resolves a pane; it binds Work, not
//! panes. Where evidence contradicts itself - a published handle naming
//! one live pane while the process provably sits in another - the binding
//! is `Unknown` with both sides named, never a coin toss.

use vstd::prelude::*;
use vstd::string::*;

use crate::command::{accepts_any, Reply};
use crate::evidence::{Evidence, EvidenceView};
use crate::path::components;
use crate::process::{
    ancestry, by_pid, exe_differs, liveness, rows_of, Liveness, LivenessView, ProcessInstance,
    ProcessStart, ProcessTable, RowView,
};
use crate::text::{decimal, line_list, print_u64};
use crate::time::Timestamp;
use crate::tmux::{
    accepts_list_panes, discovers_panes, first_with_pid, fits, handle_of, has_tty,
    law_the_first_pane_of_a_pid_is_found, lemma_picked, picked, socket_dir_of, takes_inventory,
    HandleView, Pane, PaneInventory, PaneRef, PublishedHandle, RefView,
};
use crate::tmux::inventory::lemma_how_many_are_picked;

verus! {

/// The v1 providers. Adding one is a capability decision, not a value a
/// record can freely carry.
#[derive(Debug, Clone, Copy, PartialEq, Eq, Hash, Structural)]
pub enum Provider {
    Claude,
    Vibe,
    Devin,
}

/// A conversation's durable identity: provider plus the provider's own
/// session id. It survives process replacement and resume - neither the
/// pid nor the pane identifies a conversation.
#[derive(Debug, PartialEq, Eq, Hash)]
pub struct AgentSessionKey {
    pub provider: Provider,
    pub session_id: String,
}

impl Clone for AgentSessionKey {
    fn clone(&self) -> (r: AgentSessionKey)
        ensures
            r == *self,
    {
        AgentSessionKey { provider: self.provider, session_id: self.session_id.clone() }
    }
}

/// Where an attachment claim was observed. Provenance, not trust: every
/// source is re-validated against the live process table each refresh.
#[derive(Debug, Clone, Copy, PartialEq, Eq, Structural)]
pub enum EvidenceSource {
    /// Provider-published session state (a live session file).
    Published,
    /// A provider lock or index file.
    Lock,
    /// A registered hook event.
    Hook,
    /// Derived from process and tmux evidence alone.
    Derived,
}

/// One claimed process-to-attachment binding, as a plugin observed it.
/// Everything in it is re-checked each refresh; nothing in it is trusted.
#[derive(Debug)]
pub struct ProcessClaim {
    /// The conversation this claim belongs to, when identity is known.
    pub session: Option<AgentSessionKey>,
    pub pid: u32,
    /// The provider-published start, normalized to epoch; `Unavailable`
    /// when the provider does not date its process, which demotes the claim
    /// to pid-only evidence.
    pub pid_start: ProcessStart,
    /// The basename the claimed process should run, when the provider's
    /// identity implies one. A live process with a provably different
    /// basename is not this instance; a name the platform truncated is
    /// unproven rather than wrong.
    pub expected_exe: Option<String>,
    /// The provider-published pane handle (`session:@window.%pane` or a
    /// suffix of it), when the provider publishes one.
    pub published_pane: Option<String>,
    /// Where the claim came from.
    pub source: EvidenceSource,
    /// When the claim's evidence was produced - what orders competing
    /// claims on the same pane.
    pub observed_at: Timestamp,
}

impl ProcessClaim {
    /// The claimed `(pid, pid_start)` pair.
    pub open spec fn claimed(self) -> ProcessInstance {
        ProcessInstance { pid: self.pid, pid_start: self.pid_start }
    }

    /// The claimed `(pid, pid_start)` pair.
    pub fn instance(&self) -> (r: ProcessInstance)
        ensures
            r == self.claimed(),
    {
        ProcessInstance { pid: self.pid, pid_start: self.pid_start }
    }
}

/// A process's current attachment to the terminal world: its conversation
/// when known, its proven process identity and its pane when provable.
/// Rebuilt every refresh; a record that stops validating stops being live.
#[derive(Debug)]
pub struct LiveAttachment {
    pub session: Option<AgentSessionKey>,
    pub process: ProcessInstance,
    /// The current pane binding: `None` when it could not be proven or a
    /// newer claim owns the pane.
    pub pane: Option<PaneRef>,
    pub observed_at: Timestamp,
    pub source: EvidenceSource,
}

/// How a pane was bound, in the order the evidence is asked.
#[derive(Debug, Clone, Copy, PartialEq, Eq, Structural)]
pub enum PaneSource {
    /// A provider-published `session:@window.%pane` handle.
    Published,
    /// The process's parent chain reached a `pane_pid`.
    Ancestry,
    /// The process's controlling tty is the pane's pty.
    Tty,
}

/// A resolved pane plus the evidence that bound it.
#[derive(Debug)]
pub struct PaneBinding {
    pub pane: PaneRef,
    pub source: PaneSource,
}

impl Clone for PaneBinding {
    fn clone(&self) -> (r: PaneBinding)
        ensures
            r == *self,
    {
        PaneBinding { pane: self.pane.clone(), source: self.source }
    }
}

/// The value of a [`PaneBinding`], with its text as characters.
pub struct BindingView {
    pub pane: RefView,
    pub source: PaneSource,
}

impl DeepView for PaneBinding {
    type V = BindingView;

    open spec fn deep_view(&self) -> BindingView {
        BindingView { pane: self.pane.deep_view(), source: self.source }
    }
}

/// Where a claim's pane ended up after resolution and reconciliation.
#[derive(Debug, PartialEq, Eq)]
pub enum Placement {
    /// Bound; `source` says by which evidence.
    Bound(PaneSource),
    /// Reasoned `Unknown`: nothing resolved, or evidence contradicted
    /// itself. The reason is carried for the evidence view.
    Unknown(String),
    /// A newer live claim owns the pane; this binding retired during
    /// ownership reconciliation rather than hanging on.
    Superseded,
    /// The claimed process is dead; a dead process owns no pane.
    Dead(String),
}

/// The value of a [`Placement`], with its text as characters.
pub enum PlacementView {
    Bound(PaneSource),
    Unknown(Seq<char>),
    Superseded,
    Dead(Seq<char>),
}

impl DeepView for Placement {
    type V = PlacementView;

    open spec fn deep_view(&self) -> PlacementView {
        match *self {
            Placement::Bound(source) => PlacementView::Bound(source),
            Placement::Unknown(reason) => PlacementView::Unknown(reason@),
            Placement::Superseded => PlacementView::Superseded,
            Placement::Dead(reason) => PlacementView::Dead(reason@),
        }
    }
}

impl Clone for Placement {
    fn clone(&self) -> (r: Placement)
        ensures
            r == *self,
    {
        match self {
            Placement::Bound(source) => Placement::Bound(*source),
            Placement::Unknown(reason) => Placement::Unknown(reason.clone()),
            Placement::Superseded => Placement::Superseded,
            Placement::Dead(reason) => Placement::Dead(reason.clone()),
        }
    }
}

/// A claim with everything one refresh could say about it.
#[derive(Debug)]
pub struct ResolvedAttachment {
    pub attachment: LiveAttachment,
    /// Whether the claimed process instance still runs.
    pub liveness: Liveness,
    /// How `attachment.pane` came to be what it is.
    pub placement: Placement,
}

/// One refresh of runtime evidence: a whole-machine process table and the
/// merged pane inventory, taken together so pid, pane and tty claims are
/// judged against the same instant.
#[derive(Debug)]
pub struct Runtime {
    /// `None` when the process table could not be read: every liveness
    /// check then answers `Unverifiable` rather than reaping what it
    /// cannot see.
    pub processes: Option<ProcessTable>,
    pub panes: PaneInventory,
    /// When the observation was taken.
    pub observed_at: Timestamp,
}

// ---------------------------------------------------------------------------
// Resolving one pid
// ---------------------------------------------------------------------------

/// The identity of a pane.
pub open spec fn ref_of(pane: Pane) -> RefView {
    RefView { socket: pane.socket@, pane: pane.id@ }
}

fn reference(pane: &Pane) -> (r: PaneRef)
    ensures
        r.deep_view() == ref_of(*pane),
{
    PaneRef { socket: pane.socket.clone(), pane: pane.id.clone() }
}

/// The pane of the first pid in the chain that is a pane's root process.
pub open spec fn first_pane(chain: Seq<u32>, panes: Seq<Pane>) -> Option<RefView>
    decreases chain.len(),
{
    if chain.len() == 0 {
        None
    } else {
        match first_with_pid(panes, chain[0]) {
            Some(pane) => Some(ref_of(pane)),
            None => first_pane(chain.drop_first(), panes),
        }
    }
}

/// The one pane that has the terminal; one shared by several resolves nothing.
pub open spec fn only_pane(tty: Option<Seq<char>>, panes: Seq<Pane>) -> Option<RefView> {
    match tty {
        Some(tty) => {
            let found = picked(panes, has_tty(tty));
            if found.len() == 1 {
                Some(ref_of(found[0]))
            } else {
                None
            }
        },
        None => None,
    }
}

impl Runtime {
    /// The process table, where there is one.
    pub open spec fn table(self) -> Option<Map<u32, RowView>> {
        match self.processes {
            Some(table) => Some(table@),
            None => None,
        }
    }

    /// The pane whose `pane_pid` is `pid` or one of its ancestors.
    pub open spec fn by_ancestry(self, pid: u32) -> Option<RefView> {
        match self.table() {
            Some(table) => first_pane(ancestry(table, pid), self.panes.panes@),
            None => None,
        }
    }

    /// The pane sharing `pid`'s controlling terminal - the fallback for a
    /// process that lost its ancestry.
    pub open spec fn by_terminal(self, pid: u32) -> Option<RefView> {
        match self.table() {
            Some(table) => if table.contains_key(pid) {
                only_pane(table[pid].tty, self.panes.panes@)
            } else {
                None
            },
            None => None,
        }
    }

    /// The pane that derived evidence names: ancestry first, the controlling
    /// tty as the fallback for a process daemonized out of its pane's tree.
    pub open spec fn derived(self, pid: u32) -> Option<BindingView> {
        match self.by_ancestry(pid) {
            Some(pane) => Some(BindingView { pane, source: PaneSource::Ancestry }),
            None => match self.by_terminal(pid) {
                Some(pane) => Some(BindingView { pane, source: PaneSource::Tty }),
                None => None,
            },
        }
    }

    /// Whether the two kinds of derived evidence name different panes.
    pub open spec fn disagrees(self, pid: u32) -> bool {
        self.by_ancestry(pid) is Some && self.by_terminal(pid) is Some && !self.by_ancestry(
            pid,
        )->0.is_same(self.by_terminal(pid)->0)
    }

    /// The one live pane that a published handle names. Only a handle
    /// carrying a pane id resolves a pane; a window or session alone narrows
    /// the match, never pinpoints it. A stale handle names none, and neither
    /// does an ambiguous one.
    pub open spec fn published(self, handle: Option<Seq<char>>) -> Option<RefView> {
        match handle {
            Some(text) => match handle_of(text) {
                Some(handle) => {
                    let found = picked(self.panes.panes@, fits(handle));
                    if handle.pane is Some && found.len() == 1 {
                        Some(ref_of(found[0]))
                    } else {
                        None
                    }
                },
                None => None,
            },
            None => None,
        }
    }

    /// Pane resolution for one pid: published handle, parent ancestry to a
    /// `pane_pid`, controlling tty, then `Unknown`. Evidence that contradicts
    /// itself, however it arose, fails closed with both sides named.
    pub open spec fn resolution(self, pid: u32, handle: Option<Seq<char>>) -> EvidenceView<
        BindingView,
    > {
        if self.disagrees(pid) {
            EvidenceView::Unknown(
                "ancestry resolves pid "@ + decimal(pid as nat) + " to "@ + self.by_ancestry(
                    pid,
                )->0.text() + " but its tty belongs to "@ + self.by_terminal(pid)->0.text(),
            )
        } else {
            match (self.published(handle), self.derived(pid)) {
                (Some(named), Some(derived)) => if named.is_same(derived.pane) {
                    EvidenceView::Known(
                        BindingView { pane: named, source: PaneSource::Published },
                    )
                } else {
                    EvidenceView::Unknown(
                        "published handle names "@ + named.text() + " but "@ + (
                        if derived.source == PaneSource::Tty {
                            "the controlling tty"@
                        } else {
                            "ancestry"@
                        }) + " resolves to "@ + derived.pane.text(),
                    )
                },
                (Some(named), None) => EvidenceView::Known(
                    BindingView { pane: named, source: PaneSource::Published },
                ),
                (None, Some(derived)) => EvidenceView::Known(derived),
                (None, None) => EvidenceView::Unknown(
                    "pid "@ + decimal(pid as nat)
                        + " has no resolvable published handle, ancestry or controlling tty"@,
                ),
            }
        }
    }

    /// What a claim's process is found to be.
    pub open spec fn claim_liveness(self, claim: ProcessClaim) -> LivenessView {
        match self.table() {
            Some(table) => liveness(table, claim.claimed(), claim.expected_exe.deep_view()),
            None => LivenessView::Unverifiable("no process table could be read"@),
        }
    }

    /// Whether `claim`'s process is still the running instance.
    pub fn liveness(&self, claim: &ProcessClaim) -> (r: Liveness)
        ensures
            r.deep_view() == self.claim_liveness(*claim),
    {
        match &self.processes {
            Some(table) => {
                let exe: Option<&str> = match &claim.expected_exe {
                    Some(exe) => Some(exe.as_str()),
                    None => None,
                };
                assert(exe.deep_view() == claim.expected_exe.deep_view());
                table.is_live(&claim.instance(), exe)
            },
            None => Liveness::Unverifiable("no process table could be read".to_owned()),
        }
    }

    /// The pane whose `pane_pid` is `pid` or one of its ancestors.
    fn ancestry_pane(&self, pid: u32) -> (r: Option<PaneRef>)
        ensures
            r.deep_view() == self.by_ancestry(pid),
    {
        let Some(table) = &self.processes else {
            return None;
        };
        let chain = table.ancestors(pid);
        let mut i: usize = 0;
        assert(chain@.skip(0) =~= chain@);
        while i < chain.len()
            invariant
                i <= chain@.len(),
                first_pane(chain@, self.panes.panes@) == first_pane(
                    chain@.skip(i as int),
                    self.panes.panes@,
                ),
                self.by_ancestry(pid) == first_pane(chain@, self.panes.panes@),
            decreases chain@.len() - i,
        {
            assert(chain@.skip(i as int).drop_first() =~= chain@.skip(i + 1));
            if let Some(pane) = self.panes.by_pane_pid(chain[i]) {
                return Some(reference(pane));
            }
            i += 1;
        }
        None
    }

    /// The pane sharing `pid`'s controlling terminal - the fallback for a
    /// process that lost its ancestry. A tty shared by several panes
    /// resolves nothing.
    fn tty_pane(&self, pid: u32) -> (r: Option<PaneRef>)
        ensures
            r.deep_view() == self.by_terminal(pid),
    {
        let Some(table) = &self.processes else {
            return None;
        };
        let Some(row) = table.get(pid) else {
            return None;
        };
        let Some(tty) = &row.tty else {
            return None;
        };
        assert(table@[pid].tty == Some(tty@));
        let found = self.panes.by_tty(tty.as_str());
        assert(found@.unref().len() == found@.len());
        if found.len() == 1 {
            assert(found@.unref()[0] == *found@[0]);
            Some(reference(found[0]))
        } else {
            None
        }
    }

    /// The one live pane a published handle names.
    fn published_pane(&self, handle: Option<&str>) -> (r: Option<PaneRef>)
        ensures
            r.deep_view() == self.published(handle.deep_view()),
    {
        let Some(text) = handle else {
            return None;
        };
        let Some(handle) = PublishedHandle::parse(text) else {
            return None;
        };
        if handle.pane.is_none() {
            return None;
        }
        let found = self.panes.matching(&handle);
        assert(found@.unref().len() == found@.len());
        if found.len() == 1 {
            assert(found@.unref()[0] == *found@[0]);
            Some(reference(found[0]))
        } else {
            None
        }
    }

    /// Pane resolution for one pid: published handle, parent ancestry
    /// to a `pane_pid`, controlling tty, then `Unknown`. A published handle
    /// that names one live pane binds - unless derived evidence names a
    /// different one, which is a contradiction and fails closed.
    pub fn resolve_pane(&self, pid: u32, published: Option<&str>) -> (r: Evidence<PaneBinding>)
        ensures
            r.deep_view() == self.resolution(pid, published.deep_view()),
    {
        let by_ancestry = self.ancestry_pane(pid);
        let by_terminal = self.tty_pane(pid);
        let derived = match (by_ancestry, by_terminal) {
            (Some(a), Some(t)) => {
                if a != t {
                    let mut reason = "ancestry resolves pid ".to_owned();
                    reason.append(print_u64(pid as u64).as_str());
                    reason.append(" to ");
                    reason.append(a.to_string().as_str());
                    reason.append(" but its tty belongs to ");
                    reason.append(t.to_string().as_str());
                    return Evidence::Unknown(reason);
                }
                Some(PaneBinding { pane: a, source: PaneSource::Ancestry })
            },
            (Some(a), None) => Some(PaneBinding { pane: a, source: PaneSource::Ancestry }),
            (None, Some(t)) => Some(PaneBinding { pane: t, source: PaneSource::Tty }),
            (None, None) => None,
        };
        assert(!self.disagrees(pid));
        assert(derived.deep_view() == self.derived(pid));
        match (self.published_pane(published), derived) {
            (Some(named), Some(derived)) => {
                if named != derived.pane {
                    let mut reason = "published handle names ".to_owned();
                    reason.append(named.to_string().as_str());
                    reason.append(" but ");
                    reason.append(
                        if derived.source == PaneSource::Tty {
                            "the controlling tty"
                        } else {
                            "ancestry"
                        },
                    );
                    reason.append(" resolves to ");
                    reason.append(derived.pane.to_string().as_str());
                    Evidence::Unknown(reason)
                } else {
                    Evidence::Known(PaneBinding { pane: named, source: PaneSource::Published })
                }
            },
            (Some(named), None) => Evidence::Known(
                PaneBinding { pane: named, source: PaneSource::Published },
            ),
            (None, Some(derived)) => Evidence::Known(derived),
            (None, None) => {
                let mut reason = "pid ".to_owned();
                reason.append(print_u64(pid as u64).as_str());
                reason.append(" has no resolvable published handle, ancestry or controlling tty");
                Evidence::Unknown(reason)
            },
        }
    }
}

// ---------------------------------------------------------------------------
// Reconciling claims
// ---------------------------------------------------------------------------

/// Where a claim stands: its pane, if it has one, and how that came to be.
pub struct Place {
    pub pane: Option<RefView>,
    pub placement: PlacementView,
    pub observed_at: Timestamp,
}

impl Runtime {
    /// Where a claim stands by itself, before others are weighed against it.
    pub open spec fn place(self, claim: ProcessClaim) -> Place {
        let observed_at = claim.observed_at;
        match self.claim_liveness(claim) {
            LivenessView::Dead(reason) => Place {
                pane: None,
                placement: PlacementView::Dead(reason),
                observed_at,
            },
            _ => match self.resolution(claim.pid, claim.published_pane.deep_view()) {
                EvidenceView::Known(binding) => Place {
                    pane: Some(binding.pane),
                    placement: PlacementView::Bound(binding.source),
                    observed_at,
                },
                EvidenceView::Unknown(reason) => Place {
                    pane: None,
                    placement: PlacementView::Unknown(reason),
                    observed_at,
                },
            },
        }
    }

    /// Where the claims stand, each by itself.
    pub open spec fn places(self, claims: Seq<ProcessClaim>) -> Seq<Place> {
        claims.map_values(|claim: ProcessClaim| self.place(claim))
    }
}

/// Whether a place is bound to the pane.
pub open spec fn contends(place: Place, pane: RefView) -> bool {
    place.placement is Bound && place.pane is Some && place.pane->0.is_same(pane)
}

/// Whether the claim at `i` is bound to the pane with no newer one bound to it.
pub open spec fn is_newest(places: Seq<Place>, pane: RefView, i: int) -> bool {
    &&& 0 <= i < places.len()
    &&& contends(places[i], pane)
    &&& forall|j: int|
        0 <= j < places.len() && contends(#[trigger] places[j], pane)
            ==> places[j].observed_at.nanos <= places[i].observed_at.nanos
}

/// How many of the first `n` claims are bound to the pane with no newer one.
pub open spec fn winners(places: Seq<Place>, pane: RefView, n: int) -> nat
    decreases n,
{
    if n <= 0 {
        0
    } else {
        winners(places, pane, n - 1) + if is_newest(places, pane, n - 1) {
            1nat
        } else {
            0nat
        }
    }
}

/// The pane as the first claim bound to it spells it.
pub open spec fn first_spelling(places: Seq<Place>, pane: RefView) -> RefView
    decreases places.len(),
{
    if places.len() == 0 {
        pane
    } else if contends(places[0], pane) {
        places[0].pane->0
    } else {
        first_spelling(places.drop_first(), pane)
    }
}

/// What is said of claims that no observation orders.
pub open spec fn unordered(count: nat, pane: RefView) -> Seq<char> {
    decimal(count) + " live claims bind "@ + pane.text()
        + " with no newer observation to order them"@
}

/// Where the claim at `i` ends up: a pane hosts at most one current
/// attachment, so where several live claims land on the same pane the newest
/// observation owns it and the superseded bindings retire, and claims that
/// cannot be ordered are contradictory - every one `Unknown` rather than a
/// guess.
pub open spec fn reconciled(places: Seq<Place>, i: int) -> Place {
    let place = places[i];
    if place.placement !is Bound {
        place
    } else {
        let pane = place.pane->0;
        let count = winners(places, pane, places.len() as int);
        if count != 1 {
            Place {
                pane: None,
                placement: PlacementView::Unknown(
                    unordered(count, first_spelling(places, pane)),
                ),
                ..place
            }
        } else if is_newest(places, pane, i) {
            place
        } else {
            Place { pane: None, placement: PlacementView::Superseded, ..place }
        }
    }
}

/// A claim's own standing, as it is weighed against others.
struct Standing {
    pane: Option<PaneRef>,
    placement: Placement,
    observed_at: Timestamp,
}

impl DeepView for Standing {
    type V = Place;

    closed spec fn deep_view(&self) -> Place {
        Place {
            pane: self.pane.deep_view(),
            placement: self.placement.deep_view(),
            observed_at: self.observed_at,
        }
    }
}

/// Whether the standing is bound to the pane.
fn does_contend(standing: &Standing, pane: &PaneRef) -> (r: bool)
    ensures
        r == contends(standing.deep_view(), pane.deep_view()),
{
    match (&standing.placement, &standing.pane) {
        (Placement::Bound(_), Some(own)) => *own == *pane,
        _ => false,
    }
}

/// Whether the claim at `i` is bound to the pane with no newer one bound to it.
fn wins(standings: &Vec<Standing>, pane: &PaneRef, i: usize) -> (r: bool)
    requires
        i < standings@.len(),
    ensures
        r == is_newest(standings.deep_view(), pane.deep_view(), i as int),
{
    let ghost places = standings.deep_view();
    assert(places[i as int] == standings@[i as int].deep_view());
    if !does_contend(&standings[i], pane) {
        return false;
    }
    let mut j: usize = 0;
    while j < standings.len()
        invariant
            i < standings@.len(),
            j <= standings@.len(),
            places == standings.deep_view(),
            places[i as int] == standings@[i as int].deep_view(),
            forall|k: int|
                0 <= k < j && contends(#[trigger] places[k], pane.deep_view())
                    ==> places[k].observed_at.nanos <= places[i as int].observed_at.nanos,
        decreases standings@.len() - j,
    {
        assert(places[j as int] == standings@[j as int].deep_view());
        if does_contend(&standings[j], pane) && standings[j].observed_at.nanos
            > standings[i].observed_at.nanos {
            return false;
        }
        j += 1;
    }
    true
}

/// How many claims are bound to the pane with no newer one.
fn count_winners(standings: &Vec<Standing>, pane: &PaneRef) -> (r: usize)
    ensures
        r == winners(standings.deep_view(), pane.deep_view(), standings@.len() as int),
{
    let mut count: usize = 0;
    let mut i: usize = 0;
    while i < standings.len()
        invariant
            i <= standings@.len(),
            count <= i,
            count == winners(standings.deep_view(), pane.deep_view(), i as int),
        decreases standings@.len() - i,
    {
        if wins(standings, pane, i) {
            count += 1;
        }
        i += 1;
    }
    count
}

/// The pane as the first claim bound to it spells it.
fn spelling(standings: &Vec<Standing>, pane: &PaneRef) -> (r: PaneRef)
    ensures
        r.deep_view() == first_spelling(standings.deep_view(), pane.deep_view()),
{
    let ghost places = standings.deep_view();
    let mut i: usize = 0;
    assert(places.skip(0) =~= places);
    while i < standings.len()
        invariant
            i <= standings@.len(),
            places == standings.deep_view(),
            first_spelling(places, pane.deep_view()) == first_spelling(
                places.skip(i as int),
                pane.deep_view(),
            ),
        decreases standings@.len() - i,
    {
        assert(places.skip(i as int)[0] == standings@[i as int].deep_view());
        assert(places.skip(i as int).drop_first() =~= places.skip(i + 1));
        if does_contend(&standings[i], pane) {
            if let Some(own) = &standings[i].pane {
                return own.clone();
            }
        }
        i += 1;
    }
    pane.clone()
}

/// Where the claim at `i` ends up.
fn reconcile(standings: &Vec<Standing>, i: usize) -> (r: (Option<PaneRef>, Placement))
    requires
        i < standings@.len(),
        standings@[i as int].placement is Bound ==> standings@[i as int].pane is Some,
    ensures
        r.0.deep_view() == reconciled(standings.deep_view(), i as int).pane,
        r.1.deep_view() == reconciled(standings.deep_view(), i as int).placement,
{
    let standing = &standings[i];
    assert(standings.deep_view()[i as int] == standings@[i as int].deep_view());
    match (&standing.placement, &standing.pane) {
        (Placement::Bound(source), Some(pane)) => {
            let count = count_winners(standings, pane);
            if count != 1 {
                let mut reason = print_u64(count as u64);
                reason.append(" live claims bind ");
                reason.append(spelling(standings, pane).to_string().as_str());
                reason.append(" with no newer observation to order them");
                (None, Placement::Unknown(reason))
            } else if wins(standings, pane, i) {
                (Some(pane.clone()), Placement::Bound(*source))
            } else {
                (None, Placement::Superseded)
            }
        },
        _ => {
            let pane = match &standing.pane {
                Some(pane) => Some(pane.clone()),
                None => None,
            };
            (pane, standing.placement.clone())
        },
    }
}

/// `r` is what one refresh says of a claim: its own facts carried over, its
/// liveness, and where it stands.
pub open spec fn attaches(
    claim: ProcessClaim,
    liveness: LivenessView,
    place: Place,
    r: ResolvedAttachment,
) -> bool {
    &&& r.attachment.session == claim.session
    &&& r.attachment.process == claim.claimed()
    &&& r.attachment.observed_at == claim.observed_at
    &&& r.attachment.source == claim.source
    &&& r.attachment.pane.deep_view() == place.pane
    &&& r.liveness.deep_view() == liveness
    &&& r.placement.deep_view() == place.placement
}

impl Runtime {
    /// A claim's liveness, and where it stands by itself.
    fn stand(&self, claim: &ProcessClaim) -> (r: (Liveness, Standing))
        ensures
            r.0.deep_view() == self.claim_liveness(*claim),
            r.1.deep_view() == self.place(*claim),
            r.1.placement is Bound ==> r.1.pane is Some,
    {
        let observed_at = claim.observed_at;
        let liveness = self.liveness(claim);
        let (pane, placement) = match &liveness {
            Liveness::Dead(reason) => (None, Placement::Dead(reason.clone())),
            _ => {
                let handle: Option<&str> = match &claim.published_pane {
                    Some(handle) => Some(handle.as_str()),
                    None => None,
                };
                assert(handle.deep_view() == claim.published_pane.deep_view());
                match self.resolve_pane(claim.pid, handle) {
                    Evidence::Known(binding) => (
                        Some(binding.pane),
                        Placement::Bound(binding.source),
                    ),
                    Evidence::Unknown(reason) => (None, Placement::Unknown(reason)),
                }
            },
        };
        (liveness, Standing { pane, placement, observed_at })
    }

    /// Resolve each claim into a [`LiveAttachment`], then reconcile pane
    /// ownership: a pane hosts at most one current attachment, so where two
    /// live claims land on the same pane the newest observation owns it,
    /// the superseded binding retires, and claims that cannot be ordered
    /// are contradictory - every one `Unknown` rather than a guess.
    pub fn resolve_attachments(&self, claims: &Vec<ProcessClaim>) -> (r: Vec<ResolvedAttachment>)
        ensures
            r@.len() == claims@.len(),
            forall|i: int|
                0 <= i < r@.len() ==> attaches(
                    claims@[i],
                    self.claim_liveness(claims@[i]),
                    reconciled(self.places(claims@), i),
                    #[trigger] r@[i],
                ),
    {
        let ghost places = self.places(claims@);
        let mut livenesses: Vec<Liveness> = Vec::new();
        let mut standings: Vec<Standing> = Vec::new();
        let mut i: usize = 0;
        while i < claims.len()
            invariant
                i <= claims@.len(),
                livenesses@.len() == i,
                standings@.len() == i,
                forall|j: int|
                    0 <= j < i ==> (#[trigger] livenesses@[j]).deep_view() == self.claim_liveness(
                        claims@[j],
                    ),
                forall|j: int|
                    0 <= j < i ==> (#[trigger] standings@[j]).deep_view() == self.place(claims@[j])
                        && (standings@[j].placement is Bound ==> standings@[j].pane is Some),
            decreases claims@.len() - i,
        {
            let (liveness, standing) = self.stand(&claims[i]);
            livenesses.push(liveness);
            standings.push(standing);
            i += 1;
        }
        assert(standings.deep_view() =~= places);
        let mut resolved: Vec<ResolvedAttachment> = Vec::new();
        let mut k: usize = 0;
        while k < claims.len()
            invariant
                k <= claims@.len(),
                livenesses@.len() == claims@.len(),
                standings@.len() == claims@.len(),
                standings.deep_view() == places,
                places == self.places(claims@),
                forall|j: int|
                    0 <= j < claims@.len() ==> (#[trigger] livenesses@[j]).deep_view()
                        == self.claim_liveness(claims@[j]),
                forall|j: int|
                    0 <= j < claims@.len() && (#[trigger] standings@[j]).placement is Bound
                        ==> standings@[j].pane is Some,
                resolved@.len() == k,
                forall|j: int|
                    0 <= j < k ==> attaches(
                        claims@[j],
                        self.claim_liveness(claims@[j]),
                        reconciled(places, j),
                        #[trigger] resolved@[j],
                    ),
            decreases claims@.len() - k,
        {
            let claim = &claims[k];
            let (pane, placement) = reconcile(&standings, k);
            let attachment = LiveAttachment {
                session: match &claim.session {
                    Some(key) => Some(key.clone()),
                    None => None,
                },
                process: claim.instance(),
                pane,
                observed_at: claim.observed_at,
                source: claim.source,
            };
            resolved.push(
                ResolvedAttachment { attachment, liveness: livenesses[k].clone(), placement },
            );
            k += 1;
        }
        resolved
    }
}

// ---------------------------------------------------------------------------
// Observing
// ---------------------------------------------------------------------------

/// `r` is the table that a `ps` reply gives, none where `ps` failed.
pub open spec fn table_from(ps: Reply, taken: Timestamp) -> Option<Map<u32, RowView>> {
    match ps {
        Ok(out) => if out.succeeded() {
            Some(by_pid(rows_of(line_list(out.stdout@), taken)))
        } else {
            None
        },
        Err(_) => None,
    }
}

impl Runtime {
    /// A refresh out of a `ps` reply, `taken` being when it came, and a pane
    /// inventory. A process table that could not be read is left out.
    pub fn from_evidence(
        ps: &Reply,
        taken: Timestamp,
        panes: PaneInventory,
        observed_at: Timestamp,
    ) -> (r: Runtime)
        ensures
            r.table() == table_from(*ps, taken),
            r.panes == panes,
            r.observed_at == observed_at,
    {
        let processes = match ProcessTable::snapshot(ps, taken) {
            Ok(table) => Some(table),
            Err(_) => None,
        };
        Runtime { processes, panes, observed_at }
    }

    /// A refresh against an environment passed in: sockets are discovered
    /// from the tmux socket dir and `$TMUX`, as [`PaneInventory::discover_in`]
    /// does it.
    pub fn observe_in<
        T: Fn(&Vec<String>) -> Reply,
        C: Fn(&String) -> Result<String, String>,
        L: Fn(&String) -> Vec<String>,
    >(
        ps: &Reply,
        taken: Timestamp,
        run: &T,
        canonicalize: &C,
        list_sockets: &L,
        uid: Option<u32>,
        tmux_tmpdir: Option<&str>,
        tmux_env: Option<&str>,
        observed_at: Timestamp,
    ) -> (r: Runtime)
        requires
            accepts_list_panes(*run),
            accepts_any(*canonicalize),
            accepts_any(*list_sockets),
        ensures
            r.table() == table_from(*ps, taken),
            discovers_panes(
                *run,
                *canonicalize,
                *list_sockets,
                socket_dir_of(tmux_tmpdir.deep_view(), uid),
                tmux_env.deep_view(),
                r.panes.deep_view(),
            ),
            r.observed_at == observed_at,
    {
        let panes = PaneInventory::discover_in(
            run,
            canonicalize,
            list_sockets,
            uid,
            tmux_tmpdir,
            tmux_env,
        );
        Runtime::from_evidence(ps, taken, panes, observed_at)
    }

    /// A refresh restricted to named server sockets - a caller that already
    /// knows its servers does not need discovery.
    pub fn observe_over<
        T: Fn(&Vec<String>) -> Reply,
        C: Fn(&String) -> Result<String, String>,
    >(
        ps: &Reply,
        taken: Timestamp,
        run: &T,
        canonicalize: &C,
        sockets: &Vec<String>,
        observed_at: Timestamp,
    ) -> (r: Runtime)
        requires
            accepts_list_panes(*run),
            accepts_any(*canonicalize),
        ensures
            r.table() == table_from(*ps, taken),
            takes_inventory(*run, *canonicalize, sockets.deep_view(), r.panes.deep_view()),
            r.observed_at == observed_at,
    {
        let panes = PaneInventory::collect(run, canonicalize, sockets);
        Runtime::from_evidence(ps, taken, panes, observed_at)
    }
}

// ---------------------------------------------------------------------------
// What reconciliation promises
// ---------------------------------------------------------------------------

/// A claim has a pane exactly when it is bound.
pub open spec fn well_placed(places: Seq<Place>) -> bool {
    forall|i: int|
        0 <= i < places.len() ==> ((#[trigger] places[i]).placement is Bound
            <==> places[i].pane is Some)
}

/// Claims by themselves are bound exactly when they have a pane, and a dead
/// one has none.
pub proof fn law_claims_are_well_placed(runtime: Runtime, claims: Seq<ProcessClaim>)
    ensures
        well_placed(runtime.places(claims)),
        forall|i: int|
            0 <= i < claims.len() && runtime.claim_liveness(#[trigger] claims[i]) is Dead ==> (
            runtime.places(claims)[i].placement is Dead && runtime.places(claims)[i].pane is None),
{
}

/// Two spellings of one pane are contended for alike.
proof fn lemma_same_pane(places: Seq<Place>, a: RefView, b: RefView, n: int)
    requires
        a.is_same(b),
        n <= places.len(),
    ensures
        forall|i: int|
            0 <= i < places.len() ==> contends(#[trigger] places[i], a) == contends(places[i], b),
        forall|i: int| #[trigger] is_newest(places, a, i) == is_newest(places, b, i),
        winners(places, a, n) == winners(places, b, n),
    decreases n,
{
    assert forall|i: int| #[trigger] is_newest(places, a, i) == is_newest(places, b, i) by {
        if is_newest(places, a, i) {
            assert forall|j: int|
                0 <= j < places.len() && contends(
                    #[trigger] places[j],
                    b,
                ) implies places[j].observed_at.nanos <= places[i].observed_at.nanos by {
                assert(contends(places[j], a));
            }
        }
        if is_newest(places, b, i) {
            assert forall|j: int|
                0 <= j < places.len() && contends(
                    #[trigger] places[j],
                    a,
                ) implies places[j].observed_at.nanos <= places[i].observed_at.nanos by {
                assert(contends(places[j], b));
            }
        }
    }
    if n > 0 {
        lemma_same_pane(places, a, b, n - 1);
    }
}

/// Every newest claim is counted.
proof fn lemma_winners_count(places: Seq<Place>, pane: RefView, i: int, n: int)
    requires
        0 <= i < n <= places.len(),
        is_newest(places, pane, i),
    ensures
        winners(places, pane, n) >= 1,
        forall|j: int| 0 <= j < n && j != i && is_newest(places, pane, j) ==> winners(
            places,
            pane,
            n,
        ) >= 2,
    decreases n,
{
    if i < n - 1 {
        lemma_winners_count(places, pane, i, n - 1);
    }
    assert forall|j: int| 0 <= j < n && j != i && is_newest(places, pane, j) implies winners(
        places,
        pane,
        n,
    ) >= 2 by {
        if i == n - 1 {
            lemma_winners_count(places, pane, j, n - 1);
        }
    }
}

/// A count above zero has someone to count.
proof fn lemma_winner_exists(places: Seq<Place>, pane: RefView, n: int) -> (w: int)
    requires
        n <= places.len(),
        winners(places, pane, n) > 0,
    ensures
        0 <= w < n,
        is_newest(places, pane, w),
    decreases n,
{
    if is_newest(places, pane, n - 1) {
        n - 1
    } else {
        lemma_winner_exists(places, pane, n - 1)
    }
}

/// Reconciliation keeps a claim bound exactly where it has a pane, and adds
/// nothing: a claim that was not bound stays what it was, and one that stays
/// bound keeps its pane and its source.
pub proof fn law_reconciliation_only_retires(places: Seq<Place>, i: int)
    requires
        well_placed(places),
        0 <= i < places.len(),
    ensures
        reconciled(places, i).placement is Bound <==> reconciled(places, i).pane is Some,
        reconciled(places, i).placement is Bound ==> reconciled(places, i) == places[i],
        places[i].placement !is Bound ==> reconciled(places, i) == places[i],
        reconciled(places, i).observed_at == places[i].observed_at,
{
}

/// A pane hosts at most one current attachment.
pub proof fn law_one_owner_per_pane(places: Seq<Place>, i: int, j: int)
    requires
        well_placed(places),
        0 <= i < places.len(),
        0 <= j < places.len(),
        i != j,
        reconciled(places, i).placement is Bound,
        reconciled(places, j).placement is Bound,
    ensures
        !reconciled(places, i).pane->0.is_same(reconciled(places, j).pane->0),
{
    let a = places[i].pane->0;
    let b = places[j].pane->0;
    if a.is_same(b) {
        let n = places.len() as int;
        lemma_same_pane(places, a, b, n);
        assert(is_newest(places, a, j));
        lemma_winners_count(places, a, i, n);
    }
}

/// The owner of a pane is strictly newer than every other claim bound to it.
pub proof fn law_the_newest_owns_the_pane(places: Seq<Place>, i: int, j: int)
    requires
        well_placed(places),
        0 <= i < places.len(),
        0 <= j < places.len(),
        i != j,
        reconciled(places, i).placement is Bound,
        contends(places[j], places[i].pane->0),
    ensures
        places[j].observed_at.nanos < places[i].observed_at.nanos,
        reconciled(places, j).placement is Superseded,
{
    let pane = places[i].pane->0;
    let own = places[j].pane->0;
    let n = places.len() as int;
    if places[j].observed_at.nanos == places[i].observed_at.nanos {
        assert(is_newest(places, pane, j));
        lemma_winners_count(places, pane, i, n);
    }
    lemma_same_pane(places, own, pane, n);
    assert(!is_newest(places, pane, j));
}

/// A binding retires only for a newer one that owns the same pane.
pub proof fn law_superseded_by_a_newer_owner(places: Seq<Place>, i: int)
    requires
        well_placed(places),
        0 <= i < places.len(),
        places[i].placement !is Superseded,
        reconciled(places, i).placement is Superseded,
    ensures
        exists|j: int|
            0 <= j < places.len() && contends(#[trigger] places[j], places[i].pane->0)
                && reconciled(places, j).placement is Bound && places[j].observed_at.nanos
                > places[i].observed_at.nanos,
{
    let pane = places[i].pane->0;
    let n = places.len() as int;
    let w = lemma_winner_exists(places, pane, n);
    lemma_same_pane(places, places[w].pane->0, pane, n);
    assert(contends(places[i], pane));
    let k = choose|k: int|
        0 <= k < places.len() && contends(#[trigger] places[k], pane)
            && places[k].observed_at.nanos > places[i].observed_at.nanos;
    assert(places[k].observed_at.nanos <= places[w].observed_at.nanos);
    assert(reconciled(places, w).placement is Bound);
}

/// Claims that no observation orders contradict each other: every claim on
/// the pane is `Unknown`, the older ones too.
pub proof fn law_unordered_claims_are_unknown(places: Seq<Place>, i: int, j: int, k: int)
    requires
        well_placed(places),
        0 <= k < places.len(),
        places[k].placement is Bound,
        i != j,
        is_newest(places, places[k].pane->0, i),
        is_newest(places, places[k].pane->0, j),
    ensures
        reconciled(places, k).placement is Unknown,
{
    lemma_winners_count(places, places[k].pane->0, i, places.len() as int);
}

/// The only claim on a pane keeps it.
pub proof fn law_a_lone_claim_keeps_its_pane(places: Seq<Place>, i: int)
    requires
        well_placed(places),
        0 <= i < places.len(),
        places[i].placement is Bound,
        forall|j: int|
            0 <= j < places.len() && j != i ==> !contends(#[trigger] places[j], places[i].pane->0),
    ensures
        reconciled(places, i) == places[i],
{
    let pane = places[i].pane->0;
    let n = places.len() as int;
    assert(is_newest(places, pane, i));
    lemma_winners_count(places, pane, i, n);
    if winners(places, pane, n) != 1 {
        lemma_single_winner(places, pane, i, n);
    }
}

proof fn lemma_single_winner(places: Seq<Place>, pane: RefView, i: int, n: int)
    requires
        n <= places.len(),
        forall|j: int| 0 <= j < places.len() && j != i ==> !contends(#[trigger] places[j], pane),
    ensures
        winners(places, pane, n) <= if n > i {
            1nat
        } else {
            0nat
        },
    decreases n,
{
    if n > 0 {
        lemma_single_winner(places, pane, i, n - 1);
        if n - 1 != i {
            assert(!contends(places[n - 1], pane));
        }
    }
}

/// Evidence that contradicts itself is never bound: neither where ancestry
/// and the tty disagree, nor where a published handle names another pane than
/// they do.
pub proof fn law_contradictions_fail_closed(
    runtime: Runtime,
    pid: u32,
    handle: Option<Seq<char>>,
)
    ensures
        runtime.disagrees(pid) ==> runtime.resolution(pid, handle) is Unknown,
        runtime.published(handle) is Some && runtime.derived(pid) is Some && !runtime.published(
            handle,
        )->0.is_same(runtime.derived(pid)->0.pane) ==> runtime.resolution(pid, handle) is Unknown,
{
}

/// A bound pane is one of the live inventory.
pub proof fn law_bindings_name_live_panes(runtime: Runtime, pid: u32, handle: Option<Seq<char>>)
    requires
        runtime.resolution(pid, handle) is Known,
    ensures
        exists|i: int|
            0 <= i < runtime.panes.panes@.len() && ref_of(#[trigger] runtime.panes.panes@[i])
                == runtime.resolution(pid, handle)->Known_0.pane,
{
    let panes = runtime.panes.panes@;
    let bound = runtime.resolution(pid, handle)->Known_0.pane;
    if runtime.published(handle) is Some {
        lemma_picked(panes, fits(handle_of(handle->0)->0));
    } else if runtime.by_ancestry(pid) is Some {
        lemma_first_pane(ancestry(runtime.table()->0, pid), panes);
    } else {
        lemma_picked(panes, has_tty(runtime.table()->0[pid].tty->0));
    }
    assert(exists|pane: Pane| panes.contains(pane) && #[trigger] ref_of(pane) == bound);
    let pane = choose|pane: Pane| panes.contains(pane) && #[trigger] ref_of(pane) == bound;
    let i = choose|i: int| 0 <= i < panes.len() && panes[i] == pane;
    assert(ref_of(panes[i]) == bound);
}

proof fn lemma_first_pane(chain: Seq<u32>, panes: Seq<Pane>)
    ensures
        first_pane(chain, panes) matches Some(found) ==> exists|pane: Pane|
            panes.contains(pane) && #[trigger] ref_of(pane) == found,
    decreases chain.len(),
{
    if chain.len() > 0 {
        lemma_first_with_pid(panes, chain[0]);
        lemma_first_pane(chain.drop_first(), panes);
    }
}

proof fn lemma_first_with_pid(panes: Seq<Pane>, pid: u32)
    ensures
        first_with_pid(panes, pid) matches Some(pane) ==> panes.contains(pane),
    decreases panes.len(),
{
    if panes.len() > 0 {
        if panes[0].pid == pid {
            assert(panes.contains(panes[0]));
        } else {
            lemma_first_with_pid(panes.drop_first(), pid);
            if let Some(pane) = first_with_pid(panes, pid) {
                let i = choose|i: int|
                    0 <= i < panes.drop_first().len() && panes.drop_first()[i] == pane;
                assert(panes[i + 1] == pane);
            }
        }
    }
}

/// Only a handle that carries a pane id pinpoints a pane; a window or a
/// session alone never does.
pub proof fn law_only_pane_ids_resolve(runtime: Runtime, handle: Option<Seq<char>>)
    requires
        runtime.published(handle) is Some,
    ensures
        handle is Some,
        handle_of(handle->0) matches Some(h) && h.pane is Some && h.pane->0
            == runtime.published(handle)->0.pane,
{
    let found = picked(runtime.panes.panes@, fits(handle_of(handle->0)->0));
    lemma_picked(runtime.panes.panes@, fits(handle_of(handle->0)->0));
    assert(fits(handle_of(handle->0)->0)(found[0]));
}

/// The same pane but for where it is.
pub open spec fn same_but_cwd(a: Pane, b: Pane) -> bool {
    b == (Pane { cwd: b.cwd, ..a })
}

/// The same inventory but for where the panes are.
pub open spec fn panes_but_cwd(a: Seq<Pane>, b: Seq<Pane>) -> bool {
    a.len() == b.len() && forall|i: int| 0 <= i < a.len() ==> same_but_cwd(#[trigger] a[i], b[i])
}

proof fn lemma_picked_but_cwd(a: Seq<Pane>, b: Seq<Pane>, test: spec_fn(Pane) -> bool)
    requires
        panes_but_cwd(a, b),
        forall|p: Pane, q: Pane| #[trigger] same_but_cwd(p, q) ==> test(p) == test(q),
    ensures
        panes_but_cwd(picked(a, test), picked(b, test)),
    decreases a.len(),
{
    if a.len() > 0 {
        lemma_picked_but_cwd(a.drop_last(), b.drop_last(), test);
        assert(same_but_cwd(a[a.len() - 1], b[a.len() - 1]));
    }
}

proof fn lemma_first_but_cwd(a: Seq<Pane>, b: Seq<Pane>, pid: u32)
    requires
        panes_but_cwd(a, b),
    ensures
        match (first_with_pid(a, pid), first_with_pid(b, pid)) {
            (Some(p), Some(q)) => same_but_cwd(p, q),
            (None, None) => true,
            _ => false,
        },
    decreases a.len(),
{
    if a.len() > 0 {
        assert(same_but_cwd(a[0], b[0]));
        assert forall|i: int| 0 <= i < a.drop_first().len() implies same_but_cwd(
            #[trigger] a.drop_first()[i],
            b.drop_first()[i],
        ) by {
            assert(same_but_cwd(a[i + 1], b[i + 1]));
        }
        lemma_first_but_cwd(a.drop_first(), b.drop_first(), pid);
    }
}

proof fn lemma_first_pane_but_cwd(chain: Seq<u32>, a: Seq<Pane>, b: Seq<Pane>)
    requires
        panes_but_cwd(a, b),
    ensures
        first_pane(chain, a) == first_pane(chain, b),
    decreases chain.len(),
{
    if chain.len() > 0 {
        lemma_first_but_cwd(a, b, chain[0]);
        lemma_first_pane_but_cwd(chain.drop_first(), a, b);
    }
}

/// A cwd never resolves a pane: moving every pane elsewhere changes nothing of
/// what a pid resolves to.
pub proof fn law_cwd_never_resolves_a_pane(
    a: Runtime,
    b: Runtime,
    pid: u32,
    handle: Option<Seq<char>>,
)
    requires
        a.table() == b.table(),
        panes_but_cwd(a.panes.panes@, b.panes.panes@),
    ensures
        a.resolution(pid, handle) == b.resolution(pid, handle),
{
    let p = a.panes.panes@;
    let q = b.panes.panes@;
    if let Some(table) = a.table() {
        lemma_first_pane_but_cwd(ancestry(table, pid), p, q);
        if table.contains_key(pid) && table[pid].tty is Some {
            let tty = table[pid].tty->0;
            lemma_picked_but_cwd(p, q, has_tty(tty));
            let x = picked(p, has_tty(tty));
            let y = picked(q, has_tty(tty));
            if x.len() == 1 {
                assert(same_but_cwd(x[0], y[0]));
            }
        }
    }
    if let Some(text) = handle {
        if let Some(named) = handle_of(text) {
            lemma_picked_but_cwd(p, q, fits(named));
            let x = picked(p, fits(named));
            let y = picked(q, fits(named));
            if x.len() == 1 {
                assert(same_but_cwd(x[0], y[0]));
            }
        }
    }
    assert(a.by_ancestry(pid) == b.by_ancestry(pid));
    assert(a.by_terminal(pid) == b.by_terminal(pid));
    assert(a.published(handle) == b.published(handle));
}

/// The nearest of a process and its ancestors that is the root process of a
/// pane names that pane, the first one listed; without one, and without a
/// process table, ancestry names none.
pub proof fn law_ancestry_names_the_nearest_pane(
    runtime: Runtime,
    table: Map<u32, RowView>,
    pid: u32,
    k: int,
    i: int,
)
    requires
        runtime.table() == Some(table),
    ensures
        ({
            let chain = ancestry(table, pid);
            let panes = runtime.panes.panes@;
            &&& 0 <= k < chain.len() && 0 <= i < panes.len() && panes[i].pid == chain[k] && (
            forall|h: int|
                0 <= h < i ==> (#[trigger] panes[h]).pid != chain[k]) && (forall|g: int, h: int|
                0 <= g < k && 0 <= h < panes.len() ==> (#[trigger] panes[h]).pid
                    != #[trigger] chain[g]) ==> runtime.by_ancestry(pid) == Some(
                RefView { socket: panes[i].socket@, pane: panes[i].id@ },
            )
            &&& (forall|g: int, h: int|
                0 <= g < chain.len() && 0 <= h < panes.len() ==> (#[trigger] panes[h]).pid
                    != #[trigger] chain[g]) ==> runtime.by_ancestry(pid) is None
        }),
{
    lemma_nearest_pane(ancestry(table, pid), runtime.panes.panes@, k, i);
}

proof fn lemma_nearest_pane(chain: Seq<u32>, panes: Seq<Pane>, k: int, i: int)
    ensures
        0 <= k < chain.len() && 0 <= i < panes.len() && panes[i].pid == chain[k] && (forall|h: int|
            0 <= h < i ==> (#[trigger] panes[h]).pid != chain[k]) && (forall|g: int, h: int|
            0 <= g < k && 0 <= h < panes.len() ==> (#[trigger] panes[h]).pid != #[trigger] chain[g])
            ==> first_pane(chain, panes) == Some(
            RefView { socket: panes[i].socket@, pane: panes[i].id@ },
        ),
        (forall|g: int, h: int|
            0 <= g < chain.len() && 0 <= h < panes.len() ==> (#[trigger] panes[h]).pid
                != #[trigger] chain[g]) ==> first_pane(chain, panes) is None,
    decreases chain.len(),
{
    if chain.len() > 0 {
        let rest = chain.drop_first();
        assert(forall|g: int| 0 <= g < rest.len() ==> rest[g] == chain[g + 1]);
        lemma_nearest_pane(rest, panes, k - 1, i);
        law_the_first_pane_of_a_pid_is_found(panes, chain[0], i);
        if forall|g: int, h: int|
            0 <= g < chain.len() && 0 <= h < panes.len() ==> (#[trigger] panes[h]).pid
                != #[trigger] chain[g] {
            assert forall|h: int| 0 <= h < panes.len() implies (#[trigger] panes[h]).pid
                != chain[0] by {}
            assert forall|g: int, h: int| 0 <= g < rest.len() && 0 <= h < panes.len() implies (
            #[trigger] panes[h]).pid != #[trigger] rest[g] by {
                assert(panes[h].pid != chain[g + 1]);
            }
        }
        if 0 < k < chain.len() && (forall|g: int, h: int|
            0 <= g < k && 0 <= h < panes.len() ==> (#[trigger] panes[h]).pid
                != #[trigger] chain[g]) {
            assert forall|h: int| 0 <= h < panes.len() implies (#[trigger] panes[h]).pid
                != chain[0] by {}
            assert forall|g: int, h: int| 0 <= g < k - 1 && 0 <= h < panes.len() implies (
            #[trigger] panes[h]).pid != #[trigger] rest[g] by {
                assert(panes[h].pid != chain[g + 1]);
            }
            assert(rest[k - 1] == chain[k]);
        }
    }
}

/// A process's terminal names the one pane that has it; a terminal that
/// several panes share, or none has, names none.
pub proof fn law_a_terminal_names_its_only_pane(
    runtime: Runtime,
    table: Map<u32, RowView>,
    pid: u32,
    tty: Seq<char>,
    i: int,
    j: int,
)
    requires
        runtime.table() == Some(table),
        table.contains_key(pid),
        table[pid].tty == Some(tty),
    ensures
        ({
            let panes = runtime.panes.panes@;
            let here = |k: int| panes[k].tty is Some && panes[k].tty->0@ == tty;
            &&& 0 <= i < panes.len() && here(i) && (forall|k: int|
                0 <= k < panes.len() && k != i ==> !#[trigger] here(k)) ==> runtime.by_terminal(pid)
                == Some(RefView { socket: panes[i].socket@, pane: panes[i].id@ })
            &&& 0 <= i < j < panes.len() && here(i) && here(j) ==> runtime.by_terminal(pid) is None
            &&& (forall|k: int| 0 <= k < panes.len() ==> !#[trigger] here(k))
                ==> runtime.by_terminal(pid) is None
        }),
{
    let panes = runtime.panes.panes@;
    let here = |k: int| panes[k].tty is Some && panes[k].tty->0@ == tty;
    assert forall|k: int| 0 <= k < panes.len() implies has_tty(tty)(#[trigger] panes[k]) == here(
        k,
    ) by {}
    lemma_how_many_are_picked(panes, has_tty(tty), i, j);
}

/// A process that is not in the table, one without a terminal, and any process
/// without a table have nothing derived from them.
pub proof fn law_nothing_is_derived_from_nothing(runtime: Runtime, pid: u32)
    ensures
        runtime.table() is None ==> runtime.by_ancestry(pid) is None && runtime.by_terminal(
            pid,
        ) is None,
        runtime.table() matches Some(table) ==> {
            &&& !table.contains_key(pid) && table.dom().finite() ==> runtime.by_ancestry(pid)
                is None && runtime.by_terminal(pid) is None
            &&& table.contains_key(pid) && table[pid].tty is None ==> runtime.by_terminal(pid)
                is None
        },
{
    if let Some(table) = runtime.table() {
        if !table.contains_key(pid) && table.dom().finite() {
            assert(ancestry(table, pid) =~= seq![]);
        }
    }
}

/// A published handle names the one live pane that has every id it carries,
/// and only when a pane id is among them; the session may be given by its
/// name or its id. A stale handle and an ambiguous one name none.
pub proof fn law_a_handle_names_the_one_pane_it_fits(
    runtime: Runtime,
    text: Seq<char>,
    handle: HandleView,
    i: int,
    j: int,
)
    requires
        handle_of(text) == Some(handle),
    ensures
        ({
            let panes = runtime.panes.panes@;
            let fit = |k: int|
                (handle.pane is Some ==> panes[k].id@ == handle.pane->0) && (handle.window is Some
                    ==> panes[k].window@ == handle.window->0) && (handle.session is Some ==> (
                panes[k].session_name@ == handle.session->0 || panes[k].session@
                    == handle.session->0));
            &&& handle.pane is Some && 0 <= i < panes.len() && fit(i) && (forall|k: int|
                0 <= k < panes.len() && k != i ==> !#[trigger] fit(k)) ==> runtime.published(
                Some(text),
            ) == Some(RefView { socket: panes[i].socket@, pane: panes[i].id@ })
            &&& 0 <= i < j < panes.len() && fit(i) && fit(j) ==> runtime.published(Some(text))
                is None
            &&& (forall|k: int| 0 <= k < panes.len() ==> !#[trigger] fit(k)) ==> runtime.published(
                Some(text),
            ) is None
            &&& handle.pane is None ==> runtime.published(Some(text)) is None
        }),
        runtime.published(None) is None,
{
    let panes = runtime.panes.panes@;
    let fit = |k: int|
        (handle.pane is Some ==> panes[k].id@ == handle.pane->0) && (handle.window is Some
            ==> panes[k].window@ == handle.window->0) && (handle.session is Some ==> (
        panes[k].session_name@ == handle.session->0 || panes[k].session@ == handle.session->0));
    assert forall|k: int| 0 <= k < panes.len() implies fits(handle)(#[trigger] panes[k]) == fit(
        k,
    ) by {}
    lemma_how_many_are_picked(panes, fits(handle), i, j);
}

/// How the three kinds of evidence are weighed. Ancestry comes before the
/// terminal, and the two must not name different panes; a published handle
/// comes before both, and must not name another pane than they do; and
/// whatever names a pane binds it.
pub proof fn law_evidence_is_weighed_in_order(
    runtime: Runtime,
    pid: u32,
    handle: Option<Seq<char>>,
)
    ensures
        ({
            let r = runtime.resolution(pid, handle);
            let same = |a: RefView, b: RefView|
                components(a.socket) == components(b.socket) && a.pane == b.pane;
            let text = |a: RefView| a.socket + ":"@ + a.pane;
            let up = runtime.by_ancestry(pid);
            let tty = runtime.by_terminal(pid);
            let named = runtime.published(handle);
            let torn = up is Some && tty is Some && !same(up->0, tty->0);
            let derived = if up is Some {
                up
            } else {
                tty
            };
            &&& torn ==> r == EvidenceView::<BindingView>::Unknown(
                "ancestry resolves pid "@ + decimal(pid as nat) + " to "@ + text(up->0)
                    + " but its tty belongs to "@ + text(tty->0),
            )
            &&& !torn && named is Some && (derived is None || same(named->0, derived->0)) ==> r
                == EvidenceView::Known(
                BindingView { pane: named->0, source: PaneSource::Published },
            )
            &&& !torn && named is Some && up is Some && !same(named->0, up->0) ==> r
                == EvidenceView::<BindingView>::Unknown(
                "published handle names "@ + text(named->0) + " but "@ + "ancestry"@
                    + " resolves to "@ + text(up->0),
            )
            &&& named is Some && up is None && tty is Some && !same(named->0, tty->0) ==> r
                == EvidenceView::<BindingView>::Unknown(
                "published handle names "@ + text(named->0) + " but "@ + "the controlling tty"@
                    + " resolves to "@ + text(tty->0),
            )
            &&& !torn && named is None && up is Some ==> r == EvidenceView::Known(
                BindingView { pane: up->0, source: PaneSource::Ancestry },
            )
            &&& named is None && up is None && tty is Some ==> r == EvidenceView::Known(
                BindingView { pane: tty->0, source: PaneSource::Tty },
            )
            &&& named is None && up is None && tty is None ==> r == EvidenceView::<
                BindingView,
            >::Unknown(
                "pid "@ + decimal(pid as nat)
                    + " has no resolvable published handle, ancestry or controlling tty"@,
            )
        }),
{
}

/// A claim that is not dead stands where its pid resolves, however its
/// liveness is known; a dead one stands nowhere, and says why.
pub proof fn law_a_live_claim_stands_where_its_pid_resolves(
    runtime: Runtime,
    claims: Seq<ProcessClaim>,
    i: int,
)
    requires
        0 <= i < claims.len(),
    ensures
        ({
            let claim = claims[i];
            let place = runtime.places(claims)[i];
            let handle = match claim.published_pane {
                Some(handle) => Some(handle@),
                None => None,
            };
            &&& place.observed_at == claim.observed_at
            &&& runtime.claim_liveness(claim) matches LivenessView::Dead(why) ==> place.placement
                == PlacementView::Dead(why) && place.pane is None
            &&& runtime.claim_liveness(claim) !is Dead ==> match runtime.resolution(
                claim.pid,
                handle,
            ) {
                EvidenceView::Known(binding) => place.pane == Some(binding.pane) && place.placement
                    == PlacementView::Bound(binding.source),
                EvidenceView::Unknown(why) => place.pane is None && place.placement
                    == PlacementView::Unknown(why),
            }
        }),
        runtime.places(claims).len() == claims.len(),
{
}

/// A claim's liveness is what the process table says of its pid, start and
/// executable; without a table nothing is proven, and nothing is dead.
pub proof fn law_a_claim_is_judged_by_the_table(runtime: Runtime, claim: ProcessClaim)
    ensures
        runtime.table() is None ==> runtime.claim_liveness(claim) == LivenessView::Unverifiable(
            "no process table could be read"@,
        ),
        runtime.table() matches Some(table) ==> {
            let r = runtime.claim_liveness(claim);
            let row = table[claim.pid];
            let gone = !table.contains_key(claim.pid) || row.state == 'Z';
            let other = claim.expected_exe is Some && row.exe is Some && exe_differs(
                claim.expected_exe->0@,
                row.exe->0,
            );
            let recycled = match (claim.pid_start, row.start) {
                (ProcessStart::At(claimed), ProcessStart::At(seen)) => claimed > seen + 1 || seen
                    > claimed + 1,
                _ => false,
            };
            let dated = claim.pid_start is At && row.start is At;
            &&& r is Dead <==> gone || other || recycled
            &&& r is Instance <==> !gone && !other && !recycled && dated
            &&& r is PidOnly <==> !gone && !other && !dated
        },
{
}

/// Of the claims bound to one pane the newest keeps it, and keeps it as it
/// was; every other is superseded. Where two or more are equally new none
/// keeps it, and all of them say so.
pub proof fn law_the_newest_claim_keeps_the_pane(places: Seq<Place>, i: int, w: int)
    requires
        well_placed(places),
        0 <= i < places.len(),
        0 <= w < places.len(),
        places[i].placement is Bound,
        places[w].placement is Bound,
        components(places[w].pane->0.socket) == components(places[i].pane->0.socket),
        places[w].pane->0.pane == places[i].pane->0.pane,
    ensures
        ({
            let on_pane = |j: int|
                places[j].placement is Bound && components(places[j].pane->0.socket) == components(
                    places[i].pane->0.socket,
                ) && places[j].pane->0.pane == places[i].pane->0.pane;
            let newest = forall|j: int|
                0 <= j < places.len() && j != w && #[trigger] on_pane(j)
                    ==> places[j].observed_at.nanos < places[w].observed_at.nanos;
            let tied = (forall|j: int|
                0 <= j < places.len() && #[trigger] on_pane(j) ==> places[j].observed_at.nanos
                    <= places[w].observed_at.nanos) && exists|j: int|
                0 <= j < places.len() && j != w && #[trigger] on_pane(j)
                    && places[j].observed_at.nanos == places[w].observed_at.nanos;
            let r = reconciled(places, i);
            &&& newest && i == w ==> r == places[i]
            &&& newest && i != w ==> r.placement is Superseded && r.pane is None
            &&& tied ==> r.placement is Unknown && r.pane is None
        }),
{
    let pane = places[i].pane->0;
    let n = places.len() as int;
    let on_pane = |j: int|
        places[j].placement is Bound && components(places[j].pane->0.socket) == components(
            places[i].pane->0.socket,
        ) && places[j].pane->0.pane == places[i].pane->0.pane;
    assert forall|j: int| 0 <= j < n implies contends(#[trigger] places[j], pane) == on_pane(
        j,
    ) by {}
    assert(on_pane(w) && on_pane(i));
    if forall|j: int|
        0 <= j < places.len() && j != w && #[trigger] on_pane(j) ==> places[j].observed_at.nanos
            < places[w].observed_at.nanos {
        assert(is_newest(places, pane, w)) by {
            assert forall|j: int| 0 <= j < n && contends(#[trigger] places[j], pane) implies
                places[j].observed_at.nanos <= places[w].observed_at.nanos by {
                assert(on_pane(j));
            }
        }
        assert forall|j: int| 0 <= j < n && j != w implies !is_newest(places, pane, j) by {
            if is_newest(places, pane, j) {
                assert(on_pane(j));
                assert(contends(places[w], pane));
            }
        }
        lemma_winners_count(places, pane, w, n);
        lemma_no_other_winner(places, pane, w, n);
    }
    if (forall|j: int|
        0 <= j < places.len() && #[trigger] on_pane(j) ==> places[j].observed_at.nanos
            <= places[w].observed_at.nanos) && (exists|j: int|
        0 <= j < places.len() && j != w && #[trigger] on_pane(j) && places[j].observed_at.nanos
            == places[w].observed_at.nanos) {
        let j = choose|j: int|
            0 <= j < places.len() && j != w && #[trigger] on_pane(j) && places[j].observed_at.nanos
                == places[w].observed_at.nanos;
        assert forall|k: int| 0 <= k < n && contends(#[trigger] places[k], pane) implies
            places[k].observed_at.nanos <= places[w].observed_at.nanos by {
            assert(on_pane(k));
        }
        assert(contends(places[j], pane) && contends(places[w], pane));
        assert(is_newest(places, pane, w));
        assert(is_newest(places, pane, j));
        lemma_winners_count(places, pane, w, n);
    }
}

proof fn lemma_no_other_winner(places: Seq<Place>, pane: RefView, w: int, n: int)
    requires
        n <= places.len(),
        forall|j: int| 0 <= j < places.len() && j != w ==> !is_newest(places, pane, j),
    ensures
        winners(places, pane, n) <= if n > w {
            1nat
        } else {
            0nat
        },
    decreases n,
{
    if n > 0 {
        lemma_no_other_winner(places, pane, w, n - 1);
    }
}

/// Two claims that tie for a pane say how many of them there are, and on which
/// pane.
pub proof fn law_tied_claims_say_how_many(places: Seq<Place>, i: int, j: int)
    requires
        well_placed(places),
        places.len() == 2,
        (i == 0 && j == 1) || (i == 1 && j == 0),
        places[0].placement is Bound,
        places[1].placement is Bound,
        components(places[0].pane->0.socket) == components(places[1].pane->0.socket),
        places[0].pane->0.pane == places[1].pane->0.pane,
        places[0].observed_at.nanos == places[1].observed_at.nanos,
    ensures
        reconciled(places, i).placement == PlacementView::Unknown(
            decimal(2) + " live claims bind "@ + (places[0].pane->0.socket + ":"@
                + places[0].pane->0.pane) + " with no newer observation to order them"@,
        ),
{
    let pane = places[i].pane->0;
    assert(contends(places[0], pane) && contends(places[1], pane));
    assert(is_newest(places, pane, 0) && is_newest(places, pane, 1));
    reveal_with_fuel(winners, 3);
    assert(winners(places, pane, 2) == 2);
}

/// What a claim comes to carries the claim's own conversation, process, time
/// and source, its liveness, and its place after reconciliation.
pub proof fn law_an_attachment_carries_its_claim(
    runtime: Runtime,
    claims: Seq<ProcessClaim>,
    i: int,
    r: ResolvedAttachment,
)
    requires
        0 <= i < claims.len(),
        attaches(
            claims[i],
            runtime.claim_liveness(claims[i]),
            reconciled(runtime.places(claims), i),
            r,
        ),
    ensures
        r.attachment.session == claims[i].session,
        r.attachment.process.pid == claims[i].pid,
        r.attachment.process.pid_start == claims[i].pid_start,
        r.attachment.observed_at == claims[i].observed_at,
        r.attachment.source == claims[i].source,
        r.liveness.deep_view() == runtime.claim_liveness(claims[i]),
        r.placement is Bound <==> r.attachment.pane is Some,
        r.liveness is Dead ==> r.placement is Dead,
        r.placement is Dead ==> r.liveness is Dead,
        r.liveness !is Dead && runtime.resolution(
            claims[i].pid,
            claims[i].published_pane.deep_view(),
        ) is Unknown ==> r.placement is Unknown,
{
    law_claims_are_well_placed(runtime, claims);
    law_reconciliation_only_retires(runtime.places(claims), i);
}

/// A refresh has the table of a `ps` that succeeded, with every row listed,
/// and none of one that failed or did not start.
pub proof fn law_a_refresh_reads_every_row(ps: Reply, taken: Timestamp)
    ensures
        ps matches Ok(out) ==> (if out.code == Some(0i32) {
            table_from(ps, taken) == Some(by_pid(rows_of(line_list(out.stdout@), taken)))
        } else {
            table_from(ps, taken) is None
        }),
        ps is Err ==> table_from(ps, taken) is None,
{
}

}
