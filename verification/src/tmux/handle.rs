//! Handles that providers publish, and the panes they match.

use vstd::prelude::*;
use vstd::string::*;

use crate::text::{
    chars_of, decimal, find, halves, is_digit, is_space, is_word, lemma_decimal_reads_back,
    lemma_find_is, lemma_first_piece, lemma_trimmed_line, pieces, same, split, split_once, trim,
    trimmed,
};
use crate::tmux::{is_id, Pane, PaneId, WindowId};
use crate::tmux::inventory::{lemma_picked_is_filter, picked, PaneInventory};

verus! {

// ---------------------------------------------------------------------------
// Published handles
// ---------------------------------------------------------------------------

/// A provider-published tmux handle: `session:@window.%pane` in full, or
/// any suffix of it down to a bare `%pane`. Only the ids a handle carries
/// constrain matching - a session name is corroboration, never identity,
/// because names are not unique across servers.
#[derive(Debug)]
pub struct PublishedHandle {
    pub pane: Option<PaneId>,
    pub window: Option<WindowId>,
    /// Session name or `$id`, for corroboration only.
    pub session: Option<String>,
}

/// The value of a [`PublishedHandle`], with its text as characters.
pub struct HandleView {
    pub pane: Option<Seq<char>>,
    pub window: Option<Seq<char>>,
    pub session: Option<Seq<char>>,
}

impl PublishedHandle {
    pub open spec fn value(self) -> HandleView {
        HandleView {
            pane: match self.pane {
                Some(id) => Some(id@),
                None => None,
            },
            window: match self.window {
                Some(id) => Some(id@),
                None => None,
            },
            session: self.session.deep_view(),
        }
    }
}

impl Default for PublishedHandle {
    fn default() -> (r: PublishedHandle)
        ensures
            r.value() == (HandleView { pane: None, window: None, session: None }),
    {
        PublishedHandle { pane: None, window: None, session: None }
    }
}

/// The last part that begins with the sigil, when it is an id.
pub open spec fn last_id(parts: Seq<Seq<char>>, sigil: char) -> Option<Seq<char>>
    decreases parts.len(),
{
    if parts.len() == 0 {
        None
    } else if parts.last().len() > 0 && parts.last()[0] == sigil {
        if is_id(parts.last(), sigil) {
            Some(parts.last())
        } else {
            None
        }
    } else {
        last_id(parts.drop_last(), sigil)
    }
}

/// The session word before the first `:`, and what follows it.
pub open spec fn session_split(text: Seq<char>) -> (Option<Seq<char>>, Seq<char>) {
    match halves(text, ':') {
        Some((session, rest)) => if session.len() > 0 {
            (Some(session), rest)
        } else {
            (None, text)
        },
        None => (None, text),
    }
}

/// The handle a text stands for. `session:window.pane` pieces split on `:`
/// and `.`; components that are not `%N`, `@N` or a leading session word do
/// not disqualify the handle - they just do not constrain it. None only when
/// nothing usable was found at all.
pub open spec fn handle_of(text: Seq<char>) -> Option<HandleView> {
    let (session, rest) = session_split(trimmed(text));
    let parts = pieces(rest, '.');
    let handle = HandleView { pane: last_id(parts, '%'), window: last_id(parts, '@'), session };
    if handle.pane is None && handle.window is None && handle.session is None {
        None
    } else {
        Some(handle)
    }
}

/// Whether `text` begins with `c`.
fn leads_with(text: &str, c: char) -> (r: bool)
    ensures
        r == (text@.len() > 0 && text@[0] == c),
{
    let chars = chars_of(text);
    chars.len() > 0 && chars[0] == c
}

impl PublishedHandle {
    /// Parse `text` into a handle.
    pub fn parse(text: &str) -> (r: Option<PublishedHandle>)
        ensures
            match r {
                Some(handle) => handle_of(text@) == Some(handle.value()),
                None => handle_of(text@) is None,
            },
    {
        let text = trim(text);
        let (session, rest) = match split_once(text.as_str(), ':') {
            Some((session, rest)) => {
                if session.as_str().is_empty() {
                    (None, text)
                } else {
                    (Some(session), rest)
                }
            },
            None => (None, text),
        };
        let parts = split(rest.as_str(), '.');
        let ghost all = parts.deep_view();
        let mut handle = PublishedHandle { pane: None, window: None, session };
        let mut i: usize = 0;
        while i < parts.len()
            invariant
                i <= parts@.len(),
                all == parts.deep_view(),
                handle.value() == (HandleView {
                    pane: last_id(all.take(i as int), '%'),
                    window: last_id(all.take(i as int), '@'),
                    session: session.deep_view(),
                }),
            decreases parts@.len() - i,
        {
            let part = parts[i].as_str();
            assert(all.take(i + 1).drop_last() =~= all.take(i as int));
            assert(all.take(i + 1).last() == part@);
            if leads_with(part, '%') {
                handle.pane = PaneId::parse(part);
            } else if leads_with(part, '@') {
                handle.window = WindowId::parse(part);
            }
            i += 1;
        }
        assert(all.take(i as int) =~= all);
        if handle.pane.is_some() || handle.window.is_some() || handle.session.is_some() {
            Some(handle)
        } else {
            None
        }
    }
}

/// Whether a pane matches every component the handle carries.
pub open spec fn fits(handle: HandleView) -> spec_fn(Pane) -> bool {
    |pane: Pane|
        {
            &&& handle.pane is Some ==> pane.id@ == handle.pane->0
            &&& handle.window is Some ==> pane.window@ == handle.window->0
            &&& handle.session is Some ==> pane.session_name@ == handle.session->0 || pane.session@
                == handle.session->0
        }
}

impl PaneInventory {
    /// Panes matching every component the published handle carries. An
    /// empty match is a stale handle; more than one is ambiguous.
    pub fn matching(&self, handle: &PublishedHandle) -> (r: Vec<&Pane>)
        ensures
            r@.unref() == picked(self.panes@, fits(handle.value())),
    {
        let mut out: Vec<&Pane> = Vec::new();
        let mut i: usize = 0;
        assert(out@.unref() =~= seq![]);
        while i < self.panes.len()
            invariant
                i <= self.panes@.len(),
                out@.unref() == picked(self.panes@.take(i as int), fits(handle.value())),
            decreases self.panes@.len() - i,
        {
            let pane = &self.panes[i];
            assert(self.panes@.take(i + 1).drop_last() =~= self.panes@.take(i as int));
            let ghost before = out@;
            let pane_ok = match &handle.pane {
                Some(id) => same(pane.id.as_str(), id.as_str()),
                None => true,
            };
            let window_ok = match &handle.window {
                Some(id) => same(pane.window.as_str(), id.as_str()),
                None => true,
            };
            let session_ok = match &handle.session {
                Some(name) => same(pane.session_name.as_str(), name.as_str()) || same(
                    pane.session.as_str(),
                    name.as_str(),
                ),
                None => true,
            };
            if pane_ok && window_ok && session_ok {
                out.push(pane);
                assert(out@.unref() =~= before.unref().push(*pane));
            }
            i += 1;
        }
        assert(self.panes@.take(i as int) =~= self.panes@);
        out
    }
}

// ---------------------------------------------------------------------------
// What a handle promises
// ---------------------------------------------------------------------------

/// A handle is read back in full, `session:@window.%pane`, and from any suffix
/// of it: each part constrains what it names, and nothing else.
pub proof fn law_handles_read_back(session: Seq<char>, window: nat, pane: nat)
    requires
        is_word(session),
        !session.contains(':'),
    ensures
        ({
            let at = seq!['@'] + decimal(window);
            let percent = seq!['%'] + decimal(pane);
            let spot = at.push('.') + percent;
            &&& handle_of(session.push(':') + spot) == Some(
                HandleView { pane: Some(percent), window: Some(at), session: Some(session) },
            )
            &&& handle_of(session.push(':') + percent) == Some(
                HandleView { pane: Some(percent), window: None, session: Some(session) },
            )
            &&& handle_of(session.push(':') + at) == Some(
                HandleView { pane: None, window: Some(at), session: Some(session) },
            )
            &&& handle_of(spot) == Some(
                HandleView { pane: Some(percent), window: Some(at), session: None },
            )
            &&& handle_of(percent) == Some(
                HandleView { pane: Some(percent), window: None, session: None },
            )
            &&& handle_of(at) == Some(
                HandleView { pane: None, window: Some(at), session: None },
            )
            &&& handle_of(seq![]) is None
        }),
{
    let at = seq!['@'] + decimal(window);
    let percent = seq!['%'] + decimal(pane);
    let spot = at.push('.') + percent;
    lemma_decimal_reads_back(window);
    lemma_decimal_reads_back(pane);
    lemma_id_text(window, '@');
    lemma_id_text(pane, '%');
    assert(is_word(spot)) by {
        assert forall|i: int| 0 <= i < spot.len() implies !is_space(#[trigger] spot[i]) by {
            if i < at.len() {
                assert(!is_space(at[i]));
            } else if i > at.len() {
                assert(!is_space(percent[i - at.len() - 1]));
            }
        }
    }
    assert(!spot.contains(':')) by {
        assert forall|i: int| 0 <= i < spot.len() implies spot[i] != ':' by {
            if i < at.len() {
                assert(at.contains(at[i]));
            } else if i > at.len() {
                assert(percent.contains(percent[i - at.len() - 1]));
            }
        }
    }
    lemma_first_piece(at, '.', percent);
    lemma_first_piece(percent, '.', seq![]);
    assert(pieces(spot, '.') =~= seq![at, percent]);
    reveal_with_fuel(last_id, 3);
    assert(seq![at, percent].drop_last() =~= seq![at]);
    assert(seq![at].drop_last() =~= seq![]);
    assert(seq![percent].drop_last() =~= seq![]);
    lemma_split(session, spot);
    lemma_split(session, percent);
    lemma_split(session, at);
    let none = Seq::<char>::empty();
    assert(trimmed(none) =~= none);
    assert(find(none, ':') == 0);
    lemma_first_piece(none, '.', none);
    assert(seq![none].drop_last() =~= seq![]);
}

proof fn lemma_id_text(n: nat, sigil: char)
    requires
        sigil == '@' || sigil == '%',
    ensures
        ({
            let text = seq![sigil] + decimal(n);
            &&& is_id(text, sigil)
            &&& is_word(text)
            &&& !text.contains(':')
            &&& !text.contains('.')
            &&& text.len() > 0
            &&& text[0] == sigil
        }),
{
    lemma_decimal_reads_back(n);
    let text = seq![sigil] + decimal(n);
    assert forall|i: int| 1 <= i < text.len() implies is_digit(#[trigger] text[i]) by {
        assert(is_digit(decimal(n)[i - 1]));
    }
    assert forall|i: int| 0 <= i < text.len() implies !is_space(#[trigger] text[i]) && text[i]
        != ':' && text[i] != '.' by {
        if i > 0 {
            assert(is_digit(text[i]));
        }
    }
}

proof fn lemma_split(session: Seq<char>, rest: Seq<char>)
    requires
        is_word(session),
        !session.contains(':'),
        is_word(rest),
        !rest.contains(':'),
    ensures
        session_split(trimmed(session.push(':') + rest)) == (Some(session), rest),
        session_split(trimmed(rest)) == (None::<Seq<char>>, rest),
{
    let whole = session.push(':') + rest;
    assert(is_word(whole)) by {
        assert forall|i: int| 0 <= i < whole.len() implies !is_space(#[trigger] whole[i]) by {
            if i < session.len() {
                assert(!is_space(session[i]));
            } else if i > session.len() {
                assert(!is_space(rest[i - session.len() - 1]));
            }
        }
    }
    lemma_trimmed_line(whole);
    lemma_trimmed_line(rest);
    assert forall|i: int| 0 <= i < session.len() implies whole[i] != ':' by {
        assert(session.contains(session[i]));
    }
    lemma_find_is(whole, ':', session.len() as int);
    assert(whole.take(session.len() as int) =~= session);
    assert(whole.skip(session.len() as int + 1) =~= rest);
    assert forall|i: int| 0 <= i < rest.len() implies rest[i] != ':' by {
        assert(rest.contains(rest[i]));
    }
    lemma_find_is(rest, ':', rest.len() as int);
}

/// A handle matches every pane that has each of the ids it carries, and no
/// other, in the order of the inventory; a session goes by its name or its id.
pub proof fn law_a_handle_matches_what_it_carries(panes: Seq<Pane>, handle: HandleView)
    ensures
        picked(panes, fits(handle)) == panes.filter(
            |pane: Pane|
                (handle.pane is None || pane.id@ == handle.pane->0) && (handle.window is None
                    || pane.window@ == handle.window->0) && (handle.session is None
                    || pane.session_name@ == handle.session->0 || pane.session@
                    == handle.session->0),
        ),
{
    lemma_picked_is_filter(
        panes,
        fits(handle),
        |pane: Pane|
            (handle.pane is None || pane.id@ == handle.pane->0) && (handle.window is None
                || pane.window@ == handle.window->0) && (handle.session is None
                || pane.session_name@ == handle.session->0 || pane.session@ == handle.session->0),
    );
}

}
