//! Text as a sequence of characters: the handful of operations every parser
//! and every message in this library is built from.
//!
//! A `&str` or `String` is modelled by its view, a `Seq<char>`. The spec
//! functions here say what splitting, trimming, searching and number reading
//! mean on such sequences; the executable functions beside them are proved to
//! compute exactly that.

use vstd::prelude::*;
use vstd::string::*;

verus! {

/// `String::push`: the character is appended, everything before it stays.
pub assume_specification[ String::push ](s: &mut String, c: char)
    ensures
        final(s)@ == old(s)@.push(c),
;

/// What the `Debug` form of a text is: the text in double quotes, with what
/// needs escaping escaped.
pub uninterp spec fn quoted(text: Seq<char>) -> Seq<char>;

/// `<str as Debug>::fmt`. Nothing is claimed but that the outcome is the one
/// named for the text; which characters are escaped, and how, is left unsaid.
#[verifier::external_body]
pub(crate) fn quote(text: &str) -> (r: String)
    ensures
        r@ == quoted(text@),
{
    format!("{text:?}")
}

/// The characters of `s`, in order.
pub fn chars_of(s: &str) -> (r: Vec<char>)
    ensures
        r@ == s@,
{
    let mut out: Vec<char> = Vec::new();
    for c in it: s.chars()
        invariant
            out@ == it.seq().take(it.index() as int),
            it.seq() == s@,
    {
        out.push(c);
    }
    out
}

/// The string made of `chars[from..to]`.
pub fn text_of(chars: &Vec<char>, from: usize, to: usize) -> (r: String)
    requires
        from <= to <= chars@.len(),
    ensures
        r@ == chars@.subrange(from as int, to as int),
{
    let mut out = String::new();
    let mut i: usize = from;
    while i < to
        invariant
            from <= i <= to <= chars@.len(),
            out@ =~= chars@.subrange(from as int, i as int),
        decreases to - i,
    {
        out.push(chars[i]);
        i += 1;
    }
    out
}

/// Whether two texts hold the same characters.
pub fn same(a: &str, b: &str) -> (r: bool)
    ensures
        r == (a@ == b@),
{
    let x = chars_of(a);
    let y = chars_of(b);
    if x.len() != y.len() {
        return false;
    }
    let mut i: usize = 0;
    while i < x.len()
        invariant
            i <= x@.len() == y@.len(),
            x@ == a@,
            y@ == b@,
            forall|j: int| 0 <= j < i ==> x@[j] == y@[j],
        decreases x@.len() - i,
    {
        if x[i] != y[i] {
            return false;
        }
        i += 1;
    }
    assert(a@ =~= b@);
    true
}

/// Whether a text that may be missing is `text`.
pub fn is_text(found: &Option<String>, text: &str) -> (r: bool)
    ensures
        r == (found.deep_view() == Some(text@)),
{
    match found {
        Some(found) => same(found.as_str(), text),
        None => false,
    }
}

/// Both texts in one.
pub fn concat(a: &str, b: &str) -> (r: String)
    ensures
        r@ == a@ + b@,
{
    let mut out = a.to_owned();
    out.append(b);
    out
}

/// A copy of a text that may be missing.
pub fn copy_text(text: &Option<String>) -> (r: Option<String>)
    ensures
        r == *text,
{
    match text {
        Some(text) => Some(text.clone()),
        None => None,
    }
}

/// Whether `list` holds a string equal to `item`.
pub fn contains_text(list: &Vec<String>, item: &str) -> (r: bool)
    ensures
        r == list.deep_view().contains(item@),
{
    let mut i: usize = 0;
    while i < list.len()
        invariant
            i <= list@.len(),
            forall|j: int| 0 <= j < i ==> list@[j]@ != item@,
        decreases list@.len() - i,
    {
        if same(list[i].as_str(), item) {
            assert(list.deep_view()[i as int] == item@);
            return true;
        }
        i += 1;
    }
    assert(forall|j: int| 0 <= j < list.deep_view().len() ==> list.deep_view()[j] == list@[j]@);
    false
}

/// An ASCII capital as its small letter; any other character as it is.
pub open spec fn small(c: char) -> char {
    if 'A' <= c && c <= 'Z' {
        ((c as u32 + 32) as u8) as char
    } else {
        c
    }
}

/// `s` with its ASCII capitals made small.
pub open spec fn lowered(s: Seq<char>) -> Seq<char> {
    s.map_values(|c: char| small(c))
}

/// `s` with its ASCII capitals made small.
pub fn lower(s: &str) -> (r: String)
    ensures
        r@ == lowered(s@),
{
    let mut out = String::new();
    for c in it: s.chars()
        invariant
            it.seq() == s@,
            out@ =~= lowered(s@.take(it.index() as int)),
    {
        let ghost before = s@.take(it.index() as int);
        assert(s@.take(it.index() + 1) =~= before.push(c));
        if 'A' <= c && c <= 'Z' {
            out.push((c as u8 + 32) as char);
        } else {
            out.push(c);
        }
    }
    assert(s@.take(s@.len() as int) =~= s@);
    out
}

// ---------------------------------------------------------------------------
// Prefixes and substrings
// ---------------------------------------------------------------------------

/// Whether `s` begins with `prefix`.
pub open spec fn begins(s: Seq<char>, prefix: Seq<char>) -> bool {
    prefix.len() <= s.len() && s.take(prefix.len() as int) == prefix
}

/// What follows `prefix` in `s`, when `s` begins with it.
pub open spec fn after_prefix(s: Seq<char>, prefix: Seq<char>) -> Option<Seq<char>> {
    if begins(s, prefix) {
        Some(s.skip(prefix.len() as int))
    } else {
        None
    }
}

/// Whether `needle` stands at position `at` of `s`.
pub open spec fn stands_at(s: Seq<char>, needle: Seq<char>, at: int) -> bool {
    0 <= at <= s.len() && begins(s.skip(at), needle)
}

/// Whether `needle` occurs anywhere in `s`.
pub open spec fn occurs(s: Seq<char>, needle: Seq<char>) -> bool {
    exists|at: int| stands_at(s, needle, at)
}

/// Whether `chars`, read from position `at`, begins with `needle`.
fn matches_at(chars: &Vec<char>, needle: &Vec<char>, at: usize) -> (r: bool)
    requires
        at <= chars@.len(),
    ensures
        r == begins(chars@.skip(at as int), needle@),
{
    if needle.len() > chars.len() - at {
        return false;
    }
    let mut i: usize = 0;
    while i < needle.len()
        invariant
            at + needle@.len() <= chars.len(),
            i <= needle@.len(),
            forall|j: int| 0 <= j < i ==> chars@[at + j] == needle@[j],
        decreases needle@.len() - i,
    {
        if chars[at + i] != needle[i] {
            let ghost here = chars@.skip(at as int).take(needle@.len() as int);
            assert(here[i as int] != needle@[i as int]);
            return false;
        }
        i += 1;
    }
    assert(chars@.skip(at as int).take(needle@.len() as int) =~= needle@);
    true
}

/// Whether `s` begins with `prefix`.
pub fn starts_with(s: &str, prefix: &str) -> (r: bool)
    ensures
        r == begins(s@, prefix@),
{
    let chars = chars_of(s);
    let needle = chars_of(prefix);
    assert(s@.skip(0) =~= s@);
    matches_at(&chars, &needle, 0)
}

/// What follows `prefix` in `s`, or `None` when `s` does not begin with it.
pub fn strip_prefix(s: &str, prefix: &str) -> (r: Option<String>)
    ensures
        r.deep_view() == after_prefix(s@, prefix@),
{
    let chars = chars_of(s);
    let needle = chars_of(prefix);
    assert(s@.skip(0) =~= s@);
    if matches_at(&chars, &needle, 0) {
        let rest = text_of(&chars, needle.len(), chars.len());
        assert(rest@ =~= s@.skip(prefix@.len() as int));
        Some(rest)
    } else {
        None
    }
}

/// Whether `needle` occurs anywhere in `s`.
pub fn contains(s: &str, needle: &str) -> (r: bool)
    ensures
        r == occurs(s@, needle@),
{
    let chars = chars_of(s);
    let wanted = chars_of(needle);
    let mut at: usize = 0;
    loop
        invariant
            at <= chars@.len(),
            chars@ == s@,
            wanted@ == needle@,
            forall|j: int| 0 <= j < at ==> !stands_at(s@, needle@, j),
        decreases chars@.len() - at,
    {
        if matches_at(&chars, &wanted, at) {
            assert(stands_at(s@, needle@, at as int));
            return true;
        }
        if at == chars.len() {
            return false;
        }
        at += 1;
    }
}

/// Whether `c` occurs in `s`.
pub fn contains_char(s: &str, c: char) -> (r: bool)
    ensures
        r == s@.contains(c),
{
    let chars = chars_of(s);
    let mut i: usize = 0;
    while i < chars.len()
        invariant
            chars@ == s@,
            i <= chars@.len(),
            forall|j: int| 0 <= j < i ==> s@[j] != c,
        decreases chars@.len() - i,
    {
        if chars[i] == c {
            assert(s@[i as int] == c);
            return true;
        }
        i += 1;
    }
    false
}

/// Both sides of the first `needle` in `s`.
pub open spec fn cut(s: Seq<char>, needle: Seq<char>) -> Option<(Seq<char>, Seq<char>)>
    decreases s.len(),
{
    if begins(s, needle) {
        Some((seq![], s.skip(needle.len() as int)))
    } else if s.len() == 0 {
        None
    } else {
        match cut(s.drop_first(), needle) {
            Some((left, right)) => Some((seq![s[0]] + left, right)),
            None => None,
        }
    }
}

/// Searching from `at` on, where `needle` stands nowhere before, cuts `s` at
/// the same place.
proof fn lemma_cut_skip(s: Seq<char>, needle: Seq<char>, at: int)
    requires
        0 <= at <= s.len(),
        forall|j: int| 0 <= j < at ==> !begins(#[trigger] s.skip(j), needle),
    ensures
        cut(s, needle) == match cut(s.skip(at), needle) {
            Some((left, right)) => Some((s.take(at) + left, right)),
            None => None,
        },
    decreases at,
{
    if at == 0 {
        assert(s.skip(0) =~= s);
        if let Some((left, right)) = cut(s, needle) {
            assert(s.take(0) + left =~= left);
        }
    } else {
        assert(s.skip(0) =~= s);
        let rest = s.drop_first();
        assert forall|j: int| 0 <= j < at - 1 implies !begins(#[trigger] rest.skip(j), needle) by {
            assert(rest.skip(j) =~= s.skip(j + 1));
        }
        lemma_cut_skip(rest, needle, at - 1);
        assert(rest.skip(at - 1) =~= s.skip(at));
        if let Some((left, right)) = cut(s.skip(at), needle) {
            assert(seq![s[0]] + (rest.take(at - 1) + left) =~= s.take(at) + left);
        }
    }
}

/// Both sides of the first `needle` in `s`, or `None` without one.
pub fn split_once_text(s: &str, needle: &str) -> (r: Option<(String, String)>)
    ensures
        r.deep_view() == cut(s@, needle@),
{
    let chars = chars_of(s);
    let wanted = chars_of(needle);
    let mut at: usize = 0;
    loop
        invariant
            at <= chars@.len(),
            chars@ == s@,
            wanted@ == needle@,
            forall|j: int| 0 <= j < at ==> !begins(#[trigger] s@.skip(j), needle@),
        decreases chars@.len() - at,
    {
        if matches_at(&chars, &wanted, at) {
            assert(at + wanted@.len() <= chars.len());
            let left = text_of(&chars, 0, at);
            let right = text_of(&chars, at + wanted.len(), chars.len());
            proof {
                lemma_cut_skip(s@, needle@, at as int);
                assert(left@ =~= s@.take(at as int) + seq![]);
                assert(right@ =~= s@.skip(at as int).skip(needle@.len() as int));
            }
            return Some((left, right));
        }
        if at == chars.len() {
            proof {
                lemma_cut_skip(s@, needle@, at as int);
                assert(s@.skip(at as int) =~= seq![]);
            }
            return None;
        }
        at += 1;
    }
}

/// Whether `s` ends with `suffix`.
pub open spec fn ends(s: Seq<char>, suffix: Seq<char>) -> bool {
    suffix.len() <= s.len() && s.skip(s.len() - suffix.len()) == suffix
}

/// `s` with every `suffix` at its end taken off, one after the other.
pub open spec fn without_suffix(s: Seq<char>, suffix: Seq<char>) -> Seq<char>
    decreases s.len(),
{
    if suffix.len() > 0 && ends(s, suffix) {
        without_suffix(s.take(s.len() - suffix.len()), suffix)
    } else {
        s
    }
}

/// `s` with every `suffix` at its end taken off, one after the other.
pub fn trim_end_matches(s: &str, suffix: &str) -> (r: String)
    ensures
        r@ == without_suffix(s@, suffix@),
{
    let chars = chars_of(s);
    let tail = chars_of(suffix);
    let mut to: usize = chars.len();
    assert(s@.take(to as int) =~= s@);
    while tail.len() > 0 && tail.len() <= to && matches_tail(&chars, &tail, to)
        invariant
            chars@ == s@,
            tail@ == suffix@,
            to <= chars@.len(),
            without_suffix(s@, suffix@) == without_suffix(s@.take(to as int), suffix@),
        decreases to,
    {
        assert(s@.take(to as int).take(to - suffix@.len()) =~= s@.take(to - suffix@.len()));
        to -= tail.len();
    }
    let r = text_of(&chars, 0, to);
    assert(r@ =~= s@.take(to as int));
    r
}

/// Whether `chars[..to]` ends with `tail`.
fn matches_tail(chars: &Vec<char>, tail: &Vec<char>, to: usize) -> (r: bool)
    requires
        tail@.len() <= to <= chars@.len(),
    ensures
        r == ends(chars@.take(to as int), tail@),
{
    let from: usize = to - tail.len();
    let ghost cut_off = chars@.take(to as int).skip(from as int);
    assert(chars@.skip(from as int).take(tail@.len() as int) =~= cut_off);
    matches_at(chars, tail, from)
}

// ---------------------------------------------------------------------------
// Splitting
// ---------------------------------------------------------------------------

/// The position of the first `c` in `s`, or the length of `s` without one.
pub open spec fn find(s: Seq<char>, c: char) -> int
    decreases s.len(),
{
    if s.len() == 0 || s[0] == c {
        0
    } else {
        1 + find(s.drop_first(), c)
    }
}

/// `find` gives the first position that holds `c`.
pub proof fn lemma_find(s: Seq<char>, c: char)
    ensures
        0 <= find(s, c) <= s.len(),
        find(s, c) < s.len() ==> s[find(s, c)] == c,
        forall|i: int| 0 <= i < find(s, c) ==> s[i] != c,
    decreases s.len(),
{
    if s.len() != 0 && s[0] != c {
        lemma_find(s.drop_first(), c);
        assert forall|i: int| 0 <= i < find(s, c) implies s[i] != c by {
            if i > 0 {
                assert(s.drop_first()[i - 1] != c);
            }
        }
    }
}

/// A stretch without `c`, then `c`: that is where `find` stops.
pub proof fn lemma_find_is(s: Seq<char>, c: char, at: int)
    requires
        0 <= at <= s.len(),
        forall|i: int| 0 <= i < at ==> s[i] != c,
        at < s.len() ==> s[at] == c,
    ensures
        find(s, c) == at,
{
    lemma_find(s, c);
    if find(s, c) < at {
        assert(s[find(s, c)] != c);
    }
}

/// The pieces of `s` between occurrences of `sep`; always at least one.
pub open spec fn pieces(s: Seq<char>, sep: char) -> Seq<Seq<char>>
    decreases s.len(),
{
    let at = find(s, sep);
    if 0 <= at < s.len() {
        seq![s.take(at)] + pieces(s.skip(at + 1), sep)
    } else {
        seq![s]
    }
}

/// What stands before the first `sep` is the first piece.
pub proof fn lemma_first_piece(head: Seq<char>, sep: char, rest: Seq<char>)
    requires
        !head.contains(sep),
    ensures
        pieces(head, sep) == seq![head],
        pieces(head.push(sep) + rest, sep) == seq![head] + pieces(rest, sep),
{
    let whole = head.push(sep) + rest;
    let at = head.len() as int;
    assert forall|i: int| 0 <= i < at implies head[i] != sep && whole[i] != sep by {
        assert(head.contains(head[i]));
    }
    lemma_find_is(head, sep, at);
    lemma_find_is(whole, sep, at);
    assert(whole.take(at) =~= head);
    assert(whole.skip(at + 1) =~= rest);
}

/// The parts in a row, each followed by `sep`.
pub open spec fn terminated(parts: Seq<Seq<char>>, sep: char) -> Seq<char>
    decreases parts.len(),
{
    if parts.len() == 0 {
        seq![]
    } else {
        parts[0].push(sep) + terminated(parts.drop_first(), sep)
    }
}

/// Parts that end with `sep` are cut back into themselves, and nothing is left
/// behind the last.
pub proof fn lemma_terminated(parts: Seq<Seq<char>>, sep: char)
    requires
        forall|i: int| 0 <= i < parts.len() ==> !(#[trigger] parts[i]).contains(sep),
    ensures
        pieces(terminated(parts, sep), sep) == parts.push(seq![]),
    decreases parts.len(),
{
    if parts.len() == 0 {
        let none = Seq::<char>::empty();
        lemma_first_piece(none, sep, none);
        assert(parts.push(seq![]) =~= seq![none]);
        assert(terminated(parts, sep) =~= none);
    } else {
        let rest = parts.drop_first();
        assert forall|i: int| 0 <= i < rest.len() implies !(#[trigger] rest[i]).contains(sep) by {
            assert(!parts[i + 1].contains(sep));
        }
        lemma_terminated(rest, sep);
        lemma_first_piece(parts[0], sep, terminated(rest, sep));
        assert(seq![parts[0]] + rest.push(seq![]) =~= parts.push(seq![]));
    }
}

/// One more piece behind a separator.
pub proof fn lemma_one_more_piece(head: Seq<char>, sep: char, last: Seq<char>)
    requires
        !last.contains(sep),
    ensures
        pieces(head.push(sep) + last, sep) == pieces(head, sep).push(last),
        pieces(head, sep).len() > 0,
    decreases head.len(),
{
    let whole = head.push(sep) + last;
    let at = find(head, sep);
    lemma_find(head, sep);
    if at < head.len() {
        let first = head.take(at);
        let rest = head.skip(at + 1);
        lemma_one_more_piece(rest, sep, last);
        assert(!first.contains(sep)) by {
            assert forall|i: int| 0 <= i < first.len() implies first[i] != sep by {
                assert(head[i] != sep);
            }
        }
        lemma_first_piece(first, sep, rest.push(sep) + last);
        assert(whole =~= first.push(sep) + (rest.push(sep) + last));
        assert(seq![first] + pieces(rest, sep).push(last) =~= (seq![first] + pieces(
            rest,
            sep,
        )).push(last));
    } else {
        assert(!head.contains(sep)) by {
            assert forall|i: int| 0 <= i < head.len() implies head[i] != sep by {}
        }
        lemma_first_piece(head, sep, last);
        lemma_first_piece(last, sep, seq![]);
        assert(seq![head] + seq![last] =~= seq![head].push(last));
    }
}

/// Parts set apart by a separator that none of them holds are read back as
/// they are.
pub proof fn law_parts_read_back(parts: Seq<Seq<char>>, sep: char)
    requires
        parts.len() > 0,
        forall|i: int| 0 <= i < parts.len() ==> !(#[trigger] parts[i]).contains(sep),
    ensures
        pieces(joined(parts, seq![sep]), sep) == parts,
    decreases parts.len(),
{
    if parts.len() == 1 {
        lemma_first_piece(parts[0], sep, seq![]);
        assert(parts =~= seq![parts[0]]);
    } else {
        let before = parts.drop_last();
        assert forall|i: int| 0 <= i < before.len() implies !(#[trigger] before[i]).contains(
            sep,
        ) by {
            assert(!parts[i].contains(sep));
        }
        law_parts_read_back(before, sep);
        assert(!parts[parts.len() - 1].contains(sep));
        lemma_one_more_piece(joined(before, seq![sep]), sep, parts.last());
        assert(joined(before, seq![sep]) + seq![sep] + parts.last() =~= joined(
            before,
            seq![sep],
        ).push(sep) + parts.last());
        assert(before.push(parts.last()) =~= parts);
    }
}

/// A last line needs no line feed behind it.
pub proof fn law_the_last_line_needs_no_end(lines: Seq<Seq<char>>, last: Seq<char>)
    requires
        forall|i: int|
            0 <= i < lines.len() ==> !(#[trigger] lines[i]).contains('\n')
                && !lines[i].contains('\r'),
        last.len() > 0,
        !last.contains('\n'),
    ensures
        line_list(terminated(lines, '\n') + last) == lines.push(last),
    decreases lines.len(),
{
    if lines.len() > 0 {
        let rest = lines.drop_first();
        assert forall|i: int| 0 <= i < rest.len() implies !(#[trigger] rest[i]).contains('\n')
            && !rest[i].contains('\r') by {
            assert(!lines[i + 1].contains('\n'));
        }
        law_the_last_line_needs_no_end(rest, last);
        let first = lines[0];
        let tail = terminated(rest, '\n') + last;
        let whole = first.push('\n') + tail;
        assert(terminated(lines, '\n') + last =~= whole);
        assert forall|i: int| 0 <= i < first.len() implies whole[i] != '\n' by {
            assert(first.contains(first[i]));
        }
        lemma_find_is(whole, '\n', first.len() as int);
        assert(whole.take(first.len() as int) =~= first);
        assert(whole.skip(first.len() as int + 1) =~= tail);
        if first.len() > 0 {
            assert(first.contains(first.last()));
        }
        assert(without_return(first) == first);
        assert(seq![first] + rest.push(last) =~= lines.push(last));
    } else {
        assert(terminated(lines, '\n') + last =~= last);
        assert forall|i: int| 0 <= i < last.len() implies last[i] != '\n' by {
            assert(last.contains(last[i]));
        }
        lemma_find_is(last, '\n', last.len() as int);
        assert(lines.push(last) =~= seq![last]);
    }
}

/// Lines that end with a line feed, or with a carriage return and one, are
/// read back as they are.
pub proof fn law_lines_read_back(lines: Seq<Seq<char>>, returned: bool)
    requires
        forall|i: int|
            0 <= i < lines.len() ==> !(#[trigger] lines[i]).contains('\n')
                && !lines[i].contains('\r'),
    ensures
        line_list(
            terminated(
                if returned {
                    lines.map_values(|line: Seq<char>| line.push('\r'))
                } else {
                    lines
                },
                '\n',
            ),
        ) == lines,
    decreases lines.len(),
{
    let printed = if returned {
        lines.map_values(|line: Seq<char>| line.push('\r'))
    } else {
        lines
    };
    if lines.len() > 0 {
        let rest = lines.drop_first();
        assert forall|i: int| 0 <= i < rest.len() implies !(#[trigger] rest[i]).contains('\n')
            && !rest[i].contains('\r') by {
            assert(!lines[i + 1].contains('\n'));
        }
        law_lines_read_back(rest, returned);
        let first = printed[0];
        let tail = terminated(printed.drop_first(), '\n');
        assert(printed.drop_first() =~= if returned {
            rest.map_values(|line: Seq<char>| line.push('\r'))
        } else {
            rest
        });
        let whole = first.push('\n') + tail;
        assert forall|i: int| 0 <= i < first.len() implies whole[i] != '\n' by {
            if i < lines[0].len() {
                assert(lines[0].contains(lines[0][i]));
            }
        }
        lemma_find_is(whole, '\n', first.len() as int);
        assert(whole.take(first.len() as int) =~= first);
        assert(whole.skip(first.len() as int + 1) =~= tail);
        if returned {
            assert(first.drop_last() =~= lines[0]);
        } else if lines[0].len() > 0 {
            assert(lines[0].contains(lines[0].last()));
        }
        assert(without_return(first) == lines[0]);
        assert(seq![lines[0]] + rest =~= lines);
    } else {
        assert(lines =~= seq![]);
    }
}

/// Both sides of the first `sep` in `s`.
pub open spec fn halves(s: Seq<char>, sep: char) -> Option<(Seq<char>, Seq<char>)> {
    let at = find(s, sep);
    if at < s.len() {
        Some((s.take(at), s.skip(at + 1)))
    } else {
        None
    }
}

/// What follows the last `sep` of `s`; all of `s` without one.
pub open spec fn after_last(s: Seq<char>, sep: char) -> Seq<char> {
    pieces(s, sep).last()
}

/// The pieces of `s` between occurrences of `sep`.
pub fn split(s: &str, sep: char) -> (r: Vec<String>)
    ensures
        r.deep_view() == pieces(s@, sep),
        r@.len() > 0,
{
    let mut out: Vec<String> = Vec::new();
    let mut piece = String::new();
    assert(piece@ + s@.skip(0) =~= s@);
    assert(out.deep_view() =~= seq![]);
    for c in it: s.chars()
        invariant
            it.seq() == s@,
            0 <= it.index() <= s@.len(),
            forall|i: int| 0 <= i < piece@.len() ==> piece@[i] != sep,
            pieces(s@, sep) =~= out.deep_view() + pieces(piece@ + s@.skip(it.index() as int), sep),
    {
        let ghost rest = s@.skip(it.index() as int);
        let ghost whole = piece@ + rest;
        assert(rest[0] == c);
        assert(rest.skip(1) =~= s@.skip(it.index() + 1));
        if c == sep {
            proof {
                lemma_find_is(whole, sep, piece@.len() as int);
                assert(whole.take(piece@.len() as int) =~= piece@);
                assert(whole.skip(piece@.len() as int + 1) =~= rest.skip(1));
            }
            let ghost before = out.deep_view();
            let ghost done = piece@;
            out.push(piece);
            assert(out.deep_view() =~= before.push(done));
            piece = String::new();
            assert(piece@ + rest.skip(1) =~= rest.skip(1));
        } else {
            piece.push(c);
            assert(piece@ + rest.skip(1) =~= whole);
        }
    }
    assert(piece@ + s@.skip(s@.len() as int) =~= piece@);
    proof {
        lemma_find_is(piece@, sep, piece@.len() as int);
    }
    let ghost before = out.deep_view();
    let ghost done = piece@;
    out.push(piece);
    assert(out.deep_view() =~= before.push(done));
    out
}

/// Both sides of the first `sep` in `s`, or `None` without one.
pub fn split_once(s: &str, sep: char) -> (r: Option<(String, String)>)
    ensures
        r.deep_view() == halves(s@, sep),
{
    let chars = chars_of(s);
    let mut i: usize = 0;
    while i < chars.len()
        invariant
            chars@ == s@,
            i <= chars@.len(),
            forall|j: int| 0 <= j < i ==> s@[j] != sep,
        decreases chars@.len() - i,
    {
        if chars[i] == sep {
            proof {
                lemma_find_is(s@, sep, i as int);
            }
            let left = text_of(&chars, 0, i);
            let right = text_of(&chars, i + 1, chars.len());
            assert(left@ =~= s@.take(i as int));
            assert(right@ =~= s@.skip(i + 1));
            return Some((left, right));
        }
        i += 1;
    }
    proof {
        lemma_find_is(s@, sep, i as int);
    }
    None
}

/// What follows the last `sep` of `s`; all of `s` without one.
pub fn last_piece(s: &str, sep: char) -> (r: String)
    ensures
        r@ == after_last(s@, sep),
{
    let parts = split(s, sep);
    let last = parts[parts.len() - 1].clone();
    assert(last@ == parts.deep_view().last());
    last
}

/// What follows the last `sep` is a suffix, cut off right behind a `sep`.
pub proof fn lemma_after_last(s: Seq<char>, sep: char)
    ensures
        after_last(s, sep).len() <= s.len(),
        s.skip(s.len() - after_last(s, sep).len()) == after_last(s, sep),
        after_last(s, sep).len() < s.len() ==> s[s.len() - after_last(s, sep).len() - 1] == sep,
        forall|i: int|
            0 <= i < after_last(s, sep).len() ==> #[trigger] after_last(s, sep)[i] != sep,
    decreases s.len(),
{
    let at = find(s, sep);
    lemma_find(s, sep);
    if at < s.len() {
        let rest = s.skip(at + 1);
        lemma_after_last(rest, sep);
        assert(after_last(s, sep) == after_last(rest, sep));
        assert(s.skip(s.len() - after_last(s, sep).len()) =~= rest.skip(
            rest.len() - after_last(rest, sep).len(),
        ));
    } else {
        assert(s.skip(0) =~= s);
        assert(after_last(s, sep) =~= s);
    }
}

/// What follows the `sep` that no other follows.
pub proof fn lemma_after_last_is(s: Seq<char>, sep: char, at: int)
    requires
        0 <= at < s.len(),
        s[at] == sep,
        forall|i: int| at < i < s.len() ==> #[trigger] s[i] != sep,
    ensures
        after_last(s, sep) == s.skip(at + 1),
{
    lemma_after_last(s, sep);
    let n = after_last(s, sep).len() as int;
    let m = s.len() - at - 1;
    if n > m {
        assert(after_last(s, sep)[at - (s.len() - n)] == s[at]);
    } else if n < m {
        assert(s[s.len() - n - 1] == sep);
    }
}

/// The line without the carriage return that belongs to its line ending.
pub open spec fn without_return(line: Seq<char>) -> Seq<char> {
    if line.len() > 0 && line.last() == '\r' {
        line.drop_last()
    } else {
        line
    }
}

/// The lines of `s`: each ends at `\n` or `\r\n`, and the last one needs no
/// ending.
pub open spec fn line_list(s: Seq<char>) -> Seq<Seq<char>>
    decreases s.len(),
{
    let at = find(s, '\n');
    if s.len() == 0 {
        seq![]
    } else if 0 <= at < s.len() {
        seq![without_return(s.take(at))] + line_list(s.skip(at + 1))
    } else {
        seq![s]
    }
}

/// The lines of `s`, without their endings.
pub fn lines(s: &str) -> (r: Vec<String>)
    ensures
        r.deep_view() == line_list(s@),
{
    let mut out: Vec<String> = Vec::new();
    let mut line: Vec<char> = Vec::new();
    assert(line@ + s@.skip(0) =~= s@);
    assert(out.deep_view() =~= seq![]);
    for c in it: s.chars()
        invariant
            it.seq() == s@,
            0 <= it.index() <= s@.len(),
            forall|i: int| 0 <= i < line@.len() ==> line@[i] != '\n',
            line_list(s@) =~= out.deep_view() + line_list(line@ + s@.skip(it.index() as int)),
    {
        let ghost rest = s@.skip(it.index() as int);
        let ghost whole = line@ + rest;
        assert(rest[0] == c);
        assert(rest.skip(1) =~= s@.skip(it.index() + 1));
        if c == '\n' {
            proof {
                lemma_find_is(whole, '\n', line@.len() as int);
                assert(whole.take(line@.len() as int) =~= line@);
                assert(whole.skip(line@.len() as int + 1) =~= rest.skip(1));
            }
            let keep: usize = if line.len() > 0 && line[line.len() - 1] == '\r' {
                line.len() - 1
            } else {
                line.len()
            };
            let done = text_of(&line, 0, keep);
            assert(done@ =~= without_return(line@));
            let ghost before = out.deep_view();
            let ghost text = done@;
            out.push(done);
            assert(out.deep_view() =~= before.push(text));
            line = Vec::new();
            assert(line@ + rest.skip(1) =~= rest.skip(1));
        } else {
            line.push(c);
            assert(line@ + rest.skip(1) =~= whole);
        }
    }
    assert(line@ + s@.skip(s@.len() as int) =~= line@);
    proof {
        lemma_find_is(line@, '\n', line@.len() as int);
    }
    if line.len() > 0 {
        let done = text_of(&line, 0, line.len());
        assert(done@ =~= line@);
        let ghost before = out.deep_view();
        let ghost text = done@;
        out.push(done);
        assert(out.deep_view() =~= before.push(text));
    }
    out
}

// ---------------------------------------------------------------------------
// White space
// ---------------------------------------------------------------------------

/// The Unicode `White_Space` property.
pub open spec fn is_space(c: char) -> bool {
    let n = c as u32;
    ||| 0x9 <= n <= 0xd
    ||| n == 0x20
    ||| n == 0x85
    ||| n == 0xa0
    ||| n == 0x1680
    ||| 0x2000 <= n <= 0x200a
    ||| n == 0x2028
    ||| n == 0x2029
    ||| n == 0x202f
    ||| n == 0x205f
    ||| n == 0x3000
}

/// Whether `c` has the Unicode `White_Space` property.
pub fn space(c: char) -> (r: bool)
    ensures
        r == is_space(c),
{
    let n: u32 = c as u32;
    (0x9 <= n && n <= 0xd) || n == 0x20 || n == 0x85 || n == 0xa0 || n == 0x1680 || (0x2000 <= n
        && n <= 0x200a) || n == 0x2028 || n == 0x2029 || n == 0x202f || n == 0x205f || n == 0x3000
}

/// `s` without its leading white space.
pub open spec fn trim_left(s: Seq<char>) -> Seq<char>
    decreases s.len(),
{
    if s.len() > 0 && is_space(s[0]) {
        trim_left(s.drop_first())
    } else {
        s
    }
}

/// `s` without its trailing white space.
pub open spec fn trim_right(s: Seq<char>) -> Seq<char>
    decreases s.len(),
{
    if s.len() > 0 && is_space(s.last()) {
        trim_right(s.drop_last())
    } else {
        s
    }
}

/// `s` without the white space around it.
pub open spec fn trimmed(s: Seq<char>) -> Seq<char> {
    trim_right(trim_left(s))
}

/// `s` without the white space around it.
pub fn trim(s: &str) -> (r: String)
    ensures
        r@ == trimmed(s@),
{
    let chars = chars_of(s);
    let mut from: usize = 0;
    assert(s@.skip(0) =~= s@);
    while from < chars.len() && space(chars[from])
        invariant
            chars@ == s@,
            from <= chars@.len(),
            trim_left(s@) == trim_left(s@.skip(from as int)),
        decreases chars@.len() - from,
    {
        assert(s@.skip(from as int).drop_first() =~= s@.skip(from + 1));
        from += 1;
    }
    let mut to: usize = chars.len();
    let ghost left = s@.skip(from as int);
    assert(left =~= s@.subrange(from as int, to as int));
    while to > from && space(chars[to - 1])
        invariant
            chars@ == s@,
            from <= to <= chars@.len(),
            trim_right(left) == trim_right(s@.subrange(from as int, to as int)),
        decreases to,
    {
        assert(s@.subrange(from as int, to as int).drop_last() =~= s@.subrange(
            from as int,
            to - 1,
        ));
        to -= 1;
    }
    text_of(&chars, from, to)
}

/// How many characters stand before the first white space of `s`.
pub open spec fn word_len(s: Seq<char>) -> int
    decreases s.len(),
{
    if s.len() == 0 || is_space(s[0]) {
        0
    } else {
        1 + word_len(s.drop_first())
    }
}

/// The runs of `s` between white space.
pub open spec fn word_list(s: Seq<char>) -> Seq<Seq<char>>
    decreases s.len(),
{
    let n = word_len(s);
    if s.len() == 0 {
        seq![]
    } else if 0 < n <= s.len() {
        seq![s.take(n)] + word_list(s.skip(n))
    } else {
        word_list(s.drop_first())
    }
}

proof fn lemma_word_len(s: Seq<char>, n: int)
    requires
        0 <= n <= s.len(),
        forall|i: int| 0 <= i < n ==> !is_space(s[i]),
        n < s.len() ==> is_space(s[n]),
    ensures
        word_len(s) == n,
    decreases s.len(),
{
    if n > 0 {
        assert forall|i: int| 0 <= i < n - 1 implies !is_space(s.drop_first()[i]) by {
            assert(!is_space(s[i + 1]));
        }
        lemma_word_len(s.drop_first(), n - 1);
    }
}

/// The runs of `s` between white space.
pub fn words(s: &str) -> (r: Vec<String>)
    ensures
        r.deep_view() == word_list(s@),
{
    let mut out: Vec<String> = Vec::new();
    let mut word = String::new();
    assert(word@ + s@.skip(0) =~= s@);
    assert(out.deep_view() =~= seq![]);
    for c in it: s.chars()
        invariant
            it.seq() == s@,
            0 <= it.index() <= s@.len(),
            forall|i: int| 0 <= i < word@.len() ==> !is_space(word@[i]),
            word_list(s@) =~= out.deep_view() + word_list(word@ + s@.skip(it.index() as int)),
    {
        let ghost rest = s@.skip(it.index() as int);
        let ghost whole = word@ + rest;
        assert(rest[0] == c);
        assert(rest.drop_first() =~= s@.skip(it.index() + 1));
        if space(c) {
            proof {
                lemma_word_len(whole, word@.len() as int);
                lemma_word_len(rest, 0);
                assert(word_list(rest) == word_list(rest.drop_first()));
            }
            if !word.as_str().is_empty() {
                assert(whole.take(word@.len() as int) =~= word@);
                assert(whole.skip(word@.len() as int) =~= rest);
                let ghost before = out.deep_view();
                let ghost done = word@;
                out.push(word);
                assert(out.deep_view() =~= before.push(done));
                word = String::new();
            } else {
                assert(whole =~= rest);
            }
            assert(word@ + rest.drop_first() =~= rest.drop_first());
        } else {
            word.push(c);
            assert(word@ + rest.drop_first() =~= whole);
        }
    }
    assert(word@ + s@.skip(s@.len() as int) =~= word@);
    proof {
        lemma_word_len(word@, word@.len() as int);
        assert(word@.take(word@.len() as int) =~= word@);
        assert(word@.skip(word@.len() as int) =~= seq![]);
        assert(word_list(seq![]) =~= seq![]);
    }
    if !word.as_str().is_empty() {
        let ghost before = out.deep_view();
        let ghost done = word@;
        out.push(word);
        assert(out.deep_view() =~= before.push(done));
    }
    out
}

/// White space and nothing else.
pub open spec fn is_blank(s: Seq<char>) -> bool {
    forall|i: int| 0 <= i < s.len() ==> is_space(#[trigger] s[i])
}

/// At least one character, and no white space.
pub open spec fn is_word(s: Seq<char>) -> bool {
    s.len() > 0 && forall|i: int| 0 <= i < s.len() ==> !is_space(#[trigger] s[i])
}

/// What can stand around `n` words: a blank before each and one after the
/// last, and none of those between two words empty.
pub open spec fn are_gaps(gaps: Seq<Seq<char>>, n: nat) -> bool {
    &&& gaps.len() == n + 1
    &&& forall|i: int| 0 <= i < gaps.len() ==> is_blank(#[trigger] gaps[i])
    &&& forall|i: int| 0 < i < n ==> (#[trigger] gaps[i]).len() > 0
}

/// The words in a row, each behind its gap, and the last gap at the end.
pub open spec fn spaced(words: Seq<Seq<char>>, gaps: Seq<Seq<char>>) -> Seq<char>
    decreases words.len(),
{
    if words.len() == 0 {
        gaps[0]
    } else {
        gaps[0] + words[0] + spaced(words.drop_first(), gaps.drop_first())
    }
}

proof fn lemma_words_after_blank(gap: Seq<char>, rest: Seq<char>)
    requires
        is_blank(gap),
    ensures
        word_list(gap + rest) == word_list(rest),
    decreases gap.len(),
{
    let whole = gap + rest;
    if gap.len() == 0 {
        assert(whole =~= rest);
    } else {
        assert(is_space(gap[0]) && whole[0] == gap[0]);
        assert(whole.drop_first() =~= gap.drop_first() + rest);
        assert forall|i: int| 0 <= i < gap.drop_first().len() implies is_space(
            #[trigger] gap.drop_first()[i],
        ) by {
            assert(is_space(gap[i + 1]));
        }
        lemma_words_after_blank(gap.drop_first(), rest);
    }
}

proof fn lemma_words_after_word(word: Seq<char>, rest: Seq<char>)
    requires
        is_word(word),
        rest.len() > 0 ==> is_space(rest[0]),
    ensures
        word_list(word + rest) == seq![word] + word_list(rest),
{
    let whole = word + rest;
    assert forall|i: int| 0 <= i < word.len() implies !is_space(whole[i]) by {
        assert(!is_space(word[i]));
    }
    lemma_word_len(whole, word.len() as int);
    assert(whole.take(word.len() as int) =~= word);
    assert(whole.skip(word.len() as int) =~= rest);
}

/// Words set apart by any white space are read back as they are, whatever
/// white space stands before the first and behind the last.
pub proof fn law_words_read_back(words: Seq<Seq<char>>, gaps: Seq<Seq<char>>)
    requires
        forall|i: int| 0 <= i < words.len() ==> is_word(#[trigger] words[i]),
        are_gaps(gaps, words.len()),
    ensures
        word_list(spaced(words, gaps)) == words,
    decreases words.len(),
{
    let whole = spaced(words, gaps);
    assert(is_blank(gaps[0]));
    if words.len() == 0 {
        lemma_words_after_blank(whole, seq![]);
        assert(whole + seq![] =~= whole);
        assert(words =~= seq![]);
    } else {
        let later = words.drop_first();
        let around = gaps.drop_first();
        let rest = spaced(later, around);
        assert(is_blank(gaps[1]));
        assert forall|i: int| 0 <= i < later.len() implies is_word(#[trigger] later[i]) by {
            assert(is_word(words[i + 1]));
        }
        assert forall|i: int| 0 <= i < around.len() implies is_blank(#[trigger] around[i]) by {
            assert(is_blank(gaps[i + 1]));
        }
        assert forall|i: int| 0 < i < later.len() implies (#[trigger] around[i]).len() > 0 by {
            assert(gaps[i + 1].len() > 0);
        }
        law_words_read_back(later, around);
        assert(around[0] == gaps[1]);
        if later.len() > 0 {
            assert(gaps[1].len() > 0);
            assert(rest[0] == gaps[1][0]);
        }
        assert(whole =~= gaps[0] + (words[0] + rest));
        lemma_words_after_blank(gaps[0], words[0] + rest);
        lemma_words_after_word(words[0], rest);
        assert(words =~= seq![words[0]] + later);
    }
}

/// A word on a line of its own is the line without its end.
pub proof fn lemma_trimmed_line(word: Seq<char>)
    requires
        is_word(word),
    ensures
        trimmed(word.push('\n')) == word,
        trimmed(word) == word,
{
    let line = word.push('\n');
    assert(!is_space(word[0]) && !is_space(word[word.len() - 1]));
    assert(line[0] == word[0]);
    assert(is_space('\n'));
    assert(line.drop_last() =~= word);
    assert(trim_right(word) == word);
}

// ---------------------------------------------------------------------------
// Numbers
// ---------------------------------------------------------------------------

pub open spec fn is_digit(c: char) -> bool {
    '0' <= c && c <= '9'
}

/// The value of a decimal digit.
pub open spec fn digit_value(c: char) -> nat {
    (c as u32 - '0' as u32) as nat
}

/// The digit of value `d`.
pub open spec fn digit_of(d: nat) -> char {
    (('0' as u8 + d) as u8) as char
}

/// The value of a run of decimal digits.
pub open spec fn value_of(digits: Seq<char>) -> nat
    decreases digits.len(),
{
    if digits.len() == 0 {
        0
    } else {
        value_of(digits.drop_last()) * 10 + digit_value(digits.last())
    }
}

pub open spec fn all_digits(s: Seq<char>) -> bool {
    s.len() > 0 && forall|i: int| 0 <= i < s.len() ==> is_digit(#[trigger] s[i])
}

/// `n` in decimal, without leading zeros.
pub open spec fn decimal(n: nat) -> Seq<char>
    decreases n,
{
    if n < 10 {
        seq![digit_of(n)]
    } else {
        decimal(n / 10).push(digit_of(n % 10))
    }
}

proof fn lemma_digit(d: nat)
    requires
        d < 10,
    ensures
        is_digit(digit_of(d)),
        digit_value(digit_of(d)) == d,
{
}

/// Printing then reading a number gives it back.
pub proof fn lemma_decimal_reads_back(n: nat)
    ensures
        all_digits(decimal(n)),
        value_of(decimal(n)) == n,
    decreases n,
{
    lemma_digit(n % 10);
    if n < 10 {
        let s = decimal(n);
        assert(s.drop_last() =~= seq![]);
        assert(value_of(s.drop_last()) == 0);
    } else {
        lemma_decimal_reads_back(n / 10);
        let s = decimal(n);
        assert(s.drop_last() =~= decimal(n / 10));
        assert forall|i: int| 0 <= i < s.len() implies is_digit(#[trigger] s[i]) by {
            if i < s.len() - 1 {
                assert(s[i] == decimal(n / 10)[i]);
            }
        }
    }
}

/// `n` in decimal.
pub fn print_u64(n: u64) -> (r: String)
    ensures
        r@ == decimal(n as nat),
    decreases n,
{
    let d: u8 = (n % 10) as u8;
    let c = (48 + d) as char;
    let mut out = if n < 10 {
        String::new()
    } else {
        print_u64(n / 10)
    };
    out.push(c);
    assert(n < 10 ==> out@ =~= decimal(n as nat));
    out
}

/// An integer in decimal, with a leading `-` when negative.
pub open spec fn signed_decimal(n: int) -> Seq<char> {
    if n < 0 {
        seq!['-'] + decimal((-n) as nat)
    } else {
        decimal(n as nat)
    }
}

/// `n` in decimal, with a leading `-` when negative.
pub fn print_i32(n: i32) -> (r: String)
    ensures
        r@ == signed_decimal(n as int),
{
    let wide: i64 = n as i64;
    if wide < 0 {
        let mut out = String::new();
        out.push('-');
        let digits = print_u64((-wide) as u64);
        out.append(digits.as_str());
        assert(out@ =~= signed_decimal(n as int));
        out
    } else {
        print_u64(wide as u64)
    }
}

/// The digits of an unsigned number: a leading `+` is allowed.
pub open spec fn unsigned_digits(s: Seq<char>) -> Seq<char> {
    if s.len() > 0 && s[0] == '+' {
        s.drop_first()
    } else {
        s
    }
}

/// The number `s` spells, if it is one and at most `max`.
pub open spec fn unsigned(s: Seq<char>, max: nat) -> Option<nat> {
    let digits = unsigned_digits(s);
    if all_digits(digits) && value_of(digits) <= max {
        Some(value_of(digits))
    } else {
        None
    }
}

/// The integer `s` spells, if it is one between `min` and `max`.
pub open spec fn signed(s: Seq<char>, min: int, max: nat) -> Option<int> {
    if s.len() > 0 && s[0] == '-' {
        let digits = s.drop_first();
        if all_digits(digits) && min <= -(value_of(digits) as int) {
            Some(-(value_of(digits) as int))
        } else {
            None
        }
    } else {
        match unsigned(s, max) {
            Some(n) => Some(n as int),
            None => None,
        }
    }
}

/// `n` in decimal, with a leading zero where it has one digit.
pub open spec fn two_digits(n: nat) -> Seq<char> {
    if n < 10 {
        seq!['0'] + decimal(n)
    } else {
        decimal(n)
    }
}

/// A number is digits alone, and reads back with or without a leading zero.
pub proof fn lemma_number_reads_back(n: nat, max: nat)
    requires
        n <= max,
    ensures
        unsigned(decimal(n), max) == Some(n),
        unsigned(two_digits(n), max) == Some(n),
        signed(decimal(n), 0, max) == Some(n as int),
        all_digits(decimal(n)),
        all_digits(two_digits(n)),
{
    lemma_decimal_reads_back(n);
    assert(is_digit(decimal(n)[0]));
    if n < 10 {
        let s = two_digits(n);
        assert(s =~= seq!['0', digit_of(n)]);
        assert(is_digit(s[0]));
        assert(s.drop_last() =~= seq!['0']);
        assert(seq!['0'].drop_last() =~= seq![]);
        assert(value_of(s.drop_last()) == 0) by {
            reveal_with_fuel(value_of, 2);
        }
    }
}

/// The value of `s` grows with every digit taken in.
proof fn lemma_value_take(s: Seq<char>, i: int)
    requires
        0 <= i <= s.len(),
        forall|j: int| 0 <= j < s.len() ==> is_digit(#[trigger] s[j]),
    ensures
        value_of(s.take(i)) <= value_of(s),
    decreases s.len() - i,
{
    if i == s.len() {
        assert(s.take(i) =~= s);
    } else {
        lemma_value_take(s, i + 1);
        assert(s.take(i + 1).drop_last() =~= s.take(i));
        assert(value_of(s.take(i + 1)) == value_of(s.take(i)) * 10 + digit_value(s[i]));
    }
}

/// The value of the digits from `from` on, or `None` when there are none, one
/// is not a digit, or the value does not fit.
fn read_digits(chars: &Vec<char>, from: usize) -> (r: Option<u64>)
    requires
        from <= chars@.len(),
    ensures
        ({
            let digits = chars@.skip(from as int);
            r == if all_digits(digits) && value_of(digits) <= u64::MAX {
                Some(value_of(digits) as u64)
            } else {
                None
            }
        }),
{
    let ghost digits = chars@.skip(from as int);
    if from == chars.len() {
        return None;
    }
    let mut total: u64 = 0;
    let mut i: usize = from;
    assert(digits.take(0) =~= seq![]);
    while i < chars.len()
        invariant
            from <= i <= chars@.len(),
            from < chars@.len(),
            digits == chars@.skip(from as int),
            forall|j: int| 0 <= j < i - from ==> is_digit(#[trigger] digits[j]),
            total == value_of(digits.take(i - from)),
        decreases chars@.len() - i,
    {
        let c = chars[i];
        assert(digits[i - from] == c);
        if !('0' <= c && c <= '9') {
            return None;
        }
        let d: u64 = c as u64 - 48;
        proof {
            assert(digits.take(i - from + 1).drop_last() =~= digits.take(i - from));
            assert(value_of(digits.take(i - from + 1)) == total * 10 + d);
            if all_digits(digits) {
                lemma_value_take(digits, i - from + 1);
            }
        }
        let Some(tens) = total.checked_mul(10) else {
            return None;
        };
        let Some(next) = tens.checked_add(d) else {
            return None;
        };
        total = next;
        i += 1;
    }
    assert(digits.take(i - from) =~= digits);
    Some(total)
}

/// The number `s` spells, or `None` when it is not one that fits a `u64`.
pub fn parse_u64(s: &str) -> (r: Option<u64>)
    ensures
        r is Some <==> unsigned(s@, u64::MAX as nat) is Some,
        r is Some ==> r->0 == unsigned(s@, u64::MAX as nat)->0,
{
    let chars = chars_of(s);
    if chars.len() > 0 && chars[0] == '+' {
        assert(s@.skip(1) =~= s@.drop_first());
        read_digits(&chars, 1)
    } else {
        assert(s@.skip(0) =~= s@);
        read_digits(&chars, 0)
    }
}

/// How many digits `s` begins with.
pub open spec fn leading_digits(s: Seq<char>) -> int
    decreases s.len(),
{
    if s.len() == 0 || !is_digit(s[0]) {
        0
    } else {
        1 + leading_digits(s.drop_first())
    }
}

proof fn lemma_leading_digits(s: Seq<char>, n: int)
    requires
        0 <= n <= s.len(),
        forall|i: int| 0 <= i < n ==> is_digit(#[trigger] s[i]),
        n < s.len() ==> !is_digit(s[n]),
    ensures
        leading_digits(s) == n,
    decreases s.len(),
{
    if n > 0 {
        assert(is_digit(s[0]));
        assert forall|i: int| 0 <= i < n - 1 implies is_digit(#[trigger] s.drop_first()[i]) by {
            assert(is_digit(s[i + 1]));
        }
        lemma_leading_digits(s.drop_first(), n - 1);
    }
}

/// Why `s` does not spell a number up to `max`: it is empty, its digits grow
/// past `max` before anything else goes wrong, or something is no digit.
pub open spec fn number_fault(s: Seq<char>, max: nat) -> Seq<char> {
    let digits = unsigned_digits(s);
    if s.len() == 0 {
        "cannot parse integer from empty string"@
    } else if value_of(digits.take(leading_digits(digits))) > max {
        "number too large to fit in target type"@
    } else {
        "invalid digit found in string"@
    }
}

/// Why `s` does not spell a number that fits a `u64`.
pub fn u64_fault(s: &str) -> (r: &'static str)
    ensures
        r@ == number_fault(s@, u64::MAX as nat),
{
    let chars = chars_of(s);
    if chars.len() == 0 {
        return "cannot parse integer from empty string";
    }
    let from: usize = if chars[0] == '+' {
        1
    } else {
        0
    };
    let ghost digits = unsigned_digits(s@);
    assert(digits =~= chars@.skip(from as int));
    let mut to: usize = from;
    while to < chars.len() && '0' <= chars[to] && chars[to] <= '9'
        invariant
            from <= to <= chars@.len(),
            digits == chars@.skip(from as int),
            forall|j: int| 0 <= j < to - from ==> is_digit(#[trigger] digits[j]),
        decreases chars@.len() - to,
    {
        assert(digits[to - from] == chars@[to as int]);
        to += 1;
    }
    let ghost run = digits.take(to - from);
    proof {
        if to < chars@.len() {
            assert(digits[to - from] == chars@[to as int]);
        }
        lemma_leading_digits(digits, to - from);
    }
    let head = text_of(&chars, from, to);
    let run_chars = chars_of(head.as_str());
    assert(run_chars@ =~= run);
    assert(run_chars@.skip(0) =~= run);
    if to > from && read_digits(&run_chars, 0).is_none() {
        assert(all_digits(run)) by {
            assert forall|i: int| 0 <= i < run.len() implies is_digit(#[trigger] run[i]) by {
                assert(is_digit(digits[i]));
            }
        }
        "number too large to fit in target type"
    } else {
        proof {
            if to == from {
                assert(run =~= seq![]);
            }
        }
        "invalid digit found in string"
    }
}

/// The number `s` spells, or `None` when it is not one that fits a `u32`.
pub fn parse_u32(s: &str) -> (r: Option<u32>)
    ensures
        r is Some <==> unsigned(s@, u32::MAX as nat) is Some,
        r is Some ==> r->0 == unsigned(s@, u32::MAX as nat)->0,
{
    match parse_u64(s) {
        Some(n) => {
            if n <= 0xffff_ffff {
                Some(n as u32)
            } else {
                None
            }
        },
        None => None,
    }
}

/// The integer `s` spells, or `None` when it is not one that fits an `i64`.
pub fn parse_i64(s: &str) -> (r: Option<i64>)
    ensures
        r is Some <==> signed(s@, i64::MIN as int, i64::MAX as nat) is Some,
        r is Some ==> r->0 == signed(s@, i64::MIN as int, i64::MAX as nat)->0,
{
    let chars = chars_of(s);
    if chars.len() > 0 && chars[0] == '-' {
        assert(s@.skip(1) =~= s@.drop_first());
        match read_digits(&chars, 1) {
            Some(n) => {
                if n <= 0x7fff_ffff_ffff_ffff {
                    Some(-(n as i64))
                } else if n == 0x8000_0000_0000_0000 {
                    Some(-0x8000_0000_0000_0000i64)
                } else {
                    None
                }
            },
            None => None,
        }
    } else {
        match parse_u64(s) {
            Some(n) => {
                if n <= 0x7fff_ffff_ffff_ffff {
                    Some(n as i64)
                } else {
                    None
                }
            },
            None => None,
        }
    }
}

// ---------------------------------------------------------------------------
// Lists
// ---------------------------------------------------------------------------

/// The parts as owned strings.
pub fn list(parts: &[&str]) -> (r: Vec<String>)
    ensures
        r.deep_view() == parts.deep_view(),
{
    let mut out: Vec<String> = Vec::new();
    let mut i: usize = 0;
    while i < parts.len()
        invariant
            i <= parts@.len(),
            out.deep_view() =~= parts.deep_view().take(i as int),
        decreases parts@.len() - i,
    {
        let ghost before = out.deep_view();
        out.push(parts[i].to_owned());
        assert(out.deep_view() =~= before.push(parts@[i as int]@));
        i += 1;
    }
    assert(parts.deep_view().take(i as int) =~= parts.deep_view());
    out
}

/// The parts, one after the other, with `sep` between neighbours.
pub open spec fn joined(parts: Seq<Seq<char>>, sep: Seq<char>) -> Seq<char>
    decreases parts.len(),
{
    if parts.len() == 0 {
        seq![]
    } else if parts.len() == 1 {
        parts[0]
    } else {
        joined(parts.drop_last(), sep) + sep + parts.last()
    }
}

/// The parts, one after the other, with `sep` between neighbours.
pub fn join(parts: &Vec<String>, sep: &str) -> (r: String)
    ensures
        r@ == joined(parts.deep_view(), sep@),
{
    let mut out = String::new();
    let mut i: usize = 0;
    let ghost all = parts.deep_view();
    while i < parts.len()
        invariant
            i <= parts@.len(),
            all == parts.deep_view(),
            out@ =~= joined(all.take(i as int), sep@),
        decreases parts@.len() - i,
    {
        assert(all.take(i + 1).drop_last() =~= all.take(i as int));
        if i > 0 {
            out.append(sep);
        }
        out.append(parts[i].as_str());
        i += 1;
    }
    assert(all.take(i as int) =~= all);
    out
}

/// Whether `a` comes before `b`, or is `b`, in the order of their characters.
pub open spec fn ordered(a: Seq<char>, b: Seq<char>) -> bool
    decreases a.len(),
{
    if a.len() == 0 {
        true
    } else if b.len() == 0 {
        false
    } else if a[0] != b[0] {
        a[0] < b[0]
    } else {
        ordered(a.drop_first(), b.drop_first())
    }
}

/// Any two texts are ordered one way or the other.
pub proof fn lemma_ordered_total(a: Seq<char>, b: Seq<char>)
    ensures
        ordered(a, b) || ordered(b, a),
    decreases a.len(),
{
    if a.len() > 0 && b.len() > 0 && a[0] == b[0] {
        lemma_ordered_total(a.drop_first(), b.drop_first());
    }
}

pub proof fn lemma_ordered_transitive(a: Seq<char>, b: Seq<char>, c: Seq<char>)
    requires
        ordered(a, b),
        ordered(b, c),
    ensures
        ordered(a, c),
    decreases a.len(),
{
    if a.len() > 0 && b.len() > 0 && c.len() > 0 && a[0] == b[0] && b[0] == c[0] {
        lemma_ordered_transitive(a.drop_first(), b.drop_first(), c.drop_first());
    }
}

/// Texts ordered both ways are one text.
pub proof fn lemma_ordered_antisymmetric(a: Seq<char>, b: Seq<char>)
    requires
        ordered(a, b),
        ordered(b, a),
    ensures
        a == b,
    decreases a.len(),
{
    if a.len() > 0 && b.len() > 0 {
        let x = a.drop_first();
        let y = b.drop_first();
        assert(a[0] == b[0]);
        lemma_ordered_antisymmetric(x, y);
        assert(x.len() == y.len());
        assert forall|i: int| 0 <= i < a.len() implies a[i] == b[i] by {
            if i > 0 {
                assert(a[i] == x[i - 1] && b[i] == y[i - 1]);
            }
        }
    }
    assert(a =~= b);
}

pub open spec fn sorted(list: Seq<Seq<char>>) -> bool {
    forall|i: int, j: int|
        0 <= i < j < list.len() ==> ordered(#[trigger] list[i], #[trigger] list[j])
}

/// Whether `a` comes before `b`, or is `b`.
pub fn in_order(a: &str, b: &str) -> (r: bool)
    ensures
        r == ordered(a@, b@),
{
    let x = chars_of(a);
    let y = chars_of(b);
    let mut i: usize = 0;
    assert(a@.skip(0) =~= a@);
    assert(b@.skip(0) =~= b@);
    loop
        invariant
            x@ == a@,
            y@ == b@,
            i <= x@.len(),
            i <= y@.len(),
            ordered(a@, b@) == ordered(a@.skip(i as int), b@.skip(i as int)),
        decreases x@.len() - i,
    {
        if i == x.len() {
            return true;
        }
        if i == y.len() {
            return false;
        }
        if x[i] != y[i] {
            return x[i] < y[i];
        }
        assert(a@.skip(i as int).drop_first() =~= a@.skip(i + 1));
        assert(b@.skip(i as int).drop_first() =~= b@.skip(i + 1));
        i += 1;
    }
}

/// The same texts, in order.
pub fn sort(list: Vec<String>) -> (r: Vec<String>)
    ensures
        sorted(r.deep_view()),
        r.deep_view().to_multiset() == list.deep_view().to_multiset(),
        r@.len() == list@.len(),
{
    let mut out: Vec<String> = Vec::new();
    let mut k: usize = 0;
    let ghost all = list.deep_view();
    assert(out.deep_view() =~= all.take(0));
    while k < list.len()
        invariant
            k <= list@.len(),
            all == list.deep_view(),
            out@.len() == k,
            sorted(out.deep_view()),
            out.deep_view().to_multiset() =~= all.take(k as int).to_multiset(),
        decreases list@.len() - k,
    {
        let item = list[k].clone();
        let ghost have = out.deep_view();
        let mut at: usize = out.len();
        while at > 0 && !in_order(out[at - 1].as_str(), item.as_str())
            invariant
                at <= out@.len(),
                have == out.deep_view(),
                forall|j: int| at <= j < have.len() ==> !ordered(#[trigger] have[j], item@),
            decreases at,
        {
            at -= 1;
        }
        let ghost text = item@;
        out.insert(at, item);
        proof {
            assert(out.deep_view() =~= have.insert(at as int, text));
            vstd::seq_lib::to_multiset_insert(have, at as int, text);
            assert(all.take(k + 1) =~= all.take(k as int).push(text));
            all.take(k as int).to_multiset_ensures();
            let new = out.deep_view();
            assert forall|i: int, j: int| 0 <= i < j < new.len() implies ordered(
                #[trigger] new[i],
                #[trigger] new[j],
            ) by {
                if i < at && j == at {
                    if i < at - 1 {
                        lemma_ordered_transitive(have[i], have[at - 1], text);
                    }
                } else if i == at {
                    lemma_ordered_total(text, have[j - 1]);
                }
            }
        }
        k += 1;
    }
    assert(all.take(k as int) =~= all);
    out
}

// ---------------------------------------------------------------------------
// What text promises
// ---------------------------------------------------------------------------

/// Among the ASCII characters the blank, the tab, the line ends and the other
/// two feeds are white space and no others; the no-break space is white space
/// too, and white space around a word comes off.
pub proof fn law_white_space_comes_off(
    c: char,
    before: Seq<char>,
    word: Seq<char>,
    after: Seq<char>,
)
    requires
        is_blank(before),
        is_word(word),
        is_blank(after),
    ensures
        (c as u32) < 128 ==> (is_space(c) <==> c == ' ' || c == '\t' || c == '\n' || c == '\r'
            || c as u32 == 11 || c as u32 == 12),
        is_space('\u{a0}'),
        trimmed(before + word + after) == word,
    decreases before.len() + after.len(),
{
    let whole = before + word + after;
    assert(!is_space(word[0]) && !is_space(word[word.len() - 1]));
    if before.len() > 0 {
        let less = before.drop_first();
        assert(is_space(before[0]) && whole[0] == before[0]);
        assert(is_blank(less)) by {
            assert forall|i: int| 0 <= i < less.len() implies is_space(#[trigger] less[i]) by {
                assert(is_space(before[i + 1]));
            }
        }
        law_white_space_comes_off(c, less, word, after);
        assert(whole.drop_first() =~= less + word + after);
    } else {
        assert(whole =~= word + after);
        assert(whole[0] == word[0]);
        assert(trim_left(whole) == whole);
        if after.len() > 0 {
            let less = after.drop_last();
            assert(is_space(after[after.len() - 1]) && whole.last() == after.last());
            assert(is_blank(less)) by {
                assert forall|i: int| 0 <= i < less.len() implies is_space(#[trigger] less[i]) by {
                    assert(is_space(after[i]));
                }
            }
            law_white_space_comes_off(c, before, word, less);
            let shorter = before + word + less;
            assert(shorter =~= word + less);
            assert(shorter[0] == word[0]);
            assert(trim_left(shorter) == shorter);
            assert(whole.drop_last() =~= shorter);
        } else {
            assert(whole =~= word);
        }
    }
}

/// A number is read with or without a plus sign, an integer with a minus sign
/// too; a larger one than fits, an empty text and one with anything but digits
/// is none. A number is printed without leading zeros.
pub proof fn law_numbers_are_digits_with_a_sign(n: nat, max: nat, text: Seq<char>)
    ensures
        n <= max ==> unsigned(decimal(n), max) == Some(n) && unsigned(seq!['+'] + decimal(n), max)
            == Some(n) && signed(decimal(n), 0, max) == Some(n as int) && signed(
            seq!['+'] + decimal(n),
            0,
            max,
        ) == Some(n as int) && signed(seq!['-'] + decimal(n), -(max as int), max) == Some(
            -(n as int),
        ),
        n > max ==> unsigned(decimal(n), max) is None && signed(decimal(n), 0, max) is None
            && signed(seq!['-'] + decimal(n), -(max as int), max) is None,
        unsigned(seq!['-'] + decimal(n), max) is None,
        unsigned(seq![], max) is None,
        signed(seq![], 0, max) is None,
        (exists|i: int| 0 < i < text.len() && !is_digit(#[trigger] text[i])) ==> unsigned(text, max)
            is None && signed(text, -(max as int), max) is None,
        n >= 10 ==> decimal(n)[0] != '0',
        n < 10 ==> decimal(n).len() == 1,
    decreases n,
{
    lemma_decimal_reads_back(n);
    let digits = decimal(n);
    assert(is_digit(digits[0]));
    let plus = seq!['+'] + digits;
    let minus = seq!['-'] + digits;
    assert(plus.drop_first() =~= digits);
    assert(minus.drop_first() =~= digits);
    assert(minus[0] == '-' && !is_digit('-'));
    assert(!is_digit(minus[0]));
    if exists|i: int| 0 < i < text.len() && !is_digit(#[trigger] text[i]) {
        let i = choose|i: int| 0 < i < text.len() && !is_digit(#[trigger] text[i]);
        assert(text.drop_first()[i - 1] == text[i]);
    }
    if n >= 10 {
        law_numbers_are_digits_with_a_sign(n / 10, max, text);
        assert(digits[0] == decimal(n / 10)[0]);
        if n / 10 < 10 {
            lemma_digit(n / 10);
            assert(decimal(n / 10)[0] == digit_of(n / 10));
        }
    }
}

/// Capitals of ASCII become small, and nothing else changes.
pub proof fn law_lowering_changes_capitals_alone(s: Seq<char>, i: int)
    requires
        0 <= i < s.len(),
    ensures
        lowered(s).len() == s.len(),
        'A' <= s[i] && s[i] <= 'Z' ==> lowered(s)[i] as u32 == s[i] as u32 + 32,
        !('A' <= s[i] && s[i] <= 'Z') ==> lowered(s)[i] == s[i],
{
}

/// Text is ordered by its first difference, a text before its continuations.
pub proof fn law_the_first_difference_orders(
    start: Seq<char>,
    x: char,
    y: char,
    a: Seq<char>,
    b: Seq<char>,
)
    requires
        x < y,
    ensures
        ordered(start + seq![x] + a, start + seq![y] + b),
        !ordered(start + seq![y] + b, start + seq![x] + a),
        ordered(start, start + b),
        b.len() > 0 ==> !ordered(start + b, start),
    decreases start.len(),
{
    let p = start + seq![x] + a;
    let q = start + seq![y] + b;
    if start.len() > 0 {
        let less = start.drop_first();
        law_the_first_difference_orders(less, x, y, a, b);
        assert(p.drop_first() =~= less + seq![x] + a);
        assert(q.drop_first() =~= less + seq![y] + b);
        assert((start + b).drop_first() =~= less + b);
    } else {
        assert(p[0] == x && q[0] == y);
    }
}

}
