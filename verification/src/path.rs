//! File paths as text.
//!
//! A path is the text of its name. The parent and the last component are read
//! off canonical paths, which hold no empty, `.` or `..` component; two
//! spellings of one path are told apart from two paths by their components.

use vstd::prelude::*;
use vstd::string::*;

use crate::command::{accepts_any, answers};
use crate::text::{
    after_last, chars_of, in_order, joined, last_piece, law_parts_read_back, lemma_after_last,
    lemma_after_last_is, lemma_first_piece, lemma_one_more_piece, lemma_ordered_antisymmetric,
    lemma_ordered_total, lemma_ordered_transitive, ordered, pieces, same, split, text_of,
};

verus! {

/// `name` below `base`; an absolute `name` stands for itself.
pub open spec fn below(base: Seq<char>, name: Seq<char>) -> Seq<char> {
    if base.len() == 0 || (name.len() > 0 && name[0] == '/') {
        name
    } else if base.last() == '/' {
        base + name
    } else {
        base.push('/') + name
    }
}

/// `name` below `base`; an absolute `name` stands for itself.
pub fn join(base: &str, name: &str) -> (r: String)
    ensures
        r@ == below(base@, name@),
{
    let head = chars_of(base);
    let tail = chars_of(name);
    if head.len() == 0 || (tail.len() > 0 && tail[0] == '/') {
        return name.to_owned();
    }
    let mut out = base.to_owned();
    if head[head.len() - 1] != '/' {
        out.push('/');
    }
    out.append(name);
    out
}

/// The last component of a canonical path; the root has none.
pub open spec fn last_component(path: Seq<char>) -> Option<Seq<char>> {
    let name = after_last(path, '/');
    if name.len() == 0 {
        None
    } else {
        Some(name)
    }
}

/// What a canonical path stands below; nothing for the root.
pub open spec fn parent_dir(path: Seq<char>) -> Option<Seq<char>> {
    let name = after_last(path, '/');
    let above = path.len() - name.len();
    if name.len() == 0 {
        None
    } else if above == 0 {
        Some(seq![])
    } else if above == 1 {
        Some(seq!['/'])
    } else {
        Some(path.take(above - 1))
    }
}

/// The last component of a canonical path; the root has none.
pub fn file_name(path: &str) -> (r: Option<String>)
    ensures
        r.deep_view() == last_component(path@),
{
    let name = last_piece(path, '/');
    if name.as_str().is_empty() {
        None
    } else {
        Some(name)
    }
}

/// What a canonical path stands below; nothing for the root.
pub fn parent(path: &str) -> (r: Option<String>)
    ensures
        r.deep_view() == parent_dir(path@),
{
    let name = chars_of(last_piece(path, '/').as_str());
    let chars = chars_of(path);
    proof {
        lemma_after_last(path@, '/');
    }
    let above: usize = chars.len() - name.len();
    if name.len() == 0 {
        None
    } else if above == 0 {
        let r = String::new();
        assert(r@ =~= seq![]);
        Some(r)
    } else if above == 1 {
        let r = text_of(&chars, 0, 1);
        assert(r@ =~= seq!['/']);
        Some(r)
    } else {
        let r = text_of(&chars, 0, above - 1);
        assert(r@ =~= path@.take(above - 1));
        Some(r)
    }
}

// ---------------------------------------------------------------------------
// Components
// ---------------------------------------------------------------------------

/// The parts that name something: not empty, and not `.`.
pub open spec fn named_parts(parts: Seq<Seq<char>>) -> Seq<Seq<char>>
    decreases parts.len(),
{
    if parts.len() == 0 {
        seq![]
    } else {
        let before = named_parts(parts.drop_last());
        if parts.last().len() == 0 || parts.last() == "."@ {
            before
        } else {
            before.push(parts.last())
        }
    }
}

/// The components of a path: a leading `/` or `.` stands for itself, repeated
/// and trailing separators count for nothing, and neither does a `.` further
/// on. Two spellings of one path have the same components.
#[verifier::opaque]
pub open spec fn components(path: Seq<char>) -> Seq<Seq<char>> {
    let parts = pieces(path, '/');
    let named = named_parts(parts);
    if path.len() > 0 && path[0] == '/' {
        seq!["/"@] + named
    } else if parts[0] == "."@ {
        seq!["."@] + named
    } else {
        named
    }
}

/// The components of a path.
fn components_of(path: &str) -> (r: Vec<String>)
    ensures
        r.deep_view() == components(path@),
{
    let chars = chars_of(path);
    let parts = split(path, '/');
    let ghost all = parts.deep_view();
    let mut out: Vec<String> = Vec::new();
    assert(out.deep_view() =~= seq![]);
    assert(all[0] == parts@[0]@);
    let ghost mut lead: Seq<Seq<char>> = seq![];
    if chars.len() > 0 && chars[0] == '/' {
        out.push("/".to_owned());
        proof {
            lead = seq!["/"@];
        }
    } else if same(parts[0].as_str(), ".") {
        out.push(".".to_owned());
        proof {
            lead = seq!["."@];
        }
    }
    let mut i: usize = 0;
    assert(out.deep_view() =~= lead + named_parts(all.take(0)));
    while i < parts.len()
        invariant
            i <= parts@.len(),
            all == parts.deep_view(),
            out.deep_view() == lead + named_parts(all.take(i as int)),
        decreases parts@.len() - i,
    {
        assert(all.take(i + 1).drop_last() =~= all.take(i as int));
        assert(all.take(i + 1).last() == parts@[i as int]@);
        let part = parts[i].as_str();
        let ghost before = out.deep_view();
        if !part.is_empty() && !same(part, ".") {
            out.push(part.to_owned());
            assert(out.deep_view() =~= before.push(part@));
        }
        assert(out.deep_view() =~= lead + named_parts(all.take(i + 1)));
        i += 1;
    }
    assert(all.take(i as int) =~= all);
    proof {
        reveal(components);
        assert(out.deep_view() =~= components(path@));
    }
    out
}

/// Whether `list` begins with `head`.
fn begins_with(list: &Vec<String>, head: &Vec<String>) -> (r: bool)
    ensures
        r == head.deep_view().is_prefix_of(list.deep_view()),
{
    assert(head.deep_view().len() == head@.len() && list.deep_view().len() == list@.len());
    if head.len() > list.len() {
        return false;
    }
    let mut i: usize = 0;
    while i < head.len()
        invariant
            i <= head@.len() <= list@.len(),
            forall|j: int| 0 <= j < i ==> head.deep_view()[j] == list.deep_view()[j],
        decreases head@.len() - i,
    {
        assert(head.deep_view()[i as int] == head@[i as int]@);
        assert(list.deep_view()[i as int] == list@[i as int]@);
        if !same(head[i].as_str(), list[i].as_str()) {
            assert(list.deep_view().subrange(0, head@.len() as int)[i as int]
                != head.deep_view()[i as int]);
            return false;
        }
        i += 1;
    }
    assert(list.deep_view().subrange(0, head@.len() as int) =~= head.deep_view());
    true
}

/// Whether two texts spell the same path.
pub fn same_path(a: &str, b: &str) -> (r: bool)
    ensures
        r == (components(a@) == components(b@)),
{
    let x = components_of(a);
    let y = components_of(b);
    let r = x.len() == y.len() && begins_with(&x, &y);
    proof {
        assert(x.deep_view().len() == x@.len() && y.deep_view().len() == y@.len());
        if r {
            assert(x.deep_view().subrange(0, y@.len() as int) =~= x.deep_view());
        }
        if x.deep_view() == y.deep_view() {
            assert(x.deep_view().subrange(0, y@.len() as int) =~= y.deep_view());
        }
    }
    r
}

/// Whether `path` is `dir` or something below it.
pub open spec fn within(path: Seq<char>, dir: Seq<char>) -> bool {
    components(dir).is_prefix_of(components(path))
}

/// Whether `path` is `dir` or something below it.
pub fn is_within(path: &str, dir: &str) -> (r: bool)
    ensures
        r == within(path@, dir@),
{
    begins_with(&components_of(path), &components_of(dir))
}

// ---------------------------------------------------------------------------
// Order
// ---------------------------------------------------------------------------

/// Which of the kinds of component comes first: the root, `.`, `..`, then
/// names.
pub open spec fn rank(component: Seq<char>) -> int {
    if component == "/"@ {
        0
    } else if component == "."@ {
        1
    } else if component == ".."@ {
        2
    } else {
        3
    }
}

/// Whether a component comes before another, or is it.
pub open spec fn component_ordered(a: Seq<char>, b: Seq<char>) -> bool {
    if rank(a) == rank(b) {
        ordered(a, b)
    } else {
        rank(a) < rank(b)
    }
}

/// Whether components come before others, or are them: the first that differs
/// decides.
pub open spec fn components_ordered(a: Seq<Seq<char>>, b: Seq<Seq<char>>) -> bool
    decreases a.len(),
{
    if a.len() == 0 {
        true
    } else if b.len() == 0 {
        false
    } else if a[0] != b[0] {
        component_ordered(a[0], b[0])
    } else {
        components_ordered(a.drop_first(), b.drop_first())
    }
}

/// Whether a path comes before another, or is it.
#[verifier::opaque]
pub open spec fn path_ordered(a: Seq<char>, b: Seq<char>) -> bool {
    components_ordered(components(a), components(b))
}

proof fn lemma_component_order(a: Seq<char>, b: Seq<char>, c: Seq<char>)
    ensures
        component_ordered(a, b) || component_ordered(b, a),
        component_ordered(a, b) && component_ordered(b, a) ==> a == b,
        component_ordered(a, b) && component_ordered(b, c) ==> component_ordered(a, c),
{
    lemma_ordered_total(a, b);
    if ordered(a, b) && ordered(b, a) {
        lemma_ordered_antisymmetric(a, b);
    }
    if ordered(a, b) && ordered(b, c) {
        lemma_ordered_transitive(a, b, c);
    }
}

proof fn lemma_components_total(a: Seq<Seq<char>>, b: Seq<Seq<char>>)
    ensures
        components_ordered(a, b) || components_ordered(b, a),
    decreases a.len(),
{
    if a.len() > 0 && b.len() > 0 {
        lemma_component_order(a[0], b[0], b[0]);
        lemma_components_total(a.drop_first(), b.drop_first());
    }
}

proof fn lemma_components_transitive(a: Seq<Seq<char>>, b: Seq<Seq<char>>, c: Seq<Seq<char>>)
    requires
        components_ordered(a, b),
        components_ordered(b, c),
    ensures
        components_ordered(a, c),
    decreases a.len(),
{
    if a.len() > 0 && b.len() > 0 && c.len() > 0 {
        lemma_component_order(a[0], b[0], c[0]);
        lemma_component_order(b[0], c[0], a[0]);
        if a[0] == b[0] && b[0] == c[0] {
            lemma_components_transitive(a.drop_first(), b.drop_first(), c.drop_first());
        }
    }
}

/// Any two paths are ordered one way or the other.
pub proof fn lemma_path_total(a: Seq<char>, b: Seq<char>)
    ensures
        path_ordered(a, b) || path_ordered(b, a),
{
    reveal(path_ordered);
    lemma_components_total(components(a), components(b));
}

pub proof fn lemma_path_transitive(a: Seq<char>, b: Seq<char>, c: Seq<char>)
    requires
        path_ordered(a, b),
        path_ordered(b, c),
    ensures
        path_ordered(a, c),
{
    reveal(path_ordered);
    lemma_components_transitive(components(a), components(b), components(c));
}

fn rank_of(component: &str) -> (r: u8)
    ensures
        r == rank(component@),
{
    if same(component, "/") {
        0
    } else if same(component, ".") {
        1
    } else if same(component, "..") {
        2
    } else {
        3
    }
}

/// Whether path `a` comes before path `b`, or is it.
pub fn paths_in_order(a: &str, b: &str) -> (r: bool)
    ensures
        r == path_ordered(a@, b@),
{
    let x = components_of(a);
    let y = components_of(b);
    let ghost xs = x.deep_view();
    let ghost ys = y.deep_view();
    let mut i: usize = 0;
    assert(xs.skip(0) =~= xs && ys.skip(0) =~= ys);
    proof {
        reveal(path_ordered);
    }
    loop
        invariant
            xs == x.deep_view(),
            ys == y.deep_view(),
            i <= x@.len(),
            i <= y@.len(),
            components_ordered(xs, ys) == components_ordered(xs.skip(i as int), ys.skip(i as int)),
            path_ordered(a@, b@) == components_ordered(xs, ys),
        decreases x@.len() - i,
    {
        if i == x.len() {
            return true;
        }
        if i == y.len() {
            return false;
        }
        let left = x[i].as_str();
        let right = y[i].as_str();
        assert(xs.skip(i as int)[0] == left@ && ys.skip(i as int)[0] == right@);
        if !same(left, right) {
            let p = rank_of(left);
            let q = rank_of(right);
            return if p == q {
                in_order(left, right)
            } else {
                p < q
            };
        }
        assert(xs.skip(i as int).drop_first() =~= xs.skip(i + 1));
        assert(ys.skip(i as int).drop_first() =~= ys.skip(i + 1));
        i += 1;
    }
}

// ---------------------------------------------------------------------------
// Canonical paths
// ---------------------------------------------------------------------------

/// `r` is where `path` may be found to lead: its canonical form, or the path
/// itself where it has none.
pub open spec fn settles<C: Fn(&String) -> Result<String, String>>(
    canonicalize: C,
    path: Seq<char>,
    r: Seq<char>,
) -> bool {
    exists|canonical: Result<String, String>|
        #[trigger] answers(canonicalize, path, canonical) && r == match canonical {
            Ok(found) => found@,
            Err(_) => path,
        }
}

/// Where `path` leads: its canonical form, or the path itself.
pub fn settle<C: Fn(&String) -> Result<String, String>>(canonicalize: &C, path: &String) -> (r:
    String)
    requires
        accepts_any(*canonicalize),
    ensures
        settles(*canonicalize, path@, r@),
{
    let canonical = canonicalize(path);
    assert(answers(*canonicalize, path@, canonical));
    match canonical {
        Ok(found) => found,
        Err(_) => path.clone(),
    }
}

/// An absolute path has the root and its parts for components, and names the
/// same place with a slash or a `.` behind it.
pub proof fn law_absolute_paths_have_their_parts(parts: Seq<Seq<char>>)
    requires
        forall|i: int|
            0 <= i < parts.len() ==> (#[trigger] parts[i]).len() > 0 && !parts[i].contains('/')
                && parts[i] != "."@,
    ensures
        components(seq!['/'] + joined(parts, seq!['/'])) == seq!["/"@] + parts,
        components((seq!['/'] + joined(parts, seq!['/'])).push('/')) == seq!["/"@] + parts,
        components((seq!['/'] + joined(parts, seq!['/'])).push('/').push('.')) == seq!["/"@]
            + parts,
{
    reveal(components);
    reveal_strlit(".");
    let inner = joined(parts, seq!['/']);
    let none = Seq::<char>::empty();
    let path = seq!['/'] + inner;
    assert(path =~= none.push('/') + inner);
    lemma_first_piece(none, '/', inner);
    if parts.len() > 0 {
        law_parts_read_back(parts, '/');
        assert(pieces(path, '/') =~= seq![none] + parts);
    } else {
        assert(inner =~= none);
        assert(pieces(path, '/') =~= seq![none, none]);
    }
    lemma_named_parts(parts);
    lemma_one_more_piece(path, '/', none);
    assert(path.push('/') + none =~= path.push('/'));
    let dot = seq!['.'];
    assert(dot =~= "."@);
    assert(!dot.contains('/'));
    lemma_one_more_piece(path, '/', dot);
    assert(path.push('/') + dot =~= path.push('/').push('.'));
    assert(pieces(path, '/').push(none).drop_last() =~= pieces(path, '/'));
    assert(pieces(path, '/').push(dot).drop_last() =~= pieces(path, '/'));
    assert(named_parts(pieces(path, '/')) =~= parts) by {
        if parts.len() == 0 {
            reveal_with_fuel(named_parts, 3);
            assert(seq![none, none].drop_last() =~= seq![none]);
            assert(seq![none].drop_last() =~= seq![]);
        }
    }
}

proof fn lemma_named_parts(parts: Seq<Seq<char>>)
    requires
        forall|i: int| 0 <= i < parts.len() ==> (#[trigger] parts[i]).len() > 0 && parts[i] != "."@,
    ensures
        named_parts(seq![Seq::<char>::empty()] + parts) == parts,
    decreases parts.len(),
{
    let all = seq![Seq::<char>::empty()] + parts;
    if parts.len() == 0 {
        reveal_with_fuel(named_parts, 2);
        assert(all =~= seq![Seq::<char>::empty()]);
        assert(all.drop_last() =~= seq![]);
        assert(named_parts(all) =~= seq![]);
        assert(parts =~= seq![]);
    } else {
        let before = parts.drop_last();
        assert(forall|i: int| 0 <= i < before.len() ==> before[i] == parts[i]);
        lemma_named_parts(before);
        assert(all.drop_last() =~= seq![Seq::<char>::empty()] + before);
        assert(parts[parts.len() - 1].len() > 0);
        assert(before.push(parts.last()) =~= parts);
    }
}

/// A path is within a directory exactly when its parts begin with those of
/// the directory: a name that merely begins alike is another directory.
pub proof fn law_a_path_is_within_its_ancestors(dir: Seq<Seq<char>>, path: Seq<Seq<char>>)
    requires
        forall|i: int|
            0 <= i < dir.len() ==> (#[trigger] dir[i]).len() > 0 && !dir[i].contains('/') && dir[i]
                != "."@,
        forall|i: int|
            0 <= i < path.len() ==> (#[trigger] path[i]).len() > 0 && !path[i].contains('/')
                && path[i] != "."@,
    ensures
        within(seq!['/'] + joined(path, seq!['/']), seq!['/'] + joined(dir, seq!['/']))
            <==> dir.len() <= path.len() && forall|i: int|
            0 <= i < dir.len() ==> #[trigger] dir[i] == path[i],
{
    law_absolute_paths_have_their_parts(dir);
    law_absolute_paths_have_their_parts(path);
    let a = seq!["/"@] + dir;
    let b = seq!["/"@] + path;
    if a.is_prefix_of(b) {
        assert forall|i: int| 0 <= i < dir.len() implies #[trigger] dir[i] == path[i] by {
            assert(a[i + 1] == b[i + 1]);
        }
    }
    if dir.len() <= path.len() && forall|i: int| 0 <= i < dir.len() ==> #[trigger] dir[i]
        == path[i] {
        assert(b.subrange(0, a.len() as int) =~= a);
    }
}

/// A path leads to its canonical form, and to itself where it has none.
pub proof fn law_paths_settle_where_they_lead<C: Fn(&String) -> Result<String, String>>(
    canonicalize: C,
    path: Seq<char>,
    place: Seq<char>,
    r: Seq<char>,
)
    requires
        settles(canonicalize, path, r),
    ensures
        (forall|s: String, found: Result<String, String>|
            s@ == path && #[trigger] call_ensures(canonicalize, (&s,), found) ==> found is Ok
                && found->Ok_0@ == place) ==> r == place,
        (forall|s: String, found: Result<String, String>|
            s@ == path && #[trigger] call_ensures(canonicalize, (&s,), found) ==> found is Err)
            ==> r == path,
{
    let canonical = choose|canonical: Result<String, String>|
        #[trigger] answers(canonicalize, path, canonical) && r == match canonical {
            Ok(found) => found@,
            Err(_) => path,
        };
    let s = choose|s: String| s@ == path && #[trigger] call_ensures(canonicalize, (&s,), canonical);
    assert(call_ensures(canonicalize, (&s,), canonical));
}

/// A name goes below its base with one slash between them; an absolute name
/// stands for itself. A canonical path is its parent and its last component.
pub proof fn law_names_go_below_their_base(base: Seq<char>, name: Seq<char>)
    requires
        name.len() > 0,
        !name.contains('/'),
    ensures
        base.len() > 0 && base.last() != '/' ==> {
            &&& below(base, name) == base + seq!['/'] + name
            &&& below(base.push('/'), name) == base + seq!['/'] + name
            &&& last_component(base + seq!['/'] + name) == Some(name)
            &&& parent_dir(base + seq!['/'] + name) == Some(base)
        },
        below(base, seq!['/'] + name) == seq!['/'] + name,
        last_component(seq!['/'] + name) == Some(name),
        parent_dir(seq!['/'] + name) == Some(seq!['/']),
        last_component(seq!['/']) is None,
        parent_dir(seq!['/']) is None,
{
    assert forall|i: int| 0 <= i < name.len() implies name[i] != '/' by {
        assert(name.contains(name[i]));
    }
    let path = base + seq!['/'] + name;
    let n = base.len() as int;
    assert forall|i: int| n < i < path.len() implies #[trigger] path[i] != '/' by {
        assert(path[i] == name[i - n - 1]);
    }
    lemma_after_last_is(path, '/', n);
    assert(path.skip(n + 1) =~= name);
    assert(path.take(n) =~= base);
    let top = seq!['/'] + name;
    assert forall|i: int| 0 < i < top.len() implies #[trigger] top[i] != '/' by {
        assert(top[i] == name[i - 1]);
    }
    lemma_after_last_is(top, '/', 0);
    assert(top.skip(1) =~= name);
    lemma_after_last_is(seq!['/'], '/', 0);
    assert(seq!['/'].skip(1) =~= seq![]);
    assert(name[0] != '/');
    assert(base.push('/') + name =~= path);
}

}
