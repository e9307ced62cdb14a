//! Where the servers are: the socket directory and `$TMUX`.

use vstd::prelude::*;
use vstd::string::*;

use crate::command::{accepts_any, answers, Reply};
use crate::path::{
    below, components, join, lemma_path_total, lemma_path_transitive, path_ordered, paths_in_order,
};
use crate::text::{
    decimal, is_digit, is_word, lemma_first_piece, lemma_number_reads_back, lemma_trimmed_line,
    parse_u32, pieces, print_u64, split, trim, trimmed, unsigned,
};
use crate::tmux::inventory::{
    accepts_list_panes, is_spelled, passes, spelled, InventoryView, PaneInventory, Pass,
};

verus! {

// ---------------------------------------------------------------------------
// Sockets
// ---------------------------------------------------------------------------

/// The socket `$TMUX` names: it is `<socket path>,<server pid>,<session id>`,
/// only the socket matters, and it is the only way a server outside the
/// default dir is found.
pub open spec fn env_socket(tmux_env: Option<Seq<char>>) -> Seq<Seq<char>> {
    match tmux_env {
        Some(tmux) => if pieces(tmux, ',')[0].len() > 0 {
            seq![pieces(tmux, ',')[0]]
        } else {
            seq![]
        },
        None => seq![],
    }
}

/// `r` holds each path of `found` once, in path order and in its first
/// spelling.
pub open spec fn lists_once(found: Seq<Seq<char>>, r: Seq<Seq<char>>) -> bool {
    &&& forall|i: int, j: int|
        0 <= i < j < r.len() ==> path_ordered(#[trigger] r[i], #[trigger] r[j]) && components(r[i])
            != components(r[j])
    &&& forall|k: int| 0 <= k < r.len() ==> first_spelled(found, #[trigger] r[k])
    &&& forall|i: int| 0 <= i < found.len() ==> spelled(r, #[trigger] found[i])
}

/// `path` is among the `found` ones, and no earlier one spells it otherwise.
pub open spec fn first_spelled(found: Seq<Seq<char>>, path: Seq<char>) -> bool {
    exists|i: int|
        0 <= i < found.len() && #[trigger] found[i] == path && !spelled(found.take(i), path)
}

proof fn lemma_spelled_push(found: Seq<Seq<char>>, more: Seq<char>, path: Seq<char>)
    ensures
        spelled(found.push(more), path) <==> spelled(found, path) || components(more)
            == components(path),
        first_spelled(found, path) ==> first_spelled(found.push(more), path),
        !spelled(found, more) ==> first_spelled(found.push(more), more),
{
    let longer = found.push(more);
    if spelled(found, path) {
        let i = choose|i: int|
            0 <= i < found.len() && components(#[trigger] found[i]) == components(path);
        assert(longer[i] == found[i]);
    }
    if spelled(longer, path) {
        let i = choose|i: int|
            0 <= i < longer.len() && components(#[trigger] longer[i]) == components(path);
        if i < found.len() {
            assert(found[i] == longer[i]);
        }
    }
    assert(longer[found.len() as int] == more);
    if first_spelled(found, path) {
        let i = choose|i: int|
            0 <= i < found.len() && #[trigger] found[i] == path && !spelled(found.take(i), path);
        assert(longer[i] == path);
        assert(longer.take(i) =~= found.take(i));
    }
    assert(longer.take(found.len() as int) =~= found);
}

/// Every socket worth asking: the `entries` of the user's tmux socket
/// directory that are sockets or links, plus the socket `$TMUX` names, in
/// order and deduplicated by path.
pub fn sockets(entries: &Vec<String>, tmux_env: Option<&str>) -> (r: Vec<String>)
    ensures
        lists_once(entries.deep_view() + env_socket(tmux_env.deep_view()), r.deep_view()),
{
    let mut found: Vec<String> = Vec::new();
    let mut i: usize = 0;
    while i < entries.len()
        invariant
            i <= entries@.len(),
            found.deep_view() =~= entries.deep_view().take(i as int),
        decreases entries@.len() - i,
    {
        let ghost before = found.deep_view();
        found.push(entries[i].clone());
        assert(found.deep_view() =~= before.push(entries@[i as int]@));
        i += 1;
    }
    assert(found.deep_view() =~= entries.deep_view());
    if let Some(tmux) = tmux_env {
        let parts = split(tmux, ',');
        assert(parts.deep_view()[0] == parts@[0]@);
        if !parts[0].as_str().is_empty() {
            let ghost before = found.deep_view();
            found.push(parts[0].clone());
            assert(found.deep_view() =~= before.push(parts@[0]@));
        }
    }
    assert(found.deep_view() =~= entries.deep_view() + env_socket(tmux_env.deep_view()));
    list_once(&found)
}

/// Each path once, in path order and in its first spelling.
fn list_once(found: &Vec<String>) -> (r: Vec<String>)
    ensures
        lists_once(found.deep_view(), r.deep_view()),
{
    let ghost all = found.deep_view();
    let mut out: Vec<String> = Vec::new();
    let mut i: usize = 0;
    while i < found.len()
        invariant
            i <= found@.len(),
            all == found.deep_view(),
            lists_once(all.take(i as int), out.deep_view()),
        decreases found@.len() - i,
    {
        let path = found[i].as_str();
        let ghost have = out.deep_view();
        let ghost read = all.take(i as int);
        assert(all.take(i + 1) =~= read.push(path@));
        if is_spelled(&out, path) {
            proof {
                assert forall|k: int| 0 <= k < have.len() implies first_spelled(
                    read.push(path@),
                    #[trigger] have[k],
                ) by {
                    lemma_spelled_push(read, path@, have[k]);
                }
                assert forall|k: int| 0 <= k < read.push(path@).len() implies spelled(
                    have,
                    #[trigger] read.push(path@)[k],
                ) by {
                    if k < read.len() {
                        assert(spelled(have, read[k]));
                    }
                }
            }
        } else {
            let mut at: usize = out.len();
            while at > 0 && !paths_in_order(out[at - 1].as_str(), path)
                invariant
                    at <= out@.len(),
                    have == out.deep_view(),
                    forall|j: int|
                        at <= j < have.len() ==> !path_ordered(#[trigger] have[j], path@),
                decreases at,
            {
                assert(have[at - 1] == out@[at - 1]@);
                at -= 1;
            }
            proof {
                if at > 0 {
                    assert(have[at - 1] == out@[at - 1]@);
                }
            }
            out.insert(at, path.to_owned());
            proof {
                let new = out.deep_view();
                assert(new =~= have.insert(at as int, path@));
                lemma_insert_path(read, have, path@, at as int);
            }
        }
        i += 1;
    }
    assert(all.take(i as int) =~= all);
    out
}

/// What is true of a path list before the path goes in at `at`.
spec fn insertable(
    read: Seq<Seq<char>>,
    have: Seq<Seq<char>>,
    path: Seq<char>,
    at: int,
) -> bool {
    &&& lists_once(read, have)
    &&& !spelled(have, path)
    &&& 0 <= at <= have.len()
    &&& at > 0 ==> path_ordered(have[at - 1], path)
    &&& forall|j: int| at <= j < have.len() ==> !path_ordered(#[trigger] have[j], path)
}

proof fn lemma_insert_path(
    read: Seq<Seq<char>>,
    have: Seq<Seq<char>>,
    path: Seq<char>,
    at: int,
)
    requires
        insertable(read, have, path, at),
    ensures
        lists_once(read.push(path), have.insert(at, path)),
{
    lemma_insert_keeps_order(read, have, path, at);
    lemma_insert_keeps_spellings(read, have, path, at);
    lemma_insert_covers(read, have, path, at);
}

proof fn lemma_insert_keeps_order(
    read: Seq<Seq<char>>,
    have: Seq<Seq<char>>,
    path: Seq<char>,
    at: int,
)
    requires
        insertable(read, have, path, at),
    ensures
        forall|i: int, j: int|
            0 <= i < j < have.insert(at, path).len() ==> path_ordered(
                #[trigger] have.insert(at, path)[i],
                #[trigger] have.insert(at, path)[j],
            ) && components(have.insert(at, path)[i]) != components(have.insert(at, path)[j]),
{
    let new = have.insert(at, path);
    assert forall|i: int, j: int| 0 <= i < j < new.len() implies path_ordered(
        #[trigger] new[i],
        #[trigger] new[j],
    ) && components(new[i]) != components(new[j]) by {
        let x = if i < at {
            i
        } else {
            i - 1
        };
        let y = if j < at {
            j
        } else {
            j - 1
        };
        if j == at {
            assert(new[i] == have[i] && new[j] == path);
            if i < at - 1 {
                lemma_path_transitive(have[i], have[at - 1], path);
            }
        } else if i == at {
            assert(new[j] == have[y] && new[i] == path);
            lemma_path_total(path, have[y]);
        } else {
            assert(new[i] == have[x] && new[j] == have[y]);
        }
    }
}

proof fn lemma_insert_keeps_spellings(
    read: Seq<Seq<char>>,
    have: Seq<Seq<char>>,
    path: Seq<char>,
    at: int,
)
    requires
        insertable(read, have, path, at),
    ensures
        forall|k: int|
            0 <= k < have.insert(at, path).len() ==> first_spelled(
                read.push(path),
                #[trigger] have.insert(at, path)[k],
            ),
{
    let new = have.insert(at, path);
    if spelled(read, path) {
        let i = choose|i: int|
            0 <= i < read.len() && components(#[trigger] read[i]) == components(path);
        assert(spelled(have, read[i]));
        let k = choose|k: int|
            0 <= k < have.len() && components(#[trigger] have[k]) == components(read[i]);
        assert(components(have[k]) == components(path));
    }
    assert forall|k: int| 0 <= k < new.len() implies first_spelled(
        read.push(path),
        #[trigger] new[k],
    ) by {
        lemma_spelled_push(read, path, new[k]);
        if k < at {
            assert(new[k] == have[k]);
        } else if k > at {
            assert(new[k] == have[k - 1]);
        }
    }
}

proof fn lemma_insert_covers(
    read: Seq<Seq<char>>,
    have: Seq<Seq<char>>,
    path: Seq<char>,
    at: int,
)
    requires
        insertable(read, have, path, at),
    ensures
        forall|i: int|
            0 <= i < read.push(path).len() ==> spelled(
                have.insert(at, path),
                #[trigger] read.push(path)[i],
            ),
{
    let new = have.insert(at, path);
    let longer = read.push(path);
    assert forall|i: int| 0 <= i < longer.len() implies spelled(new, #[trigger] longer[i]) by {
        if i < read.len() {
            assert(longer[i] == read[i]);
            assert(spelled(have, read[i]));
            let k = choose|k: int|
                0 <= k < have.len() && components(#[trigger] have[k]) == components(read[i]);
            let x = if k < at {
                k
            } else {
                k + 1
            };
            assert(new[x] == have[k]);
        } else {
            assert(new[at] == path);
        }
    }
}

/// The user's tmux socket directory: tmux always places it at
/// `<base>/tmux-<uid>`, where `base` is `$TMUX_TMPDIR` or `/tmp`.
/// None when no uid can be learned.
pub open spec fn socket_dir_of(tmux_tmpdir: Option<Seq<char>>, uid: Option<u32>) -> Option<
    Seq<char>,
> {
    let base = match tmux_tmpdir {
        Some(dir) => if dir.len() > 0 {
            dir
        } else {
            "/tmp"@
        },
        None => "/tmp"@,
    };
    match uid {
        Some(uid) => Some(below(base, "tmux-"@ + decimal(uid as nat))),
        None => None,
    }
}

/// The user's tmux socket directory.
pub fn socket_dir(tmux_tmpdir: Option<&str>, uid: Option<u32>) -> (r: Option<String>)
    ensures
        r.deep_view() == socket_dir_of(tmux_tmpdir.deep_view(), uid),
{
    let base = match tmux_tmpdir {
        Some(dir) => {
            if dir.is_empty() {
                "/tmp"
            } else {
                dir
            }
        },
        None => "/tmp",
    };
    match uid {
        Some(uid) => {
            let mut name = "tmux-".to_owned();
            name.append(print_u64(uid as u64).as_str());
            Some(join(base, name.as_str()))
        },
        None => None,
    }
}

/// What a reply of `id -u` says the real uid is: the last part of the default
/// socket path. None when `id` cannot run - discovery then relies on `$TMUX`
/// alone.
pub open spec fn uid_of(reply: Reply) -> Option<nat> {
    match reply {
        Ok(out) => if out.succeeded() {
            unsigned(trimmed(out.stdout@), u32::MAX as nat)
        } else {
            None
        },
        Err(_) => None,
    }
}

/// The real uid, from a reply of `id -u`.
pub fn uid(reply: &Reply) -> (r: Option<u32>)
    ensures
        r is Some <==> uid_of(*reply) is Some,
        r is Some ==> r->0 == uid_of(*reply)->0,
{
    match reply {
        Ok(out) => {
            if out.success() {
                parse_u32(trim(out.stdout.as_str()).as_str())
            } else {
                None
            }
        },
        Err(_) => None,
    }
}

/// `entries` is what the socket directory may be found to hold; without a
/// directory, nothing.
pub open spec fn lists_dir<L: Fn(&String) -> Vec<String>>(
    list_sockets: L,
    dir: Option<Seq<char>>,
    entries: Seq<Seq<char>>,
) -> bool {
    match dir {
        Some(dir) => exists|found: Vec<String>|
            #[trigger] answers(list_sockets, dir, found) && entries == found.deep_view(),
        None => entries.len() == 0,
    }
}

/// `r` is what the inventory over the sockets may come to.
pub open spec fn takes_inventory<
    T: Fn(&Vec<String>) -> Reply,
    C: Fn(&String) -> Result<String, String>,
>(run: T, canonicalize: C, sockets: Seq<Seq<char>>, r: InventoryView) -> bool {
    exists|pass: Pass| #[trigger]
        passes(run, canonicalize, sockets, pass) && r == pass.inventory
}

/// `r` is what the inventory of every server that the socket directory `dir`
/// and `$TMUX` lead to may come to.
pub open spec fn discovers_panes<
    T: Fn(&Vec<String>) -> Reply,
    C: Fn(&String) -> Result<String, String>,
    L: Fn(&String) -> Vec<String>,
>(
    run: T,
    canonicalize: C,
    list_sockets: L,
    dir: Option<Seq<char>>,
    tmux_env: Option<Seq<char>>,
    r: InventoryView,
) -> bool {
    exists|entries: Seq<Seq<char>>, found: Seq<Seq<char>>|
        #[trigger] lists_dir(list_sockets, dir, entries) && lists_once(
            entries + env_socket(tmux_env),
            found,
        ) && #[trigger] takes_inventory(run, canonicalize, found, r)
}

impl PaneInventory {
    /// The inventory of every server discoverable from the environment given:
    /// the sockets in the user's tmux socket dir plus the one `$TMUX` names. A
    /// machine with no tmux server reads as an empty inventory.
    /// `list_sockets` gives the entries of a directory that are sockets or
    /// links, none for one that cannot be read.
    pub fn discover_in<
        T: Fn(&Vec<String>) -> Reply,
        C: Fn(&String) -> Result<String, String>,
        L: Fn(&String) -> Vec<String>,
    >(
        run: &T,
        canonicalize: &C,
        list_sockets: &L,
        uid: Option<u32>,
        tmux_tmpdir: Option<&str>,
        tmux_env: Option<&str>,
    ) -> (r: PaneInventory)
        requires
            accepts_list_panes(*run),
            accepts_any(*canonicalize),
            accepts_any(*list_sockets),
        ensures
            discovers_panes(
                *run,
                *canonicalize,
                *list_sockets,
                socket_dir_of(tmux_tmpdir.deep_view(), uid),
                tmux_env.deep_view(),
                r.deep_view(),
            ),
    {
        let ghost at = socket_dir_of(tmux_tmpdir.deep_view(), uid);
        let entries: Vec<String> = match socket_dir(tmux_tmpdir, uid) {
            Some(dir) => {
                let found = list_sockets(&dir);
                assert(at == Some(dir@));
                assert(answers(*list_sockets, at->0, found));
                assert(lists_dir(*list_sockets, at, found.deep_view()));
                found
            },
            None => {
                let none: Vec<String> = Vec::new();
                assert(lists_dir(*list_sockets, at, none.deep_view()));
                none
            },
        };
        let found = sockets(&entries, tmux_env);
        let r = PaneInventory::collect(run, canonicalize, &found);
        assert(takes_inventory(*run, *canonicalize, found.deep_view(), r.deep_view()));
        r
    }
}

// ---------------------------------------------------------------------------
// What discovery promises
// ---------------------------------------------------------------------------

/// `$TMUX` names its socket in front of the first comma, and no socket where
/// nothing stands there or it is not set.
pub proof fn law_tmux_names_its_socket(socket: Seq<char>, rest: Seq<char>)
    requires
        !socket.contains(','),
    ensures
        socket.len() > 0 ==> env_socket(Some(socket)) == seq![socket],
        socket.len() > 0 ==> env_socket(Some(socket.push(',') + rest)) == seq![socket],
        env_socket(Some(seq![','] + rest)) == Seq::<Seq<char>>::empty(),
        env_socket(Some(seq![])) == Seq::<Seq<char>>::empty(),
        env_socket(None) == Seq::<Seq<char>>::empty(),
{
    let none = Seq::<char>::empty();
    lemma_first_piece(socket, ',', rest);
    lemma_first_piece(none, ',', rest);
    lemma_first_piece(none, ',', none);
    assert(none.push(',') + rest =~= seq![','] + rest);
}

/// The sockets are in a directory of the user's own below `$TMUX_TMPDIR`, or
/// below `/tmp` where that is unset or empty; without a uid there is none.
pub proof fn law_sockets_are_in_the_users_directory(dir: Seq<char>, uid: u32)
    requires
        dir.len() > 0,
        dir.last() != '/',
    ensures
        socket_dir_of(Some(dir), Some(uid)) == Some(
            dir.push('/') + ("tmux-"@ + decimal(uid as nat)),
        ),
        socket_dir_of(None, Some(uid)) == Some(
            "/tmp"@.push('/') + ("tmux-"@ + decimal(uid as nat)),
        ),
        socket_dir_of(Some(seq![]), Some(uid)) == socket_dir_of(None, Some(uid)),
        socket_dir_of(Some(dir), None) is None,
{
    reveal_strlit("/tmp");
    reveal_strlit("tmux-");
    assert("/tmp"@[3] == 'p');
    let name = "tmux-"@ + decimal(uid as nat);
    assert(name[0] == 't');
}

/// The uid is what `id -u` prints on its line; where `id` fails, or does not
/// start, there is none.
pub proof fn law_the_uid_is_what_id_prints(reply: Reply, uid: u32)
    ensures
        reply matches Ok(out) ==> (out.code == Some(0i32) && out.stdout@ == decimal(
            uid as nat,
        ).push('\n') ==> uid_of(reply) == Some(uid as nat)) && (out.code != Some(0i32) ==> uid_of(
            reply,
        ) is None),
        reply is Err ==> uid_of(reply) is None,
{
    lemma_number_reads_back(uid as nat, u32::MAX as nat);
    assert(is_word(decimal(uid as nat)));
    lemma_trimmed_line(decimal(uid as nat));
}

/// Every socket of the directory and the one that `$TMUX` names is listed,
/// once, and nothing else is.
pub proof fn law_every_socket_is_listed_once(
    entries: Seq<Seq<char>>,
    tmux: Option<Seq<char>>,
    r: Seq<Seq<char>>,
    i: int,
    j: int,
)
    requires
        lists_once(entries + env_socket(tmux), r),
    ensures
        0 <= i < entries.len() ==> exists|k: int|
            0 <= k < r.len() && components(#[trigger] r[k]) == components(entries[i]),
        env_socket(tmux).len() > 0 ==> exists|k: int|
            0 <= k < r.len() && components(#[trigger] r[k]) == components(env_socket(tmux)[0]),
        0 <= i < r.len() ==> entries.contains(r[i]) || env_socket(tmux).contains(r[i]),
        0 <= i < j < r.len() ==> components(r[i]) != components(r[j]) && path_ordered(r[i], r[j]),
{
    let found = entries + env_socket(tmux);
    if 0 <= i < entries.len() {
        assert(found[i] == entries[i]);
        assert(spelled(r, found[i]));
    }
    if env_socket(tmux).len() > 0 {
        assert(found[entries.len() as int] == env_socket(tmux)[0]);
        assert(spelled(r, found[entries.len() as int]));
    }
    if 0 <= i < r.len() {
        assert(first_spelled(found, r[i]));
        let k = choose|k: int|
            0 <= k < found.len() && #[trigger] found[k] == r[i] && !spelled(found.take(k), r[i]);
        if k < entries.len() {
            assert(entries[k] == r[i]);
        } else {
            assert(env_socket(tmux)[k - entries.len()] == r[i]);
        }
    }
}

/// Discovery asks the sockets it finds: the one in the user's directory where
/// that holds one and `$TMUX` names none, and the one that `$TMUX` names where
/// there is no directory to look in. Without either there is nothing.
pub proof fn law_discovery_asks_what_it_finds<
    T: Fn(&Vec<String>) -> Reply,
    C: Fn(&String) -> Result<String, String>,
    L: Fn(&String) -> Vec<String>,
>(
    run: T,
    canonicalize: C,
    list_sockets: L,
    dir: Option<Seq<char>>,
    tmux: Option<Seq<char>>,
    socket: Seq<char>,
    rest: Seq<char>,
    r: InventoryView,
)
    requires
        discovers_panes(run, canonicalize, list_sockets, dir, tmux, r),
        socket.len() > 0,
        !socket.contains(','),
    ensures
        ({
            let holds = |entries: Seq<Seq<char>>|
                forall|s: String, found: Vec<String>|
                    dir is Some && s@ == dir->0 && #[trigger] call_ensures(
                        list_sockets,
                        (&s,),
                        found,
                    ) ==> found.deep_view() == entries;
            let none = Seq::<Seq<char>>::empty();
            &&& dir is Some && holds(seq![socket]) && tmux is None ==> takes_inventory(
                run,
                canonicalize,
                seq![socket],
                r,
            )
            &&& (dir is None || holds(none)) && tmux == Some(socket.push(',') + rest)
                ==> takes_inventory(run, canonicalize, seq![socket], r)
            &&& (dir is None || holds(none)) && tmux is None ==> r == (InventoryView {
                panes: seq![],
                servers: seq![],
                warnings: seq![],
            })
        }),
{
    let (entries, found) = choose|entries: Seq<Seq<char>>, found: Seq<Seq<char>>|
        #[trigger] lists_dir(list_sockets, dir, entries) && lists_once(
            entries + env_socket(tmux),
            found,
        ) && #[trigger] takes_inventory(run, canonicalize, found, r);
    let none = Seq::<Seq<char>>::empty();
    law_tmux_names_its_socket(socket, rest);
    if let Some(place) = dir {
        let listed = choose|listed: Vec<String>|
            #[trigger] answers(list_sockets, place, listed) && entries == listed.deep_view();
        let s = choose|s: String| s@ == place && #[trigger] call_ensures(
            list_sockets,
            (&s,),
            listed,
        );
        assert(call_ensures(list_sockets, (&s,), listed));
    } else {
        assert(entries =~= none);
    }
    assert(seq![socket] + none =~= seq![socket]);
    assert(none + seq![socket] =~= seq![socket]);
    assert(none + none =~= none);
    lemma_lists_one(entries + env_socket(tmux), found, socket);
}

proof fn lemma_lists_one(all: Seq<Seq<char>>, found: Seq<Seq<char>>, socket: Seq<char>)
    requires
        lists_once(all, found),
    ensures
        all == seq![socket] ==> found == seq![socket],
        all.len() == 0 ==> found == Seq::<Seq<char>>::empty(),
{
    assert forall|k: int| 0 <= k < found.len() implies all.contains(#[trigger] found[k]) by {
        assert(first_spelled(all, found[k]));
        let i = choose|i: int|
            0 <= i < all.len() && #[trigger] all[i] == found[k] && !spelled(all.take(i), found[k]);
        assert(all[i] == found[k]);
    }
    if all == seq![socket] {
        assert(all[0] == socket);
        assert(spelled(found, all[0]));
        assert forall|k: int| 0 <= k < found.len() implies found[k] == socket by {
            assert(all.contains(found[k]));
        }
        if found.len() > 1 {
            assert(components(found[0]) != components(found[1]));
        }
        assert(found =~= seq![socket]);
    }
    if all.len() == 0 {
        if found.len() > 0 {
            assert(all.contains(found[0]));
        }
        assert(found =~= Seq::<Seq<char>>::empty());
    }
}

}
