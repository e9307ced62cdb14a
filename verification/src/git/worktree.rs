//! The worktrees of a repository, and the admin ids they are known by.

use vstd::prelude::*;
use vstd::string::*;

use crate::command::{accepts_any, answers, Reply};
use crate::git::{
    accepts_reads, always_exits, always_prints, in_repo, lemma_says, never_answers, outcome,
    repo_globals, Error, ErrorView, Head, HeadView, Repo,
};
use crate::git::argv::{law_every_invocation_is_read_only, worktrees_argv};
use crate::path;
use crate::path::{
    below, file_name, last_component, law_names_go_below_their_base, parent, parent_dir, settle,
    settles,
};
use crate::text::{
    after_prefix, begins, chars_of, copy_text, is_space, is_word, lemma_terminated, pieces, same,
    split, starts_with, strip_prefix, terminated, trim, trim_left, trim_right, trimmed,
};

verus! {

// ---------------------------------------------------------------------------
// Records
// ---------------------------------------------------------------------------

/// One entry of `git worktree list --porcelain`, plus the admin id derived
/// from the worktree's `.git` file.
#[derive(Debug)]
pub struct Worktree {
    /// Canonical worktree root; absent on disk only for a prunable record.
    pub path: String,
    pub head: Head,
    /// Basename of `$GIT_COMMON_DIR/worktrees/<id>`; `None` on the main
    /// worktree, which has no admin directory.
    pub admin_id: Option<String>,
    /// The repository's own checkout - the first porcelain entry - which
    /// `git worktree remove` can never remove.
    pub main: bool,
    pub bare: bool,
    pub locked: bool,
}

impl Clone for Worktree {
    fn clone(&self) -> (r: Worktree)
        ensures
            r == *self,
    {
        Worktree {
            path: self.path.clone(),
            head: self.head.clone(),
            admin_id: copy_text(&self.admin_id),
            main: self.main,
            bare: self.bare,
            locked: self.locked,
        }
    }
}

/// The value of a [`Worktree`], with its text as characters.
pub struct WorktreeView {
    pub path: Seq<char>,
    pub head: HeadView,
    pub admin_id: Option<Seq<char>>,
    pub main: bool,
    pub bare: bool,
    pub locked: bool,
}

impl DeepView for Worktree {
    type V = WorktreeView;

    open spec fn deep_view(&self) -> WorktreeView {
        WorktreeView {
            path: self.path@,
            head: self.head.deep_view(),
            admin_id: self.admin_id.deep_view(),
            main: self.main,
            bare: self.bare,
            locked: self.locked,
        }
    }
}

/// A non-empty object name made of zeros stands for no commit at all.
pub open spec fn null_sha(sha: Seq<char>) -> bool {
    sha.len() > 0 && forall|i: int| 0 <= i < sha.len() ==> sha[i] == '0'
}

/// The HEAD of a record whose `branch` field names `reference`: unborn when
/// the `HEAD` field before it carried the null object name.
pub open spec fn branch_head(before: HeadView, reference: Seq<char>) -> HeadView {
    let name = match after_prefix(reference, "refs/heads/"@) {
        Some(name) => name,
        None => reference,
    };
    match before {
        HeadView::Detached(sha) if null_sha(sha) => HeadView::Unborn(name),
        _ => HeadView::Branch(name),
    }
}

/// A record just begun by its `worktree` field.
pub open spec fn opened(path: Seq<char>, main: bool) -> WorktreeView {
    WorktreeView {
        path,
        head: HeadView::Detached(seq![]),
        admin_id: None,
        main,
        bare: false,
        locked: false,
    }
}

/// A record with one more of its fields read.
pub open spec fn described(record: WorktreeView, field: Seq<char>) -> WorktreeView {
    if let Some(sha) = after_prefix(field, "HEAD "@) {
        WorktreeView { head: HeadView::Detached(sha), ..record }
    } else if let Some(reference) = after_prefix(field, "branch "@) {
        WorktreeView { head: branch_head(record.head, reference), ..record }
    } else if field == "bare"@ {
        WorktreeView { bare: true, ..record }
    } else if begins(field, "locked"@) {
        WorktreeView { locked: true, ..record }
    } else {
        record
    }
}

/// The records of a porcelain listing: a `worktree` field begins one, the
/// fields up to the next describe it, and the first is the main worktree.
pub open spec fn records(fields: Seq<Seq<char>>) -> Seq<WorktreeView>
    decreases fields.len(),
{
    if fields.len() == 0 {
        seq![]
    } else {
        let before = records(fields.drop_last());
        match after_prefix(fields.last(), "worktree "@) {
            Some(path) => before.push(opened(path, before.len() == 0)),
            None => if before.len() == 0 {
                before
            } else {
                before.drop_last().push(described(before.last(), fields.last()))
            },
        }
    }
}

/// Whether `sha` is the null object name.
fn is_null_sha(sha: &str) -> (r: bool)
    ensures
        r == null_sha(sha@),
{
    let chars = chars_of(sha);
    let mut i: usize = 0;
    while i < chars.len()
        invariant
            chars@ == sha@,
            i <= chars@.len(),
            forall|j: int| 0 <= j < i ==> sha@[j] == '0',
        decreases chars@.len() - i,
    {
        if chars[i] != '0' {
            return false;
        }
        i += 1;
    }
    chars.len() > 0
}

/// Read one more field into a record.
fn describe(wt: Worktree, field: &str) -> (r: Worktree)
    ensures
        r.deep_view() == described(wt.deep_view(), field@),
{
    let mut wt = wt;
    if let Some(sha) = strip_prefix(field, "HEAD ") {
        wt.head = Head::Detached(sha);
    } else if let Some(reference) = strip_prefix(field, "branch ") {
        let name = match strip_prefix(reference.as_str(), "refs/heads/") {
            Some(name) => name,
            None => reference,
        };
        let unborn = match &wt.head {
            Head::Detached(sha) => is_null_sha(sha.as_str()),
            _ => false,
        };
        wt.head = if unborn {
            Head::Unborn(name)
        } else {
            Head::Branch(name)
        };
    } else if same(field, "bare") {
        wt.bare = true;
    } else if starts_with(field, "locked") {
        wt.locked = true;
    }
    wt
}

/// The records of a porcelain listing, paths as listed and no admin ids yet.
pub fn parse_worktrees(text: &str) -> (r: Vec<Worktree>)
    ensures
        r.deep_view() == records(pieces(text@, '\0')),
{
    let fields = split(text, '\0');
    let ghost all = fields.deep_view();
    let mut found: Vec<Worktree> = Vec::new();
    let mut i: usize = 0;
    assert(found.deep_view() =~= seq![]);
    while i < fields.len()
        invariant
            i <= fields@.len(),
            all == fields.deep_view(),
            found.deep_view() == records(all.take(i as int)),
        decreases fields@.len() - i,
    {
        let field = fields[i].as_str();
        let ghost before = found.deep_view();
        assert(all.take(i + 1).drop_last() =~= all.take(i as int));
        assert(all.take(i + 1).last() == field@);
        match strip_prefix(field, "worktree ") {
            Some(path) => {
                let wt = Worktree {
                    path,
                    head: Head::Detached(String::new()),
                    admin_id: None,
                    main: found.len() == 0,
                    bare: false,
                    locked: false,
                };
                assert(wt.head.deep_view()->Detached_0 =~= seq![]);
                let ghost view = wt.deep_view();
                found.push(wt);
                assert(found.deep_view() =~= before.push(view));
            },
            None => {
                if let Some(wt) = found.pop() {
                    assert(before.last() == wt.deep_view());
                    let ghost shorter = found.deep_view();
                    assert(shorter =~= before.drop_last());
                    let wt = describe(wt, field);
                    let ghost view = wt.deep_view();
                    found.push(wt);
                    assert(found.deep_view() =~= shorter.push(view));
                }
            },
        }
        i += 1;
    }
    assert(all.take(i as int) =~= all);
    found
}

// ---------------------------------------------------------------------------
// Admin ids
// ---------------------------------------------------------------------------

/// The directory a `.git` file points at.
pub open spec fn admin_target(text: Seq<char>) -> Option<Seq<char>> {
    match after_prefix(trimmed(text), "gitdir:"@) {
        Some(target) => Some(trimmed(target)),
        None => None,
    }
}

/// The admin id of a canonical admin directory: its name, when it stands in
/// `$GIT_COMMON_DIR/worktrees`.
pub open spec fn admin_name(admin: Seq<char>, common_dir: Seq<char>) -> Option<Seq<char>> {
    if parent_dir(admin) == Some(below(common_dir, "worktrees"@)) {
        last_component(admin)
    } else {
        None
    }
}

/// `id` is the admin id that the directory `target` may be found to have.
pub open spec fn target_has_id<C: Fn(&String) -> Result<String, String>>(
    canonicalize: C,
    target: Seq<char>,
    common_dir: Seq<char>,
    id: Option<Seq<char>>,
) -> bool {
    exists|canonical: Result<String, String>|
        #[trigger] answers(canonicalize, target, canonical) && id == match canonical {
            Err(_) => None,
            Ok(admin) => admin_name(admin@, common_dir),
        }
}

/// `id` is what may be read as the admin id of the worktree at `path`: from
/// its `.git` file, where `read` finds a readable regular file, through the
/// canonical form of the directory that file names.
pub open spec fn has_admin_id<
    C: Fn(&String) -> Result<String, String>,
    R: Fn(&String) -> Option<String>,
>(
    canonicalize: C,
    read: R,
    path: Seq<char>,
    common_dir: Seq<char>,
    id: Option<Seq<char>>,
) -> bool {
    exists|text: Option<String>|
        #[trigger] answers(read, below(path, ".git"@), text) && match text {
            None => id is None,
            Some(text) => match admin_target(text@) {
                None => id is None,
                Some(target) => target_has_id(canonicalize, target, common_dir, id),
            },
        }
}

/// The admin id of a worktree: the basename of its
/// `$GIT_COMMON_DIR/worktrees/<id>` directory, read from the `.git` file. The
/// main worktree has no admin directory and no id.
///
/// `read` gives the text of a readable regular file, and `canonicalize` the
/// canonical form of a path or why it has none.
pub fn admin_id<C: Fn(&String) -> Result<String, String>, R: Fn(&String) -> Option<String>>(
    canonicalize: &C,
    read: &R,
    path: &str,
    common_dir: &str,
) -> (r: Option<String>)
    requires
        accepts_any(*canonicalize),
        accepts_any(*read),
    ensures
        has_admin_id(*canonicalize, *read, path@, common_dir@, r.deep_view()),
{
    let dotgit = path::join(path, ".git");
    let text = read(&dotgit);
    assert(answers(*read, below(path@, ".git"@), text));
    let Some(text) = text else {
        return None;
    };
    let whole = trim(text.as_str());
    let Some(target) = strip_prefix(whole.as_str(), "gitdir:") else {
        return None;
    };
    let target = trim(target.as_str());
    let canonical = canonicalize(&target);
    assert(answers(*canonicalize, target@, canonical));
    let id = match &canonical {
        Ok(admin) => {
            let home = path::join(common_dir, "worktrees");
            let inside = match parent(admin.as_str()) {
                Some(dir) => same(dir.as_str(), home.as_str()),
                None => false,
            };
            if inside {
                file_name(admin.as_str())
            } else {
                None
            }
        },
        Err(_) => None,
    };
    assert(target_has_id(*canonicalize, target@, common_dir@, id.deep_view()));
    id
}

/// `wt` is what a listed record may be found to be: at its canonical path,
/// where it still has one, and with its admin id.
pub open spec fn located<
    C: Fn(&String) -> Result<String, String>,
    R: Fn(&String) -> Option<String>,
>(
    canonicalize: C,
    read: R,
    common_dir: Seq<char>,
    record: WorktreeView,
    wt: WorktreeView,
) -> bool {
    &&& settles(canonicalize, record.path, wt.path)
    &&& has_admin_id(canonicalize, read, wt.path, common_dir, wt.admin_id)
    &&& wt == WorktreeView { path: wt.path, admin_id: wt.admin_id, ..record }
}

/// `r` is what the worktree listing of `repo` may be read as: every listed
/// record, in order, located; or why the listing failed.
pub open spec fn has_worktrees<
    G: Fn(&Vec<String>, &Vec<String>) -> Reply,
    C: Fn(&String) -> Result<String, String>,
    R: Fn(&String) -> Option<String>,
>(
    run: G,
    canonicalize: C,
    read: R,
    repo: Repo,
    r: Result<Seq<WorktreeView>, ErrorView>,
) -> bool {
    exists|said: Result<Seq<char>, ErrorView>|
        #[trigger] repo.reads(run, worktrees_argv(), said) && match said {
            Err(e) => r == Err::<Seq<WorktreeView>, ErrorView>(e),
            Ok(text) => {
                let listed = records(pieces(text, '\0'));
                r matches Ok(found) && found.len() == listed.len() && forall|i: int|
                    0 <= i < listed.len() ==> located(
                        canonicalize,
                        read,
                        repo.deep_view(),
                        #[trigger] listed[i],
                        found[i],
                    )
            },
        }
}

impl Repo {
    /// Every worktree of the repository, main first, as reported by
    /// `git worktree list --porcelain -z`. Paths are canonicalized.
    pub fn worktrees<
        G: Fn(&Vec<String>, &Vec<String>) -> Reply,
        C: Fn(&String) -> Result<String, String>,
        R: Fn(&String) -> Option<String>,
    >(&self, run: &G, canonicalize: &C, read: &R) -> (r: Result<Vec<Worktree>, Error>)
        requires
            accepts_reads(*run),
            accepts_any(*canonicalize),
            accepts_any(*read),
        ensures
            has_worktrees(*run, *canonicalize, *read, *self, outcome(r)),
    {
        let args: &[&str] = &["worktree", "list", "--porcelain", "-z"];
        assert(args.deep_view() =~= worktrees_argv());
        let said = in_repo(run, self, args);
        let ghost view = outcome(said);
        let text = match said {
            Ok(text) => text,
            Err(e) => {
                assert(self.reads(*run, worktrees_argv(), view));
                return Err(e);
            },
        };
        let mut listed = parse_worktrees(text.as_str());
        let ghost all = listed.deep_view();
        let mut found: Vec<Worktree> = Vec::new();
        let mut i: usize = 0;
        while i < listed.len()
            invariant
                accepts_any(*canonicalize),
                accepts_any(*read),
                i <= listed@.len(),
                all == listed.deep_view(),
                found@.len() == i,
                forall|j: int|
                    0 <= j < i ==> located(
                        *canonicalize,
                        *read,
                        self.deep_view(),
                        #[trigger] all[j],
                        found.deep_view()[j],
                    ),
            decreases listed@.len() - i,
        {
            let record = &listed[i];
            assert(all[i as int] == record.deep_view());
            let path = settle(canonicalize, &record.path);
            let id = admin_id(canonicalize, read, path.as_str(), self.common_dir());
            let wt = Worktree {
                path,
                head: record.head.clone(),
                admin_id: id,
                main: record.main,
                bare: record.bare,
                locked: record.locked,
            };
            let ghost before = found.deep_view();
            let ghost one = wt.deep_view();
            assert(located(*canonicalize, *read, self.deep_view(), all[i as int], one));
            found.push(wt);
            assert(found.deep_view() =~= before.push(one));
            i += 1;
        }
        assert(self.reads(*run, worktrees_argv(), view));
        Ok(found)
    }
}

// ---------------------------------------------------------------------------
// What the listing promises
// ---------------------------------------------------------------------------

/// The main worktree is the first one listed, and no other is.
pub proof fn law_the_first_record_is_main(fields: Seq<Seq<char>>)
    ensures
        forall|i: int|
            0 <= i < records(fields).len() ==> ((#[trigger] records(fields)[i]).main <==> i == 0),
    decreases fields.len(),
{
    if fields.len() > 0 {
        let before = records(fields.drop_last());
        let all = records(fields);
        law_the_first_record_is_main(fields.drop_last());
        assert forall|i: int| 0 <= i < all.len() implies ((#[trigger] all[i]).main <==> i == 0) by {
            if i < before.len() - 1 {
                assert(all[i] == before[i]);
            } else if i < before.len() {
                assert(before[i].main <==> i == 0);
            }
        }
    }
}

proof fn lemma_keywords(text: Seq<char>)
    ensures
        after_prefix("worktree "@ + text, "worktree "@) == Some(text),
        after_prefix("HEAD "@ + text, "worktree "@) is None,
        after_prefix("HEAD "@ + text, "HEAD "@) == Some(text),
        after_prefix("branch "@ + text, "worktree "@) is None,
        after_prefix("branch "@ + text, "HEAD "@) is None,
        after_prefix("branch "@ + text, "branch "@) == Some(text),
        after_prefix("locked"@ + text, "worktree "@) is None,
        after_prefix("locked"@ + text, "HEAD "@) is None,
        after_prefix("locked"@ + text, "branch "@) is None,
        "locked"@ + text != "bare"@,
        begins("locked"@ + text, "locked"@),
        after_prefix("bare"@, "worktree "@) is None,
        after_prefix("bare"@, "HEAD "@) is None,
        after_prefix("bare"@, "branch "@) is None,
        after_prefix("refs/heads/"@ + text, "refs/heads/"@) == Some(text),
{
    reveal_strlit("worktree ");
    reveal_strlit("HEAD ");
    reveal_strlit("branch ");
    reveal_strlit("locked");
    reveal_strlit("bare");
    reveal_strlit("refs/heads/");
    let wt = "worktree "@ + text;
    let head = "HEAD "@ + text;
    let branch = "branch "@ + text;
    let locked = "locked"@ + text;
    let heads = "refs/heads/"@ + text;
    assert(wt.take(9) =~= "worktree "@ && wt.skip(9) =~= text);
    assert(head.take(5) =~= "HEAD "@ && head.skip(5) =~= text);
    assert(branch.take(7) =~= "branch "@ && branch.skip(7) =~= text);
    assert(locked.take(6) =~= "locked"@);
    assert(heads.take(11) =~= "refs/heads/"@ && heads.skip(11) =~= text);
    lemma_other_start(head, "worktree "@);
    lemma_other_start(branch, "worktree "@);
    lemma_other_start(branch, "HEAD "@);
    lemma_other_start(locked, "worktree "@);
    lemma_other_start(locked, "HEAD "@);
    lemma_other_start(locked, "branch "@);
    lemma_other_start("bare"@, "worktree "@);
    lemma_other_start("bare"@, "HEAD "@);
    assert(locked[0] == 'l' && "bare"@[0] == 'b');
    assert("bare"@.len() == 4 && "branch "@.len() == 7);
}

proof fn lemma_other_start(text: Seq<char>, prefix: Seq<char>)
    ensures
        text.len() > 0 && prefix.len() > 0 && text[0] != prefix[0] ==> !begins(text, prefix),
{
    if begins(text, prefix) && prefix.len() > 0 {
        assert(text.take(prefix.len() as int)[0] == text[0]);
    }
}

/// A listing is read field by field. `worktree` opens a record, the first of
/// them the main one; the fields behind it say of that record, and of no
/// other, what commit or branch its HEAD is at, whether it is bare and whether
/// it is locked, with a reason or without.
pub proof fn law_a_worktree_listing_reads_back(fields: Seq<Seq<char>>, text: Seq<char>)
    ensures
        ({
            let before = records(fields);
            let after = |field: Seq<char>| records(fields.push(field));
            &&& after("worktree "@ + text) == before.push(
                WorktreeView {
                    path: text,
                    head: HeadView::Detached(seq![]),
                    admin_id: None,
                    main: before.len() == 0,
                    bare: false,
                    locked: false,
                },
            )
            &&& before.len() > 0 ==> {
                let last = before.last();
                let said = |record: WorktreeView| before.drop_last().push(record);
                &&& after("HEAD "@ + text) == said(
                    WorktreeView { head: HeadView::Detached(text), ..last },
                )
                &&& after("bare"@) == said(WorktreeView { bare: true, ..last })
                &&& after("locked"@ + text) == said(WorktreeView { locked: true, ..last })
                &&& after("branch "@ + ("refs/heads/"@ + text)) == said(
                    WorktreeView {
                        head: if last.head is Detached && last.head->Detached_0.len() > 0 && (
                        forall|i: int|
                            0 <= i < last.head->Detached_0.len() ==> last.head->Detached_0[i]
                                == '0') {
                            HeadView::Unborn(text)
                        } else {
                            HeadView::Branch(text)
                        },
                        ..last
                    },
                )
            }
        }),
        records(seq![]) == Seq::<WorktreeView>::empty(),
{
    lemma_keywords(text);
    lemma_keywords("refs/heads/"@ + text);
    assert(fields.push("worktree "@ + text).drop_last() =~= fields);
    assert(fields.push("HEAD "@ + text).drop_last() =~= fields);
    assert(fields.push("bare"@).drop_last() =~= fields);
    assert(fields.push("locked"@ + text).drop_last() =~= fields);
    assert(fields.push("branch "@ + ("refs/heads/"@ + text)).drop_last() =~= fields);
}

/// A linked worktree's administrative id is the name of the directory below
/// `worktrees` that its `.git` file leads to. A worktree without such a file,
/// and one whose file leads elsewhere or nowhere, has none.
pub proof fn law_the_admin_id_is_where_the_git_file_leads<
    C: Fn(&String) -> Result<String, String>,
    R: Fn(&String) -> Option<String>,
>(
    canonicalize: C,
    read: R,
    path: Seq<char>,
    common_dir: Seq<char>,
    target: Seq<char>,
    name: Seq<char>,
    elsewhere: Seq<char>,
    id: Option<Seq<char>>,
)
    requires
        has_admin_id(canonicalize, read, path, common_dir, id),
        path.len() > 0,
        path.last() != '/',
        common_dir.len() > 0,
        common_dir.last() != '/',
        is_word(target),
        name.len() > 0,
        !name.contains('/'),
    ensures
        ({
            let file = path + seq!['/'] + ".git"@;
            let home = common_dir + seq!['/'] + "worktrees"@;
            let missing = forall|s: String, text: Option<String>|
                s@ == file && #[trigger] call_ensures(read, (&s,), text) ==> text is None;
            let leads = forall|s: String, text: Option<String>|
                s@ == file && #[trigger] call_ensures(read, (&s,), text) ==> text is Some
                    && text->0@ == ("gitdir: "@ + target).push('\n');
            let found = |place: Seq<char>|
                forall|s: String, r: Result<String, String>|
                    s@ == target && #[trigger] call_ensures(canonicalize, (&s,), r) ==> r is Ok
                        && r->Ok_0@ == place;
            let lost = forall|s: String, r: Result<String, String>|
                s@ == target && #[trigger] call_ensures(canonicalize, (&s,), r) ==> r is Err;
            &&& missing ==> id is None
            &&& leads && lost ==> id is None
            &&& leads && found(home + seq!['/'] + name) ==> id == Some(name)
            &&& leads && elsewhere.len() > 0 && elsewhere.last() != '/' && elsewhere != home
                && found(elsewhere + seq!['/'] + name) ==> id is None
        }),
{
    reveal_strlit(".git");
    reveal_strlit("worktrees");
    reveal_strlit("gitdir: ");
    reveal_strlit("gitdir:");
    let file = path + seq!['/'] + ".git"@;
    let home = common_dir + seq!['/'] + "worktrees"@;
    assert(!".git"@.contains('/')) by {
        assert forall|i: int| 0 <= i < ".git"@.len() implies ".git"@[i] != '/' by {}
    }
    assert(!"worktrees"@.contains('/')) by {
        assert forall|i: int| 0 <= i < "worktrees"@.len() implies "worktrees"@[i] != '/' by {}
    }
    law_names_go_below_their_base(path, ".git"@);
    law_names_go_below_their_base(common_dir, "worktrees"@);
    assert(home.last() == 's');
    law_names_go_below_their_base(home, name);
    law_names_go_below_their_base(elsewhere, name);
    let line = ("gitdir: "@ + target).push('\n');
    lemma_gitdir(target);
    let text = choose|text: Option<String>|
        #[trigger] answers(read, below(path, ".git"@), text) && match text {
            None => id is None,
            Some(text) => match admin_target(text@) {
                None => id is None,
                Some(target) => target_has_id(canonicalize, target, common_dir, id),
            },
        };
    let s = choose|s: String| s@ == file && #[trigger] call_ensures(read, (&s,), text);
    assert(call_ensures(read, (&s,), text));
    if text is Some && text->0@ == line {
        let canonical = choose|canonical: Result<String, String>|
            #[trigger] answers(canonicalize, target, canonical) && id == match canonical {
                Err(_) => None,
                Ok(admin) => admin_name(admin@, common_dir),
            };
        let t = choose|t: String|
            t@ == target && #[trigger] call_ensures(canonicalize, (&t,), canonical);
        assert(call_ensures(canonicalize, (&t,), canonical));
    }
}

proof fn lemma_gitdir(target: Seq<char>)
    requires
        is_word(target),
    ensures
        admin_target(("gitdir: "@ + target).push('\n')) == Some(target),
{
    reveal_strlit("gitdir: ");
    reveal_strlit("gitdir:");
    let text = "gitdir: "@ + target;
    let line = text.push('\n');
    assert(!is_space(target[target.len() - 1]));
    assert(is_space('\n') && is_space(' ') && !is_space('g'));
    assert(line[0] == 'g' && line.last() == '\n');
    assert(line.drop_last() =~= text);
    assert(text.last() == target.last());
    assert(trim_left(line) == line);
    assert(trim_right(text) == text);
    assert(trimmed(line) == text);
    assert(text.take(7) =~= "gitdir:"@);
    let rest = text.skip(7);
    assert(rest =~= seq![' '] + target);
    assert(rest.drop_first() =~= target);
    assert(!is_space(target[0]));
    assert(trim_left(target) == target);
    assert(trim_left(rest) == target);
    assert(trim_right(target) == target);
}

/// Whatever else a listing says of a worktree changes nothing, and nothing is
/// said before the first.
pub proof fn law_other_fields_say_nothing(fields: Seq<Seq<char>>, field: Seq<char>)
    requires
        field.len() == 0 || (field[0] != 'w' && field[0] != 'H' && field[0] != 'b' && field[0]
            != 'l'),
    ensures
        records(fields.push(field)) == records(fields),
        records(seq![field]) == Seq::<WorktreeView>::empty(),
{
    reveal_strlit("worktree ");
    reveal_strlit("HEAD ");
    reveal_strlit("branch ");
    reveal_strlit("locked");
    reveal_strlit("bare");
    assert("worktree "@[0] == 'w' && "HEAD "@[0] == 'H' && "branch "@[0] == 'b' && "locked"@[0]
        == 'l' && "bare"@[0] == 'b');
    lemma_other_start(field, "worktree "@);
    lemma_other_start(field, "HEAD "@);
    lemma_other_start(field, "branch "@);
    lemma_other_start(field, "locked"@);
    assert(fields.push(field).drop_last() =~= fields);
    assert(seq![field].drop_last() =~= seq![]);
    reveal_with_fuel(records, 2);
    if records(fields).len() > 0 {
        assert(records(fields).drop_last().push(records(fields).last()) =~= records(fields));
    }
}

/// The worktrees of a repository are those that Git lists, one for one and in
/// order, each with what the listing says of it, the place its path leads to,
/// and its administrative id; where Git fails, none is known.
pub proof fn law_worktrees_are_those_listed<
    G: Fn(&Vec<String>, &Vec<String>) -> Reply,
    C: Fn(&String) -> Result<String, String>,
    R: Fn(&String) -> Option<String>,
>(
    run: G,
    canonicalize: C,
    read: R,
    repo: Repo,
    fields: Seq<Seq<char>>,
    code: int,
    r: Result<Seq<WorktreeView>, ErrorView>,
)
    requires
        has_worktrees(run, canonicalize, read, repo, r),
        fields.len() > 0,
        forall|i: int| 0 <= i < fields.len() ==> !(#[trigger] fields[i]).contains('\0'),
    ensures
        ({
            let global = repo_globals(repo.deep_view());
            let asked = seq!["worktree"@, "list"@, "--porcelain"@, "-z"@];
            let listed = records(fields);
            &&& always_prints(run, global, asked, terminated(fields, '\0')) ==> {
                &&& r is Ok
                &&& r->Ok_0.len() == listed.len()
                &&& forall|i: int|
                    0 <= i < listed.len() ==> {
                        let found = #[trigger] r->Ok_0[i];
                        &&& found.head == listed[i].head
                        &&& found.main == listed[i].main
                        &&& found.bare == listed[i].bare
                        &&& found.locked == listed[i].locked
                        &&& settles(canonicalize, listed[i].path, found.path)
                        &&& has_admin_id(
                            canonicalize,
                            read,
                            found.path,
                            repo.deep_view(),
                            found.admin_id,
                        )
                    }
            }
            &&& code != 0 && always_exits(run, global, asked, code) ==> r is Err
            &&& never_answers(run, global, asked) ==> r is Err
        }),
{
    let global = repo_globals(repo.deep_view());
    law_every_invocation_is_read_only(seq![], seq![], seq![]);
    lemma_says(run, global, worktrees_argv());
    lemma_terminated(fields, '\0');
    law_other_fields_say_nothing(fields, seq![]);
    if always_prints(
        run,
        global,
        seq!["worktree"@, "list"@, "--porcelain"@, "-z"@],
        terminated(fields, '\0'),
    ) {
        assert(records(pieces(terminated(fields, '\0'), '\0')) == records(fields));
        let listed = records(fields);
        assert forall|i: int| 0 <= i < listed.len() implies {
            let found = #[trigger] r->Ok_0[i];
            &&& found.head == listed[i].head
            &&& found.main == listed[i].main
            &&& found.bare == listed[i].bare
            &&& found.locked == listed[i].locked
            &&& settles(canonicalize, listed[i].path, found.path)
            &&& has_admin_id(canonicalize, read, found.path, repo.deep_view(), found.admin_id)
        } by {
            assert(located(canonicalize, read, repo.deep_view(), listed[i], r->Ok_0[i]));
        }
    }
}

}
