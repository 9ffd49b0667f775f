//! Notes of the vault, the predicates that route them into the three views
//! (home, blog, void), and the decisions the vault watcher makes about files
//! and file-system events.

use vstd::prelude::*;
use crate::pipeline::Keyed;
use crate::paths::{
    below_root, dotted, extension, file_name, in_hidden_dir, is_hidden_name, is_md, law_hidden_file_name_hides,
    resolved,
};
use crate::tags::views;
use crate::text::same_text;

verus! {

/// A note of the vault: its file path, title, sorted tags and whether it is
/// published.
#[derive(Clone)]
pub struct Note {
    pub path: String,
    pub title: String,
    pub tags: Vec<String>,
    pub published: bool,
}

/// The text of a note.
pub struct NoteView {
    pub path: Seq<char>,
    pub title: Seq<char>,
    pub tags: Seq<Seq<char>>,
    pub published: bool,
}

impl View for Note {
    type V = NoteView;

    open spec fn view(&self) -> NoteView {
        NoteView {
            path: self.path@,
            title: self.title@,
            tags: views(self.tags@),
            published: self.published,
        }
    }
}

impl Note {
    /// A copy of this note.
    pub fn duplicate(&self) -> (r: Note)
        ensures
            r@ == self@,
    {
        let mut tags: Vec<String> = Vec::new();
        let mut i: usize = 0;
        while i < self.tags.len()
            invariant
                i <= self.tags@.len(),
                views(tags@) == views(self.tags@).take(i as int),
            decreases self.tags@.len() - i,
        {
            let ghost before = tags@;
            tags.push(self.tags[i].clone());
            assert(views(tags@) =~= views(before).push(self.tags@[i as int]@));
            assert(views(self.tags@).take(i + 1) =~= views(self.tags@).take(i as int).push(
                self.tags@[i as int]@,
            ));
            i = i + 1;
        }
        assert(views(self.tags@).take(i as int) =~= views(self.tags@));
        Note {
            path: self.path.clone(),
            title: self.title.clone(),
            tags,
            published: self.published,
        }
    }
}

pub open spec fn home_tag() -> Seq<char> {
    seq!['h', 'o', 'm', 'e']
}

pub open spec fn blog_tag() -> Seq<char> {
    seq!['a', 'n', 'm', '_', 'b', 'l', 'o', 'g']
}

pub open spec fn void_tag() -> Seq<char> {
    seq!['v', 'o', 'i', 'd']
}

/// Whether note `n` carries `tag`.
pub fn has_tag(n: &Note, tag: &str) -> (r: bool)
    ensures
        r == n@.tags.contains(tag@),
{
    let mut i: usize = 0;
    while i < n.tags.len()
        invariant
            i <= n.tags@.len(),
            forall|j: int| 0 <= j < i ==> views(n.tags@)[j] != tag@,
        decreases n.tags@.len() - i,
    {
        if same_text(n.tags[i].as_str(), tag) {
            assert(views(n.tags@)[i as int] == tag@);
            return true;
        }
        i = i + 1;
    }
    false
}

/// Whether `n` belongs on the home page: it is tagged `home`.
pub fn is_home(n: &Note) -> (r: bool)
    ensures
        r == n@.tags.contains(home_tag()),
{
    proof {
        reveal_strlit("home");
    }
    assert("home"@ =~= home_tag());
    has_tag(n, "home")
}

/// Whether `n` is a published blog post: it is tagged `anm_blog` and
/// published.
pub fn is_published_blog(n: &Note) -> (r: bool)
    ensures
        r == (n@.tags.contains(blog_tag()) && n@.published),
{
    proof {
        reveal_strlit("anm_blog");
    }
    assert("anm_blog"@ =~= blog_tag());
    has_tag(n, "anm_blog") && n.published
}

/// Whether `n` belongs to the void: it is tagged `void`.
pub fn is_void(n: &Note) -> (r: bool)
    ensures
        r == n@.tags.contains(void_tag()),
{
    proof {
        reveal_strlit("void");
    }
    assert("void"@ =~= void_tag());
    has_tag(n, "void")
}

/// Whether any tag of `n` is exactly `home`.
pub fn has_home_tag(n: &Note) -> (r: bool)
    ensures
        r == n@.tags.contains(home_tag()),
{
    is_home(n)
}

/// The key a note is stored under in a view: its path.
pub fn note_path(n: &Note) -> (r: String)
    ensures
        r@ == n@.path,
{
    n.path.clone()
}

/// The three views of the vault.
#[derive(Debug, Clone, Copy, PartialEq, Eq, Structural)]
pub enum ViewKind {
    Home,
    Blog,
    Void,
}

/// Which notes a view holds.
pub open spec fn in_view(kind: ViewKind, n: NoteView) -> bool {
    match kind {
        ViewKind::Home => n.tags.contains(home_tag()),
        ViewKind::Blog => n.tags.contains(blog_tag()) && n.published,
        ViewKind::Void => n.tags.contains(void_tag()),
    }
}

/// The home view holds exactly the notes tagged `home` and the void view
/// exactly the notes tagged `void`, published or not; the blog view holds
/// exactly the published notes tagged `anm_blog`.
pub proof fn law_views_by_tag(n: NoteView)
    ensures
        in_view(ViewKind::Home, n) <==> n.tags.contains(seq!['h', 'o', 'm', 'e']),
        in_view(ViewKind::Blog, n) <==> n.tags.contains(seq!['a', 'n', 'm', '_', 'b', 'l', 'o', 'g'])
            && n.published,
        in_view(ViewKind::Void, n) <==> n.tags.contains(seq!['v', 'o', 'i', 'd']),
        in_view(ViewKind::Home, (NoteView { published: !n.published, ..n })) == in_view(ViewKind::Home, n),
        in_view(ViewKind::Void, (NoteView { published: !n.published, ..n })) == in_view(ViewKind::Void, n),
        !n.published ==> !in_view(ViewKind::Blog, n),
{
}

/// Whether note `n` belongs in view `kind`: the filter of that view.
pub fn shows(kind: ViewKind, n: &Note) -> (r: bool)
    ensures
        r == in_view(kind, n@),
{
    match kind {
        ViewKind::Home => is_home(n),
        ViewKind::Blog => is_published_blog(n),
        ViewKind::Void => is_void(n),
    }
}

/// The record view `kind` holds for note `n`: the note keyed by its path,
/// when the view's filter admits it (a filter, then keying by path).
pub fn view(kind: ViewKind, n: &Note) -> (r: Option<Keyed<String, Note>>)
    ensures
        r matches Some(k) ==> in_view(kind, n@) && k.key@ == n@.path && k.val@ == n@,
        r is None ==> !in_view(kind, n@),
{
    if shows(kind, n) {
        Some(Keyed::new_by(n.duplicate(), note_path))
    } else {
        None
    }
}

/// The name of the table that holds view `kind`.
pub fn table_name(kind: ViewKind) -> (r: &'static str)
    ensures
        r@ == match kind {
            ViewKind::Home => home_tag() + seq!['_', 'n', 'o', 't', 'e', 's'],
            ViewKind::Blog => seq!['b', 'l', 'o', 'g'] + seq!['_', 'n', 'o', 't', 'e', 's'],
            ViewKind::Void => void_tag() + seq!['_', 'n', 'o', 't', 'e', 's'],
        },
{
    proof {
        reveal_strlit("home_notes");
        reveal_strlit("blog_notes");
        reveal_strlit("void_notes");
    }
    match kind {
        ViewKind::Home => {
            assert("home_notes"@ =~= home_tag() + seq!['_', 'n', 'o', 't', 'e', 's']);
            "home_notes"
        },
        ViewKind::Blog => {
            assert("blog_notes"@ =~= seq!['b', 'l', 'o', 'g'] + seq!['_', 'n', 'o', 't', 'e', 's']);
            "blog_notes"
        },
        ViewKind::Void => {
            assert("void_notes"@ =~= void_tag() + seq!['_', 'n', 'o', 't', 'e', 's']);
            "void_notes"
        },
    }
}

/// The view a name names.
pub open spec fn named_view(name: Seq<char>) -> Option<ViewKind> {
    if name == home_tag() {
        Some(ViewKind::Home)
    } else if name == seq!['b', 'l', 'o', 'g'] {
        Some(ViewKind::Blog)
    } else if name == void_tag() {
        Some(ViewKind::Void)
    } else {
        None
    }
}

/// The view a request names: `home`, `blog` or `void`; any other name
/// names no view (and is answered with no notes).
pub fn view_kind(name: &str) -> (r: Option<ViewKind>)
    ensures
        r == named_view(name@),
{
    proof {
        reveal_strlit("home");
        reveal_strlit("blog");
        reveal_strlit("void");
    }
    assert("home"@ =~= home_tag());
    assert("blog"@ =~= seq!['b', 'l', 'o', 'g']);
    assert("void"@ =~= void_tag());
    if same_text(name, "home") {
        Some(ViewKind::Home)
    } else if same_text(name, "blog") {
        Some(ViewKind::Blog)
    } else if same_text(name, "void") {
        Some(ViewKind::Void)
    } else {
        None
    }
}

/// The kinds of file-system event the watcher reacts to.
#[derive(Debug, Clone, Copy, PartialEq, Eq, Structural)]
pub enum FsEvent {
    Create,
    Modify,
    Remove,
    Other,
}

/// What the watcher does about one path of an event.
#[derive(Debug, Clone, Copy, PartialEq, Eq, Structural)]
pub enum EventAction {
    /// Not a note, or an event that changes nothing.
    Ignore,
    /// Read and parse the file again, and upsert the note.
    Reparse,
    /// Drop the note at this path.
    Forget,
}

/// Whether `path` is a note the watcher tracks: a markdown file with no
/// hidden component below the vault root `root` (both taken from the
/// working directory `cwd`).
pub open spec fn tracked_note(path: Seq<char>, root: Seq<char>, cwd: Seq<char>) -> bool {
    extension(path) == Some(seq!['m', 'd']) && !(exists|i: int|
        0 <= i < below_root(path, root, cwd).len() && dotted(#[trigger] below_root(path, root, cwd)[i]))
}

/// The watcher never tracks a file whose own name is hidden, below the vault
/// root or elsewhere: its events are ignored.
pub proof fn law_hidden_files_untracked(path: Seq<char>, root: Seq<char>, cwd: Seq<char>, n: Seq<char>)
    requires
        file_name(path) == Some(n),
        n.len() > 0 && n[0] == '.',
        resolved(root, cwd) != resolved(path, cwd),
    ensures
        !tracked_note(path, root, cwd),
{
    law_hidden_file_name_hides(path, root, cwd, n);
}

/// What to do about `path` after an event of kind `kind`, given whether the
/// path exists now, the vault root `root` and the working directory `cwd`
/// that relative paths start from: a created or modified note that exists is parsed again;
/// a created or modified note that no longer exists, and a removed note, is
/// dropped; anything else is ignored.
pub fn event_action(kind: FsEvent, path: &str, exists: bool, root: &str, cwd: &str) -> (r: EventAction)
    ensures
        r == (if !tracked_note(path@, root@, cwd@) {
            EventAction::Ignore
        } else {
            match kind {
                FsEvent::Create | FsEvent::Modify => if exists {
                    EventAction::Reparse
                } else {
                    EventAction::Forget
                },
                FsEvent::Remove => EventAction::Forget,
                FsEvent::Other => EventAction::Ignore,
            }
        }),
{
    if !is_md(path) || in_hidden_dir(path, root, cwd) {
        return EventAction::Ignore;
    }
    match kind {
        FsEvent::Create | FsEvent::Modify => if exists {
            EventAction::Reparse
        } else {
            EventAction::Forget
        },
        FsEvent::Remove => EventAction::Forget,
        FsEvent::Other => EventAction::Ignore,
    }
}

/// What the initial scan does with one directory entry.
#[derive(Debug, Clone, Copy, PartialEq, Eq, Structural)]
pub enum EntryAction {
    /// A hidden entry, or a file that is not markdown.
    Skip,
    /// A directory to scan.
    Descend,
    /// A markdown file to parse.
    Parse,
}

/// What the initial scan does with the entry at `path`: hidden entries
/// (never descended into) are skipped, directories are scanned, markdown
/// files are parsed, and anything else is skipped.
pub fn entry_action(path: &str, is_dir: bool) -> (r: EntryAction)
    ensures
        r == (if file_name(path@) matches Some(n) && dotted(n) {
            EntryAction::Skip
        } else if is_dir {
            EntryAction::Descend
        } else if extension(path@) == Some(seq!['m', 'd']) {
            EntryAction::Parse
        } else {
            EntryAction::Skip
        }),
{
    if is_hidden_name(path) {
        EntryAction::Skip
    } else if is_dir {
        EntryAction::Descend
    } else if is_md(path) {
        EntryAction::Parse
    } else {
        EntryAction::Skip
    }
}

} // verus!
