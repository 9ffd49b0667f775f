//! Parsing a note from the text of its markdown file: the front matter
//! (parsed by `frontmatter_gen`) gives tags, title and publication; the body
//! gives inline `#tags`; the file name gives the title when the front matter
//! has none.

use vstd::prelude::*;
use frontmatter_gen::Value;
use crate::notes::{Note, NoteView};
use crate::paths::{file_stem, file_stem_of};
use crate::tags::{body_tags, inline_tags, sorted_unique, strictly_sorted, views};
use crate::text::{chars_of, white_space};
use vstd::utf8::encode_utf8;

verus! {

#[verifier::external_type_specification]
#[verifier::external_body]
pub struct ExFrontmatter(frontmatter_gen::Frontmatter);

/// The formats front matter can be written in.
#[derive(Debug, Clone, Copy, PartialEq, Eq, Structural)]
pub enum FmFormat {
    Yaml,
    Toml,
    Json,
    Unsupported,
}

/// A front-matter value, as far as notes read it: a text, a boolean, a
/// list (each item's text, or `None` for an item that is not a text), or
/// anything else.
pub enum FmValue {
    Text(String),
    Flag(bool),
    List(Vec<Option<String>>),
    Other,
}

/// The meaning of an [`FmValue`].
pub enum FmView {
    Text(Seq<char>),
    Flag(bool),
    List(Seq<Option<Seq<char>>>),
    Other,
}

/// The texts of optional strings.
pub open spec fn opt_texts(items: Seq<Option<String>>) -> Seq<Option<Seq<char>>> {
    items.map_values(|o: Option<String>| opt_text(o))
}

impl View for FmValue {
    type V = FmView;

    open spec fn view(&self) -> FmView {
        match self {
            FmValue::Text(t) => FmView::Text(t@),
            FmValue::Flag(b) => FmView::Flag(*b),
            FmValue::List(items) => FmView::List(opt_texts(items@)),
            FmValue::Other => FmView::Other,
        }
    }
}

/// The meaning of an optional front-matter value.
pub open spec fn opt_fm(o: Option<FmValue>) -> Option<FmView> {
    match o {
        Some(v) => Some(v@),
        None => None,
    }
}

/// The value under `key` of a front-matter map.
pub open spec fn field(m: Map<Seq<char>, FmView>, key: Seq<char>) -> Option<FmView> {
    if m.contains_key(key) {
        Some(m[key])
    } else {
        None
    }
}


/// What `frontmatter_gen::extract_raw_frontmatter` finds in a text: the
/// raw front matter and the text after it.
pub uninterp spec fn front_matter_split(md: Seq<char>) -> Option<(Seq<char>, Seq<char>)>;

/// `s` without its leading white space (`str::trim_start`).
pub open spec fn trim_start(s: Seq<char>) -> Seq<char>
    decreases s.len(),
{
    if s.len() > 0 && white_space(s[0]) {
        trim_start(s.drop_first())
    } else {
        s
    }
}

/// Splitting at `\n`: the lines finished so far, and the one being read.
pub open spec fn scan_lines(s: Seq<char>) -> (Seq<Seq<char>>, Seq<char>)
    decreases s.len(),
{
    if s.len() == 0 {
        (seq![], seq![])
    } else {
        let (done, cur) = scan_lines(s.drop_last());
        if s.last() == '\n' {
            (done.push(cur), seq![])
        } else {
            (done, cur.push(s.last()))
        }
    }
}

/// The `\n`-separated lines of `s`. (`str::lines` also drops a `\r` before
/// each `\n` and a last empty line; neither changes the checks below.)
pub open spec fn text_lines(s: Seq<char>) -> Seq<Seq<char>> {
    scan_lines(s).0.push(scan_lines(s).1)
}

/// Whether a line opens or closes a fenced code block: after leading white
/// space it starts with three backticks or three tildes.
pub open spec fn fence_line(l: Seq<char>) -> bool {
    let t = trim_start(l);
    t.len() >= 3 && ((t[0] == '`' && t[1] == '`' && t[2] == '`') || (t[0] == '~' && t[1] == '~'
        && t[2] == '~'))
}

/// Whether a line holds `../`, `..\` or a NUL character.
pub open spec fn suspicious_line(l: Seq<char>) -> bool {
    ||| exists|i: int|
        0 <= i && i + 2 < l.len() && #[trigger] l[i] == '.' && l[i + 1] == '.' && (l[i + 2] == '/'
            || l[i + 2] == '\\')
    ||| l.contains('\0')
}

/// Reading lines in order: whether a suspicious line was met outside fenced
/// code, and whether the reading is inside fenced code.
pub open spec fn scan_fences(ls: Seq<Seq<char>>) -> (bool, bool)
    decreases ls.len(),
{
    if ls.len() == 0 {
        (false, false)
    } else {
        let (bad, inside) = scan_fences(ls.drop_last());
        let l = ls.last();
        if fence_line(l) {
            (bad, !inside)
        } else if inside {
            (bad, inside)
        } else {
            (bad || suspicious_line(l), inside)
        }
    }
}

/// Whether `frontmatter_gen::validate_input` with its default limits
/// accepts a text: no line outside fenced code holds `../`, `..\` or a NUL,
/// and the text is at most 1 MiB of UTF-8.
pub open spec fn front_matter_input_ok(md: Seq<char>) -> bool {
    !scan_fences(text_lines(md)).0 && encode_utf8(md).len() <= 1048576
}

/// The format of raw front matter, judged after leading white space: `---`
/// opens YAML, `{` opens JSON; otherwise a `:` with no `{` anywhere is
/// YAML, and an `=` is TOML; anything else has no detectable format.
pub open spec fn front_matter_format(raw: Seq<char>) -> Option<FmFormat> {
    let t = trim_start(raw);
    if starts_with_dashes(t) {
        Some(FmFormat::Yaml)
    } else if t.len() > 0 && t[0] == '{' {
        Some(FmFormat::Json)
    } else if t.contains(':') && !t.contains('{') {
        Some(FmFormat::Yaml)
    } else if t.contains('=') {
        Some(FmFormat::Toml)
    } else {
        None
    }
}

/// What `frontmatter_gen::parse` makes of raw front matter in a format:
/// each key with its value read as an [`FmView`].
pub uninterp spec fn front_matter_parsed(raw: Seq<char>, f: FmFormat) -> Option<Map<Seq<char>, FmView>>;

/// The keys of a parsed front matter with their values, each read as an
/// [`FmView`]: a `Value::String` as its text, a `Value::Boolean` as its
/// flag, a `Value::Array` as the texts of its items (`None` for an item that
/// is not a `Value::String`), anything else as `Other`.
pub uninterp spec fn front_matter_entries(fm: frontmatter_gen::Frontmatter) -> Map<Seq<char>, FmView>;

/// `frontmatter_gen::validate_input` with `ParseOptions::default()`: whether
/// the text passes the input checks (size, no `../`, no NUL outside fenced
/// code). The limits are the crate's fixed defaults (`MAX_FRONTMATTER_SIZE`
/// and `MAX_NESTING_DEPTH`), the ones `ParseOptions::from_env` falls back to
/// when the environment sets none; limits from the environment are not
/// read, since they would make the result depend on more than the text.
#[verifier::external_body]
fn check_front_matter_input(md: &str) -> (r: bool)
    ensures
        r == front_matter_input_ok(md@),
{
    frontmatter_gen::validate_input(md, &frontmatter_gen::ParseOptions::default()).is_ok()
}

/// `frontmatter_gen::extract_raw_frontmatter` on a text that starts with
/// `---`: the raw front matter and the text after it, which is a suffix of
/// the text.
#[verifier::external_body]
fn split_front_matter(md: &str) -> (r: Option<(String, String)>)
    requires
        starts_with_dashes(md@),
    ensures
        match r {
            Some((raw, body)) => front_matter_split(md@) == Some((raw@, body@)),
            None => front_matter_split(md@) is None,
        },
        r matches Some((_, body)) ==> md@.len() >= body@.len() && body@ == md@.skip(
            md@.len() - body@.len(),
        ),
{
    match frontmatter_gen::extract_raw_frontmatter(md) {
        Ok((raw, body)) => Some((raw.to_string(), body.to_string())),
        Err(_) => None,
    }
}

/// `frontmatter_gen::detect_format`: the format of raw front matter, as
/// [`front_matter_format`] states it. (The `Ok(_)` arm covers the crate's
/// non-exhaustive `Format`; `detect_format` returns no other format.)
#[verifier::external_body]
fn detect_front_matter_format(raw: &str) -> (r: Option<FmFormat>)
    ensures
        r == front_matter_format(raw@),
{
    match frontmatter_gen::detect_format(raw) {
        Ok(frontmatter_gen::Format::Yaml) => Some(FmFormat::Yaml),
        Ok(frontmatter_gen::Format::Toml) => Some(FmFormat::Toml),
        Ok(frontmatter_gen::Format::Json) => Some(FmFormat::Json),
        Ok(_) => Some(FmFormat::Unsupported),
        Err(_) => None,
    }
}

/// `frontmatter_gen::parse`: the front matter that raw text in format `f`
/// describes, if it parses.
#[verifier::external_body]
fn parse_front_matter(raw: &str, f: FmFormat) -> (r: Option<frontmatter_gen::Frontmatter>)
    ensures
        match r {
            Some(fm) => front_matter_parsed(raw@, f) == Some(front_matter_entries(fm)),
            None => front_matter_parsed(raw@, f) is None,
        },
{
    let format = match f {
        FmFormat::Yaml => frontmatter_gen::Format::Yaml,
        FmFormat::Toml => frontmatter_gen::Format::Toml,
        FmFormat::Json => frontmatter_gen::Format::Json,
        FmFormat::Unsupported => frontmatter_gen::Format::Unsupported,
    };
    frontmatter_gen::parse(raw, format).ok()
}

/// `Frontmatter::get`: the value under `key`, read as an [`FmValue`].
#[verifier::external_body]
fn front_matter_field(fm: &frontmatter_gen::Frontmatter, key: &str) -> (r: Option<FmValue>)
    ensures
        opt_fm(r) == field(front_matter_entries(*fm), key@),
{
    match fm.get(key) {
        None => None,
        Some(Value::String(t)) => Some(FmValue::Text(t.clone())),
        Some(Value::Boolean(b)) => Some(FmValue::Flag(*b)),
        Some(Value::Array(items)) => Some(
            FmValue::List(items.iter().map(|i| i.as_str().map(String::from)).collect()),
        ),
        Some(_) => Some(FmValue::Other),
    }
}

/// The texts among a front-matter list's items, in order.
pub open spec fn texts(items: Seq<Option<Seq<char>>>) -> Seq<Seq<char>>
    decreases items.len(),
{
    if items.len() == 0 {
        seq![]
    } else {
        match items.last() {
            Some(t) => texts(items.drop_last()).push(t),
            None => texts(items.drop_last()),
        }
    }
}

/// The tags a front-matter `tags` value gives: the texts of a list, or a
/// single text.
pub open spec fn fm_tags(v: Option<FmView>) -> Seq<Seq<char>> {
    match v {
        Some(FmView::List(items)) => texts(items),
        Some(FmView::Text(t)) => seq![t],
        _ => seq![],
    }
}

/// The title a front-matter `title` value gives: its text, if it is one.
pub open spec fn fm_title(v: Option<FmView>) -> Option<Seq<char>> {
    match v {
        Some(FmView::Text(t)) => Some(t),
        _ => None,
    }
}

/// Whether a front-matter `published` value marks a note published: it is
/// the boolean `true`.
pub open spec fn fm_published(v: Option<FmView>) -> bool {
    v == Some(FmView::Flag(true))
}

pub open spec fn tags_key() -> Seq<char> {
    seq!['t', 'a', 'g', 's']
}

pub open spec fn title_key() -> Seq<char> {
    seq!['t', 'i', 't', 'l', 'e']
}

pub open spec fn published_key() -> Seq<char> {
    seq!['p', 'u', 'b', 'l', 'i', 's', 'h', 'e', 'd']
}

/// The front matter of a note's text and the body after it: found only in a
/// text that starts with `---` and passes the input checks, whose raw front
/// matter splits off, has a detectable format and parses.
pub open spec fn front_matter_of(md: Seq<char>) -> Option<(Map<Seq<char>, FmView>, Seq<char>)> {
    if starts_with_dashes(md) && front_matter_input_ok(md) {
        match front_matter_split(md) {
            Some((raw, body)) => match front_matter_format(raw) {
                Some(f) => match front_matter_parsed(raw, f) {
                    Some(m) => Some((m, body)),
                    None => None,
                },
                None => None,
            },
            None => None,
        }
    } else {
        None
    }
}

/// The title of a note: the front matter's `title`, else the file stem of
/// its path, else empty.
pub open spec fn title_of(path: Seq<char>, fm_title: Option<Seq<char>>) -> Seq<char> {
    match fm_title {
        Some(t) => t,
        None => match file_stem(path) {
            Some(s) => s,
            None => seq![],
        },
    }
}

/// `n` is the note at `path` with front-matter tags `fm_tags`, front-matter
/// title `fm_title`, publication flag `published` and body `body`: its tags
/// are those of the front matter and the inline tags of the body, sorted and
/// without duplicates.
pub open spec fn note_of(
    n: NoteView,
    path: Seq<char>,
    fm_tags: Seq<Seq<char>>,
    fm_title: Option<Seq<char>>,
    published: bool,
    body: Seq<char>,
) -> bool {
    &&& n.path == path
    &&& n.title == title_of(path, fm_title)
    &&& n.published == published
    &&& strictly_sorted(n.tags)
    &&& n.tags.to_set() == (fm_tags + body_tags(body)).to_set()
}

/// The text of an optional string.
pub open spec fn opt_text(o: Option<String>) -> Option<Seq<char>> {
    match o {
        Some(t) => Some(t@),
        None => None,
    }
}

/// Whether `s` starts with the front-matter delimiter `---`.
pub open spec fn starts_with_dashes(s: Seq<char>) -> bool {
    s.len() >= 3 && s[0] == '-' && s[1] == '-' && s[2] == '-'
}

/// The note at `path` from its parts.
pub fn note_from_parts(
    path: &str,
    fm_tags: Vec<String>,
    fm_title: Option<String>,
    published: bool,
    body: &str,
) -> (r: Note)
    ensures
        note_of(
            r@,
            path@,
            views(fm_tags@),
            opt_text(fm_title),
            published,
            body@,
        ),
{
    let mut all = fm_tags;
    let ghost fv = views(all@);
    let inline = inline_tags(body);
    let mut i: usize = 0;
    while i < inline.len()
        invariant
            i <= inline@.len(),
            views(inline@) == body_tags(body@),
            views(all@) == fv + views(inline@).take(i as int),
        decreases inline@.len() - i,
    {
        let ghost before = all@;
        all.push(inline[i].clone());
        assert(views(all@) =~= views(before).push(inline@[i as int]@));
        assert(views(inline@).take(i + 1) =~= views(inline@).take(i as int).push(inline@[i as int]@));
        i = i + 1;
    }
    assert(views(inline@).take(i as int) =~= views(inline@));
    let tags = sorted_unique(all);
    let title = match fm_title {
        Some(t) => t,
        None => match file_stem_of(path) {
            Some(s) => s,
            None => String::new(),
        },
    };
    Note { path: path.to_owned(), title, tags, published }
}

/// The note at `path` from its front-matter `tags`, `title` and `published`
/// values and its body: tags from the front matter (a list's texts, or a
/// single text) and the body's inline tags, sorted and without duplicates;
/// the title from the front matter if it is a text, else the file stem, else
/// empty; published exactly when `published` is the boolean `true`.
pub fn note_from_fields(
    path: &str,
    tags: Option<FmValue>,
    title: Option<FmValue>,
    published: Option<FmValue>,
    body: &str,
) -> (r: Note)
    ensures
        note_of(r@, path@, fm_tags(opt_fm(tags)), fm_title(opt_fm(title)), fm_published(opt_fm(published)), body@),
{
    let ghost tv = opt_fm(tags);
    let mut fm: Vec<String> = Vec::new();
    match tags {
        Some(FmValue::List(items)) => {
            let ghost iv = opt_texts(items@);
            let mut i: usize = 0;
            assert(iv.take(0) =~= seq![]);
            assert(views(fm@) =~= seq![]);
            while i < items.len()
                invariant
                    i <= items@.len(),
                    iv == opt_texts(items@),
                    views(fm@) == texts(iv.take(i as int)),
                decreases items@.len() - i,
            {
                assert(iv.take(i + 1).drop_last() =~= iv.take(i as int));
                assert(iv.take(i + 1).last() == opt_text(items@[i as int]));
                match &items[i] {
                    Some(t) => {
                        let ghost before = fm@;
                        fm.push(t.clone());
                        assert(views(fm@) =~= views(before).push(t@));
                    },
                    None => {},
                }
                i = i + 1;
            }
            assert(iv.take(i as int) =~= iv);
        },
        Some(FmValue::Text(t)) => {
            fm.push(t);
            assert(views(fm@) =~= seq![fm@[0]@]);
        },
        _ => {
            assert(views(fm@) =~= seq![]);
        },
    }
    assert(views(fm@) == fm_tags(tv));
    let fm_title_text = match title {
        Some(FmValue::Text(t)) => Some(t),
        _ => None,
    };
    let flag = match published {
        Some(FmValue::Flag(b)) => b,
        _ => false,
    };
    note_from_parts(path, fm, fm_title_text, flag, body)
}

/// `n` is the note at `path` that the text `md` of its file describes: from
/// the front matter and the body after it when the front matter can be
/// read, else from the whole text as body.
pub open spec fn parsed_note(n: NoteView, path: Seq<char>, md: Seq<char>) -> bool {
    match front_matter_of(md) {
        Some((m, body)) => note_of(
            n,
            path,
            fm_tags(field(m, tags_key())),
            fm_title(field(m, title_key())),
            fm_published(field(m, published_key())),
            body,
        ),
        None => note_of(n, path, seq![], None, false, md),
    }
}

/// A note built from front-matter values is published exactly when its
/// `published` value is the boolean `true`: a missing value, `false`, a
/// text such as `"true"`, a list or anything else leaves it unpublished.
pub proof fn law_published_only_by_boolean_true(
    n: NoteView,
    path: Seq<char>,
    tags: Seq<Seq<char>>,
    title: Option<Seq<char>>,
    published: Option<FmView>,
    body: Seq<char>,
)
    requires
        note_of(n, path, tags, title, fm_published(published), body),
    ensures
        n.published <==> published == Some(FmView::Flag(true)),
        published is None ==> !n.published,
{
}

/// A parsed note is published exactly when its file has readable front
/// matter whose key `published` holds the boolean `true`; a file without
/// front matter, or whose front matter lacks the key, gives a draft.
pub proof fn law_parsed_published(n: NoteView, path: Seq<char>, md: Seq<char>)
    requires
        parsed_note(n, path, md),
    ensures
        n.published <==> (front_matter_of(md) matches Some((m, _)) && m.contains_key(
            seq!['p', 'u', 'b', 'l', 'i', 's', 'h', 'e', 'd'],
        ) && m[seq!['p', 'u', 'b', 'l', 'i', 's', 'h', 'e', 'd']] == FmView::Flag(true)),
{
}

/// The texts of a list are exactly its items that are texts.
proof fn lemma_texts_contains(items: Seq<Option<Seq<char>>>, t: Seq<char>)
    ensures
        texts(items).contains(t) <==> items.contains(Some(t)),
    decreases items.len(),
{
    if items.len() > 0 {
        let q = items.drop_last();
        lemma_texts_contains(q, t);
        if q.contains(Some(t)) {
            let k = choose|k: int| 0 <= k < q.len() && q[k] == Some(t);
            assert(items[k] == Some(t));
        }
        if items.contains(Some(t)) {
            let k = choose|k: int| 0 <= k < items.len() && items[k] == Some(t);
            if k < q.len() {
                assert(q[k] == Some(t));
            }
        }
        match items.last() {
            Some(u) => {
                let r = texts(q);
                assert(texts(items) == r.push(u));
                if r.contains(t) {
                    let k = choose|k: int| 0 <= k < r.len() && r[k] == t;
                    assert(r.push(u)[k] == t);
                }
                if r.push(u).contains(t) {
                    let k = choose|k: int| 0 <= k < r.push(u).len() && r.push(u)[k] == t;
                    if k < r.len() {
                        assert(r[k] == t);
                    }
                }
                assert(r.push(u)[r.len() as int] == u);
            },
            None => {},
        }
        assert(items[items.len() - 1] == items.last());
    }
}

/// A parsed note carries exactly these tags: the front matter's `tags`
/// text, or the texts among its `tags` list, and the inline tags of the body
/// (the whole text when the front matter cannot be read).
pub proof fn law_parsed_tags(n: NoteView, path: Seq<char>, md: Seq<char>, t: Seq<char>)
    requires
        parsed_note(n, path, md),
    ensures
        n.tags.contains(t) <==> match front_matter_of(md) {
            Some((m, body)) => (m.contains_key(seq!['t', 'a', 'g', 's']) && (m[seq!['t', 'a', 'g', 's']]
                == FmView::Text(t) || (m[seq!['t', 'a', 'g', 's']] is List && m[seq![
                't',
                'a',
                'g',
                's',
            ]]->List_0.contains(Some(t))))) || body_tags(body).contains(t),
            None => body_tags(md).contains(t),
        },
{
    assert(n.tags.contains(t) <==> n.tags.to_set().contains(t));
    match front_matter_of(md) {
        Some((m, body)) => {
            let ft = fm_tags(field(m, tags_key()));
            assert((ft + body_tags(body)).to_set().contains(t) <==> (ft + body_tags(body)).contains(t));
            assert((ft + body_tags(body)).contains(t) <==> (ft.contains(t) || body_tags(body).contains(t))) by {
                if (ft + body_tags(body)).contains(t) {
                    let k = choose|k: int| 0 <= k < (ft + body_tags(body)).len() && (ft + body_tags(body))[k] == t;
                    if k < ft.len() {
                        assert(ft[k] == t);
                    } else {
                        assert(body_tags(body)[k - ft.len()] == t);
                    }
                }
                if ft.contains(t) {
                    let k = choose|k: int| 0 <= k < ft.len() && ft[k] == t;
                    assert((ft + body_tags(body))[k] == t);
                }
                if body_tags(body).contains(t) {
                    let k = choose|k: int| 0 <= k < body_tags(body).len() && body_tags(body)[k] == t;
                    assert((ft + body_tags(body))[k + ft.len()] == t);
                }
            }
            if m.contains_key(tags_key()) {
                match m[tags_key()] {
                    FmView::List(items) => {
                        lemma_texts_contains(items, t);
                    },
                    FmView::Text(u) => {
                        assert(ft == seq![u]);
                        assert(ft.contains(t) <==> u == t) by {
                            if u == t {
                                assert(ft[0] == t);
                            }
                        }
                    },
                    _ => {},
                }
            }
            assert(tags_key() =~= seq!['t', 'a', 'g', 's']);
        },
        None => {
            assert((seq![] + body_tags(md)) =~= body_tags(md));
            assert(body_tags(md).to_set().contains(t) <==> body_tags(md).contains(t));
        },
    }
}

/// The title of a parsed note is its front matter's `title` text when there
/// is one, else the file stem of its path, else empty.
pub proof fn law_parsed_title(n: NoteView, path: Seq<char>, md: Seq<char>)
    requires
        parsed_note(n, path, md),
    ensures
        n.title == match front_matter_of(md) {
            Some((m, _)) => if m.contains_key(seq!['t', 'i', 't', 'l', 'e']) && m[seq![
                't',
                'i',
                't',
                'l',
                'e',
            ]] is Text {
                m[seq!['t', 'i', 't', 'l', 'e']]->Text_0
            } else {
                match file_stem(path) {
                    Some(s) => s,
                    None => seq![],
                }
            },
            None => match file_stem(path) {
                Some(s) => s,
                None => seq![],
            },
        },
{
}

/// Parses the note at `path` from the text of its file.
///
/// Front matter is looked for only when the text starts with `---`; when
/// there is none, or it cannot be read, the whole text is the body, with no
/// front-matter tags, the file stem as title, and unpublished.
pub fn parse_note(path: &str, markdown: &str) -> (r: Note)
    ensures
        parsed_note(r@, path@, markdown@),
{
    proof {
        reveal_strlit("tags");
        reveal_strlit("title");
        reveal_strlit("published");
    }
    assert("tags"@ =~= tags_key());
    assert("title"@ =~= title_key());
    assert("published"@ =~= published_key());
    let cs = chars_of(markdown);
    let dashed = cs.len() >= 3 && cs[0] == '-' && cs[1] == '-' && cs[2] == '-';
    assert(dashed == starts_with_dashes(markdown@));
    if dashed && check_front_matter_input(markdown) {
        match split_front_matter(markdown) {
            Some((raw, body)) => match detect_front_matter_format(raw.as_str()) {
                Some(f) => match parse_front_matter(raw.as_str(), f) {
                    Some(fm) => {
                        let tags = front_matter_field(&fm, "tags");
                        let title = front_matter_field(&fm, "title");
                        let published = front_matter_field(&fm, "published");
                        return note_from_fields(path, tags, title, published, body.as_str());
                    },
                    None => {},
                },
                None => {},
            },
            None => {},
        }
    }
    note_from_parts(path, Vec::new(), None, false, markdown)
}

} // verus!
