//! Tags of a note: the `#tag` words of its body, merged with the tags of its
//! front matter into a sorted list without duplicates.

use vstd::prelude::*;
use crate::text::{
    alphanumeric, chars_of, is_alphanumeric, is_whitespace, lemma_lex_total, lemma_lex_transitive,
    lex_less, lex_lt, string_of, white_space,
};

verus! {

/// Splitting `s` at Unicode white space, as `str::split_whitespace` does:
/// the words finished so far, and the word still being read.
pub open spec fn scan_words(s: Seq<char>) -> (Seq<Seq<char>>, Seq<char>)
    decreases s.len(),
{
    if s.len() == 0 {
        (seq![], seq![])
    } else {
        let (done, cur) = scan_words(s.drop_last());
        let c = s.last();
        if white_space(c) {
            if cur.len() > 0 {
                (done.push(cur), seq![])
            } else {
                (done, seq![])
            }
        } else {
            (done, cur.push(c))
        }
    }
}

/// The non-empty maximal runs of non-white-space characters of `s`.
pub open spec fn words(s: Seq<char>) -> Seq<Seq<char>> {
    let (done, cur) = scan_words(s);
    if cur.len() > 0 {
        done.push(cur)
    } else {
        done
    }
}

/// A word that names a tag: `#` followed by an alphanumeric character.
pub open spec fn is_tag_word(w: Seq<char>) -> bool {
    w.len() >= 2 && w[0] == '#' && alphanumeric(w[1])
}

/// `t` without its trailing non-alphanumeric characters.
pub open spec fn trim_trailing(t: Seq<char>) -> Seq<char>
    decreases t.len(),
{
    if t.len() > 0 && !alphanumeric(t.last()) {
        trim_trailing(t.drop_last())
    } else {
        t
    }
}

/// Trimming keeps a prefix of `t` and drops only non-alphanumeric
/// characters; what it keeps ends in an alphanumeric character, and it
/// keeps something whenever `t` starts with one.
proof fn lemma_trim_trailing(t: Seq<char>)
    ensures
        trim_trailing(t).len() <= t.len(),
        trim_trailing(t) == t.take(trim_trailing(t).len() as int),
        forall|i: int| trim_trailing(t).len() <= i < t.len() ==> !alphanumeric(#[trigger] t[i]),
        trim_trailing(t).len() > 0 ==> alphanumeric(trim_trailing(t).last()),
        t.len() > 0 && alphanumeric(t[0]) ==> trim_trailing(t).len() > 0,
    decreases t.len(),
{
    if t.len() > 0 && !alphanumeric(t.last()) {
        let u = t.drop_last();
        lemma_trim_trailing(u);
        assert(u.take(trim_trailing(u).len() as int) =~= t.take(trim_trailing(u).len() as int));
        assert forall|i: int| trim_trailing(t).len() <= i < t.len() implies !alphanumeric(#[trigger] t[i]) by {
            if i < u.len() {
                assert(t[i] == u[i]);
            }
        }
        if t.len() > 1 && alphanumeric(t[0]) {
            assert(u[0] == t[0]);
        }
    } else {
        assert(t.take(t.len() as int) =~= t);
    }
}

/// A tag is its word without the `#`, cut only after its last alphanumeric
/// character (Unicode letters and digits such as `é` or `日` stay): it is a
/// non-empty prefix of the word's rest, ends in an alphanumeric character,
/// and everything cut off is non-alphanumeric.
pub proof fn law_tag_keeps_alphanumeric_end(w: Seq<char>)
    requires
        is_tag_word(w),
    ensures
        tag_of_word(w).len() > 0,
        tag_of_word(w) == w.drop_first().take(tag_of_word(w).len() as int),
        alphanumeric(tag_of_word(w).last()),
        forall|i: int|
            tag_of_word(w).len() <= i < w.len() - 1 ==> !alphanumeric(#[trigger] w.drop_first()[i]),
{
    lemma_trim_trailing(w.drop_first());
    assert(w.drop_first()[0] == w[1]);
}

/// The tag named by a tag word: the word without its `#` and trailing
/// punctuation.
pub open spec fn tag_of_word(w: Seq<char>) -> Seq<char> {
    trim_trailing(w.drop_first())
}

/// The tags named by the tag words among `ws`, in order.
pub open spec fn tags_of_words(ws: Seq<Seq<char>>) -> Seq<Seq<char>>
    decreases ws.len(),
{
    if ws.len() == 0 {
        seq![]
    } else {
        let r = tags_of_words(ws.drop_last());
        if is_tag_word(ws.last()) {
            r.push(tag_of_word(ws.last()))
        } else {
            r
        }
    }
}

/// The tags of a list of words are exactly the tags of its words that are
/// `#` followed by an alphanumeric character, each once per such word: every
/// such word yields its tag, and every tag comes from such a word.
pub proof fn law_tags_come_from_hash_words(ws: Seq<Seq<char>>, t: Seq<char>)
    ensures
        tags_of_words(ws).contains(t) <==> exists|i: int|
            0 <= i < ws.len() && (#[trigger] ws[i]).len() >= 2 && ws[i][0] == '#' && alphanumeric(ws[i][1])
                && tag_of_word(ws[i]) == t,
    decreases ws.len(),
{
    if ws.len() > 0 {
        let q = ws.drop_last();
        let r = tags_of_words(q);
        law_tags_come_from_hash_words(q, t);
        if exists|i: int|
            0 <= i < q.len() && (#[trigger] q[i]).len() >= 2 && q[i][0] == '#' && alphanumeric(q[i][1])
                && tag_of_word(q[i]) == t {
            let i = choose|i: int|
                0 <= i < q.len() && (#[trigger] q[i]).len() >= 2 && q[i][0] == '#' && alphanumeric(q[i][1])
                    && tag_of_word(q[i]) == t;
            assert(ws[i] == q[i]);
        }
        if exists|i: int|
            0 <= i < ws.len() && (#[trigger] ws[i]).len() >= 2 && ws[i][0] == '#' && alphanumeric(ws[i][1])
                && tag_of_word(ws[i]) == t {
            let i = choose|i: int|
                0 <= i < ws.len() && (#[trigger] ws[i]).len() >= 2 && ws[i][0] == '#' && alphanumeric(ws[i][1])
                    && tag_of_word(ws[i]) == t;
            if i < q.len() {
                assert(q[i] == ws[i]);
            }
        }
        assert(ws[ws.len() - 1] == ws.last());
        if is_tag_word(ws.last()) {
            let u = tag_of_word(ws.last());
            assert(tags_of_words(ws) == r.push(u));
            if r.contains(t) {
                let k = choose|k: int| 0 <= k < r.len() && r[k] == t;
                assert(r.push(u)[k] == t);
            }
            if r.push(u).contains(t) {
                let k = choose|k: int| 0 <= k < r.push(u).len() && r.push(u)[k] == t;
                if k < r.len() {
                    assert(r[k] == t);
                }
            }
            assert(r.push(u)[r.len() as int] == u);
        }
    }
}

/// The inline tags of a note body.
pub open spec fn body_tags(body: Seq<char>) -> Seq<Seq<char>> {
    tags_of_words(words(body))
}

/// The views of a vector of strings.
pub open spec fn views(v: Seq<String>) -> Seq<Seq<char>> {
    v.map_values(|s: String| s@)
}

/// `s` is strictly increasing in lexicographic order.
pub open spec fn strictly_sorted(s: Seq<Seq<char>>) -> bool {
    forall|i: int, j: int| 0 <= i < j < s.len() ==> lex_lt(#[trigger] s[i], #[trigger] s[j])
}

/// Whether `w[lo..hi]` is a tag word, and if so its tag.
fn tag_in(w: &Vec<char>, lo: usize, hi: usize) -> (r: Option<String>)
    requires
        lo <= hi <= w@.len(),
    ensures
        is_tag_word(w@.subrange(lo as int, hi as int)) ==> (r matches Some(t) && t@ == tag_of_word(
            w@.subrange(lo as int, hi as int),
        )),
        !is_tag_word(w@.subrange(lo as int, hi as int)) ==> r is None,
{
    let ghost word = w@.subrange(lo as int, hi as int);
    if hi - lo < 2 || w[lo] != '#' || !is_alphanumeric(w[lo + 1]) {
        return None;
    }
    let mut end: usize = hi;
    proof {
        assert(word.drop_first() =~= w@.subrange(lo + 1, hi as int));
    }
    while end > lo + 1 && !is_alphanumeric(w[end - 1])
        invariant
            lo + 2 <= hi <= w@.len(),
            lo + 1 <= end <= hi,
            word == w@.subrange(lo as int, hi as int),
            trim_trailing(word.drop_first()) == trim_trailing(w@.subrange(lo + 1, end as int)),
        decreases end,
    {
        assert(w@.subrange(lo + 1, end as int).drop_last() =~= w@.subrange(lo + 1, end - 1));
        end = end - 1;
    }
    proof {
        let t = w@.subrange(lo + 1, end as int);
        if end > lo + 1 {
            assert(t.last() == w@[end - 1]);
        } else {
            assert(t.len() == 0);
        }
    }
    Some(string_of(w, lo + 1, end))
}

/// The inline tags of a note body: every whitespace-separated word that
/// starts with `#` followed by an alphanumeric character, without the `#`
/// and without trailing non-alphanumeric characters, in order of appearance.
pub fn inline_tags(body: &str) -> (r: Vec<String>)
    ensures
        views(r@) == body_tags(body@),
{
    let cs = chars_of(body);
    let mut tags: Vec<String> = Vec::new();
    let mut start: usize = 0;
    let mut i: usize = 0;
    assert(cs@.take(0) =~= seq![]);
    assert(cs@.subrange(0, 0) =~= seq![]);
    assert(views(tags@) =~= seq![]);
    while i < cs.len()
        invariant
            cs@ == body@,
            start <= i <= cs@.len(),
            scan_words(cs@.take(i as int)).1 == cs@.subrange(start as int, i as int),
            views(tags@) == tags_of_words(scan_words(cs@.take(i as int)).0),
        decreases cs@.len() - i,
    {
        let ghost pre = cs@.take(i as int);
        let ghost done = scan_words(pre).0;
        assert(cs@.take(i + 1).drop_last() =~= pre);
        assert(cs@.take(i + 1).last() == cs@[i as int]);
        if is_whitespace(cs[i]) {
            if start < i {
                let t = tag_in(&cs, start, i);
                let ghost cur = cs@.subrange(start as int, i as int);
                assert(done.push(cur).drop_last() =~= done);
                match t {
                    Some(t) => {
                        let ghost old_tags = tags@;
                        tags.push(t);
                        assert(views(tags@) =~= views(old_tags).push(t@));
                    },
                    None => {},
                }
            }
            start = i + 1;
            assert(cs@.subrange(start as int, i + 1) =~= seq![]);
        } else {
            assert(cs@.subrange(start as int, i + 1) =~= cs@.subrange(start as int, i as int).push(
                cs@[i as int],
            ));
        }
        i = i + 1;
    }
    assert(cs@.take(i as int) =~= cs@);
    if start < i {
        let ghost done = scan_words(cs@).0;
        let ghost cur = cs@.subrange(start as int, i as int);
        assert(done.push(cur).drop_last() =~= done);
        match tag_in(&cs, start, i) {
            Some(t) => {
                let ghost old_tags = tags@;
                tags.push(t);
                assert(views(tags@) =~= views(old_tags).push(t@));
            },
            None => {},
        }
    }
    tags
}

/// Adds `s` to the strictly sorted `v`, unless it is already there.
fn insert_sorted(v: &mut Vec<String>, s: String)
    requires
        strictly_sorted(views(old(v)@)),
    ensures
        strictly_sorted(views(final(v)@)),
        views(final(v)@).to_set() == views(old(v)@).to_set().insert(s@),
{
    let ghost vs = views(v@);
    let mut j: usize = 0;
    while j < v.len() && lex_less(v[j].as_str(), s.as_str())
        invariant
            j <= v@.len(),
            vs == views(v@),
            strictly_sorted(vs),
            forall|k: int| 0 <= k < j ==> lex_lt(#[trigger] vs[k], s@),
        decreases v@.len() - j,
    {
        j = j + 1;
    }
    if j < v.len() && v[j] == s {
        assert(vs.to_set().insert(s@) =~= vs.to_set()) by {
            assert(vs[j as int] == s@);
        }
        return;
    }
    proof {
        if j < vs.len() {
            lemma_lex_total(vs[j as int], s@);
        }
    }
    v.insert(j, s);
    let ghost ws = views(v@);
    assert(ws =~= vs.insert(j as int, s@));
    assert forall|a: int, b: int| 0 <= a < b < ws.len() implies lex_lt(
        #[trigger] ws[a],
        #[trigger] ws[b],
    ) by {
        if b == j {
        } else if a == j {
            if b > j + 1 {
                lemma_lex_transitive(s@, vs[j as int], vs[b - 1]);
            }
        } else if a < j && b > j {
            assert(lex_lt(vs[a], s@));
            if b - 1 > j {
                lemma_lex_transitive(s@, vs[j as int], vs[b - 1]);
            }
            lemma_lex_transitive(vs[a], s@, vs[b - 1]);
        } else if a > j {
            assert(lex_lt(vs[a - 1], vs[b - 1]));
        }
    }
    assert(ws.to_set() =~= vs.to_set().insert(s@)) by {
        assert forall|x: Seq<char>| ws.to_set().contains(x) <==> vs.to_set().insert(s@).contains(x) by {
            if ws.contains(x) {
                let k = choose|k: int| 0 <= k < ws.len() && ws[k] == x;
                if k < j {
                    assert(vs[k] == x);
                } else if k > j {
                    assert(vs[k - 1] == x);
                }
            }
            if vs.contains(x) {
                let k = choose|k: int| 0 <= k < vs.len() && vs[k] == x;
                if k < j {
                    assert(ws[k] == x);
                } else {
                    assert(ws[k + 1] == x);
                }
            }
            if x == s@ {
                assert(ws[j as int] == x);
            }
        }
    }
}

/// The tags of `tags`, sorted and without duplicates (`sort` then `dedup`).
pub fn sorted_unique(tags: Vec<String>) -> (r: Vec<String>)
    ensures
        strictly_sorted(views(r@)),
        views(r@).to_set() == views(tags@).to_set(),
{
    let mut out: Vec<String> = Vec::new();
    let mut i: usize = 0;
    let n = tags.len();
    assert(views(out@).to_set() =~= views(tags@).take(0).to_set());
    while i < n
        invariant
            n == tags@.len(),
            i <= n,
            strictly_sorted(views(out@)),
            views(out@).to_set() == views(tags@).take(i as int).to_set(),
        decreases n - i,
    {
        let t = tags[i].clone();
        insert_sorted(&mut out, t);
        assert(views(tags@).take(i + 1) =~= views(tags@).take(i as int).push(tags@[i as int]@));
        proof {
            views(tags@).take(i as int).lemma_push_to_set_commute(tags@[i as int]@);
        }
        i = i + 1;
    }
    assert(views(tags@).take(n as int) =~= views(tags@));
    out
}

} // verus!
