//! Unix path logic on strings: components, file names, extensions and the
//! hidden-file rules of the vault watcher, following `std::path::Path`.

use vstd::prelude::*;
use crate::tags::views;
use crate::text::{chars_are, chars_of, same_text, string_of};

verus! {

/// Splitting at `/`: the segments finished so far, and the one being read.
pub open spec fn scan_segments(s: Seq<char>) -> (Seq<Seq<char>>, Seq<char>)
    decreases s.len(),
{
    if s.len() == 0 {
        (seq![], seq![])
    } else {
        let (done, cur) = scan_segments(s.drop_last());
        if s.last() == '/' {
            (done.push(cur), seq![])
        } else {
            (done, cur.push(s.last()))
        }
    }
}

/// The `/`-separated segments of `s`, empty ones included.
pub open spec fn segments(s: Seq<char>) -> Seq<Seq<char>> {
    scan_segments(s).0.push(scan_segments(s).1)
}

pub open spec fn cur_dir() -> Seq<char> {
    seq!['.']
}

pub open spec fn parent_dir() -> Seq<char> {
    seq!['.', '.']
}

pub open spec fn root_dir() -> Seq<char> {
    seq!['/']
}

/// Whether the `k`-th segment (from 0) survives normalization: empty
/// segments go, and so does `.` except as the first segment.
pub open spec fn keeps(g: Seq<char>, k: int) -> bool {
    g.len() > 0 && (g != cur_dir() || k == 0)
}

/// The segments of `segs` that survive normalization.
pub open spec fn kept(segs: Seq<Seq<char>>) -> Seq<Seq<char>>
    decreases segs.len(),
{
    if segs.len() == 0 {
        seq![]
    } else if keeps(segs.last(), segs.len() - 1) {
        kept(segs.drop_last()).push(segs.last())
    } else {
        kept(segs.drop_last())
    }
}

/// `Path::components` of `s`, each component as its text: a leading `/`
/// for the root, `.` only at the start, `..`, and the normal names.
pub open spec fn components(s: Seq<char>) -> Seq<Seq<char>> {
    let root: Seq<Seq<char>> = if s.len() > 0 && s[0] == '/' {
        seq![root_dir()]
    } else {
        seq![]
    };
    root + kept(segments(s))
}

/// A component that is a plain name (not the root, `.` or `..`).
pub open spec fn is_normal(c: Seq<char>) -> bool {
    c != root_dir() && c != cur_dir() && c != parent_dir()
}

/// `Path::file_name`: the last component, if it is a plain name.
pub open spec fn file_name(s: Seq<char>) -> Option<Seq<char>> {
    let cs = components(s);
    if cs.len() > 0 && is_normal(cs.last()) {
        Some(cs.last())
    } else {
        None
    }
}

/// The index of the last `.` in `n`, or -1.
pub open spec fn last_dot(n: Seq<char>) -> int
    decreases n.len(),
{
    if n.len() == 0 {
        -1
    } else if n.last() == '.' {
        n.len() - 1
    } else {
        last_dot(n.drop_last())
    }
}

/// `Path::extension`: the file name's text after its last `.`, unless that
/// dot is the first character.
pub open spec fn extension(s: Seq<char>) -> Option<Seq<char>> {
    match file_name(s) {
        Some(n) => if last_dot(n) > 0 {
            Some(n.subrange(last_dot(n) + 1, n.len() as int))
        } else {
            None
        },
        None => None,
    }
}

/// `Path::file_stem`: the file name without its extension.
pub open spec fn file_stem(s: Seq<char>) -> Option<Seq<char>> {
    match file_name(s) {
        Some(n) => if last_dot(n) > 0 {
            Some(n.subrange(0, last_dot(n)))
        } else {
            Some(n)
        },
        None => None,
    }
}

/// One step of resolving components lexically: `.` is dropped, `..` drops
/// the name before it (and stays at the root at the root), and anything
/// else is appended.
pub open spec fn resolve_step(acc: Seq<Seq<char>>, c: Seq<char>) -> Seq<Seq<char>> {
    if c == cur_dir() {
        acc
    } else if c == parent_dir() {
        if acc.len() > 0 && is_normal(acc.last()) {
            acc.drop_last()
        } else if acc.len() > 0 && acc.last() == root_dir() {
            acc
        } else {
            acc.push(c)
        }
    } else {
        acc.push(c)
    }
}

/// Components resolved lexically, from the first to the last.
pub open spec fn resolve(cs: Seq<Seq<char>>) -> Seq<Seq<char>>
    decreases cs.len(),
{
    if cs.len() == 0 {
        seq![]
    } else {
        resolve_step(resolve(cs.drop_last()), cs.last())
    }
}

/// The components of `p` taken from the working directory `cwd` when `p` is
/// relative, then resolved lexically: `/home/u/app/../my-vault/a.md` and
/// `../my-vault/a.md` from `/home/u/app` both give `/`, `home`, `u`,
/// `my-vault`, `a.md`.
pub open spec fn resolved(p: Seq<char>, cwd: Seq<char>) -> Seq<Seq<char>> {
    if p.len() > 0 && p[0] == '/' {
        resolve(components(p))
    } else {
        resolve(components(cwd) + components(p))
    }
}

/// The components of `path` below the directory `root`, both resolved from
/// the working directory `cwd`; all of them when `path` does not lie under
/// `root`.
pub open spec fn below_root(path: Seq<char>, root: Seq<char>, cwd: Seq<char>) -> Seq<Seq<char>> {
    let cs = resolved(path, cwd);
    let rs = resolved(root, cwd);
    if rs.len() <= cs.len() && cs.take(rs.len() as int) == rs {
        cs.skip(rs.len() as int)
    } else {
        cs
    }
}

/// Resolving components that end in a plain name ends in that name.
proof fn lemma_resolve_ends_in_name(cs: Seq<Seq<char>>)
    requires
        cs.len() > 0,
        is_normal(cs.last()),
    ensures
        resolve(cs).len() > 0,
        resolve(cs).last() == cs.last(),
{
}

/// A path whose file name is a plain name resolves to components that end
/// in that name.
pub proof fn law_resolved_ends_in_file_name(path: Seq<char>, cwd: Seq<char>, n: Seq<char>)
    requires
        file_name(path) == Some(n),
    ensures
        resolved(path, cwd).len() > 0,
        resolved(path, cwd).last() == n,
{
    let cs = components(path);
    if path.len() > 0 && path[0] == '/' {
        lemma_resolve_ends_in_name(cs);
    } else {
        let all = components(cwd) + cs;
        assert(all.last() == cs.last());
        lemma_resolve_ends_in_name(all);
    }
}

/// The components the watcher checks are the resolved components of the
/// path after those of the root when the path lies under the root, else all
/// of them; so any hidden one among them, the file's own name included,
/// hides the path.
pub proof fn law_below_root_is_the_rest(path: Seq<char>, root: Seq<char>, cwd: Seq<char>)
    ensures
        ({
            let cs = resolved(path, cwd);
            let rs = resolved(root, cwd);
            let start = if rs.len() <= cs.len() && cs.take(rs.len() as int) == rs {
                rs.len() as int
            } else {
                0
            };
            &&& below_root(path, root, cwd).len() == cs.len() - start
            &&& forall|j: int|
                0 <= j < below_root(path, root, cwd).len() ==> #[trigger] below_root(path, root, cwd)[j]
                    == cs[j + start]
        }),
{
}

/// A file whose own name is hidden (starts with `.`) is hidden from the
/// watcher, wherever it lies, unless it is the vault root itself.
pub proof fn law_hidden_file_name_hides(path: Seq<char>, root: Seq<char>, cwd: Seq<char>, n: Seq<char>)
    requires
        file_name(path) == Some(n),
        dotted(n),
        resolved(root, cwd) != resolved(path, cwd),
    ensures
        exists|i: int|
            0 <= i < below_root(path, root, cwd).len() && dotted(#[trigger] below_root(path, root, cwd)[i]),
{
    law_resolved_ends_in_file_name(path, cwd, n);
    law_below_root_is_the_rest(path, root, cwd);
    let cs = resolved(path, cwd);
    let rs = resolved(root, cwd);
    let b = below_root(path, root, cwd);
    if rs.len() <= cs.len() && cs.take(rs.len() as int) == rs {
        if rs.len() == cs.len() {
            assert(cs =~= cs.take(rs.len() as int));
        }
        assert(b[b.len() - 1] == cs[cs.len() - 1]);
        assert(dotted(b[b.len() - 1]));
    } else {
        assert(b[b.len() - 1] == cs[cs.len() - 1]);
        assert(dotted(b[b.len() - 1]));
    }
}

/// Whether a component's text starts with `.`.
pub open spec fn dotted(c: Seq<char>) -> bool {
    c.len() > 0 && c[0] == '.'
}

pub proof fn lemma_last_dot(n: Seq<char>)
    ensures
        -1 <= last_dot(n) < n.len(),
        last_dot(n) >= 0 ==> n[last_dot(n)] == '.',
        forall|i: int| last_dot(n) < i < n.len() ==> n[i] != '.',
    decreases n.len(),
{
    if n.len() > 0 && n.last() != '.' {
        let m = n.drop_last();
        lemma_last_dot(m);
        assert forall|i: int| last_dot(n) < i < n.len() implies n[i] != '.' by {
            if i < n.len() - 1 {
                assert(n[i] == m[i]);
            }
        }
    }
}

/// The components of `path`, as `Path::components` yields them.
pub fn path_components(path: &str) -> (r: Vec<String>)
    ensures
        views(r@) == components(path@),
{
    let cs = chars_of(path);
    let mut out: Vec<String> = Vec::new();
    let rooted = cs.len() > 0 && cs[0] == '/';
    if rooted {
        let mut root = String::new();
        crate::text::push_char(&mut root, '/');
        out.push(root);
    }
    let ghost root_part: Seq<Seq<char>> = views(out@);
    assert(root_part =~= (if path@.len() > 0 && path@[0] == '/' {
        seq![root_dir()]
    } else {
        seq![]
    }));
    let mut start: usize = 0;
    let mut k: usize = 0;
    let mut i: usize = 0;
    assert(cs@.take(0) =~= seq![]);
    assert(cs@.subrange(0, 0) =~= seq![]);
    assert(kept(seq![]) =~= seq![]);
    assert(views(out@) =~= root_part + kept(seq![]));
    while i < cs.len()
        invariant
            cs@ == path@,
            start <= i <= cs@.len(),
            scan_segments(cs@.take(i as int)).1 == cs@.subrange(start as int, i as int),
            scan_segments(cs@.take(i as int)).0.len() == k,
            k <= i,
            views(out@) == root_part + kept(scan_segments(cs@.take(i as int)).0),
        decreases cs@.len() - i,
    {
        let ghost pre = cs@.take(i as int);
        let ghost done = scan_segments(pre).0;
        assert(cs@.take(i + 1).drop_last() =~= pre);
        assert(cs@.take(i + 1).last() == cs@[i as int]);
        if cs[i] == '/' {
            let ghost g = cs@.subrange(start as int, i as int);
            assert(done.push(g).drop_last() =~= done);
            let keep = start < i && (i - start != 1 || cs[start] != '.' || k == 0);
            assert(keep == keeps(g, k as int)) by {
                if i - start == 1 {
                    assert(g =~= seq![cs@[start as int]]);
                }
                if g == cur_dir() {
                    assert(g.len() == 1 && g[0] == '.');
                }
            }
            if keep {
                let seg = string_of(&cs, start, i);
                let ghost before = out@;
                out.push(seg);
                assert(views(out@) =~= views(before).push(g));
            }
            start = i + 1;
            k = k + 1;
            assert(cs@.subrange(start as int, i + 1) =~= seq![]);
        } else {
            assert(cs@.subrange(start as int, i + 1) =~= cs@.subrange(start as int, i as int).push(
                cs@[i as int],
            ));
        }
        i = i + 1;
    }
    assert(cs@.take(i as int) =~= cs@);
    let ghost done = scan_segments(cs@).0;
    let ghost g = cs@.subrange(start as int, i as int);
    assert(done.push(g).drop_last() =~= done);
    let keep = start < i && (i - start != 1 || cs[start] != '.' || k == 0);
    assert(keep == keeps(g, k as int)) by {
        if i - start == 1 {
            assert(g =~= seq![cs@[start as int]]);
        }
        if g == cur_dir() {
            assert(g.len() == 1 && g[0] == '.');
        }
    }
    if keep {
        let seg = string_of(&cs, start, i);
        let ghost before = out@;
        out.push(seg);
        assert(views(out@) =~= views(before).push(g));
    }
    out
}

/// Whether two component lists are the same (as `Path` equality compares
/// paths: component by component).
pub fn same_components(a: &Vec<String>, b: &Vec<String>) -> (r: bool)
    ensures
        r == (views(a@) == views(b@)),
{
    if a.len() != b.len() {
        assert(views(a@).len() != views(b@).len());
        return false;
    }
    let mut i: usize = 0;
    while i < a.len()
        invariant
            a@.len() == b@.len(),
            i <= a@.len(),
            forall|j: int| 0 <= j < i ==> views(a@)[j] == views(b@)[j],
        decreases a@.len() - i,
    {
        if !same_text(a[i].as_str(), b[i].as_str()) {
            assert(views(a@)[i as int] != views(b@)[i as int]);
            return false;
        }
        i = i + 1;
    }
    assert(views(a@) =~= views(b@));
    true
}

/// `Path::file_name` of `path`.
pub fn file_name_of(path: &str) -> (r: Option<String>)
    ensures
        r matches Some(n) ==> file_name(path@) == Some(n@),
        r is None ==> file_name(path@) is None,
{
    let mut cs = path_components(path);
    let ghost cv = views(cs@);
    if cs.len() == 0 {
        return None;
    }
    let last = cs.pop().unwrap();
    assert(last@ == cv.last());
    let root = vec!['/'];
    let cur = vec!['.'];
    let parent = vec!['.', '.'];
    assert(root@ =~= root_dir());
    assert(cur@ =~= cur_dir());
    assert(parent@ =~= parent_dir());
    if chars_are(&last, &root) || chars_are(&last, &cur) || chars_are(&last, &parent) {
        None
    } else {
        Some(last)
    }
}

/// The index of the last `.` in `n`, if any.
fn last_dot_of(n: &Vec<char>) -> (r: Option<usize>)
    ensures
        r matches Some(k) ==> k == last_dot(n@) && k < n@.len(),
        r is None ==> last_dot(n@) == -1,
{
    proof {
        lemma_last_dot(n@);
    }
    let mut i: usize = n.len();
    assert(n@.take(i as int) =~= n@);
    while i > 0 && n[i - 1] != '.'
        invariant
            i <= n@.len(),
            last_dot(n@) == last_dot(n@.take(i as int)),
        decreases i,
    {
        assert(n@.take(i as int).drop_last() =~= n@.take(i - 1));
        i = i - 1;
    }
    if i == 0 {
        assert(n@.take(0) =~= seq![]);
        None
    } else {
        Some(i - 1)
    }
}

/// `Path::extension` of `path`.
pub fn extension_of(path: &str) -> (r: Option<String>)
    ensures
        r matches Some(e) ==> extension(path@) == Some(e@),
        r is None ==> extension(path@) is None,
{
    proof {
        assert(path@ =~= path@.take(path@.len() as int));
    }
    match file_name_of(path) {
        None => None,
        Some(n) => {
            let cs = chars_of(n.as_str());
            match last_dot_of(&cs) {
                Some(k) => {
                    if k > 0 {
                        Some(string_of(&cs, k + 1, cs.len()))
                    } else {
                        None
                    }
                },
                None => None,
            }
        },
    }
}

/// `Path::file_stem` of `path`.
pub fn file_stem_of(path: &str) -> (r: Option<String>)
    ensures
        r matches Some(e) ==> file_stem(path@) == Some(e@),
        r is None ==> file_stem(path@) is None,
{
    match file_name_of(path) {
        None => None,
        Some(n) => {
            let cs = chars_of(n.as_str());
            match last_dot_of(&cs) {
                Some(k) => {
                    if k > 0 {
                        Some(string_of(&cs, 0, k))
                    } else {
                        Some(n)
                    }
                },
                None => Some(n),
            }
        },
    }
}

/// Whether `path` names a markdown file (its extension is `md`).
pub fn is_md(path: &str) -> (r: bool)
    ensures
        r == (extension(path@) == Some(seq!['m', 'd'])),
{
    match extension_of(path) {
        Some(e) => {
            let md = vec!['m', 'd'];
            assert(md@ =~= seq!['m', 'd']);
            chars_are(&e, &md)
        },
        None => false,
    }
}

/// Whether the file name of `path` is hidden (starts with `.`), such as
/// `.obsidian`, `.trash`, `.git` or `.DS_Store`.
pub fn is_hidden_name(path: &str) -> (r: bool)
    ensures
        r == (file_name(path@) matches Some(n) && dotted(n)),
{
    match file_name_of(path) {
        Some(n) => {
            let cs = chars_of(n.as_str());
            cs.len() > 0 && cs[0] == '.'
        },
        None => false,
    }
}

/// Which of `.`, `..`, the root or a plain name a component is.
fn component_class(c: &str) -> (r: u8)
    ensures
        r == 0 <==> c@ == cur_dir(),
        r == 1 <==> c@ == parent_dir(),
        r == 2 <==> c@ == root_dir(),
        r == 3 <==> is_normal(c@),
{
    let cs = chars_of(c);
    if cs.len() == 1 && cs[0] == '.' {
        assert(c@ =~= cur_dir());
        0
    } else if cs.len() == 2 && cs[0] == '.' && cs[1] == '.' {
        assert(c@ =~= parent_dir());
        1
    } else if cs.len() == 1 && cs[0] == '/' {
        assert(c@ =~= root_dir());
        2
    } else {
        assert(c@ != cur_dir() && c@ != parent_dir() && c@ != root_dir()) by {
            if c@ == cur_dir() || c@ == root_dir() {
                assert(c@.len() == 1);
            }
            if c@ == parent_dir() {
                assert(c@.len() == 2);
            }
        }
        3
    }
}

/// The components of `p`, taken from the working directory `cwd` when `p`
/// is relative, resolved lexically.
pub fn resolved_components(p: &str, cwd: &str) -> (r: Vec<String>)
    ensures
        views(r@) == resolved(p@, cwd@),
{
    let pc = path_components(p);
    let cs = chars_of(p);
    let mut all: Vec<String> = if cs.len() > 0 && cs[0] == '/' {
        Vec::new()
    } else {
        path_components(cwd)
    };
    let ghost head = views(all@);
    let mut k: usize = 0;
    while k < pc.len()
        invariant
            k <= pc@.len(),
            views(all@) == head + views(pc@).take(k as int),
        decreases pc@.len() - k,
    {
        let ghost before = views(all@);
        all.push(pc[k].clone());
        assert(views(all@) =~= before.push(pc@[k as int]@));
        assert(views(pc@).take(k + 1) =~= views(pc@).take(k as int).push(pc@[k as int]@));
        k = k + 1;
    }
    assert(views(pc@).take(k as int) =~= views(pc@));
    assert(views(all@) =~= (if p@.len() > 0 && p@[0] == '/' {
        components(p@)
    } else {
        components(cwd@) + components(p@)
    }));
    let ghost av = views(all@);
    let mut out: Vec<String> = Vec::new();
    let mut i: usize = 0;
    assert(av.take(0) =~= seq![]);
    assert(views(out@) =~= seq![]);
    while i < all.len()
        invariant
            i <= all@.len(),
            av == views(all@),
            views(out@) == resolve(av.take(i as int)),
        decreases all@.len() - i,
    {
        assert(av.take(i + 1).drop_last() =~= av.take(i as int));
        assert(av.take(i + 1).last() == all@[i as int]@);
        let ghost before = views(out@);
        let class = component_class(all[i].as_str());
        if class == 1 {
            if out.len() > 0 {
                let last = component_class(out[out.len() - 1].as_str());
                assert(out@[out@.len() - 1]@ == before.last());
                if last == 3 {
                    out.pop();
                    assert(views(out@) =~= before.drop_last());
                } else if last != 2 {
                    out.push(all[i].clone());
                    assert(views(out@) =~= before.push(all@[i as int]@));
                }
            } else {
                out.push(all[i].clone());
                assert(views(out@) =~= before.push(all@[i as int]@));
            }
        } else if class != 0 {
            out.push(all[i].clone());
            assert(views(out@) =~= before.push(all@[i as int]@));
        }
        i = i + 1;
    }
    assert(av.take(i as int) =~= av);
    out
}

/// Whether any component of `path` below the vault root `root` is hidden,
/// both taken from the working directory `cwd` and resolved lexically. The
/// vault's own ancestry never counts: a hidden directory above the root, or
/// a `..` in the path's spelling of the root, does not hide the vault.
pub fn in_hidden_dir(path: &str, root: &str, cwd: &str) -> (r: bool)
    ensures
        r == (exists|i: int|
            0 <= i < below_root(path@, root@, cwd@).len() && dotted(
                #[trigger] below_root(path@, root@, cwd@)[i],
            )),
{
    let cs = resolved_components(path, cwd);
    let rs = resolved_components(root, cwd);
    let ghost cv = views(cs@);
    let ghost rv = views(rs@);
    let mut under = rs.len() <= cs.len();
    let mut k: usize = 0;
    while under && k < rs.len()
        invariant
            cv == views(cs@),
            rv == views(rs@),
            under ==> rs@.len() <= cs@.len(),
            k <= rs@.len(),
            under ==> forall|j: int| 0 <= j < k ==> cv[j] == rv[j],
            !under ==> !(rv.len() <= cv.len() && cv.take(rv.len() as int) == rv),
        decreases rs@.len() - k,
    {
        if !same_text(cs[k].as_str(), rs[k].as_str()) {
            proof {
                assert(cv[k as int] == cs@[k as int]@ && rv[k as int] == rs@[k as int]@);
                if rv.len() <= cv.len() && cv.take(rv.len() as int) == rv {
                    assert(cv.take(rv.len() as int)[k as int] == cv[k as int]);
                }
            }
            under = false;
        } else {
            assert(cv[k as int] == rv[k as int]);
        }
        k = k + 1;
    }
    let ghost rest = below_root(path@, root@, cwd@);
    proof {
        if under {
            assert(cv.take(rv.len() as int) =~= rv);
        }
    }
    let mut i: usize = if under { rs.len() } else { 0 };
    let ghost first = i;
    assert(rest =~= cv.skip(first as int));
    while i < cs.len()
        invariant
            first <= i <= cs@.len(),
            cv == views(cs@),
            rest == cv.skip(first as int),
            rest == below_root(path@, root@, cwd@),
            forall|j: int| first <= j < i ==> !dotted(#[trigger] cv[j]),
        decreases cs@.len() - i,
    {
        assert(cv[i as int] == cs@[i as int]@);
        let c = chars_of(cs[i].as_str());
        if c.len() > 0 && c[0] == '.' {
            assert(below_root(path@, root@, cwd@)[i - first] == cv[i as int]);
            assert(dotted(below_root(path@, root@, cwd@)[i - first]));
            return true;
        }
        i = i + 1;
    }
    assert forall|j: int| 0 <= j < rest.len() implies !dotted(#[trigger] rest[j]) by {
        assert(rest[j] == cv[j + first]);
    }
    false
}

} // verus!
