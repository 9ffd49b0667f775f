//! The vault's index of parsed notes by path, and the batch logic that turns
//! file changes into the deltas of one write transaction: retract the old
//! version of each changed note, insert the new one.

use vstd::prelude::*;
use vstd::multiset::Multiset;
use crate::notes::{in_view, named_view, shows, view_kind, Note, NoteView, ViewKind};
use crate::pipeline::{Push, net, lemma_net_push, lemma_net_concat};
use crate::stream::Tx;
use crate::paths::{components, path_components, same_components};
use crate::tags::views;
use crate::text::{lex_less, lex_lt, lemma_lex_total, lemma_lex_transitive};

verus! {

broadcast use vstd::seq_lib::group_to_multiset_ensures, vstd::multiset::group_multiset_axioms;

/// A change to the vault: a note parsed (again) at a path, or a path gone.
pub enum Op {
    Upsert(String, Note),
    Remove(String),
}

/// The text of an [`Op`].
pub enum OpView {
    Upsert(Seq<char>, NoteView),
    Remove(Seq<char>),
}

impl View for Op {
    type V = OpView;

    open spec fn view(&self) -> OpView {
        match self {
            Op::Upsert(p, n) => OpView::Upsert(p@, n@),
            Op::Remove(p) => OpView::Remove(p@),
        }
    }
}

/// The text of an optional note.
pub open spec fn opt_view(o: Option<Note>) -> Option<NoteView> {
    match o {
        Some(n) => Some(n@),
        None => None,
    }
}

/// The text of a change: the version it retracts, the version it inserts.
pub open spec fn change_view(c: (Option<Note>, Option<Note>)) -> (Option<NoteView>, Option<NoteView>) {
    (opt_view(c.0), opt_view(c.1))
}

pub open spec fn change_views(cs: Seq<(Option<Note>, Option<Note>)>) -> Seq<
    (Option<NoteView>, Option<NoteView>),
> {
    cs.map_values(|c: (Option<Note>, Option<Note>)| change_view(c))
}

/// The versions a sequence of changes inserts.
pub open spec fn added(cs: Seq<(Option<NoteView>, Option<NoteView>)>) -> Multiset<NoteView>
    decreases cs.len(),
{
    if cs.len() == 0 {
        Multiset::empty()
    } else {
        match cs.last().1 {
            Some(n) => added(cs.drop_last()).insert(n),
            None => added(cs.drop_last()),
        }
    }
}

/// The versions a sequence of changes retracts.
pub open spec fn removed(cs: Seq<(Option<NoteView>, Option<NoteView>)>) -> Multiset<NoteView>
    decreases cs.len(),
{
    if cs.len() == 0 {
        Multiset::empty()
    } else {
        match cs.last().0 {
            Some(n) => removed(cs.drop_last()).insert(n),
            None => removed(cs.drop_last()),
        }
    }
}

/// Applying one op to an index `m`: the new index and the change it makes,
/// if any. An upsert always makes a change (retracting the version it
/// replaces, if any); removing an absent path makes none.
pub open spec fn step(m: Map<Seq<Seq<char>>, NoteView>, op: OpView) -> (Map<Seq<Seq<char>>, NoteView>, Option<
    (Option<NoteView>, Option<NoteView>),
>) {
    match op {
        OpView::Upsert(p, n) => (
            m.insert(components(p), n),
            Some(
                (
                    if m.contains_key(components(p)) {
                        Some(m[components(p)])
                    } else {
                        None
                    },
                    Some(n),
                ),
            ),
        ),
        OpView::Remove(p) => if m.contains_key(components(p)) {
            (m.remove(components(p)), Some((Some(m[components(p)]), None)))
        } else {
            (m, None)
        },
    }
}

/// Applying `ops` in order to index `m`: the final index and the changes.
pub open spec fn run(m: Map<Seq<Seq<char>>, NoteView>, ops: Seq<OpView>) -> (Map<Seq<Seq<char>>, NoteView>, Seq<
    (Option<NoteView>, Option<NoteView>),
>)
    decreases ops.len(),
{
    if ops.len() == 0 {
        (m, seq![])
    } else {
        let (m1, cs) = run(m, ops.drop_last());
        let (m2, c) = step(m1, ops.last());
        match c {
            Some(c) => (m2, cs.push(c)),
            None => (m2, cs),
        }
    }
}

/// The deltas that feed a sequence of changes into a stream: for each change,
/// the retraction of its old version, then the insertion of its new one.
pub open spec fn change_log(cs: Seq<(Option<Note>, Option<Note>)>) -> Seq<(Note, int)>
    decreases cs.len(),
{
    if cs.len() == 0 {
        seq![]
    } else {
        let r = change_log(cs.drop_last());
        let r1 = match cs.last().0 {
            Some(o) => r.push((o, -1int)),
            None => r,
        };
        match cs.last().1 {
            Some(n) => r1.push((n, 1int)),
            None => r1,
        }
    }
}

/// The text of a sequence of note deltas.
pub open spec fn note_deltas(log: Seq<(Note, int)>) -> Seq<(NoteView, int)> {
    log.map_values(|e: (Note, int)| (e.0@, e.1))
}

/// The value at `p` among `(path, note)` pairs, looking from the end.
pub open spec fn lookup_in(ps: Seq<(Seq<Seq<char>>, NoteView)>, p: Seq<Seq<char>>) -> Option<NoteView>
    decreases ps.len(),
{
    if ps.len() == 0 {
        None
    } else if ps.last().0 == p {
        Some(ps.last().1)
    } else {
        lookup_in(ps.drop_last(), p)
    }
}

pub open spec fn distinct_paths(ps: Seq<(Seq<Seq<char>>, NoteView)>) -> bool {
    forall|i: int, j: int| 0 <= i < j < ps.len() ==> #[trigger] ps[i].0 != #[trigger] ps[j].0
}

proof fn lemma_lookup(ps: Seq<(Seq<Seq<char>>, NoteView)>, p: Seq<Seq<char>>)
    requires
        distinct_paths(ps),
    ensures
        (forall|i: int| 0 <= i < ps.len() ==> #[trigger] ps[i].0 != p) ==> lookup_in(ps, p) is None,
        forall|i: int| 0 <= i < ps.len() && #[trigger] ps[i].0 == p ==> lookup_in(ps, p) == Some(ps[i].1),
    decreases ps.len(),
{
    if ps.len() > 0 {
        let q = ps.drop_last();
        assert(distinct_paths(q)) by {
            assert forall|i: int, j: int| 0 <= i < j < q.len() implies #[trigger] q[i].0 != #[trigger] q[j].0 by {
                assert(q[i] == ps[i] && q[j] == ps[j]);
            }
        }
        lemma_lookup(q, p);
        assert forall|i: int| 0 <= i < ps.len() && #[trigger] ps[i].0 == p implies lookup_in(ps, p) == Some(ps[i].1) by {
            if i < ps.len() - 1 {
                assert(q[i] == ps[i]);
                assert(ps[i].0 != ps[ps.len() - 1].0);
            }
        }
        if forall|i: int| 0 <= i < ps.len() ==> #[trigger] ps[i].0 != p {
            assert forall|i: int| 0 <= i < q.len() implies #[trigger] q[i].0 != p by {
                assert(q[i] == ps[i]);
            }
            assert(ps[ps.len() - 1].0 != p);
        }
    }
}

proof fn lemma_removed(ps: Seq<(Seq<Seq<char>>, NoteView)>, i: int)
    requires
        distinct_paths(ps),
        0 <= i < ps.len(),
    ensures
        distinct_paths(ps.remove(i)),
        forall|k: int| 0 <= k < ps.remove(i).len() ==> #[trigger] ps.remove(i)[k].0 != ps[i].0,
        forall|q: Seq<Seq<char>>| #[trigger] lookup_in(ps.remove(i), q) == (if q == ps[i].0 {
            None
        } else {
            lookup_in(ps, q)
        }),
{
    let qs = ps.remove(i);
    assert forall|k: int| 0 <= k < qs.len() implies qs[k] == ps[if k < i { k } else { k + 1 }] by {
    }
    assert forall|a: int, b: int| 0 <= a < b < qs.len() implies #[trigger] qs[a].0 != #[trigger] qs[b].0 by {
        assert(qs[a] == ps[if a < i { a } else { a + 1 }]);
        assert(qs[b] == ps[if b < i { b } else { b + 1 }]);
    }
    assert forall|k: int| 0 <= k < qs.len() implies #[trigger] qs[k].0 != ps[i].0 by {
        assert(qs[k] == ps[if k < i { k } else { k + 1 }]);
    }
    assert forall|q: Seq<Seq<char>>| #[trigger] lookup_in(qs, q) == (if q == ps[i].0 {
        None
    } else {
        lookup_in(ps, q)
    }) by {
        lemma_lookup(qs, q);
        lemma_lookup(ps, q);
        if q != ps[i].0 {
            assert forall|k: int| 0 <= k < qs.len() && #[trigger] qs[k].0 == q implies ps[if k < i { k } else { k + 1 }] == qs[k] by {
            }
            assert forall|k: int| 0 <= k < ps.len() && #[trigger] ps[k].0 == q implies qs[if k < i { k } else { k - 1 }] == ps[k] by {
                assert(k != i);
            }
        }
    }
}

proof fn lemma_pushed(ps: Seq<(Seq<Seq<char>>, NoteView)>, p: Seq<Seq<char>>, n: NoteView)
    requires
        distinct_paths(ps),
        forall|k: int| 0 <= k < ps.len() ==> #[trigger] ps[k].0 != p,
    ensures
        distinct_paths(ps.push((p, n))),
        forall|q: Seq<Seq<char>>| #[trigger] lookup_in(ps.push((p, n)), q) == (if q == p {
            Some(n)
        } else {
            lookup_in(ps, q)
        }),
{
    let qs = ps.push((p, n));
    assert forall|a: int, b: int| 0 <= a < b < qs.len() implies #[trigger] qs[a].0 != #[trigger] qs[b].0 by {
        assert(qs[a] == ps[a]);
        if b < ps.len() {
            assert(qs[b] == ps[b]);
        }
    }
    assert forall|q: Seq<Seq<char>>| #[trigger] lookup_in(qs, q) == (if q == p {
        Some(n)
    } else {
        lookup_in(ps, q)
    }) by {
        assert(qs.drop_last() =~= ps);
    }
}

/// The `(path, note)` texts of index entries.
pub open spec fn pairs_of(es: Seq<(Vec<String>, Note)>) -> Seq<(Seq<Seq<char>>, NoteView)> {
    es.map_values(|e: (Vec<String>, Note)| (views(e.0@), e.1@))
}

/// The parsed notes of the vault by path.
pub struct NoteIndex {
    entries: Vec<(Vec<String>, Note)>,
}

impl View for NoteIndex {
    type V = Map<Seq<Seq<char>>, NoteView>;

    /// The note at each indexed path.
    open spec fn view(&self) -> Map<Seq<Seq<char>>, NoteView> {
        Map::new(|p: Seq<Seq<char>>| self.lookup(p) is Some, |p: Seq<Seq<char>>| self.lookup(p)->0)
    }
}

impl NoteIndex {
    /// The `(path, note)` entries.
    pub closed spec fn pairs(&self) -> Seq<(Seq<Seq<char>>, NoteView)> {
        pairs_of(self.entries@)
    }

    /// No path is indexed twice.
    #[verifier::type_invariant]
    spec fn wf(&self) -> bool {
        distinct_paths(self.pairs())
    }

    /// The note indexed at path `p`.
    pub open spec fn lookup(&self, p: Seq<Seq<char>>) -> Option<NoteView> {
        lookup_in(self.pairs(), p)
    }

    /// The indexed notes, with multiplicity.
    pub open spec fn notes(&self) -> Multiset<NoteView> {
        self.pairs().map_values(|e: (Seq<Seq<char>>, NoteView)| e.1).to_multiset()
    }

    /// An empty index.
    pub fn new() -> (r: NoteIndex)
        ensures
            r@ == Map::<Seq<Seq<char>>, NoteView>::empty(),
            r.notes() == Multiset::<NoteView>::empty(),
    {
        let entries: Vec<(Vec<String>, Note)> = Vec::new();
        assert(pairs_of(entries@) =~= seq![]);
        let r = NoteIndex { entries };
        assert(r@ =~= Map::<Seq<Seq<char>>, NoteView>::empty());
        assert(r.pairs().map_values(|e: (Seq<Seq<char>>, NoteView)| e.1) =~= seq![]);
        r
    }

    /// The number of indexed notes.
    pub fn len(&self) -> (r: usize)
        ensures
            r == self.notes().len(),
    {
        self.entries.len()
    }

    /// The position of path `p` among the entries.
    fn find(&self, key: &Vec<String>) -> (r: Option<usize>)
        ensures
            r matches Some(i) ==> i < self.pairs().len() && self.pairs()[i as int].0 == views(key@),
            r is None ==> forall|i: int| 0 <= i < self.pairs().len() ==> #[trigger] self.pairs()[i].0 != views(key@),
    {
        let mut i: usize = 0;
        while i < self.entries.len()
            invariant
                i <= self.entries@.len(),
                self.pairs().len() == self.entries@.len(),
                forall|j: int| 0 <= j < i ==> #[trigger] self.pairs()[j].0 != views(key@),
            decreases self.entries@.len() - i,
        {
            if same_components(&self.entries[i].0, key) {
                return Some(i);
            }
            i = i + 1;
        }
        None
    }

    /// The note at path `p`, if any.
    pub fn get(&self, p: &str) -> (r: Option<&Note>)
        ensures
            opt_view_ref(r) == self.lookup(components(p@)),
    {
        proof {
            use_type_invariant(self);
            lemma_lookup(self.pairs(), components(p@));
        }
        let key = path_components(p);
        match self.find(&key) {
            Some(i) => Some(&self.entries[i].1),
            None => None,
        }
    }

    /// Indexes `note` at `path`, and returns the note it replaces.
    pub fn upsert(&mut self, path: String, note: Note) -> (r: Option<Note>)
        ensures
            opt_view(r) == old(self).lookup(components(path@)),
            r matches Some(o) ==> old(self).notes().contains(o@),
            final(self)@ == old(self)@.insert(components(path@), note@),
            final(self).notes() == (match r {
                Some(o) => old(self).notes().remove(o@),
                None => old(self).notes(),
            }).insert(note@),
    {
        let ghost ps = self.pairs();
        let ghost vals = ps.map_values(|e: (Seq<Seq<char>>, NoteView)| e.1);
        let ghost pv = components(path@);
        let ghost nv = note@;
        proof {
            use_type_invariant(&*self);
            lemma_lookup(ps, pv);
        }
        let key = path_components(path.as_str());
        let found = self.find(&key);
        let mut entries: Vec<(Vec<String>, Note)> = Vec::new();
        assert(pairs_of(entries@) =~= seq![]);
        std::mem::swap(&mut entries, &mut self.entries);
        let old_note = match found {
            Some(i) => {
                let (_, o) = entries.remove(i);
                proof {
                    assert(pairs_of(entries@) =~= ps.remove(i as int));
                    assert(pairs_of(entries@).map_values(|e: (Seq<Seq<char>>, NoteView)| e.1) =~= vals.remove(i as int));
                    vstd::seq_lib::to_multiset_remove(vals, i as int);
                    assert(vals[i as int] == o@);
                    assert(vals.to_multiset().contains(o@));
                }
                Some(o)
            },
            None => None,
        };
        let ghost mid = pairs_of(entries@);
        proof {
            match found {
                Some(i) => {
                    lemma_removed(ps, i as int);
                },
                None => {
                    assert(mid == ps);
                },
            }
        }
        entries.push((key, note));
        proof {
            assert(pairs_of(entries@) =~= mid.push((pv, nv)));
            assert(pairs_of(entries@).map_values(|e: (Seq<Seq<char>>, NoteView)| e.1) =~= mid.map_values(
                |e: (Seq<Seq<char>>, NoteView)| e.1,
            ).push(nv));
            lemma_pushed(mid, pv, nv);
        }
        self.entries = entries;
        proof {
            assert(self@ =~= old(self)@.insert(pv, nv));
        }
        old_note
    }

    /// Drops the note at `path`, and returns it.
    pub fn remove(&mut self, path: &str) -> (r: Option<Note>)
        ensures
            opt_view(r) == old(self).lookup(components(path@)),
            r matches Some(o) ==> old(self).notes().contains(o@),
            final(self)@ == old(self)@.remove(components(path@)),
            final(self).notes() == match r {
                Some(o) => old(self).notes().remove(o@),
                None => old(self).notes(),
            },
    {
        let ghost ps = self.pairs();
        let ghost vals = ps.map_values(|e: (Seq<Seq<char>>, NoteView)| e.1);
        let ghost pv = components(path@);
        proof {
            use_type_invariant(&*self);
            lemma_lookup(ps, pv);
        }
        let key = path_components(path);
        match self.find(&key) {
            Some(i) => {
                let mut entries: Vec<(Vec<String>, Note)> = Vec::new();
                assert(pairs_of(entries@) =~= seq![]);
                std::mem::swap(&mut entries, &mut self.entries);
                let (_, o) = entries.remove(i);
                proof {
                    let qs = pairs_of(entries@);
                    assert(qs =~= ps.remove(i as int));
                    assert(qs.map_values(|e: (Seq<Seq<char>>, NoteView)| e.1) =~= vals.remove(i as int));
                    vstd::seq_lib::to_multiset_remove(vals, i as int);
                    lemma_removed(ps, i as int);
                }
                self.entries = entries;
                proof {
                    assert(self@ =~= old(self)@.remove(pv));
                    assert(vals[i as int] == o@);
                    assert(vals.to_multiset().contains(o@));
                }
                Some(o)
            },
            None => {
                proof {
                    assert(self@ =~= old(self)@.remove(pv));
                }
                None
            },
        }
    }
}

/// Applies a batch of changes to the index, and returns, in order, the
/// changes to feed into one write transaction: for each upsert, the version
/// it replaces (if any) and the new one; for each removal of an indexed path,
/// the version removed. Removing a path that is not indexed changes nothing.
pub fn apply(index: &mut NoteIndex, ops: Vec<Op>) -> (r: Vec<(Option<Note>, Option<Note>)>)
    ensures
        final(index)@ == run(old(index)@, ops@.map_values(|o: Op| o@)).0,
        change_views(r@) == run(old(index)@, ops@.map_values(|o: Op| o@)).1,
        final(index).notes().add(removed(change_views(r@))) == old(index).notes().add(
            added(change_views(r@)),
        ),
{
    let ghost m0 = index@;
    let ghost n0 = index.notes();
    let ghost ov = ops@.map_values(|o: Op| o@);
    let mut changes: Vec<(Option<Note>, Option<Note>)> = Vec::new();
    let mut i: usize = 0;
    assert(ov.take(0) =~= seq![]);
    assert(change_views(changes@) =~= seq![]);
    assert(index.notes().add(Multiset::empty()) =~= n0.add(Multiset::empty()));
    while i < ops.len()
        invariant
            i <= ops@.len(),
            ov == ops@.map_values(|o: Op| o@),
            index@ == run(m0, ov.take(i as int)).0,
            change_views(changes@) == run(m0, ov.take(i as int)).1,
            index.notes().add(removed(change_views(changes@))) == n0.add(added(change_views(changes@))),
        decreases ops@.len() - i,
    {
        let ghost m1 = index@;
        let ghost n1 = index.notes();
        let ghost cs1 = change_views(changes@);
        assert(ov.take(i + 1).drop_last() =~= ov.take(i as int));
        assert(ov.take(i + 1).last() == ops@[i as int]@);
        match &ops[i] {
            Op::Upsert(p, n) => {
                let old_note = index.upsert(p.clone(), n.duplicate());
                let ghost ch = (opt_view(old_note), Some(n@));
                let ghost gold = old_note;
                changes.push((old_note, Some(n.duplicate())));
                proof {
                    assert(change_views(changes@) =~= cs1.push(ch));
                    assert(cs1.push(ch).drop_last() =~= cs1);
                    let a1 = added(cs1);
                    let r1 = removed(cs1);
                    match gold {
                        Some(o) => {
                            assert forall|y: NoteView| #[trigger] index.notes().add(r1.insert(o@)).count(y)
                                == n0.add(a1.insert(n@)).count(y) by {
                                assert(n1.add(r1).count(y) == n0.add(a1).count(y));
                                assert(n1.count(o@) > 0);
                            }
                            assert(index.notes().add(r1.insert(o@)) =~= n0.add(a1.insert(n@)));
                        },
                        None => {
                            assert forall|y: NoteView| #[trigger] index.notes().add(r1).count(y)
                                == n0.add(a1.insert(n@)).count(y) by {
                                assert(n1.add(r1).count(y) == n0.add(a1).count(y));
                            }
                            assert(index.notes().add(r1) =~= n0.add(a1.insert(n@)));
                        },
                    }
                }
            },
            Op::Remove(p) => {
                let old_note = index.remove(p.as_str());
                match old_note {
                    Some(o) => {
                        let ghost ch = (Some(o@), None::<NoteView>);
                        changes.push((Some(o), None));
                        proof {
                            assert(change_views(changes@) =~= cs1.push(ch));
                            assert(cs1.push(ch).drop_last() =~= cs1);
                            let a1 = added(cs1);
                            let r1 = removed(cs1);
                            assert(index.notes().add(r1.insert(o@)) =~= n0.add(a1));
                        }
                    },
                    None => {},
                }
            },
        }
        i = i + 1;
    }
    assert(ov.take(i as int) =~= ov);
    changes
}

/// Feeds `changes` into a write transaction: for each change, retracts the
/// old version (delta `-1`), then inserts the new one (delta `+1`).
pub fn feed_changes<P: Push<Note>>(tx: &mut Tx<'_, '_, Note, P>, changes: &Vec<(Option<Note>, Option<Note>)>)
    ensures
        final(tx).deltas() == old(tx).deltas() + change_log(changes@),
{
    let ghost d0 = tx.deltas();
    let mut i: usize = 0;
    assert(changes@.take(0) =~= seq![]);
    assert(d0 + change_log(seq![]) =~= d0);
    while i < changes.len()
        invariant
            i <= changes@.len(),
            tx.deltas() == d0 + change_log(changes@.take(i as int)),
        decreases changes@.len() - i,
    {
        let ghost before = changes@.take(i as int);
        assert(changes@.take(i + 1).drop_last() =~= before);
        assert(changes@.take(i + 1).last() == changes@[i as int]);
        let (old_note, new_note) = &changes[i];
        match old_note {
            Some(o) => tx.remove(o),
            None => {},
        }
        match new_note {
            Some(n) => tx.insert(n),
            None => {},
        }
        proof {
            let r = change_log(before);
            let r1 = match changes@[i as int].0 {
                Some(o) => r.push((o, -1int)),
                None => r,
            };
            let r2 = match changes@[i as int].1 {
                Some(n) => r1.push((n, 1int)),
                None => r1,
            };
            assert(change_log(changes@.take(i + 1)) == r2);
            match changes@[i as int].0 {
                Some(o) => {
                    assert(d0 + r.push((o, -1int)) =~= (d0 + r).push((o, -1int)));
                },
                None => {},
            }
            match changes@[i as int].1 {
                Some(n) => {
                    assert(d0 + r1.push((n, 1int)) =~= (d0 + r1).push((n, 1int)));
                },
                None => {},
            }
        }
        i = i + 1;
    }
    assert(changes@.take(i as int) =~= changes@);
}

proof fn lemma_change_log_net(cs: Seq<(Option<Note>, Option<Note>)>, x: NoteView)
    ensures
        net(note_deltas(change_log(cs)), x) == added(change_views(cs)).count(x) - removed(
            change_views(cs),
        ).count(x),
    decreases cs.len(),
{
    if cs.len() > 0 {
        let q = cs.drop_last();
        lemma_change_log_net(q, x);
        let cv = change_views(cs);
        assert(cv.drop_last() =~= change_views(q));
        let r = change_log(q);
        let r1 = match cs.last().0 {
            Some(o) => r.push((o, -1int)),
            None => r,
        };
        match cs.last().0 {
            Some(o) => {
                assert(note_deltas(r1) =~= note_deltas(r).push((o@, -1int)));
                lemma_net_push(note_deltas(r), o@, -1, x);
            },
            None => {},
        }
        match cs.last().1 {
            Some(n) => {
                assert(note_deltas(r1.push((n, 1int))) =~= note_deltas(r1).push((n@, 1int)));
                lemma_net_push(note_deltas(r1), n@, 1, x);
            },
            None => {},
        }
    }
}

/// Feeding the changes of a batch into the stream keeps the stream in step
/// with the index: for every note, the net multiplicity the batch pushes is
/// exactly how much the number of index entries holding that note changed.
/// So a stream fed every batch of an index holds, as its live records,
/// exactly the index's notes.
pub proof fn law_stream_tracks_index(
    log: Seq<(Note, int)>,
    before: Multiset<NoteView>,
    after: Multiset<NoteView>,
    changes: Seq<(Option<Note>, Option<Note>)>,
    x: NoteView,
)
    requires
        after.add(removed(change_views(changes))) == before.add(added(change_views(changes))),
    ensures
        net(note_deltas(log + change_log(changes)), x) == net(note_deltas(log), x) + after.count(x)
            - before.count(x),
{
    lemma_change_log_net(changes, x);
    assert(note_deltas(log + change_log(changes)) =~= note_deltas(log) + note_deltas(change_log(changes)));
    lemma_net_concat(note_deltas(log), note_deltas(change_log(changes)), x);
    let cv = change_views(changes);
    assert(after.add(removed(cv)).count(x) == before.add(added(cv)).count(x));
    assert(after.add(removed(cv)).count(x) == after.count(x) + removed(cv).count(x));
    assert(before.add(added(cv)).count(x) == before.count(x) + added(cv).count(x));
}

/// Indexing a note at a path and then removing that path in the same batch
/// leaves the index as it was, minus that path; the batch inserts the note
/// and retracts it again (after retracting whatever the path held before).
pub proof fn law_upsert_then_remove(m: Map<Seq<Seq<char>>, NoteView>, p: Seq<char>, n: NoteView)
    ensures
        run(m, seq![OpView::Upsert(p, n), OpView::Remove(p)]).0 == m.remove(components(p)),
        run(m, seq![OpView::Upsert(p, n), OpView::Remove(p)]).1 == seq![
            (if m.contains_key(components(p)) { Some(m[components(p)]) } else { None::<NoteView> }, Some(n)),
            (Some(n), None::<NoteView>),
        ],
{
    let ops = seq![OpView::Upsert(p, n), OpView::Remove(p)];
    let c1 = (if m.contains_key(components(p)) { Some(m[components(p)]) } else { None::<NoteView> }, Some(n));
    assert(ops.drop_last() =~= seq![OpView::Upsert(p, n)]);
    assert(ops.drop_last().drop_last() =~= Seq::<OpView>::empty());
    assert(run(m, Seq::<OpView>::empty()) == (m, Seq::<(Option<NoteView>, Option<NoteView>)>::empty()));
    assert(run(m, ops.drop_last()) == (m.insert(components(p), n), seq![c1])) by {
        assert(Seq::<(Option<NoteView>, Option<NoteView>)>::empty().push(c1) =~= seq![c1]);
    }
    assert(m.insert(components(p), n).contains_key(components(p)) && m.insert(components(p), n)[components(p)] == n);
    assert(m.insert(components(p), n).remove(components(p)) =~= m.remove(components(p)));
    assert(seq![c1].push((Some(n), None::<NoteView>)) =~= seq![c1, (Some(n), None::<NoteView>)]);
    assert(run(m, ops).1 =~= seq![
        (if m.contains_key(components(p)) { Some(m[components(p)]) } else { None::<NoteView> }, Some(n)),
        (Some(n), None::<NoteView>),
    ]);
}

/// The notes among `(path, note)` pairs that view `kind` holds, in order.
pub open spec fn shown(ps: Seq<(Seq<Seq<char>>, NoteView)>, kind: ViewKind) -> Seq<NoteView>
    decreases ps.len(),
{
    if ps.len() == 0 {
        seq![]
    } else if in_view(kind, ps.last().1) {
        shown(ps.drop_last(), kind).push(ps.last().1)
    } else {
        shown(ps.drop_last(), kind)
    }
}

/// A view shows exactly the indexed notes its filter admits: a note is among
/// those shown from `(path, note)` pairs `ps` if and only if some pair holds
/// it and the view admits it.
pub proof fn law_shown_members(ps: Seq<(Seq<Seq<char>>, NoteView)>, kind: ViewKind, x: NoteView)
    ensures
        shown(ps, kind).contains(x) <==> (in_view(kind, x) && exists|i: int|
            0 <= i < ps.len() && (#[trigger] ps[i]).1 == x),
    decreases ps.len(),
{
    if ps.len() > 0 {
        let q = ps.drop_last();
        law_shown_members(q, kind, x);
        if exists|i: int| 0 <= i < q.len() && (#[trigger] q[i]).1 == x {
            let i = choose|i: int| 0 <= i < q.len() && (#[trigger] q[i]).1 == x;
            assert(ps[i] == q[i]);
        }
        if exists|i: int| 0 <= i < ps.len() && (#[trigger] ps[i]).1 == x {
            let i = choose|i: int| 0 <= i < ps.len() && (#[trigger] ps[i]).1 == x;
            if i < q.len() {
                assert(q[i] == ps[i]);
            }
        }
        if in_view(kind, ps.last().1) {
            assert(shown(ps, kind) == shown(q, kind).push(ps.last().1));
            assert(shown(ps, kind).last() == ps.last().1);
            if shown(q, kind).contains(x) {
                let k = choose|k: int| 0 <= k < shown(q, kind).len() && shown(q, kind)[k] == x;
                assert(shown(ps, kind)[k] == x);
            }
            if shown(ps, kind).contains(x) {
                let k = choose|k: int| 0 <= k < shown(ps, kind).len() && shown(ps, kind)[k] == x;
                if k < shown(q, kind).len() {
                    assert(shown(q, kind)[k] == x);
                }
            }
        }
        assert(ps[ps.len() - 1] == ps.last());
    }
}

/// The texts of a sequence of notes.
pub open spec fn note_views(ns: Seq<Note>) -> Seq<NoteView> {
    ns.map_values(|n: Note| n@)
}

/// Whether path `a` sorts no later than path `b` (`a <= b` for `String`).
pub open spec fn path_le(a: Seq<char>, b: Seq<char>) -> bool {
    lex_lt(a, b) || a == b
}

/// Whether notes come in order of their paths, as a table keyed by path
/// yields them.
pub open spec fn sorted_by_path(ns: Seq<NoteView>) -> bool {
    forall|a: int, b: int| 0 <= a < b < ns.len() ==> path_le(#[trigger] ns[a].path, #[trigger] ns[b].path)
}

proof fn lemma_path_le_trans(a: Seq<char>, b: Seq<char>, c: Seq<char>)
    requires
        path_le(a, b),
        path_le(b, c),
    ensures
        path_le(a, c),
{
    if lex_lt(a, b) && lex_lt(b, c) {
        lemma_lex_transitive(a, b, c);
    }
}

/// Puts `n` into the path-sorted `v`, after every note whose path sorts no
/// later than its own.
fn insert_by_path(v: &mut Vec<Note>, n: Note)
    requires
        sorted_by_path(note_views(old(v)@)),
    ensures
        sorted_by_path(note_views(final(v)@)),
        note_views(final(v)@).to_multiset() == note_views(old(v)@).to_multiset().insert(n@),
{
    let ghost vs = note_views(v@);
    let mut j: usize = 0;
    while j < v.len() && !lex_less(n.path.as_str(), v[j].path.as_str())
        invariant
            j <= v@.len(),
            vs == note_views(v@),
            sorted_by_path(vs),
            forall|k: int| 0 <= k < j ==> path_le(#[trigger] vs[k].path, n@.path),
        decreases v@.len() - j,
    {
        proof {
            assert(vs[j as int] == v@[j as int]@);
            if v@[j as int]@.path != n@.path {
                lemma_lex_total(v@[j as int]@.path, n@.path);
            }
        }
        j = j + 1;
    }
    let ghost nv = n@;
    v.insert(j, n);
    let ghost ws = note_views(v@);
    assert(ws =~= vs.insert(j as int, nv));
    assert forall|a: int, b: int| 0 <= a < b < ws.len() implies path_le(
        #[trigger] ws[a].path,
        #[trigger] ws[b].path,
    ) by {
        if b == j {
        } else if a == j {
            assert(lex_lt(nv.path, vs[j as int].path));
            if b - 1 > j {
                lemma_path_le_trans(nv.path, vs[j as int].path, vs[b - 1].path);
            }
        } else if a < j && b > j {
            assert(path_le(vs[a].path, vs[b - 1].path));
        } else if a > j {
            assert(path_le(vs[a - 1].path, vs[b - 1].path));
        }
    }
}

/// The notes of `ns` in order of their paths (notes with the same path keep
/// their order).
fn sort_by_path(ns: Vec<Note>) -> (r: Vec<Note>)
    ensures
        sorted_by_path(note_views(r@)),
        note_views(r@).to_multiset() == note_views(ns@).to_multiset(),
{
    let mut out: Vec<Note> = Vec::new();
    let ghost nv = note_views(ns@);
    let mut i: usize = 0;
    assert(nv.take(0) =~= seq![]);
    assert(note_views(out@) =~= seq![]);
    while i < ns.len()
        invariant
            i <= ns@.len(),
            nv == note_views(ns@),
            sorted_by_path(note_views(out@)),
            note_views(out@).to_multiset() == nv.take(i as int).to_multiset(),
        decreases ns@.len() - i,
    {
        insert_by_path(&mut out, ns[i].duplicate());
        assert(nv.take(i + 1) =~= nv.take(i as int).push(ns@[i as int]@));
        i = i + 1;
    }
    assert(nv.take(i as int) =~= nv);
    out
}

/// The notes of the view named `name` (`home`, `blog` or `void`) in order
/// of their paths, as the view's table keyed by path holds them; no notes
/// for any other name.
pub fn view_notes(index: &NoteIndex, name: &str) -> (r: Vec<Note>)
    ensures
        match named_view(name@) {
            Some(kind) => {
                &&& note_views(r@).to_multiset() == shown(index.pairs(), kind).to_multiset()
                &&& sorted_by_path(note_views(r@))
            },
            None => r@.len() == 0,
        },
{
    let kind = match view_kind(name) {
        Some(k) => k,
        None => return Vec::new(),
    };
    let ghost ps = index.pairs();
    let mut out: Vec<Note> = Vec::new();
    let mut i: usize = 0;
    assert(ps.take(0) =~= seq![]);
    assert(note_views(out@) =~= seq![]);
    while i < index.entries.len()
        invariant
            i <= index.entries@.len(),
            ps == index.pairs(),
            ps.len() == index.entries@.len(),
            note_views(out@) == shown(ps.take(i as int), kind),
        decreases index.entries@.len() - i,
    {
        assert(ps.take(i + 1).drop_last() =~= ps.take(i as int));
        assert(ps.take(i + 1).last() == ps[i as int]);
        assert(ps[i as int].1 == index.entries@[i as int].1@);
        let n = &index.entries[i].1;
        if shows(kind, n) {
            let ghost before = out@;
            out.push(n.duplicate());
            assert(note_views(out@) =~= note_views(before).push(n@));
        }
        i = i + 1;
    }
    assert(ps.take(i as int) =~= ps);
    sort_by_path(out)
}

/// The text of an optional borrowed note.
pub open spec fn opt_view_ref(o: Option<&Note>) -> Option<NoteView> {
    match o {
        Some(n) => Some(n@),
        None => None,
    }
}

} // verus!
