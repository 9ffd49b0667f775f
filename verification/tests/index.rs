use fold::index::{apply, feed_changes, view_notes, NoteIndex, Op};
use fold::notes::Note;
use fold::pipeline::Push;
use fold::stream::{PipelineInitCtx, Tx, WriteTx};

fn note(path: &str, title: &str) -> Note {
    Note { path: path.to_string(), title: title.to_string(), tags: vec!["home".to_string()], published: false }
}

fn titles(c: &(Option<Note>, Option<Note>)) -> (Option<String>, Option<String>) {
    (c.0.as_ref().map(|n| n.title.clone()), c.1.as_ref().map(|n| n.title.clone()))
}

fn t(s: &str) -> Option<String> {
    Some(s.to_string())
}

#[test]
fn apply_retracts_old_versions_and_inserts_new_ones() {
    let mut idx = NoteIndex::new();
    let ops = vec![
        Op::Upsert("a.md".to_string(), note("a.md", "a1")),
        Op::Upsert("b.md".to_string(), note("b.md", "b1")),
        Op::Upsert("a.md".to_string(), note("a.md", "a2")),
        Op::Remove("missing.md".to_string()),
    ];
    let changes = apply(&mut idx, ops);
    let got: Vec<_> = changes.iter().map(titles).collect();
    assert_eq!(got, vec![(None, t("a1")), (None, t("b1")), (t("a1"), t("a2"))]);
    assert_eq!(idx.len(), 2);
    assert_eq!(idx.get("a.md").map(|n| n.title.clone()), t("a2"));

    let changes = apply(&mut idx, vec![Op::Remove("b.md".to_string())]);
    let got: Vec<_> = changes.iter().map(titles).collect();
    assert_eq!(got, vec![(t("b1"), None)]);
    assert_eq!(idx.len(), 1);
    assert!(idx.get("b.md").is_none());
}

#[test]
fn apply_of_empty_batch_changes_nothing() {
    let mut idx = NoteIndex::new();
    assert!(apply(&mut idx, vec![]).is_empty());
    assert!(apply(&mut idx, vec![Op::Remove("x.md".to_string())]).is_empty());
    assert_eq!(idx.len(), 0);
}

#[test]
fn index_upsert_and_remove_return_replaced_note() {
    let mut idx = NoteIndex::new();
    assert!(idx.upsert("a.md".to_string(), note("a.md", "1")).is_none());
    assert_eq!(idx.upsert("a.md".to_string(), note("a.md", "2")).map(|n| n.title), t("1"));
    assert_eq!(idx.remove("a.md").map(|n| n.title), t("2"));
    assert!(idx.remove("a.md").is_none());
}

struct Recorder {
    seen: Vec<(String, isize)>,
}

impl Push<Note> for Recorder {
    fn init(&mut self, _init: &mut PipelineInitCtx<'_>) {}
    fn push(&mut self, _tx: &mut WriteTx<'_>, data: &Note, delta: isize) {
        self.seen.push((data.title.clone(), delta));
    }
}

#[test]
fn feeding_changes_pushes_retractions_then_insertions() {
    let db = fjall::SingleWriterTxDatabase::builder("/tmp/fold_test_feed_db").temporary(true).open().unwrap();
    let mut wtx = WriteTx::new(db.write_tx());
    let mut rec = Recorder { seen: Vec::new() };
    let mut idx = NoteIndex::new();
    let mut changes = apply(&mut idx, vec![Op::Upsert("a.md".to_string(), note("a.md", "a1"))]);
    changes.extend(apply(
        &mut idx,
        vec![Op::Upsert("a.md".to_string(), note("a.md", "a2")), Op::Remove("a.md".to_string())],
    ));
    {
        let mut tx = Tx::new(&mut rec, &mut wtx);
        feed_changes(&mut tx, &changes);
    }
    assert_eq!(
        rec.seen,
        vec![
            ("a1".to_string(), 1),
            ("a1".to_string(), -1),
            ("a2".to_string(), 1),
            ("a2".to_string(), -1),
        ]
    );
    assert_eq!(idx.len(), 0);
}

#[test]
fn paths_naming_the_same_file_are_one_entry() {
    let mut idx = NoteIndex::new();
    apply(&mut idx, vec![Op::Upsert("a/b.md".to_string(), note("a/b.md", "1"))]);
    let changes = apply(&mut idx, vec![Op::Upsert("a//b.md".to_string(), note("a/b.md", "2"))]);
    let got: Vec<_> = changes.iter().map(titles).collect();
    assert_eq!(got, vec![(t("1"), t("2"))]);
    assert_eq!(idx.len(), 1);
    let changes = apply(&mut idx, vec![Op::Remove("a/./b.md".to_string())]);
    assert_eq!(changes.len(), 1);
    assert_eq!(idx.len(), 0);
}

#[test]
fn view_notes_selects_by_view_name() {
    let mut idx = NoteIndex::new();
    let blog = Note { path: "b.md".to_string(), title: "b".to_string(), tags: vec!["anm_blog".to_string()], published: true };
    let draft = Note { path: "d.md".to_string(), title: "d".to_string(), tags: vec!["anm_blog".to_string()], published: false };
    apply(&mut idx, vec![
        Op::Upsert("a.md".to_string(), note("a.md", "a")),
        Op::Upsert("b.md".to_string(), blog),
        Op::Upsert("d.md".to_string(), draft),
    ]);
    let home: Vec<_> = view_notes(&idx, "home").into_iter().map(|n| n.title).collect();
    assert_eq!(home, vec!["a"]);
    let posts: Vec<_> = view_notes(&idx, "blog").into_iter().map(|n| n.title).collect();
    assert_eq!(posts, vec!["b"]);
    assert!(view_notes(&idx, "void").is_empty());
    assert!(view_notes(&idx, "drafts").is_empty());
}

#[test]
fn view_notes_come_in_path_order() {
    let mut idx = NoteIndex::new();
    apply(&mut idx, vec![
        Op::Upsert("c.md".to_string(), note("c.md", "c1")),
        Op::Upsert("a.md".to_string(), note("a.md", "a")),
        Op::Upsert("B.md".to_string(), note("B.md", "B")),
        Op::Upsert("c.md".to_string(), note("c.md", "c2")),
        Op::Upsert("ab.md".to_string(), note("ab.md", "ab")),
    ]);
    let home: Vec<_> = view_notes(&idx, "home").into_iter().map(|n| n.title).collect();
    assert_eq!(home, vec!["B", "a", "ab", "c2"]);
}
