use fold::frontmatter::{note_from_fields, note_from_parts, parse_note, FmValue};
use fold::notes::{
    entry_action, event_action, has_home_tag, has_tag, is_home, is_published_blog, is_void, note_path,
    shows, table_name, view, view_kind, EntryAction, EventAction, FsEvent, Note, ViewKind,
};

fn note(tags: &[&str], published: bool) -> Note {
    Note {
        path: "../my-vault/blog/x.md".to_string(),
        title: "x".to_string(),
        tags: tags.iter().map(|s| s.to_string()).collect(),
        published,
    }
}

#[test]
fn tag_predicates_route_notes_to_views() {
    let n = note(&["anm_blog", "home"], false);
    assert!(has_tag(&n, "home"));
    assert!(!has_tag(&n, "hom"));
    assert!(is_home(&n));
    assert!(has_home_tag(&n));
    assert!(!is_published_blog(&n));
    assert!(!is_void(&n));
    let p = note(&["anm_blog", "void"], true);
    assert!(is_published_blog(&p));
    assert!(is_void(&p));
    assert!(!is_home(&p));
    assert!(shows(ViewKind::Blog, &p));
    assert!(shows(ViewKind::Void, &p));
    assert!(!shows(ViewKind::Home, &p));
    assert_eq!(note_path(&p), "../my-vault/blog/x.md");
}

#[test]
fn views_are_named_home_blog_void() {
    assert_eq!(view_kind("home"), Some(ViewKind::Home));
    assert_eq!(view_kind("blog"), Some(ViewKind::Blog));
    assert_eq!(view_kind("void"), Some(ViewKind::Void));
    assert_eq!(view_kind("anm_blog"), None);
    assert_eq!(view_kind(""), None);
}

#[test]
fn watcher_events_become_actions() {
    let p = "../my-vault/blog/a.md";
    let root = "../my-vault";
    let cwd = "/home/u/app";
    assert_eq!(event_action(FsEvent::Create, p, true, root, cwd), EventAction::Reparse);
    assert_eq!(event_action(FsEvent::Modify, p, true, root, cwd), EventAction::Reparse);
    assert_eq!(event_action(FsEvent::Modify, p, false, root, cwd), EventAction::Forget);
    assert_eq!(event_action(FsEvent::Remove, p, false, root, cwd), EventAction::Forget);
    assert_eq!(event_action(FsEvent::Other, p, true, root, cwd), EventAction::Ignore);
    assert_eq!(event_action(FsEvent::Create, "../my-vault/a.txt", true, root, cwd), EventAction::Ignore);
    assert_eq!(event_action(FsEvent::Create, "../my-vault/.obsidian/a.md", true, root, cwd), EventAction::Ignore);
    assert_eq!(
        event_action(FsEvent::Modify, "/home/u/app/../my-vault/blog/a.md", true, root, cwd),
        EventAction::Reparse
    );
    assert_eq!(event_action(FsEvent::Remove, "/srv/.data/my-vault/a.md", false, "/srv/.data/my-vault", cwd), EventAction::Forget);
}

#[test]
fn scan_entries_become_actions() {
    assert_eq!(entry_action("../my-vault/.obsidian", true), EntryAction::Skip);
    assert_eq!(entry_action("../my-vault/blog", true), EntryAction::Descend);
    assert_eq!(entry_action("../my-vault/blog/a.md", false), EntryAction::Parse);
    assert_eq!(entry_action("../my-vault/blog/a.png", false), EntryAction::Skip);
    assert_eq!(entry_action("../my-vault/.a.md", false), EntryAction::Skip);
}

#[test]
fn note_from_parts_merges_and_sorts_tags() {
    let n = note_from_parts(
        "blog/void1.md",
        vec!["void".to_string(), "gamedev".to_string()],
        None,
        true,
        "text #void and #extra.",
    );
    assert_eq!(n.path, "blog/void1.md");
    assert_eq!(n.title, "void1");
    assert_eq!(n.tags, vec!["extra", "gamedev", "void"]);
    assert!(n.published);
}

#[test]
fn parse_note_without_front_matter() {
    let n = parse_note("../my-vault/plain.md", "just #text here #text");
    assert_eq!(n.title, "plain");
    assert_eq!(n.tags, vec!["text"]);
    assert!(!n.published);
    assert_eq!(n.path, "../my-vault/plain.md");
}

#[test]
fn parse_note_with_front_matter() {
    let md = "---\ntitle: \"pocket progress 4\"\ntags:\n  - pkmn\n  - anm_blog\npublished: true\n---\n\nI finally got grass working. #void\n";
    let n = parse_note("../my-vault/blog/pkmn4.md", md);
    assert_eq!(n.title, "pocket progress 4");
    assert_eq!(n.tags, vec!["anm_blog", "pkmn", "void"]);
    assert!(n.published);
}

#[test]
fn parse_note_of_a_vault_blog_post() {
    let md = "---\ntitle: \"pocket progress 4\"\naliases:\n  - \"pocket progress 4\"\ndate: 2015-07-25\ntags:\n  - pkmn\n  - anm_blog\npublished: true\ncategory: blog\nrating: 6\n---\n\nI've finally got grass working beautifully.\n";
    let n = parse_note("../my-vault/blog/pkmn4.md", md);
    assert_eq!(n.path, "../my-vault/blog/pkmn4.md");
    assert_eq!(n.title, "pocket progress 4");
    assert_eq!(n.tags, vec!["anm_blog", "pkmn"]);
    assert!(n.published);
    assert!(is_published_blog(&n));
}

#[test]
fn parse_note_with_unreadable_front_matter_uses_whole_text() {
    let md = "---\ntitle: x\ntags: [a\nsee ../elsewhere #inline\n---\nbody\n";
    let n = parse_note("dir/stem.md", md);
    assert_eq!(n.title, "stem");
    assert_eq!(n.tags, vec!["inline"]);
    assert!(!n.published);
}

#[test]
fn parse_note_published_needs_a_boolean() {
    let md = "---\ntitle: t\npublished: \"true\"\n---\nbody\n";
    let n = parse_note("a.md", md);
    assert!(!n.published);
    assert_eq!(n.title, "t");
}

#[test]
fn note_from_fields_reads_the_front_matter_model() {
    let n = note_from_fields(
        "blog/x.md",
        Some(FmValue::List(vec![Some("b".to_string()), None, Some("a".to_string())])),
        Some(FmValue::Flag(true)),
        Some(FmValue::Flag(true)),
        "#c",
    );
    assert_eq!(n.tags, vec!["a", "b", "c"]);
    assert_eq!(n.title, "x");
    assert!(n.published);
    let m = note_from_fields("y.md", Some(FmValue::Text("solo".to_string())), Some(FmValue::Text("T".to_string())), Some(FmValue::Text("true".to_string())), "");
    assert_eq!(m.tags, vec!["solo"]);
    assert_eq!(m.title, "T");
    assert!(!m.published);
    let o = note_from_fields("z.md", Some(FmValue::Other), None, None, "");
    assert!(o.tags.is_empty());
}

#[test]
fn parse_note_with_single_text_tag() {
    let md = "---\ntitle: one\ntags: home\npublished: false\n---\nbody\n";
    let n = parse_note("home.md", md);
    assert_eq!(n.title, "one");
    assert_eq!(n.tags, vec!["home"]);
    assert!(!n.published);
}

#[test]
fn views_key_admitted_notes_by_path() {
    let n = note(&["home"], false);
    let k = view(ViewKind::Home, &n).unwrap();
    assert_eq!(k.key, "../my-vault/blog/x.md");
    assert_eq!(k.val.title, "x");
    assert!(view(ViewKind::Blog, &n).is_none());
    assert!(view(ViewKind::Void, &n).is_none());
    assert_eq!(table_name(ViewKind::Home), "home_notes");
    assert_eq!(table_name(ViewKind::Blog), "blog_notes");
    assert_eq!(table_name(ViewKind::Void), "void_notes");
}

#[test]
fn path_traversal_outside_fenced_code_rejects_the_front_matter() {
    let md = "---\ntitle: t\ntags: [a]\n---\nsee ../x\n";
    let n = parse_note("dir/stem.md", md);
    assert_eq!(n.title, "stem");
    assert!(n.tags.is_empty());
    let fenced = "---\ntitle: t\ntags: [a]\n---\n```\nsee ../x\n```\n";
    let n = parse_note("dir/stem.md", fenced);
    assert_eq!(n.title, "t");
    assert_eq!(n.tags, vec!["a"]);
}

