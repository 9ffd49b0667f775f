use fold::paths::{
    same_components, extension_of, file_name_of, file_stem_of, in_hidden_dir, is_hidden_name, resolved_components, is_md, path_components,
};

#[test]
fn components_normalize_like_std_path() {
    assert_eq!(path_components("/a//b/./c/"), vec!["/", "a", "b", "c"]);
    assert_eq!(path_components("./a/../b"), vec![".", "a", "..", "b"]);
    assert_eq!(path_components("a/."), vec!["a"]);
    assert!(path_components("").is_empty());
}

#[test]
fn file_name_is_last_plain_component() {
    assert_eq!(file_name_of("blog/void1.md"), Some("void1.md".to_string()));
    assert_eq!(file_name_of("blog/void1.md/"), Some("void1.md".to_string()));
    assert_eq!(file_name_of("blog/.."), None);
    assert_eq!(file_name_of("/"), None);
    assert_eq!(file_name_of("."), None);
}

#[test]
fn extension_and_stem_split_at_last_dot() {
    assert_eq!(extension_of("archive.tar.gz"), Some("gz".to_string()));
    assert_eq!(file_stem_of("archive.tar.gz"), Some("archive.tar".to_string()));
    assert_eq!(extension_of("blog/.hidden"), None);
    assert_eq!(file_stem_of("blog/.hidden"), Some(".hidden".to_string()));
    assert_eq!(extension_of("noext"), None);
    assert_eq!(file_stem_of("noext"), Some("noext".to_string()));
    assert_eq!(extension_of("trailing."), Some("".to_string()));
}

#[test]
fn markdown_files_by_extension() {
    assert!(is_md("notes/a.md"));
    assert!(is_md("dir/.hidden.md"));
    assert!(!is_md("a.MD"));
    assert!(!is_md(".md"));
    assert!(!is_md("a.markdown"));
    assert!(!is_md("/"));
}

#[test]
fn hidden_names_start_with_a_dot() {
    assert!(is_hidden_name("vault/.obsidian"));
    assert!(is_hidden_name(".DS_Store"));
    assert!(!is_hidden_name("vault/a.md"));
    assert!(!is_hidden_name(".."));
    assert!(!is_hidden_name("/"));
}

#[test]
fn hidden_dirs_below_the_vault_root() {
    let root = "../my-vault";
    let cwd = "/home/u/app";
    assert!(!in_hidden_dir("../my-vault/blog/a.md", root, cwd));
    assert!(in_hidden_dir("../my-vault/.trash/a.md", root, cwd));
    assert!(!in_hidden_dir("../my-vault", root, cwd));
    assert!(in_hidden_dir("/home/u/.cache/vault/a.md", root, cwd));
    assert!(!in_hidden_dir("./a.md", root, cwd));
    assert!(!in_hidden_dir("../other/a.md", root, cwd));
    assert!(!in_hidden_dir("/srv/vault/blog/a.md", root, cwd));
}

#[test]
fn the_roots_own_ancestry_never_hides_the_vault() {
    let cwd = "/home/u/app";
    assert!(!in_hidden_dir("/home/u/app/../my-vault/blog/a.md", "../my-vault", cwd));
    assert!(in_hidden_dir("/home/u/app/../my-vault/.git/a.md", "../my-vault", cwd));
    assert!(!in_hidden_dir("/home/u/my-vault/blog/a.md", "../my-vault", cwd));
    let root = "/home/u/.config/app/../my-vault";
    assert!(!in_hidden_dir("/home/u/.config/app/../my-vault/blog/a.md", root, cwd));
    assert!(!in_hidden_dir("/home/u/.config/my-vault//blog/./a.md", root, cwd));
    assert!(in_hidden_dir("/home/u/.config/app/../my-vault/.git/a.md", root, cwd));
    assert!(!in_hidden_dir("/home/u/.hidden/vault/blog/a.md", "/home/u/.hidden/vault", cwd));
    assert!(!in_hidden_dir("vault/blog/a.md", "vault", "/home/.u"));
}

#[test]
fn paths_resolve_lexically_from_the_working_directory() {
    let v = |p: &str, cwd: &str| resolved_components(p, cwd);
    assert_eq!(v("../my-vault/a.md", "/home/u/app"), vec!["/", "home", "u", "my-vault", "a.md"]);
    assert_eq!(v("/home/u/app/../my-vault/./a.md", "/x"), vec!["/", "home", "u", "my-vault", "a.md"]);
    assert_eq!(v("/../a.md", "/x"), vec!["/", "a.md"]);
    assert_eq!(v("../../a.md", ""), vec!["..", "..", "a.md"]);
    assert!(!in_hidden_dir("/v/.hidden/../b.md", "/v", "/"));
}

#[test]
fn component_lists_compare_as_paths() {
    assert!(same_components(&path_components("a//b.md"), &path_components("a/b.md")));
    assert!(same_components(&path_components("a/./b.md/"), &path_components("a/b.md")));
    assert!(!same_components(&path_components("a/../b.md"), &path_components("b.md")));
    assert!(!same_components(&path_components("/a/b.md"), &path_components("a/b.md")));
}
