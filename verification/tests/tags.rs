use fold::tags::{inline_tags, sorted_unique};
use fold::text::{is_whitespace, lex_less, same_text};

fn strings(v: &[&str]) -> Vec<String> {
    v.iter().map(|s| s.to_string()).collect()
}

#[test]
fn inline_tags_take_hash_words_in_order() {
    let tags = inline_tags("hello #rust and #Go! #  #123 x#y ##z");
    assert_eq!(tags, strings(&["rust", "Go", "123"]));
}

#[test]
fn inline_tags_split_on_unicode_white_space() {
    let tags = inline_tags("a\u{3000}#tag\u{2003}#other\n#last...");
    assert_eq!(tags, strings(&["tag", "other", "last"]));
}

#[test]
fn inline_tags_of_text_without_tags() {
    assert!(inline_tags("").is_empty());
    assert!(inline_tags("   no tags # here #!").is_empty());
}

#[test]
fn inline_tags_keep_inner_punctuation() {
    assert_eq!(inline_tags("#a-b.c,"), strings(&["a-b.c"]));
}

#[test]
fn sorted_unique_sorts_and_drops_duplicates() {
    let out = sorted_unique(strings(&["pkmn", "anm_blog", "pkmn", "Zed", "void", "anm_blog"]));
    assert_eq!(out, strings(&["Zed", "anm_blog", "pkmn", "void"]));
}

#[test]
fn sorted_unique_matches_sort_then_dedup() {
    let input = strings(&["b", "ab", "a", "", "ab", "é", "z"]);
    let mut expected = input.clone();
    expected.sort();
    expected.dedup();
    assert_eq!(sorted_unique(input), expected);
}

#[test]
fn lex_less_orders_like_string() {
    assert!(lex_less("a", "b"));
    assert!(lex_less("ab", "abc"));
    assert!(!lex_less("abc", "ab"));
    assert!(!lex_less("same", "same"));
    assert!(lex_less("Z", "a"));
    assert!(lex_less("z", "é"));
}

#[test]
fn same_text_compares_characters() {
    assert!(same_text("home", "home"));
    assert!(!same_text("home", "Home"));
    assert!(!same_text("home", "homes"));
}

#[test]
fn whitespace_is_unicode_white_space() {
    for u in 0u32..0x3100 {
        if let Some(c) = char::from_u32(u) {
            assert_eq!(is_whitespace(c), c.is_whitespace(), "U+{u:04X}");
        }
    }
    assert!(!is_whitespace('\u{180E}'));
    assert!(!is_whitespace('\u{FEFF}'));
}
