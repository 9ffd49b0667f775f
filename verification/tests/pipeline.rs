use fold::pipeline::Keyed;

#[test]
fn keyed_new_keeps_key_and_value() {
    let k = Keyed::new(7u32, "seven".to_string());
    assert_eq!(k.key, 7);
    assert_eq!(k.val, "seven");
}

#[test]
fn keyed_new_by_keys_value_by_function() {
    let k = Keyed::new_by("hello".to_string(), |s: &String| s.len());
    assert_eq!(k.key, 5);
    assert_eq!(k.val, "hello");
}

#[test]
fn keyed_unkey_discards_key() {
    let k = Keyed::new(1u8, vec![1u64, 2, 3]);
    assert_eq!(k.unkey(), vec![1, 2, 3]);
}
