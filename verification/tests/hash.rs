use semantic_code::hash::{simple_hash, stable_id};

#[test]
fn fnv_of_empty_is_offset_basis() {
    assert_eq!(simple_hash(""), 0xcbf29ce484222325);
    assert_eq!(stable_id(""), "cbf29ce484222325");
}

#[test]
fn fnv_known_value() {
    // FNV-1a 64 of "a" is 0xaf63dc4c8601ec8c.
    assert_eq!(simple_hash("a"), 0xaf63dc4c8601ec8c);
    assert_eq!(stable_id("a"), "af63dc4c8601ec8c");
}

#[test]
fn stable_ids_are_deterministic() {
    let a = stable_id("https://ds-labs.org/code#src/main.rs/my_func");
    let b = stable_id("https://ds-labs.org/code#src/main.rs/my_func");
    assert_eq!(a, b);
    assert_eq!(a.len(), 16);
    assert_ne!(a, stable_id("https://ds-labs.org/code#src/lib.rs/helper"));
}
