use file_organizer::hashing::hash_content;

#[test]
fn identical_content_identical_digest() {
    let a = hash_content(b"the quick brown fox");
    let b = hash_content(b"the quick brown fox");
    assert_eq!(a, b);
}

#[test]
fn differing_content_differing_digest() {
    let a = hash_content(b"the quick brown fox");
    let b = hash_content(b"the quick brown fo!");
    assert_ne!(a, b);
    let c = hash_content(b"");
    let d = hash_content(b"\0");
    assert_ne!(c, d);
}

#[test]
fn digest_is_lowercase_hex_of_fixed_width() {
    let d = hash_content(b"x");
    assert_eq!(d.len(), 64);
    assert!(d.chars().all(|c| matches!(c, '0'..='9' | 'a'..='f')));
    assert_ne!(d, "x");
}

#[test]
fn digest_of_empty_input_is_still_a_digest() {
    let d = hash_content(b"");
    assert_eq!(d.len(), 64);
}
