use mynk::hasher::{hash_bytes, ContentHasher};

const HELLO: &str = "2cf24dba5fb0a30e26e83b2ac5b9e29e1b161e5c1fa7425e73043362938b9824";
const WORLD: &str = "486ea46224d1bb4fb680f34f7c9ad96a8f24ec88be73ea8e5a6c65260e9cb8a7";
const EMPTY: &str = "e3b0c44298fc1c149afbf4c8996fb92427ae41e4649b934ca495991b7852b855";

#[test]
fn digest_of_hello() {
    assert_eq!(hash_bytes(b"hello"), HELLO);
}

#[test]
fn digest_of_world() {
    assert_eq!(hash_bytes(b"world"), WORLD);
}

#[test]
fn digest_of_nothing() {
    assert_eq!(hash_bytes(b""), EMPTY);
    assert_eq!(ContentHasher::new().finish(), EMPTY);
}

#[test]
fn digest_is_lower_case_hex_of_64_characters() {
    let digest = hash_bytes(b"any content at all");
    assert_eq!(digest.len(), 64);
    assert!(digest.chars().all(|c| c.is_ascii_digit() || ('a'..='f').contains(&c)));
    let streamed = ContentHasher::new().finish();
    assert_eq!(streamed.len(), 64);
    assert!(streamed.chars().all(|c| c.is_ascii_digit() || ('a'..='f').contains(&c)));
}

#[test]
fn digest_in_chunks_is_digest_of_the_whole() {
    let mut hasher = ContentHasher::new();
    hasher.update(b"he");
    hasher.update(b"");
    hasher.update(b"llo");
    assert_eq!(hasher.finish(), HELLO);
}

#[test]
fn digest_depends_on_the_order_of_chunks() {
    let mut forward = ContentHasher::new();
    forward.update(b"ab");
    forward.update(b"cd");
    let mut backward = ContentHasher::new();
    backward.update(b"cd");
    backward.update(b"ab");
    assert_eq!(forward.finish(), hash_bytes(b"abcd"));
    assert_eq!(backward.finish(), hash_bytes(b"cdab"));
    assert_ne!(hash_bytes(b"abcd"), hash_bytes(b"cdab"));
}

#[test]
fn digest_of_a_large_content_in_blocks() {
    let content: Vec<u8> = (0..100_000u32).map(|i| (i % 251) as u8).collect();
    let mut hasher = ContentHasher::new();
    for block in content.chunks(4096) {
        hasher.update(block);
    }
    assert_eq!(hasher.finish(), hash_bytes(&content));
}
