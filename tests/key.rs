use journal::error::JournalError;
use journal::key::{Key, KeyType, KEY_LEN};
use std::cmp::Ordering;

#[test]
fn test_compare() {
    let key = Key::new(KeyType::Queue, 123);
    let key2 = Key::new(KeyType::Chunk, 123);
    let key3 = Key::new(KeyType::Queue, 124);
    assert_eq!(Ordering::Less, key.cmp(&key2));
    assert_eq!(Ordering::Greater, key2.cmp(&key));
    assert_eq!(Ordering::Less, key.cmp(&key3));
    assert_eq!(Ordering::Greater, key3.cmp(&key));
    assert_eq!(Ordering::Equal, key.cmp(&key));
}

#[test]
fn test_equality() {
    let key = Key::new(KeyType::Queue, 0);
    let key2 = Key::new(KeyType::Queue, 0);
    assert_eq!(Ordering::Equal, key.cmp(&key2));
}

#[test]
fn empty_is_first_queue_key() {
    let k = Key::empty();
    assert_eq!(k, Key::new(KeyType::Queue, 0));
    assert_eq!(k.keytype, KeyType::Queue);
    assert_eq!(k.id, 0);
}

#[test]
fn namespace_dominates_id() {
    let a = Key::new(KeyType::Queue, u64::MAX);
    let b = Key::new(KeyType::Chunk, 0);
    assert_eq!(a.compare(&b), Ordering::Less);
    assert_eq!(b.compare(&a), Ordering::Greater);
    assert_eq!(a.partial_cmp(&b), Some(Ordering::Less));
    assert!(a < b);
    assert_eq!(a.cmp(&b), Ordering::Less);
}

#[test]
fn compare_within_namespace() {
    let a = Key::new(KeyType::Chunk, 7);
    let b = Key::new(KeyType::Chunk, 8);
    assert_eq!(a.compare(&b), Ordering::Less);
    assert_eq!(b.compare(&a), Ordering::Greater);
    assert_eq!(a.compare(&a), Ordering::Equal);
    assert_eq!(a.partial_cmp(&a), Some(Ordering::Equal));
}

#[test]
fn encode_is_big_endian() {
    let k = Key::new(KeyType::Chunk, 0x0102_0304_0506_0708);
    let b = k.encode();
    assert_eq!(b.len(), KEY_LEN);
    assert_eq!(
        b,
        vec![0, 0, 0, 0, 0, 0, 0, 1, 1, 2, 3, 4, 5, 6, 7, 8]
    );
    let q = Key::new(KeyType::Queue, 300).encode();
    assert_eq!(q, vec![0, 0, 0, 0, 0, 0, 0, 0, 0, 0, 0, 0, 0, 0, 1, 44]);
}

#[test]
fn decode_round_trip() {
    for k in [
        Key::new(KeyType::Queue, 0),
        Key::new(KeyType::Queue, 1),
        Key::new(KeyType::Chunk, 123),
        Key::new(KeyType::Queue, u64::MAX),
        Key::new(KeyType::Chunk, 0x8000_0000_0000_0001),
    ] {
        assert_eq!(Key::decode(&k.encode()), Ok(k));
    }
}

#[test]
fn decode_rejects_wrong_width() {
    assert_eq!(Key::decode(&[]), Err(JournalError::MalformedKey));
    assert_eq!(Key::decode(&[0u8; 15]), Err(JournalError::MalformedKey));
    assert_eq!(Key::decode(&[0u8; 17]), Err(JournalError::MalformedKey));
}

#[test]
fn decode_rejects_unknown_namespace() {
    let mut b = Key::new(KeyType::Chunk, 5).encode();
    b[7] = 2;
    assert_eq!(Key::decode(&b), Err(JournalError::MalformedKey));
    let mut c = Key::new(KeyType::Queue, 5).encode();
    c[0] = 1;
    assert_eq!(Key::decode(&c), Err(JournalError::MalformedKey));
}

#[test]
fn byte_order_follows_key_order() {
    let keys = [
        Key::new(KeyType::Queue, 0),
        Key::new(KeyType::Queue, 255),
        Key::new(KeyType::Queue, 256),
        Key::new(KeyType::Queue, u64::MAX),
        Key::new(KeyType::Chunk, 0),
        Key::new(KeyType::Chunk, 1 << 40),
    ];
    for a in keys.iter() {
        for b in keys.iter() {
            assert_eq!(a.compare(b), a.encode().cmp(&b.encode()));
        }
    }
}

#[test]
fn namespace_tags() {
    assert_eq!(KeyType::Queue.tag(), 0);
    assert_eq!(KeyType::Chunk.tag(), 1);
}
