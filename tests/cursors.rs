use journal::cursors::{Cursors, MAX_ID};
use journal::error::JournalError;
use journal::key::{Key, KeyType};
use std::collections::BTreeMap;

/// A store in memory, driven the way a journal drives its store.
struct Store {
    entries: BTreeMap<Vec<u8>, Vec<u8>>,
    cursors: Cursors,
}

impl Store {
    fn new() -> Store {
        Store { entries: BTreeMap::new(), cursors: Cursors::new() }
    }

    fn push(&mut self, data: &[u8]) {
        let key = self.cursors.push_key().unwrap();
        self.entries.insert(key.encode(), data.to_vec());
        self.cursors.pushed();
    }

    fn pop(&mut self) -> Option<Vec<u8>> {
        let key = self.cursors.peek_key()?;
        let value = self.entries.get(&key.encode()).cloned();
        let gone = self.cursors.remove_key(false).unwrap();
        assert_eq!(gone, key);
        self.entries.remove(&gone.encode());
        self.cursors.removed();
        value
    }

    fn reopen(&mut self) {
        let keys: Vec<Key> = self.entries.keys().map(|k| Key::decode(k).unwrap()).collect();
        self.cursors = Cursors::recover(&keys).unwrap();
    }
}

#[test]
fn journal_scenario() {
    let mut s = Store::new();
    assert_eq!(s.pop(), None);
    assert_eq!(s.cursors.len(), 0);
    s.push(&[1]);
    assert_eq!(s.cursors.len(), 1);
    s.push(&[2]);
    assert_eq!(s.cursors.len(), 2);
    assert_eq!(s.pop(), Some(vec![1]));
    assert_eq!(s.cursors.len(), 1);
    assert_eq!(s.pop(), Some(vec![2]));
    assert_eq!(s.cursors.len(), 0);
    assert_eq!(s.pop(), None);
    assert_eq!(s.cursors.len(), 0);
}

#[test]
fn reopen_then_pop() {
    let mut s = Store::new();
    s.push(&[9]);
    s.reopen();
    assert_eq!(s.cursors.len(), 1);
    assert_eq!(s.pop(), Some(vec![9]));
    assert_eq!(s.pop(), None);
}

#[test]
fn fifo_over_many_pushes() {
    let mut s = Store::new();
    for i in 0..50u8 {
        s.push(&[i, i]);
    }
    for i in 0..50u8 {
        assert_eq!(s.pop(), Some(vec![i, i]));
    }
    assert_eq!(s.pop(), None);
}

#[test]
fn reopen_after_partial_drain() {
    let mut s = Store::new();
    for i in 0..5u8 {
        s.push(&[i]);
    }
    assert_eq!(s.pop(), Some(vec![0]));
    assert_eq!(s.pop(), Some(vec![1]));
    s.reopen();
    assert_eq!(s.cursors, Cursors { head: 5, tail: 2, reserved_tail: 2 });
    assert_eq!(s.cursors.len(), 3);
    s.push(&[5]);
    for i in 2..6u8 {
        assert_eq!(s.pop(), Some(vec![i]));
    }
    assert_eq!(s.pop(), None);
}

#[test]
fn pop_on_empty_keeps_len() {
    let mut s = Store::new();
    let before = s.cursors;
    assert_eq!(s.pop(), None);
    assert_eq!(s.cursors, before);
    assert!(s.cursors.is_empty());
}

#[test]
fn recover_without_queue_keys() {
    assert_eq!(Cursors::recover(&vec![]), Ok(Cursors::new()));
    let only_chunks = vec![Key::new(KeyType::Chunk, 4), Key::new(KeyType::Chunk, 9)];
    assert_eq!(Cursors::recover(&only_chunks), Ok(Cursors { head: 0, tail: 0, reserved_tail: 0 }));
}

#[test]
fn recover_single_key() {
    let keys = vec![Key::new(KeyType::Queue, 7)];
    assert_eq!(Cursors::recover(&keys), Ok(Cursors { head: 8, tail: 7, reserved_tail: 7 }));
}

#[test]
fn recover_skips_other_namespace() {
    let keys = vec![
        Key::new(KeyType::Queue, 3),
        Key::new(KeyType::Queue, 4),
        Key::new(KeyType::Queue, 5),
        Key::new(KeyType::Chunk, 0),
        Key::new(KeyType::Chunk, 100),
    ];
    let c = Cursors::recover(&keys).unwrap();
    assert_eq!(c, Cursors { head: 6, tail: 3, reserved_tail: 3 });
    assert_eq!(c.len(), 3);
}

#[test]
fn recover_any_order() {
    let keys = vec![Key::new(KeyType::Queue, 12), Key::new(KeyType::Queue, 10), Key::new(KeyType::Queue, 11)];
    assert_eq!(Cursors::recover(&keys), Ok(Cursors { head: 13, tail: 10, reserved_tail: 10 }));
}

#[test]
fn recover_last_id_is_exhausted() {
    let keys = vec![Key::new(KeyType::Queue, 1), Key::new(KeyType::Queue, MAX_ID)];
    assert_eq!(Cursors::recover(&keys), Err(JournalError::Exhausted));
}

#[test]
fn push_key_at_last_id_is_exhausted() {
    let c = Cursors { head: MAX_ID, tail: MAX_ID - 1, reserved_tail: MAX_ID - 1 };
    assert_eq!(c.push_key(), Err(JournalError::Exhausted));
    let d = Cursors { head: MAX_ID - 1, tail: 0, reserved_tail: 0 };
    assert_eq!(d.push_key(), Ok(Key::new(KeyType::Queue, MAX_ID - 1)));
}

#[test]
fn push_advances_head_only() {
    let mut c = Cursors { head: 4, tail: 2, reserved_tail: 3 };
    assert_eq!(c.push_key(), Ok(Key::new(KeyType::Queue, 4)));
    c.pushed();
    assert_eq!(c, Cursors { head: 5, tail: 2, reserved_tail: 3 });
    assert_eq!(c.len(), 3);
}

#[test]
fn lease_then_acknowledge() {
    let mut c = Cursors { head: 3, tail: 0, reserved_tail: 0 };
    assert_eq!(c.remove_key(true), None);
    assert_eq!(c.reserve_key(), Some(Key::new(KeyType::Queue, 0)));
    c.reserved();
    assert_eq!(c.reserve_key(), Some(Key::new(KeyType::Queue, 1)));
    c.reserved();
    assert_eq!(c, Cursors { head: 3, tail: 0, reserved_tail: 2 });
    assert_eq!(c.remove_key(true), Some(Key::new(KeyType::Queue, 0)));
    c.removed();
    assert_eq!(c, Cursors { head: 3, tail: 1, reserved_tail: 2 });
    assert_eq!(c.len(), 2);
    assert_eq!(c.peek_key(), Some(Key::new(KeyType::Queue, 1)));
}

#[test]
fn lease_exhausted_and_pop_moves_lease() {
    let mut c = Cursors { head: 1, tail: 0, reserved_tail: 1 };
    assert_eq!(c.reserve_key(), None);
    let mut d = Cursors { head: 2, tail: 0, reserved_tail: 0 };
    assert_eq!(d.remove_key(false), Some(Key::new(KeyType::Queue, 0)));
    d.removed();
    assert_eq!(d, Cursors { head: 2, tail: 1, reserved_tail: 1 });
    c.removed();
    assert_eq!(c, Cursors { head: 1, tail: 1, reserved_tail: 1 });
    assert_eq!(c.peek_key(), None);
    assert_eq!(c.remove_key(false), None);
}
