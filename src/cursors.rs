use vstd::prelude::*;
use crate::error::JournalError;
use crate::key::{Key, KeyType};

verus! {

/// The three positions that describe the queue namespace of a journal:
/// entries are stored under ids `tail..head`; those under
/// `tail..reserved_tail` have been handed out under a lease and are not yet
/// acknowledged.
#[derive(Debug, PartialEq, Eq, Structural, Clone, Copy)]
pub struct Cursors {
    /// The id that the next pushed entry gets.
    pub head: u64,
    /// The id of the oldest entry that is not yet removed.
    pub tail: u64,
    /// The id of the first entry that is not yet handed out under a lease.
    pub reserved_tail: u64,
}

/// The largest sequence id; it is never given to an entry, so that `head`
/// always fits.
pub const MAX_ID: u64 = 0xffff_ffff_ffff_ffff;

/// The queue key with sequence id `id`.
pub open spec fn queue_key(id: u64) -> Key {
    Key { keytype: KeyType::Queue, id }
}

/// The cursors after an entry is pushed.
pub open spec fn after_push(c: Cursors) -> Cursors {
    Cursors { head: (c.head + 1) as u64, ..c }
}

/// The cursors after a lease is taken on the entry at `reserved_tail`.
pub open spec fn after_reserve(c: Cursors) -> Cursors {
    Cursors { reserved_tail: (c.reserved_tail + 1) as u64, ..c }
}

/// The cursors after the entry at `tail` is removed.
pub open spec fn after_remove(c: Cursors) -> Cursors {
    let t = (c.tail + 1) as u64;
    Cursors { tail: t, reserved_tail: if c.reserved_tail < t { t } else { c.reserved_tail }, ..c }
}

/// The cursors that a scan of the store's keys, in any order, rebuilds: the
/// oldest queue id becomes `tail` and `reserved_tail`, one past the newest
/// becomes `head`; with no queue key all three are zero.
pub open spec fn recovered_from(keys: Seq<Key>, c: Cursors) -> bool {
    if forall|i: int| 0 <= i < keys.len() ==> keys[i].keytype != KeyType::Queue {
        c == Cursors { head: 0, tail: 0, reserved_tail: 0 }
    } else {
        &&& c.reserved_tail == c.tail
        &&& exists|i: int| 0 <= i < keys.len() && keys[i] == queue_key(c.tail)
        &&& exists|i: int| 0 <= i < keys.len() && keys[i] == queue_key((c.head - 1) as u64)
        &&& c.head >= 1
        &&& forall|i: int|
            0 <= i < keys.len() && keys[i].keytype == KeyType::Queue ==> c.tail <= keys[i].id
                < c.head
    }
}

/// Whether the scanned keys hold a queue key with the largest id, past which
/// no `head` can point.
pub open spec fn holds_last_id(keys: Seq<Key>) -> bool {
    exists|i: int| 0 <= i < keys.len() && keys[i] == queue_key(MAX_ID)
}

/// The queue contents of a store, by sequence id, agree with the cursors:
/// an entry is stored exactly under each id in `tail..head`.
pub open spec fn stored_exactly(c: Cursors, s: Map<u64, Seq<u8>>) -> bool {
    &&& c.wf()
    &&& forall|id: u64| #[trigger] s.contains_key(id) <==> c.tail <= id < c.head
}

/// The payloads still in the queue, oldest first.
pub open spec fn pending(c: Cursors, s: Map<u64, Seq<u8>>) -> Seq<Seq<u8>> {
    Seq::new((c.head - c.tail) as nat, |i: int| s[(c.tail + i) as u64])
}

/// The cursors and queue contents after pushing each payload of `ps` in turn.
pub open spec fn push_all(c: Cursors, s: Map<u64, Seq<u8>>, ps: Seq<Seq<u8>>) -> (Cursors, Map<
    u64,
    Seq<u8>,
>)
    decreases ps.len(),
{
    if ps.len() == 0 {
        (c, s)
    } else {
        let (c1, s1) = push_all(c, s, ps.drop_last());
        (after_push(c1), s1.insert(c1.head, ps.last()))
    }
}

/// The payloads that `n` pops return in turn: each reads the entry at
/// `tail` and removes it; a pop on an empty queue returns nothing.
pub open spec fn pop_n(c: Cursors, s: Map<u64, Seq<u8>>, n: nat) -> Seq<Seq<u8>>
    decreases n,
{
    if n == 0 || c.head <= c.tail {
        Seq::empty()
    } else {
        seq![s[c.tail]] + pop_n(after_remove(c), s.remove(c.tail), (n - 1) as nat)
    }
}

/// A push writes the payload under `head`: the queue gains it at its end,
/// and the store still holds exactly the ids between the cursors.
pub proof fn lemma_push_appends(c: Cursors, s: Map<u64, Seq<u8>>, p: Seq<u8>)
    requires
        stored_exactly(c, s),
        c.head < MAX_ID,
    ensures
        stored_exactly(after_push(c), s.insert(c.head, p)),
        pending(after_push(c), s.insert(c.head, p)) == pending(c, s).push(p),
        after_push(c).head - after_push(c).tail == c.head - c.tail + 1,
{
    assert(pending(after_push(c), s.insert(c.head, p)) =~= pending(c, s).push(p));
}

/// A removal deletes the entry under `tail`, which is the oldest payload of
/// the queue; the queue loses it at its front. A pop on an empty queue
/// returns nothing and leaves the cursors as they are.
pub proof fn lemma_remove_takes_oldest(c: Cursors, s: Map<u64, Seq<u8>>)
    requires
        stored_exactly(c, s),
    ensures
        c.tail < c.head ==> s[c.tail] == pending(c, s)[0],
        c.tail < c.head ==> stored_exactly(after_remove(c), s.remove(c.tail)),
        c.tail < c.head ==> pending(after_remove(c), s.remove(c.tail)) == pending(c, s).drop_first(),
        c.tail < c.head ==> after_remove(c).head - after_remove(c).tail == c.head - c.tail - 1,
        c.tail == c.head ==> pop_n(c, s, 1) == Seq::<Seq<u8>>::empty(),
{
    if c.tail < c.head {
        assert(pending(after_remove(c), s.remove(c.tail)) =~= pending(c, s).drop_first());
    }
}

/// Taking a lease leaves the store and the queue as they are; the cursors
/// stay ordered.
pub proof fn lemma_reserve_keeps_queue(c: Cursors, s: Map<u64, Seq<u8>>)
    requires
        stored_exactly(c, s),
        c.reserved_tail < c.head,
    ensures
        stored_exactly(after_reserve(c), s),
        pending(after_reserve(c), s) == pending(c, s),
{
    assert(pending(after_reserve(c), s) =~= pending(c, s));
}

/// Pushing payloads appends them, in order, to the queue.
pub proof fn lemma_push_all(c: Cursors, s: Map<u64, Seq<u8>>, ps: Seq<Seq<u8>>)
    requires
        stored_exactly(c, s),
        c.head + ps.len() <= MAX_ID,
    ensures
        stored_exactly(push_all(c, s, ps).0, push_all(c, s, ps).1),
        push_all(c, s, ps).0.head == c.head + ps.len(),
        pending(push_all(c, s, ps).0, push_all(c, s, ps).1) == pending(c, s) + ps,
    decreases ps.len(),
{
    if ps.len() == 0 {
        assert(pending(c, s) + ps =~= pending(c, s));
    } else {
        lemma_push_all(c, s, ps.drop_last());
        let (c1, s1) = push_all(c, s, ps.drop_last());
        lemma_push_appends(c1, s1, ps.last());
        assert(pending(c, s) + ps.drop_last() + seq![ps.last()] =~= pending(c, s) + ps);
    }
}

/// Pops return the queue's payloads oldest first.
pub proof fn lemma_pop_n(c: Cursors, s: Map<u64, Seq<u8>>, n: nat)
    requires
        stored_exactly(c, s),
        n <= c.head - c.tail,
    ensures
        pop_n(c, s, n) == pending(c, s).take(n as int),
    decreases n,
{
    if n == 0 {
        assert(pending(c, s).take(0) =~= Seq::<Seq<u8>>::empty());
    } else {
        lemma_remove_takes_oldest(c, s);
        lemma_pop_n(after_remove(c), s.remove(c.tail), (n - 1) as nat);
        assert(seq![s[c.tail]] + pending(c, s).drop_first().take(n - 1) =~= pending(c, s).take(
            n as int,
        ));
    }
}

/// First in, first out: on a journal whose queue is empty, pushing
/// `p1, ..., pn` and then popping `n` times returns `p1, ..., pn` in that
/// order.
pub proof fn lemma_fifo(c: Cursors, s: Map<u64, Seq<u8>>, ps: Seq<Seq<u8>>)
    requires
        stored_exactly(c, s),
        c.tail == c.head,
        c.head + ps.len() <= MAX_ID,
    ensures
        pop_n(push_all(c, s, ps).0, push_all(c, s, ps).1, ps.len()) == ps,
{
    lemma_push_all(c, s, ps);
    let (c2, s2) = push_all(c, s, ps);
    assert(pending(c, s) =~= Seq::<Seq<u8>>::empty());
    assert(pending(c, s) + ps =~= ps);
    lemma_pop_n(c2, s2, ps.len());
    assert(ps.take(ps.len() as int) =~= ps);
}

/// Recovery is exact: where the store holds exactly the entries between the
/// cursors of a closed journal and the scan lists the store's keys, the
/// rebuilt cursors count the same entries and yield the same queue.
pub proof fn lemma_recover_restores(
    c: Cursors,
    s: Map<u64, Seq<u8>>,
    keys: Seq<Key>,
    r: Cursors,
)
    requires
        stored_exactly(c, s),
        forall|i: int|
            0 <= i < keys.len() && keys[i].keytype == KeyType::Queue ==> s.contains_key(
                #[trigger] keys[i].id,
            ),
        forall|id: u64|
            #[trigger] s.contains_key(id) ==> exists|i: int|
                0 <= i < keys.len() && keys[i] == queue_key(id),
        recovered_from(keys, r),
    ensures
        !holds_last_id(keys),
        stored_exactly(r, s),
        r.head - r.tail == c.head - c.tail,
        pending(r, s) == pending(c, s),
{
    if holds_last_id(keys) {
        let i = choose|i: int| 0 <= i < keys.len() && keys[i] == queue_key(MAX_ID);
        assert(s.contains_key(keys[i].id));
    }
    if forall|i: int| 0 <= i < keys.len() ==> keys[i].keytype != KeyType::Queue {
        if c.tail < c.head {
            assert(s.contains_key(c.tail));
        }
        assert(pending(r, s) =~= pending(c, s));
    } else {
        let it = choose|i: int| 0 <= i < keys.len() && keys[i] == queue_key(r.tail);
        let ih = choose|i: int| 0 <= i < keys.len() && keys[i] == queue_key((r.head - 1) as u64);
        assert(s.contains_key(keys[it].id));
        assert(s.contains_key(keys[ih].id));
        assert(s.contains_key(c.tail));
        assert(s.contains_key((c.head - 1) as u64));
        assert(r.tail == c.tail);
        assert(r.head == c.head);
        assert(pending(r, s) =~= pending(c, s));
    }
}

impl Cursors {
    /// `tail <= reserved_tail <= head`.
    pub open spec fn wf(&self) -> bool {
        self.tail <= self.reserved_tail <= self.head
    }

    /// The cursors of a journal whose store holds no queue entry.
    pub fn new() -> (r: Cursors)
        ensures
            r == (Cursors { head: 0, tail: 0, reserved_tail: 0 }),
            r.wf(),
    {
        Cursors { head: 0, tail: 0, reserved_tail: 0 }
    }

    /// Rebuilds the cursors from the keys that a scan of the store found.
    /// Keys of other namespaces are passed over. A queue key with the
    /// largest id leaves no room for `head`: `Exhausted`.
    pub fn recover(keys: &Vec<Key>) -> (r: Result<Cursors, JournalError>)
        ensures
            holds_last_id(keys@) ==> r == Err::<Cursors, JournalError>(JournalError::Exhausted),
            !holds_last_id(keys@) ==> r is Ok && recovered_from(keys@, r.unwrap()) && r.unwrap().wf(),
    {
        let mut found = false;
        let mut lo: u64 = 0;
        let mut hi: u64 = 0;
        let mut lo_at: usize = 0;
        let mut hi_at: usize = 0;
        let mut i: usize = 0;
        while i < keys.len()
            invariant
                0 <= i <= keys@.len(),
                !found ==> forall|j: int| 0 <= j < i ==> keys@[j].keytype != KeyType::Queue,
                found ==> lo <= hi && lo_at < i && hi_at < i,
                found ==> keys@[lo_at as int] == queue_key(lo),
                found ==> keys@[hi_at as int] == queue_key(hi),
                found ==> forall|j: int|
                    0 <= j < i && keys@[j].keytype == KeyType::Queue ==> lo <= keys@[j].id <= hi,
            decreases keys.len() - i,
        {
            let k = keys[i];
            if k.keytype == KeyType::Queue {
                if !found {
                    found = true;
                    lo = k.id;
                    hi = k.id;
                    lo_at = i;
                    hi_at = i;
                } else {
                    if k.id < lo {
                        lo = k.id;
                        lo_at = i;
                    }
                    if k.id > hi {
                        hi = k.id;
                        hi_at = i;
                    }
                }
            }
            i += 1;
        }
        if !found {
            return Ok(Cursors::new());
        }
        if hi == MAX_ID {
            return Err(JournalError::Exhausted);
        }
        let r = Cursors { head: hi + 1, tail: lo, reserved_tail: lo };
        assert(keys@[hi_at as int] == queue_key((r.head - 1) as u64));
        Ok(r)
    }

    /// The number of entries in the queue.
    pub fn len(&self) -> (r: u64)
        requires
            self.wf(),
        ensures
            r == self.head - self.tail,
    {
        self.head - self.tail
    }

    /// Whether the queue holds no entry.
    pub fn is_empty(&self) -> (r: bool)
        requires
            self.wf(),
        ensures
            r == (self.head == self.tail),
    {
        self.head == self.tail
    }

    /// The key under which the next entry is to be written; `Exhausted` where
    /// `head` is the largest id.
    pub fn push_key(&self) -> (r: Result<Key, JournalError>)
        ensures
            self.head < MAX_ID ==> r == Ok::<Key, JournalError>(queue_key(self.head)),
            self.head == MAX_ID ==> r == Err::<Key, JournalError>(JournalError::Exhausted),
    {
        if self.head == MAX_ID {
            Err(JournalError::Exhausted)
        } else {
            Ok(Key { keytype: KeyType::Queue, id: self.head })
        }
    }

    /// Records that the entry under `push_key` was durably written.
    pub fn pushed(&mut self)
        requires
            old(self).wf(),
            old(self).head < MAX_ID,
        ensures
            *final(self) == after_push(*old(self)),
            final(self).wf(),
    {
        self.head = self.head + 1;
    }

    /// The key of the oldest entry, where the queue holds one.
    pub fn peek_key(&self) -> (r: Option<Key>)
        requires
            self.wf(),
        ensures
            self.tail < self.head ==> r == Some(queue_key(self.tail)),
            self.tail == self.head ==> r is None,
    {
        if self.tail < self.head {
            Some(Key { keytype: KeyType::Queue, id: self.tail })
        } else {
            None
        }
    }

    /// The key of the next entry to hand out under a lease, where one is left.
    pub fn reserve_key(&self) -> (r: Option<Key>)
        requires
            self.wf(),
        ensures
            self.reserved_tail < self.head ==> r == Some(queue_key(self.reserved_tail)),
            self.reserved_tail == self.head ==> r is None,
    {
        if self.reserved_tail < self.head {
            Some(Key { keytype: KeyType::Queue, id: self.reserved_tail })
        } else {
            None
        }
    }

    /// Records that the entry under `reserve_key` was handed out.
    pub fn reserved(&mut self)
        requires
            old(self).wf(),
            old(self).reserved_tail < old(self).head,
        ensures
            *final(self) == after_reserve(*old(self)),
            final(self).wf(),
    {
        self.reserved_tail = self.reserved_tail + 1;
    }

    /// The key of the entry that a removal deletes: the oldest entry. With
    /// `reserved`, only an entry handed out under a lease is removed (an
    /// acknowledgement); without, any entry is (a pop).
    pub fn remove_key(&self, reserved: bool) -> (r: Option<Key>)
        requires
            self.wf(),
        ensures
            reserved ==> (self.tail < self.reserved_tail ==> r == Some(queue_key(self.tail))),
            reserved ==> (self.tail == self.reserved_tail ==> r is None),
            !reserved ==> (self.tail < self.head ==> r == Some(queue_key(self.tail))),
            !reserved ==> (self.tail == self.head ==> r is None),
    {
        let bound = if reserved {
            self.reserved_tail
        } else {
            self.head
        };
        if self.tail < bound {
            Some(Key { keytype: KeyType::Queue, id: self.tail })
        } else {
            None
        }
    }

    /// Records that the entry under `remove_key` was durably deleted; a lease
    /// boundary behind the new tail moves up with it.
    pub fn removed(&mut self)
        requires
            old(self).wf(),
            old(self).tail < old(self).head,
        ensures
            *final(self) == after_remove(*old(self)),
            final(self).wf(),
    {
        self.tail = self.tail + 1;
        if self.reserved_tail < self.tail {
            self.reserved_tail = self.tail;
        }
    }
}

} // verus!
