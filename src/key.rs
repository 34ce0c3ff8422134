use vstd::prelude::*;
use core::cmp::Ordering;
use crate::error::JournalError;

verus! {

/// The namespace of a key. Namespaces are the primary sort key, so the keys
/// of one namespace form a contiguous range of the store.
#[derive(Debug, PartialEq, Eq, Structural, PartialOrd, Ord, Clone, Copy)]
pub enum KeyType {
    Queue,
    Chunk,
}

/// A sequence number within one namespace.
pub type Id = u64;

/// A key of the store: a namespace and a sequence id within it.
#[derive(Debug, PartialEq, Eq, Structural, Ord, Clone, Copy)]
pub struct Key {
    pub keytype: KeyType,
    pub id: Id,
}

/// The width of an encoded key: the namespace tag and the id, eight bytes each.
pub const KEY_LEN: usize = 16;

/// The numeric tag that stands for a namespace in an encoded key.
pub open spec fn tag_of(t: KeyType) -> u64 {
    match t {
        KeyType::Queue => 0,
        KeyType::Chunk => 1,
    }
}

/// The eight bytes of `v`, most significant first.
pub open spec fn be_bytes(v: u64) -> Seq<u8> {
    seq![
        (v >> 56u64) as u8, (v >> 48u64) as u8, (v >> 40u64) as u8, (v >> 32u64) as u8,
        (v >> 24u64) as u8, (v >> 16u64) as u8, (v >> 8u64) as u8, v as u8,
    ]
}

/// The value of eight bytes read most significant first.
pub open spec fn be_value(b: Seq<u8>) -> u64
    recommends
        b.len() == 8,
{
    be_value8(b[0], b[1], b[2], b[3], b[4], b[5], b[6], b[7])
}

pub open spec fn be_value8(b0: u8, b1: u8, b2: u8, b3: u8, b4: u8, b5: u8, b6: u8, b7: u8) -> u64 {
    ((b0 as u64) << 56u64) | ((b1 as u64) << 48u64) | ((b2 as u64) << 40u64) | ((b3 as u64)
        << 32u64) | ((b4 as u64) << 24u64) | ((b5 as u64) << 16u64) | ((b6 as u64) << 8u64) | (
    b7 as u64)
}

/// The sixteen bytes that stand for a key in the store.
pub open spec fn encoding(k: Key) -> Seq<u8> {
    be_bytes(tag_of(k.keytype)) + be_bytes(k.id)
}

/// The logical order of keys: namespace first, then id.
pub open spec fn key_less(a: Key, b: Key) -> bool {
    tag_of(a.keytype) < tag_of(b.keytype) || (a.keytype == b.keytype && a.id < b.id)
}

/// The comparison of two keys in their logical order.
pub open spec fn key_cmp(a: Key, b: Key) -> Ordering {
    if key_less(a, b) {
        Ordering::Less
    } else if key_less(b, a) {
        Ordering::Greater
    } else {
        Ordering::Equal
    }
}

/// What a byte string decodes to, where it is a key.
pub open spec fn decoding(b: Seq<u8>) -> Option<Key> {
    if b.len() != 16 {
        None
    } else {
        let tag = be_value(b.subrange(0, 8));
        let id = be_value(b.subrange(8, 16));
        if tag == 0 {
            Some(Key { keytype: KeyType::Queue, id })
        } else if tag == 1 {
            Some(Key { keytype: KeyType::Chunk, id })
        } else {
            None
        }
    }
}

proof fn lemma_be_round_trip(v: u64)
    ensures
        be_value(be_bytes(v)) == v,
{
    let b = be_bytes(v);
    assert(be_value8(
        (v >> 56u64) as u8, (v >> 48u64) as u8, (v >> 40u64) as u8, (v >> 32u64) as u8,
        (v >> 24u64) as u8, (v >> 16u64) as u8, (v >> 8u64) as u8, v as u8,
    ) == v) by (bit_vector);
}

proof fn lemma_be_bytes_of_value(b: Seq<u8>)
    requires
        b.len() == 8,
    ensures
        be_bytes(be_value(b)) == b,
{
    let (b0, b1, b2, b3, b4, b5, b6, b7) = (b[0], b[1], b[2], b[3], b[4], b[5], b[6], b[7]);
    let v = be_value8(b0, b1, b2, b3, b4, b5, b6, b7);
    assert(v == be_value8(b0, b1, b2, b3, b4, b5, b6, b7) ==> (v >> 56u64) as u8 == b0 && (v
        >> 48u64) as u8 == b1 && (v >> 40u64) as u8 == b2 && (v >> 32u64) as u8 == b3 && (v
        >> 24u64) as u8 == b4 && (v >> 16u64) as u8 == b5 && (v >> 8u64) as u8 == b6 && v as u8
        == b7) by (bit_vector);
    assert(be_bytes(v) =~= b);
}

/// Decoding undoes encoding, for every key.
pub proof fn lemma_decode_encode(k: Key)
    ensures
        decoding(encoding(k)) == Some(k),
{
    let e = encoding(k);
    lemma_be_round_trip(tag_of(k.keytype));
    lemma_be_round_trip(k.id);
    assert(e.subrange(0, 8) =~= be_bytes(tag_of(k.keytype)));
    assert(e.subrange(8, 16) =~= be_bytes(k.id));
}

/// Encoding undoes decoding, for every byte string that decodes.
pub proof fn lemma_encode_decode(b: Seq<u8>)
    requires
        decoding(b) is Some,
    ensures
        encoding(decoding(b).unwrap()) == b,
{
    lemma_be_bytes_of_value(b.subrange(0, 8));
    lemma_be_bytes_of_value(b.subrange(8, 16));
    assert(b =~= b.subrange(0, 8) + b.subrange(8, 16));
}

/// Keys of a lower namespace sort before every key of a higher one, whatever
/// the ids; within one namespace keys sort by id.
pub proof fn lemma_key_order(a: KeyType, b: KeyType, i: Id, j: Id)
    ensures
        tag_of(a) < tag_of(b) ==> key_cmp((Key { keytype: a, id: i }), (Key { keytype: b, id: j })) == Ordering::Less,
        tag_of(a) < tag_of(b) ==> key_cmp((Key { keytype: b, id: j }), (Key { keytype: a, id: i })) == Ordering::Greater,
        key_cmp((Key { keytype: a, id: i }), (Key { keytype: a, id: j })) == (if i < j {
            Ordering::Less
        } else if i > j {
            Ordering::Greater
        } else {
            Ordering::Equal
        }),
{
}

/// The logical order of keys is a strict total order.
pub proof fn lemma_key_order_total(a: Key, b: Key, c: Key)
    ensures
        !key_less(a, a),
        key_less(a, b) ==> !key_less(b, a),
        key_less(a, b) && key_less(b, c) ==> key_less(a, c),
        key_less(a, b) || key_less(b, a) || a == b,
{
}

/// Byte-lexicographic order, as a store orders raw keys: the first differing
/// byte decides, and a proper prefix sorts first.
pub open spec fn bytes_less(a: Seq<u8>, b: Seq<u8>) -> bool
    decreases a.len(),
{
    if a.len() == 0 || b.len() == 0 {
        a.len() < b.len()
    } else if a[0] != b[0] {
        a[0] < b[0]
    } else {
        bytes_less(a.drop_first(), b.drop_first())
    }
}

proof fn lemma_bytes_less_concat(a1: Seq<u8>, a2: Seq<u8>, b1: Seq<u8>, b2: Seq<u8>)
    requires
        a1.len() == b1.len(),
    ensures
        bytes_less(a1 + a2, b1 + b2) == if a1 == b1 {
            bytes_less(a2, b2)
        } else {
            bytes_less(a1, b1)
        },
    decreases a1.len(),
{
    if a1.len() == 0 {
        assert(a1 + a2 =~= a2);
        assert(b1 + b2 =~= b2);
        assert(a1 =~= b1);
    } else {
        assert((a1 + a2).drop_first() =~= a1.drop_first() + a2);
        assert((b1 + b2).drop_first() =~= b1.drop_first() + b2);
        lemma_bytes_less_concat(a1.drop_first(), a2, b1.drop_first(), b2);
        if a1[0] == b1[0] && a1.drop_first() == b1.drop_first() {
            assert(a1 =~= seq![a1[0]] + a1.drop_first());
            assert(b1 =~= seq![b1[0]] + b1.drop_first());
        }
    }
}

proof fn lemma_be_bytes_order(v: u64, w: u64)
    ensures
        bytes_less(be_bytes(v), be_bytes(w)) == (v < w),
{
    reveal_with_fuel(bytes_less, 9);
    let a = be_bytes(v);
    let b = be_bytes(w);
    assert(a.drop_first() =~= seq![a[1], a[2], a[3], a[4], a[5], a[6], a[7]]);
    assert(b.drop_first() =~= seq![b[1], b[2], b[3], b[4], b[5], b[6], b[7]]);
    assert(a.drop_first().drop_first() =~= seq![a[2], a[3], a[4], a[5], a[6], a[7]]);
    assert(b.drop_first().drop_first() =~= seq![b[2], b[3], b[4], b[5], b[6], b[7]]);
    assert(a.drop_first().drop_first().drop_first() =~= seq![a[3], a[4], a[5], a[6], a[7]]);
    assert(b.drop_first().drop_first().drop_first() =~= seq![b[3], b[4], b[5], b[6], b[7]]);
    assert(a.drop_first().drop_first().drop_first().drop_first() =~= seq![a[4], a[5], a[6], a[7]]);
    assert(b.drop_first().drop_first().drop_first().drop_first() =~= seq![b[4], b[5], b[6], b[7]]);
    assert(a.drop_first().drop_first().drop_first().drop_first().drop_first() =~= seq![a[5], a[6], a[7]]);
    assert(b.drop_first().drop_first().drop_first().drop_first().drop_first() =~= seq![b[5], b[6], b[7]]);
    assert(a.drop_first().drop_first().drop_first().drop_first().drop_first().drop_first() =~= seq![a[6], a[7]]);
    assert(b.drop_first().drop_first().drop_first().drop_first().drop_first().drop_first() =~= seq![b[6], b[7]]);
    assert(a.drop_first().drop_first().drop_first().drop_first().drop_first().drop_first().drop_first() =~= seq![a[7]]);
    assert(b.drop_first().drop_first().drop_first().drop_first().drop_first().drop_first().drop_first() =~= seq![b[7]]);
    assert((v < w) == (if (v >> 56u64) as u8 != (w >> 56u64) as u8 {
        ((v >> 56u64) as u8) < ((w >> 56u64) as u8)
    } else if (v >> 48u64) as u8 != (w >> 48u64) as u8 {
        ((v >> 48u64) as u8) < ((w >> 48u64) as u8)
    } else if (v >> 40u64) as u8 != (w >> 40u64) as u8 {
        ((v >> 40u64) as u8) < ((w >> 40u64) as u8)
    } else if (v >> 32u64) as u8 != (w >> 32u64) as u8 {
        ((v >> 32u64) as u8) < ((w >> 32u64) as u8)
    } else if (v >> 24u64) as u8 != (w >> 24u64) as u8 {
        ((v >> 24u64) as u8) < ((w >> 24u64) as u8)
    } else if (v >> 16u64) as u8 != (w >> 16u64) as u8 {
        ((v >> 16u64) as u8) < ((w >> 16u64) as u8)
    } else if (v >> 8u64) as u8 != (w >> 8u64) as u8 {
        ((v >> 8u64) as u8) < ((w >> 8u64) as u8)
    } else {
        (v as u8) < (w as u8)
    })) by (bit_vector);
}

/// The encoding preserves order: one key sorts before another exactly where
/// its sixteen bytes sort before the other's, byte by byte.
pub proof fn lemma_encoding_order(a: Key, b: Key)
    ensures
        bytes_less(encoding(a), encoding(b)) == key_less(a, b),
{
    let ta = tag_of(a.keytype);
    let tb = tag_of(b.keytype);
    lemma_bytes_less_concat(be_bytes(ta), be_bytes(a.id), be_bytes(tb), be_bytes(b.id));
    lemma_be_bytes_order(ta, tb);
    lemma_be_bytes_order(a.id, b.id);
    lemma_be_round_trip(ta);
    lemma_be_round_trip(tb);
}

impl KeyType {
    /// The numeric tag of this namespace.
    pub fn tag(&self) -> (r: u64)
        ensures
            r == tag_of(*self),
    {
        match self {
            KeyType::Queue => 0,
            KeyType::Chunk => 1,
        }
    }
}

/// Appends the eight bytes of `v`, most significant first.
fn push_be(out: &mut Vec<u8>, v: u64)
    ensures
        final(out)@ == old(out)@ + be_bytes(v),
{
    out.push((v >> 56u64) as u8);
    out.push((v >> 48u64) as u8);
    out.push((v >> 40u64) as u8);
    out.push((v >> 32u64) as u8);
    out.push((v >> 24u64) as u8);
    out.push((v >> 16u64) as u8);
    out.push((v >> 8u64) as u8);
    out.push(v as u8);
    assert(out@ =~= old(out)@ + be_bytes(v));
}

/// Reads eight bytes at `start`, most significant first.
fn read_be(b: &[u8], start: usize) -> (r: u64)
    requires
        start + 8 <= b@.len(),
    ensures
        r == be_value(b@.subrange(start as int, start + 8)),
{
    let r = ((b[start] as u64) << 56u64) | ((b[start + 1] as u64) << 48u64) | ((b[start + 2] as u64)
        << 40u64) | ((b[start + 3] as u64) << 32u64) | ((b[start + 4] as u64) << 24u64) | ((b[start
        + 5] as u64) << 16u64) | ((b[start + 6] as u64) << 8u64) | (b[start + 7] as u64);
    r
}

impl Key {
    /// The first key of the queue namespace.
    pub fn empty() -> (r: Key)
        ensures
            r == (Key { keytype: KeyType::Queue, id: 0 }),
    {
        Key { keytype: KeyType::Queue, id: 0 }
    }

    pub fn new(keytype: KeyType, id: Id) -> (r: Key)
        ensures
            r == (Key { keytype, id }),
    {
        Key { keytype, id }
    }

    /// The sixteen bytes that stand for this key in the store: the namespace
    /// tag, then the id, each big-endian, so that byte order follows key order.
    pub fn encode(&self) -> (r: Vec<u8>)
        ensures
            r@ == encoding(*self),
            r@.len() == KEY_LEN,
    {
        let mut out: Vec<u8> = Vec::with_capacity(KEY_LEN);
        push_be(&mut out, self.keytype.tag());
        push_be(&mut out, self.id);
        assert(out@ =~= encoding(*self));
        out
    }

    /// The key that `bytes` stands for; `MalformedKey` where it is not sixteen
    /// bytes or its namespace tag is unknown.
    pub fn decode(bytes: &[u8]) -> (r: Result<Key, JournalError>)
        ensures
            decoding(bytes@) is Some ==> r == Ok::<Key, JournalError>(decoding(bytes@).unwrap()),
            decoding(bytes@) is None ==> r == Err::<Key, JournalError>(JournalError::MalformedKey),
    {
        if bytes.len() != KEY_LEN {
            return Err(JournalError::MalformedKey);
        }
        let tag = read_be(bytes, 0);
        let id = read_be(bytes, 8);
        if tag == 0 {
            Ok(Key { keytype: KeyType::Queue, id })
        } else if tag == 1 {
            Ok(Key { keytype: KeyType::Chunk, id })
        } else {
            Err(JournalError::MalformedKey)
        }
    }

    /// Compares two keys: namespace first, then id.
    pub fn compare(&self, other: &Key) -> (r: Ordering)
        ensures
            r == key_cmp(*self, *other),
    {
        let a = self.keytype.tag();
        let b = other.keytype.tag();
        if a < b {
            Ordering::Less
        } else if a > b {
            Ordering::Greater
        } else if self.id < other.id {
            Ordering::Less
        } else if self.id > other.id {
            Ordering::Greater
        } else {
            Ordering::Equal
        }
    }
}

impl PartialOrd for Key {
    fn partial_cmp(&self, other: &Key) -> (r: Option<Ordering>)
        ensures
            r == Some(key_cmp(*self, *other)),
    {
        Some(self.compare(other))
    }
}

impl vstd::std_specs::cmp::PartialOrdSpecImpl for Key {
    open spec fn obeys_partial_cmp_spec() -> bool {
        true
    }

    open spec fn partial_cmp_spec(&self, other: &Key) -> Option<Ordering> {
        Some(key_cmp(*self, *other))
    }
}

} // verus!
