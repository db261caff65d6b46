//! Positions in the ordered log and points in time.

use vstd::prelude::*;

verus! {

/// The number that a key stands for: its bytes are the digits to the base 256, the
/// first one counting most.
pub open spec fn key_value(key: Seq<u8>) -> nat
    decreases key.len(),
{
    if key.len() == 0 {
        0
    } else {
        key_value(key.drop_last()) * 256 + key.last() as nat
    }
}

/// The number of keys of `n` bytes.
pub open spec fn keys_of_len(n: nat) -> nat
    decreases n,
{
    if n == 0 {
        1
    } else {
        256 * keys_of_len((n - 1) as nat)
    }
}

/// Whether `a` sorts before `b` where keys are compared byte by byte: they agree up
/// to some place, and there `a` holds the smaller byte.
pub open spec fn key_before(a: Seq<u8>, b: Seq<u8>) -> bool {
    exists|i: int|
        0 <= i < a.len() && i < b.len() && a.take(i) == b.take(i) && #[trigger] a[i] < b[i]
}

/// A key stands for a number below the number of keys of its length.
pub proof fn lemma_key_value_bound(key: Seq<u8>)
    ensures
        key_value(key) < keys_of_len(key.len()),
    decreases key.len(),
{
    if key.len() > 0 {
        lemma_key_value_bound(key.drop_last());
    }
}

/// There are 2^64 keys of eight bytes, and fewer of fewer bytes.
pub proof fn lemma_keys_of_len()
    ensures
        keys_of_len(0) == 1,
        keys_of_len(1) == 0x100,
        keys_of_len(2) == 0x1_0000,
        keys_of_len(3) == 0x100_0000,
        keys_of_len(4) == 0x1_0000_0000,
        keys_of_len(5) == 0x100_0000_0000,
        keys_of_len(6) == 0x1_0000_0000_0000,
        keys_of_len(7) == 0x100_0000_0000_0000,
        keys_of_len(8) == 0x1_0000_0000_0000_0000,
{
    reveal_with_fuel(keys_of_len, 10);
}

/// Keys of one length that stand for the same number are the same.
pub proof fn lemma_key_value_injective(a: Seq<u8>, b: Seq<u8>)
    requires
        a.len() == b.len(),
        key_value(a) == key_value(b),
    ensures
        a == b,
    decreases a.len(),
{
    if a.len() > 0 {
        lemma_key_value_injective(a.drop_last(), b.drop_last());
        assert(a =~= a.drop_last().push(a.last()));
        assert(b =~= b.drop_last().push(b.last()));
    } else {
        assert(a =~= b);
    }
}

/// Keys of one length sort as the numbers that they stand for.
pub proof fn law_keys_sort_as_numbers(a: Seq<u8>, b: Seq<u8>)
    requires
        a.len() == b.len(),
    ensures
        key_before(a, b) <==> key_value(a) < key_value(b),
    decreases a.len(),
{
    if a.len() > 0 {
        let n = a.len() - 1;
        let x = a.drop_last();
        let y = b.drop_last();
        law_keys_sort_as_numbers(x, y);
        if key_before(a, b) {
            let i = choose|i: int|
                0 <= i < a.len() && i < b.len() && a.take(i) == b.take(i) && #[trigger] a[i]
                    < b[i];
            if i < n {
                assert(x.take(i) =~= a.take(i));
                assert(y.take(i) =~= b.take(i));
                assert(x[i] < y[i]);
                assert(key_before(x, y));
            } else {
                assert(x =~= a.take(n));
                assert(y =~= b.take(n));
            }
        }
        if key_value(a) < key_value(b) {
            if key_value(x) < key_value(y) {
                let i = choose|i: int|
                    0 <= i < x.len() && i < y.len() && x.take(i) == y.take(i) && #[trigger] x[i]
                        < y[i];
                assert(a.take(i) =~= x.take(i));
                assert(b.take(i) =~= y.take(i));
                assert(a[i] < b[i]);
            } else {
                assert(key_value(x) == key_value(y));
                lemma_key_value_injective(x, y);
                assert(a.take(n) =~= x);
                assert(b.take(n) =~= y);
                assert(a[n] < b[n]);
            }
        }
    }
}

/// A position in the relay's ordered log.
#[derive(Clone, Copy, Debug, PartialEq, Eq, Structural)]
pub struct Cursor(pub u64);

impl Cursor {
    pub fn new(value: u64) -> (r: Cursor)
        ensures
            r.0 == value,
    {
        Cursor(value)
    }

    pub fn get(&self) -> (r: u64)
        ensures
            r == self.0,
    {
        self.0
    }

    /// Returns the current position and moves on to the one after it.
    pub fn next(&mut self) -> (r: Cursor)
        requires
            old(self).0 < u64::MAX,
        ensures
            r == *old(self),
            final(self).0 == old(self).0 + 1,
    {
        let current = *self;
        self.0 = self.0 + 1;
        current
    }
}

/// Puts one more byte behind a key: the digit that `whole` ends in.
fn push_digit(key: &mut Vec<u8>, whole: u64)
    requires
        key_value(old(key)@) == whole / 256,
    ensures
        key_value(final(key)@) == whole,
        final(key)@.len() == old(key)@.len() + 1,
{
    let digit = (whole % 256) as u8;
    key.push(digit);
    assert(key@.drop_last() =~= old(key)@);
}

impl Cursor {
    /// The cursor as a key of the log: eight bytes, the first one counting most, so
    /// that keys sort as cursors do.
    pub fn to_key(&self) -> (r: Vec<u8>)
        ensures
            r@.len() == 8,
            key_value(r@) == self.0,
    {
        let v = self.0;
        let v1 = v / 256;
        let v2 = v1 / 256;
        let v3 = v2 / 256;
        let v4 = v3 / 256;
        let v5 = v4 / 256;
        let v6 = v5 / 256;
        let v7 = v6 / 256;
        let mut key: Vec<u8> = Vec::new();
        push_digit(&mut key, v7);
        push_digit(&mut key, v6);
        push_digit(&mut key, v5);
        push_digit(&mut key, v4);
        push_digit(&mut key, v3);
        push_digit(&mut key, v2);
        push_digit(&mut key, v1);
        push_digit(&mut key, v);
        key
    }

    /// The cursor that a key of the log stands for; none unless the key has eight
    /// bytes.
    pub fn from_key(key: &[u8]) -> (r: Option<Cursor>)
        ensures
            r is Some == (key@.len() == 8),
            r matches Some(c) ==> c.0 == key_value(key@),
    {
        if key.len() != 8 {
            return None;
        }
        let mut value: u64 = 0;
        let mut i: usize = 0;
        assert(key@.take(0) =~= Seq::<u8>::empty());
        while i < 8
            invariant
                key@.len() == 8,
                i <= 8,
                value == key_value(key@.take(i as int)),
            decreases 8 - i,
        {
            proof {
                lemma_key_value_bound(key@.take(i as int));
                lemma_key_value_bound(key@.take(i + 1));
                lemma_keys_of_len();
                assert(key@.take(i + 1).drop_last() =~= key@.take(i as int));
                assert(keys_of_len((i + 1) as nat) <= keys_of_len(8)) by {
                    reveal_with_fuel(keys_of_len, 10);
                }
            }
            value = value * 256 + key[i] as u64;
            i += 1;
        }
        assert(key@.take(8) =~= key@);
        Some(Cursor(value))
    }
}

impl Default for Cursor {
    fn default() -> (r: Cursor)
        ensures
            r.0 == 0,
    {
        Cursor(0)
    }
}

/// A point in time: whole seconds since the Unix epoch and the nanoseconds past them.
#[derive(Clone, Copy, Debug, PartialEq, Eq, Structural)]
pub struct Timestamp {
    pub secs: i64,
    pub nanos: u32,
}

impl Timestamp {
    /// Whether `self` is strictly earlier than `other`.
    pub open spec fn before(self, other: Timestamp) -> bool {
        self.secs < other.secs || (self.secs == other.secs && self.nanos < other.nanos)
    }

    /// The later of the two.
    pub open spec fn latest(self, other: Timestamp) -> Timestamp {
        if self.before(other) {
            other
        } else {
            self
        }
    }

    pub open spec fn is_epoch(self) -> bool {
        self.secs == 0 && self.nanos == 0
    }

    /// The Unix epoch.
    pub fn epoch() -> (r: Timestamp)
        ensures
            r.is_epoch(),
    {
        Timestamp { secs: 0, nanos: 0 }
    }

    pub fn is_before(&self, other: &Timestamp) -> (r: bool)
        ensures
            r == self.before(*other),
    {
        self.secs < other.secs || (self.secs == other.secs && self.nanos < other.nanos)
    }

    pub fn max(self, other: Timestamp) -> (r: Timestamp)
        ensures
            r == self.latest(other),
    {
        if self.is_before(&other) {
            other
        } else {
            self
        }
    }
}

} // verus!
