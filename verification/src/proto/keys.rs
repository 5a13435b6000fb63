//! Node identifiers and content hashes, and the distance between them.

use vstd::prelude::*;

verus! {

/// The number that a sequence of bytes stands for, most significant byte first.
pub open spec fn be_value(bytes: Seq<u8>) -> nat
    decreases bytes.len(),
{
    if bytes.len() == 0 {
        0
    } else {
        be_value(bytes.drop_last()) * 256 + bytes.last() as nat
    }
}

/// `256` to the power of `n`: how many values `n` bytes can hold.
pub open spec fn byte_range(n: nat) -> nat
    decreases n,
{
    if n == 0 {
        1
    } else {
        256 * byte_range((n - 1) as nat)
    }
}

proof fn lemma_be_value_bound(bytes: Seq<u8>)
    ensures
        be_value(bytes) < byte_range(bytes.len()),
    decreases bytes.len(),
{
    if bytes.len() > 0 {
        lemma_be_value_bound(bytes.drop_last());
    }
}

proof fn lemma_byte_range_monotone(m: nat, n: nat)
    requires
        m <= n,
    ensures
        byte_range(m) <= byte_range(n),
    decreases n,
{
    if m < n {
        lemma_byte_range_monotone(m, (n - 1) as nat);
    }
}

proof fn lemma_byte_range_16()
    ensures
        byte_range(15) == 0x1_0000_0000_0000_0000_0000_0000_0000_00nat,
        byte_range(16) == 0x1_0000_0000_0000_0000_0000_0000_0000_0000nat,
{
    reveal_with_fuel(byte_range, 17);
}

/// Two byte sequences of one length that stand for the same number are the same.
proof fn lemma_be_value_injective(a: Seq<u8>, b: Seq<u8>)
    requires
        a.len() == b.len(),
        be_value(a) == be_value(b),
    ensures
        a == b,
    decreases a.len(),
{
    if a.len() > 0 {
        lemma_be_value_injective(a.drop_last(), b.drop_last());
        assert(a =~= a.drop_last().push(a.last()));
        assert(b =~= b.drop_last().push(b.last()));
    } else {
        assert(a =~= b);
    }
}

/// Reads the sixteen bytes that start at `at`, most significant byte first.
fn read_half(bytes: &[u8; 32], at: usize) -> (value: u128)
    requires
        at <= 16,
    ensures
        value == be_value(bytes@.subrange(at as int, at + 16)),
{
    let mut value: u128 = 0;
    let mut i: usize = 0;
    assert(bytes@.subrange(at as int, at + 0) =~= Seq::<u8>::empty());
    while i < 16
        invariant
            at <= 16,
            i <= 16,
            value == be_value(bytes@.subrange(at as int, at + i)),
        decreases 16 - i,
    {
        let ghost done = bytes@.subrange(at as int, at + i);
        let ghost next = bytes@.subrange(at as int, at + i + 1);
        proof {
            assert(next.drop_last() =~= done);
            lemma_be_value_bound(done);
            lemma_byte_range_monotone(done.len(), 15);
            lemma_byte_range_16();
        }
        value = value * 256 + bytes[at + i] as u128;
        i = i + 1;
    }
    value
}

/// The sixteen bytes of `value`, most significant byte first.
fn write_half(value: u128) -> (bytes: Vec<u8>)
    ensures
        bytes@.len() == 16,
        be_value(bytes@) == value,
{
    let mut bytes: Vec<u8> = Vec::new();
    let mut i: usize = 0;
    let mut top: u128 = 0x0100_0000_0000_0000_0000_0000_0000_0000;
    let mut rest: u128 = value;
    proof {
        lemma_byte_range_16();
        assert(0 * byte_range(16) == 0) by (nonlinear_arith);
    }
    while i < 16
        invariant
            i <= 16,
            bytes@.len() == i,
            i < 16 ==> top == byte_range((15 - i) as nat),
            be_value(bytes@) * byte_range((16 - i) as nat) + rest == value,
            rest < byte_range((16 - i) as nat),
        decreases 16 - i,
    {
        let digit: u128 = rest / top;
        let ghost unit = byte_range((15 - i) as nat) as int;
        let ghost before = bytes@;
        proof {
            vstd::arithmetic::div_mod::lemma_fundamental_div_mod(rest as int, unit);
            assert(digit < 256) by (nonlinear_arith)
                requires
                    digit == rest as int / unit,
                    rest < 256 * unit,
                    unit > 0,
            ;
        }
        bytes.push(digit as u8);
        rest = rest % top;
        proof {
            assert(bytes@.drop_last() =~= before);
            assert((be_value(before) * 256 + digit) * unit == be_value(before) * (256 * unit) + unit
                * digit) by (nonlinear_arith);
            if i < 15 {
                assert(top / 256 == byte_range((14 - i) as nat));
            }
        }
        top = top / 256;
        i = i + 1;
    }
    assert(be_value(bytes@) * byte_range(0) == be_value(bytes@)) by (nonlinear_arith)
        requires
            byte_range(0) == 1,
    ;
    bytes
}

/// Both halves of a key, in order, as thirty-two bytes.
fn write_halves(hi: u128, lo: u128) -> (bytes: [u8; 32])
    ensures
        be_value(bytes@.subrange(0, 16)) == hi,
        be_value(bytes@.subrange(16, 32)) == lo,
{
    let first = write_half(hi);
    let second = write_half(lo);
    let mut bytes: [u8; 32] = [0u8; 32];
    let mut i: usize = 0;
    while i < 16
        invariant
            i <= 16,
            first@.len() == 16,
            second@.len() == 16,
            forall|j: int| 0 <= j < i ==> bytes@[j] == first@[j],
            forall|j: int| 0 <= j < i ==> bytes@[16 + j] == second@[j],
        decreases 16 - i,
    {
        bytes[i] = first[i];
        bytes[16 + i] = second[i];
        i = i + 1;
    }
    assert(bytes@.subrange(0, 16) =~= first@);
    assert(bytes@.subrange(16, 32) =~= second@);
    bytes
}

/// The identifier of a node.
///
/// Its thirty-two bytes are held as two numbers, the first half and the second half, each
/// with the most significant byte first.
#[derive(Debug, Clone, Copy, PartialEq, Eq, Hash, Structural)]
pub struct PublicKey {
    pub hi: u128,
    pub lo: u128,
}

impl PublicKey {
    /// The key that these bytes make up.
    pub fn from_bytes(bytes: &[u8; 32]) -> (key: PublicKey)
        ensures
            key.hi == be_value(bytes@.subrange(0, 16)),
            key.lo == be_value(bytes@.subrange(16, 32)),
    {
        PublicKey { hi: read_half(bytes, 0), lo: read_half(bytes, 16) }
    }

    /// The bytes of this key.
    pub fn as_bytes(&self) -> (bytes: [u8; 32])
        ensures
            self.hi == be_value(bytes@.subrange(0, 16)),
            self.lo == be_value(bytes@.subrange(16, 32)),
    {
        write_halves(self.hi, self.lo)
    }
}

/// The BLAKE3 hash that addresses a blob, held as [`PublicKey`] is.
#[derive(Debug, Clone, Copy, PartialEq, Eq, Hash, Structural)]
pub struct BlobHash {
    pub hi: u128,
    pub lo: u128,
}

impl BlobHash {
    /// The hash that these bytes make up.
    pub fn from_bytes(bytes: &[u8; 32]) -> (hash: BlobHash)
        ensures
            hash.hi == be_value(bytes@.subrange(0, 16)),
            hash.lo == be_value(bytes@.subrange(16, 32)),
    {
        BlobHash { hi: read_half(bytes, 0), lo: read_half(bytes, 16) }
    }

    /// The bytes of this hash.
    pub fn as_bytes(&self) -> (bytes: [u8; 32])
        ensures
            self.hi == be_value(bytes@.subrange(0, 16)),
            self.lo == be_value(bytes@.subrange(16, 32)),
    {
        write_halves(self.hi, self.lo)
    }
}

/// How far apart two numbers are.
pub open spec fn gap(a: u128, b: u128) -> u128 {
    if a >= b {
        (a - b) as u128
    } else {
        (b - a) as u128
    }
}

/// How far a node is from a blob: the distance of the first halves, then that of the second.
pub open spec fn distance_spec(a: PublicKey, b: BlobHash) -> (u128, u128) {
    (gap(a.hi, b.hi), gap(a.lo, b.lo))
}

/// Whether `p` is strictly nearer to `key` than `q`; the second halves decide between equal
/// first ones.
pub open spec fn nearer(p: PublicKey, q: PublicKey, key: BlobHash) -> bool {
    let dp = distance_spec(p, key);
    let dq = distance_spec(q, key);
    dp.0 < dq.0 || (dp.0 == dq.0 && dp.1 < dq.1)
}

/// The distance between a node and a blob.
pub fn distance(a: PublicKey, b: BlobHash) -> (d: (u128, u128))
    ensures
        d == distance_spec(a, b),
{
    let d1: u128 = if a.hi >= b.hi {
        a.hi - b.hi
    } else {
        b.hi - a.hi
    };
    let d2: u128 = if a.lo >= b.lo {
        a.lo - b.lo
    } else {
        b.lo - a.lo
    };
    (d1, d2)
}

/// Whether the first distance is smaller than the second.
pub(crate) fn smaller(a: (u128, u128), b: (u128, u128)) -> (r: bool)
    ensures
        r == (a.0 < b.0 || (a.0 == b.0 && a.1 < b.1)),
{
    a.0 < b.0 || (a.0 == b.0 && a.1 < b.1)
}

/// Bytes and keys determine each other: two byte arrays that make up one key are the same.
pub proof fn law_bytes_of_key_unique(a: [u8; 32], b: [u8; 32])
    requires
        be_value(a@.subrange(0, 16)) == be_value(b@.subrange(0, 16)),
        be_value(a@.subrange(16, 32)) == be_value(b@.subrange(16, 32)),
    ensures
        a@ == b@,
{
    lemma_be_value_injective(a@.subrange(0, 16), b@.subrange(0, 16));
    lemma_be_value_injective(a@.subrange(16, 32), b@.subrange(16, 32));
    assert(a@ =~= a@.subrange(0, 16) + a@.subrange(16, 32));
    assert(b@ =~= b@.subrange(0, 16) + b@.subrange(16, 32));
}

/// Nearness is a strict weak order: it is irreflexive and transitive, and so is being equally
/// near.
pub proof fn law_nearer_is_an_order(p: PublicKey, q: PublicKey, r: PublicKey, key: BlobHash)
    ensures
        !nearer(p, p, key),
        nearer(p, q, key) && nearer(q, r, key) ==> nearer(p, r, key),
        !nearer(p, q, key) && !nearer(q, r, key) ==> !nearer(p, r, key),
{
}

/// Sixteen bytes stand for the sum of what each is worth, which grows by the factor 256 from
/// right to left.
pub proof fn law_bytes_by_worth(b: Seq<u8>)
    requires
        b.len() == 16,
    ensures
        be_value(b) == b[15] + b[14] * 0x100 + b[13] * 0x1_0000 + b[12] * 0x100_0000 + b[11]
            * 0x1_0000_0000 + b[10] * 0x100_0000_0000 + b[9] * 0x1_0000_0000_0000 + b[8]
            * 0x100_0000_0000_0000 + b[7] * 0x1_0000_0000_0000_0000 + b[6]
            * 0x100_0000_0000_0000_0000 + b[5] * 0x1_0000_0000_0000_0000_0000 + b[4]
            * 0x100_0000_0000_0000_0000_0000 + b[3] * 0x1_0000_0000_0000_0000_0000_0000 + b[2]
            * 0x100_0000_0000_0000_0000_0000_0000 + b[1]
            * 0x1_0000_0000_0000_0000_0000_0000_0000 + b[0]
            * 0x100_0000_0000_0000_0000_0000_0000_0000,
{
    reveal_with_fuel(be_value, 17);
}

} // verus!
