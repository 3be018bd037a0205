//! Little-endian byte strings and their integer values.
use vstd::arithmetic::power::pow;
use vstd::prelude::*;

verus! {

/// The value of a little-endian byte string.
pub open spec fn le_value(b: Seq<u8>) -> nat
    decreases b.len(),
{
    if b.len() == 0 {
        0
    } else {
        b[0] as nat + 256 * le_value(b.drop_first())
    }
}

/// The `k` low-order bytes of `n`, least significant first.
pub open spec fn le_bytes(n: nat, k: nat) -> Seq<u8>
    decreases k,
{
    if k == 0 {
        seq![]
    } else {
        seq![(n % 256) as u8] + le_bytes(n / 256, (k - 1) as nat)
    }
}

/// The number of bytes needed to write `n`; zero takes one byte.
pub open spec fn byte_len(n: nat) -> nat
    decreases n,
{
    if n < 256 {
        1
    } else {
        1 + byte_len(n / 256)
    }
}

/// The index of the last non-zero byte of `b`, or 0 when there is none.
pub open spec fn last_nonzero_index(b: Seq<u8>) -> nat
    decreases b.len(),
{
    if b.len() == 0 {
        0
    } else if b.last() != 0 {
        (b.len() - 1) as nat
    } else {
        last_nonzero_index(b.drop_last())
    }
}

pub proof fn lemma_le_bytes_len(n: nat, k: nat)
    ensures
        le_bytes(n, k).len() == k,
    decreases k,
{
    if k > 0 {
        lemma_le_bytes_len(n / 256, (k - 1) as nat);
    }
}

proof fn lemma_pow256_step(k: nat)
    requires
        k > 0,
    ensures
        pow(256, k) == 256 * pow(256, (k - 1) as nat),
        pow(256, k) > 0,
{
    vstd::arithmetic::power::lemma_pow_positive(256, k);
    vstd::arithmetic::power::lemma_pow_adds(256, 1, (k - 1) as nat);
    vstd::arithmetic::power::lemma_pow1(256);
}

/// A value below `256^k` is recovered from its `k` low-order bytes.
pub proof fn lemma_le_value_of_bytes(n: nat, k: nat)
    requires
        n < pow(256, k),
    ensures
        le_value(le_bytes(n, k)) == n,
    decreases k,
{
    if k == 0 {
        assert(pow(256, 0) == 1) by { vstd::arithmetic::power::lemma_pow0(256); }
    } else {
        lemma_pow256_step(k);
        let q = n / 256;
        assert(q < pow(256, (k - 1) as nat)) by (nonlinear_arith)
            requires
                q == n / 256,
                n < 256 * pow(256, (k - 1) as nat),
        ;
        lemma_le_value_of_bytes(q, (k - 1) as nat);
        let s = le_bytes(n, k);
        assert(s.drop_first() =~= le_bytes(q, (k - 1) as nat));
        assert(n == (n % 256) + 256 * q) by (nonlinear_arith)
            requires
                q == n / 256,
        ;
    }
}

/// The bytes of a string's value are the string itself.
pub proof fn lemma_le_bytes_of_value(b: Seq<u8>)
    ensures
        le_bytes(le_value(b), b.len()) == b,
        le_value(b) < pow(256, b.len()),
    decreases b.len(),
{
    if b.len() == 0 {
        assert(le_bytes(0, 0) =~= b);
        vstd::arithmetic::power::lemma_pow0(256);
    } else {
        let t = b.drop_first();
        lemma_le_bytes_of_value(t);
        let v = le_value(b);
        let w = le_value(t);
        lemma_pow256_step(b.len());
        assert(v % 256 == b[0] as nat && v / 256 == w) by (nonlinear_arith)
            requires
                v == b[0] as nat + 256 * w,
                b[0] < 256,
        ;
        assert(v < pow(256, b.len())) by (nonlinear_arith)
            requires
                v == b[0] as nat + 256 * w,
                b[0] < 256,
                w < pow(256, (b.len() - 1) as nat),
                pow(256, b.len() as nat) == 256 * pow(256, (b.len() - 1) as nat),
        ;
        assert(le_bytes(v, b.len()) =~= b);
    }
}

/// Every number needs fewer bytes than its value has room for.
pub proof fn lemma_byte_len(n: nat, k: nat)
    requires
        byte_len(n) <= k,
    ensures
        n < pow(256, k),
        byte_len(n) >= 1,
    decreases n,
{
    lemma_pow256_step(k);
    if n < 256 {
        vstd::arithmetic::power::lemma_pow_increases(256, 1, k);
        vstd::arithmetic::power::lemma_pow1(256);
    } else {
        lemma_byte_len(n / 256, (k - 1) as nat);
        assert(n < 256 * pow(256, (k - 1) as nat)) by (nonlinear_arith)
            requires
                n / 256 < pow(256, (k - 1) as nat),
        ;
    }
}

/// A 64-bit number needs at most eight bytes.
pub proof fn lemma_byte_len_u64(n: u64)
    ensures
        1 <= byte_len(n as nat) <= 8,
{
    assert(byte_len(n as nat) <= 8) by {
        reveal_with_fuel(byte_len, 9);
        assert(n as nat / 256 / 256 / 256 / 256 / 256 / 256 / 256 / 256 == 0) by (nonlinear_arith)
            requires
                n < 0x1_0000_0000_0000_0000,
        ;
    }
    lemma_byte_len(n as nat, 8);
}

/// The `k` low-order bytes of `v`, least significant first.
pub fn le_bytes_of(v: u128, k: usize) -> (r: Vec<u8>)
    ensures
        r@ == le_bytes(v as nat, k as nat),
{
    let mut out: Vec<u8> = Vec::new();
    let mut m: u128 = v;
    let mut i: usize = 0;
    while i < k
        invariant
            i <= k,
            le_bytes(v as nat, k as nat) == out@ + le_bytes(m as nat, (k - i) as nat),
        decreases k - i,
    {
        let ghost before = out@;
        let ghost rest = le_bytes((m / 256) as nat, (k - i - 1) as nat);
        assert(le_bytes(m as nat, (k - i) as nat) =~= seq![(m % 256) as u8] + rest);
        out.push((m % 256) as u8);
        m = m / 256;
        i = i + 1;
        assert(before + (seq![out@.last()] + rest) =~= out@ + rest);
    }
    assert(le_bytes(m as nat, 0) =~= seq![]);
    assert(out@ + seq![] =~= out@);
    out
}


/// The number of bytes needed to write `n`.
pub fn byte_len_of(n: u64) -> (k: usize)
    ensures
        k == byte_len(n as nat),
        1 <= k <= 8,
{
    proof { lemma_byte_len_u64(n); }
    let mut m: u64 = n;
    let mut k: usize = 1;
    while m >= 256
        invariant
            byte_len(n as nat) == k - 1 + byte_len(m as nat),
            1 <= k <= byte_len(n as nat) <= 8,
        decreases m,
    {
        m = m / 256;
        k = k + 1;
    }
    k
}

/// `num` as little-endian bytes, trimmed of high zero bytes but kept at least
/// `min_length` long.
pub fn num_to_le_vec(num: u64, min_length: usize) -> (r: Vec<u8>)
    requires
        min_length <= 8,
    ensures
        r@ == le_bytes(num as nat, vstd::math::max(byte_len(num as nat) as int, min_length as int) as nat),
        r@.len() <= 8,
{
    let need = byte_len_of(num);
    let k = if need < min_length { min_length } else { need };
    let r = le_bytes_of(num as u128, k);
    proof { lemma_le_bytes_len(num as nat, k as nat); }
    r
}

/// The value of at most sixteen little-endian bytes.
pub fn le_to_u128(bytes: &[u8]) -> (r: u128)
    requires
        bytes@.len() <= 16,
    ensures
        r == le_value(bytes@),
{
    let mut i: usize = bytes.len();
    let mut acc: u128 = 0;
    proof {
        assert(bytes@.skip(i as int) =~= seq![]);
        vstd::arithmetic::power::lemma_pow0(256);
    }
    while i > 0
        invariant
            i <= bytes@.len() <= 16,
            acc == le_value(bytes@.skip(i as int)),
            acc < pow(256, (bytes@.len() - i) as nat),
        decreases i,
    {
        let ghost tail = bytes@.skip(i as int);
        let ghost e = (bytes@.len() - i) as nat;
        proof {
            assert(bytes@.skip(i - 1).drop_first() =~= tail);
            lemma_pow256_step(e + 1);
            vstd::arithmetic::power::lemma_pow_increases(256, e + 1, 16);
            assert(pow(256, 16) == 0x1_0000_0000_0000_0000_0000_0000_0000_0000) by {
                reveal_with_fuel(pow, 17);
            }
            assert(acc * 256 + bytes@[i - 1] < pow(256, e + 1)) by (nonlinear_arith)
                requires
                    acc < pow(256, e),
                    pow(256, e + 1) == 256 * pow(256, e),
                    bytes@[i - 1] < 256,
            ;
        }
        acc = acc * 256 + bytes[i - 1] as u128;
        i = i - 1;
    }
    proof { assert(bytes@.skip(0) =~= bytes@); }
    acc
}

/// The value of at most eight little-endian bytes.
pub fn le_vec_to_num(bytes: &[u8]) -> (r: u64)
    requires
        bytes@.len() <= 8,
    ensures
        r == le_value(bytes@),
{
    proof {
        lemma_le_bytes_of_value(bytes@);
        vstd::arithmetic::power::lemma_pow_increases(256, bytes@.len(), 8);
        assert(pow(256, 8) == 0x1_0000_0000_0000_0000) by {
            reveal_with_fuel(pow, 9);
        }
    }
    le_to_u128(bytes) as u64
}

/// The index of the last non-zero byte, or 0 when every byte is zero.
pub fn last_nonzero(bytes: &[u8]) -> (r: usize)
    ensures
        r == last_nonzero_index(bytes@),
{
    let mut i: usize = bytes.len();
    assert(bytes@.take(i as int) =~= bytes@);
    while i > 0
        invariant
            i <= bytes@.len(),
            last_nonzero_index(bytes@) == last_nonzero_index(bytes@.take(i as int)),
        decreases i,
    {
        let ghost pre = bytes@.take(i as int);
        if bytes[i - 1] != 0 {
            return i - 1;
        }
        assert(pre.drop_last() =~= bytes@.take(i - 1));
        i = i - 1;
    }
    0
}

/// The last non-zero index lies inside a non-empty string, and every later
/// byte is zero.
pub proof fn lemma_last_nonzero_bounds(b: Seq<u8>)
    ensures
        b.len() > 0 ==> last_nonzero_index(b) < b.len(),
        forall|j: int| last_nonzero_index(b) < j < b.len() ==> b[j] == 0,
    decreases b.len(),
{
    if b.len() > 0 && b.last() == 0 {
        let d = b.drop_last();
        lemma_last_nonzero_bounds(d);
        assert forall|j: int| last_nonzero_index(b) < j < b.len() implies b[j] == 0 by {
            if j < d.len() {
                assert(b[j] == d[j]);
            }
        }
    }
}

} // verus!
