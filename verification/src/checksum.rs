//! CRC32 integrity checks over payload bytes.

use vstd::prelude::*;

use crate::error::{PersistError, Result};

verus! {

/// One shift of the CRC32 register over the reflected IEEE 802.3 polynomial
/// (`0xEDB8_8320`).
pub open spec fn crc_shift(register: u32) -> u32 {
    if register & 1u32 == 1u32 {
        (register >> 1u32) ^ 0xEDB8_8320u32
    } else {
        register >> 1u32
    }
}

/// The CRC32 register after one more byte: the byte is folded into the low
/// end and shifted out bit by bit.
pub open spec fn crc_step(register: u32, byte: u8) -> u32 {
    crc_shift(crc_shift(crc_shift(crc_shift(crc_shift(crc_shift(crc_shift(crc_shift(
        register ^ (byte as u32),
    ))))))))
}

/// The CRC32 register after `bytes`, starting from `register`.
pub open spec fn crc_register(register: u32, bytes: Seq<u8>) -> u32
    decreases bytes.len(),
{
    if bytes.len() == 0 {
        register
    } else {
        crc_step(crc_register(register, bytes.drop_last()), bytes.last())
    }
}

/// The CRC32 (IEEE) of `bytes`: the register starts with all bits set and is
/// complemented at the end.
pub open spec fn crc32(bytes: Seq<u8>) -> u32 {
    !crc_register(0xFFFF_FFFFu32, bytes)
}

/// `crc32fast::hash` computes the CRC32 (IEEE) of the slice. It picks among
/// table-driven and SIMD kernels that all compute this one function.
pub assume_specification[ crc32fast::hash ](buf: &[u8]) -> (crc: u32)
    ensures
        crc == crc32(buf@),
;

/// Compute the CRC32 of `bytes` using the IEEE polynomial.
pub fn compute(bytes: &[u8]) -> (crc: u32)
    ensures
        crc == crc32(bytes@),
{
    crc32fast::hash(bytes)
}

/// Verify that the CRC32 of `bytes` equals `expected`.
///
/// # Errors
///
/// Returns [`PersistError::ChecksumMismatch`] if the computed CRC32 does not
/// equal `expected`.
pub fn verify(bytes: &[u8], expected: u32) -> (out: Result<()>)
    ensures
        crc32(bytes@) == expected ==> out is Ok,
        crc32(bytes@) != expected ==> out == Err::<(), PersistError>(
            PersistError::ChecksumMismatch { expected, computed: crc32(bytes@) },
        ),
{
    let computed: u32 = compute(bytes);
    if computed == expected {
        Ok(())
    } else {
        Err(PersistError::ChecksumMismatch { expected, computed })
    }
}

/// Bit `k` of a byte string, in the order in which the CRC32 takes the bits:
/// byte by byte, and the lowest bit of a byte first.
pub open spec fn bit_at(bytes: Seq<u8>, k: int) -> bool {
    (bytes[k / 8] >> ((k % 8) as u8)) & 1u8 == 1u8
}

/// Whether two byte strings of one length differ at most in the 32 consecutive
/// bits from bit `from` on.
pub open spec fn differ_within(a: Seq<u8>, b: Seq<u8>, from: int) -> bool {
    &&& a.len() == b.len()
    &&& forall|k: int|
        0 <= k < 8 * a.len() && #[trigger] bit_at(a, k) != bit_at(b, k) ==> from <= k < from + 32
}

/// A bit as a number.
spec fn bit_value(bytes: Seq<u8>, k: int) -> u32 {
    if bit_at(bytes, k) {
        1u32
    } else {
        0u32
    }
}

/// The CRC32 register after the first `k` bits of `bytes`, taken one by one.
spec fn bit_register(register: u32, bytes: Seq<u8>, k: nat) -> u32
    decreases k,
{
    if k == 0 {
        register
    } else {
        crc_shift(bit_register(register, bytes, (k - 1) as nat) ^ bit_value(bytes, k - 1))
    }
}

/// The register after `n` shifts.
spec fn crc_shifts(register: u32, n: nat) -> u32
    decreases n,
{
    if n == 0 {
        register
    } else {
        crc_shift(crc_shifts(register, (n - 1) as nat))
    }
}

/// One register shift loses nothing: the top bit of the result tells which
/// branch was taken.
proof fn lemma_shift_injective(a: u32, b: u32)
    by (bit_vector)
    requires
        crc_shift(a) == crc_shift(b),
    ensures
        a == b,
{
}

/// A register shift is linear.
proof fn lemma_shift_linear(a: u32, b: u32)
    by (bit_vector)
    ensures
        crc_shift(a ^ b) == crc_shift(a) ^ crc_shift(b),
        crc_shift(0u32) == 0u32,
{
}

/// Only the lowest bit of what is folded in takes part in the next shift.
proof fn lemma_shift_one_bit(register: u32, folded: u32)
    by (bit_vector)
    ensures
        crc_shift(register ^ folded) == crc_shift(register ^ (folded & 1u32)) ^ (folded >> 1u32),
{
}

/// Folding in a byte at once is folding in its bits one by one.
proof fn lemma_step_by_bits(register: u32, bytes: Seq<u8>, i: int, start: u32)
    requires
        0 <= i < bytes.len(),
        start == bit_register(register, bytes, (8 * i) as nat),
    ensures
        crc_step(start, bytes[i]) == bit_register(register, bytes, (8 * i + 8) as nat),
{
    let byte = bytes[i];
    let y = byte as u32;
    reveal_with_fuel(bit_register, 9);
    assert forall|j: int| 0 <= j < 8 implies #[trigger] bit_value(bytes, 8 * i + j) == (y
        >> (j as u32)) & 1u32 by {
        let t = j as u8;
        assert((8 * i + j) / 8 == i && (8 * i + j) % 8 == j);
        assert(((byte >> t) & 1u8 == 1u8) == (((byte as u32) >> (t as u32)) & 1u32 == 1u32)
            && (((byte as u32) >> (t as u32)) & 1u32 == 1u32 || ((byte as u32) >> (t as u32)) & 1u32
            == 0u32)) by (bit_vector)
            requires
                t < 8,
        ;
    }
    let r1 = crc_shift(start ^ bit_value(bytes, 8 * i + 0));
    let r2 = crc_shift(r1 ^ bit_value(bytes, 8 * i + 1));
    let r3 = crc_shift(r2 ^ bit_value(bytes, 8 * i + 2));
    let r4 = crc_shift(r3 ^ bit_value(bytes, 8 * i + 3));
    let r5 = crc_shift(r4 ^ bit_value(bytes, 8 * i + 4));
    let r6 = crc_shift(r5 ^ bit_value(bytes, 8 * i + 5));
    let r7 = crc_shift(r6 ^ bit_value(bytes, 8 * i + 6));
    let r8 = crc_shift(r7 ^ bit_value(bytes, 8 * i + 7));
    lemma_shift_one_bit(start, y);
    lemma_shift_one_bit(r1, y >> 1u32);
    lemma_shift_one_bit(r2, y >> 2u32);
    lemma_shift_one_bit(r3, y >> 3u32);
    lemma_shift_one_bit(r4, y >> 4u32);
    lemma_shift_one_bit(r5, y >> 5u32);
    lemma_shift_one_bit(r6, y >> 6u32);
    lemma_shift_one_bit(r7, y >> 7u32);
    assert(y >> 0u32 == y && (y >> 1u32) >> 1u32 == y >> 2u32 && (y >> 2u32) >> 1u32 == y >> 3u32
        && (y >> 3u32) >> 1u32 == y >> 4u32 && (y >> 4u32) >> 1u32 == y >> 5u32 && (y >> 5u32)
        >> 1u32 == y >> 6u32 && (y >> 6u32) >> 1u32 == y >> 7u32) by (bit_vector);
    assert((y >> 7u32) >> 1u32 == 0u32 && r8 ^ 0u32 == r8) by (bit_vector)
        requires
            y < 256,
    ;
    assert(r8 == bit_register(register, bytes, (8 * i + 8) as nat));
}

/// The register after the first bits depends on those bits alone.
proof fn lemma_bit_prefix(register: u32, a: Seq<u8>, b: Seq<u8>, k: nat)
    requires
        forall|j: int| 0 <= j < k ==> #[trigger] bit_at(a, j) == bit_at(b, j),
    ensures
        bit_register(register, a, k) == bit_register(register, b, k),
    decreases k,
{
    if k > 0 {
        lemma_bit_prefix(register, a, b, (k - 1) as nat);
        assert(bit_at(a, k - 1) == bit_at(b, k - 1));
    }
}

/// Taking a byte string byte by byte is taking it bit by bit.
proof fn lemma_register_by_bits(register: u32, bytes: Seq<u8>)
    ensures
        crc_register(register, bytes) == bit_register(register, bytes, 8 * bytes.len()),
    decreases bytes.len(),
{
    if bytes.len() > 0 {
        let front = bytes.drop_last();
        let n = front.len() as int;
        lemma_register_by_bits(register, front);
        assert forall|j: int| 0 <= j < 8 * n implies #[trigger] bit_at(front, j) == bit_at(
            bytes,
            j,
        ) by {
            assert(front[j / 8] == bytes[j / 8]);
        }
        lemma_bit_prefix(register, front, bytes, (8 * n) as nat);
        lemma_step_by_bits(register, bytes, n, bit_register(register, bytes, (8 * n) as nat));
    }
}

/// Several register shifts are linear, and lose nothing.
proof fn lemma_shifts(a: u32, b: u32, n: nat)
    ensures
        crc_shifts(a ^ b, n) == crc_shifts(a, n) ^ crc_shifts(b, n),
        crc_shifts(a, n) == 0u32 ==> a == 0u32,
    decreases n,
{
    if n > 0 {
        let m = (n - 1) as nat;
        lemma_shifts(a, b, m);
        lemma_shift_linear(crc_shifts(a, m), crc_shifts(b, m));
        if crc_shifts(a, n) == 0u32 {
            lemma_shift_injective(crc_shifts(a, m), 0u32);
        }
    }
}

/// A bit that stands at place `m` reaches the low end after `m` shifts.
proof fn lemma_bit_shifts_down(bit: u32, m: u32, n: nat)
    requires
        bit <= 1,
        n <= m < 32,
    ensures
        crc_shifts(bit << m, n) == bit << ((m - n) as u32),
    decreases n,
{
    if n > 0 {
        lemma_bit_shifts_down(bit, m, (n - 1) as nat);
        let t = (m - n + 1) as u32;
        assert(crc_shift(bit << t) == bit << ((t - 1) as u32)) by (bit_vector)
            requires
                bit <= 1,
                1 <= t < 32,
        ;
    }
}

/// Over up to 32 bits from bit `from` on, up to which the strings agree, the
/// difference of the two registers is a word, shifted, that is nonzero as soon
/// as a bit differs.
proof fn lemma_burst(register: u32, a: Seq<u8>, b: Seq<u8>, from: nat, m: nat) -> (word: u32)
    requires
        m <= 32,
        forall|j: int| 0 <= j < from ==> #[trigger] bit_at(a, j) == bit_at(b, j),
    ensures
        bit_register(register, a, from + m) ^ bit_register(register, b, from + m) == crc_shifts(
            word,
            m,
        ),
        m < 32 ==> word >> (m as u32) == 0,
        (exists|k: int| from <= k < from + m && #[trigger] bit_at(a, k) != bit_at(b, k)) ==> word
            != 0,
    decreases m,
{
    let x = bit_register(register, a, from + m);
    let y = bit_register(register, b, from + m);
    if m == 0 {
        lemma_bit_prefix(register, a, b, from);
        assert(x ^ x == 0u32) by (bit_vector);
        assert(0u32 >> 0u32 == 0u32) by (bit_vector);
        0u32
    } else {
        let p = (m - 1) as u32;
        let at = from + m - 1;
        let word = lemma_burst(register, a, b, from, (m - 1) as nat);
        let u = bit_register(register, a, at as nat);
        let v = bit_register(register, b, at as nat);
        let (s, t) = (bit_value(a, at), bit_value(b, at));
        let bit = s ^ t;
        assert((s == t ==> bit == 0) && (s != t ==> bit == 1) && (u ^ s) ^ (v ^ t) == (u ^ v) ^ bit)
            by (bit_vector)
            requires
                s <= 1,
                t <= 1,
                bit == s ^ t,
        ;
        let next = word ^ (bit << p);
        lemma_shift_linear(u ^ s, v ^ t);
        lemma_shifts(word, bit << p, p as nat);
        lemma_bit_shifts_down(bit, p, p as nat);
        assert(bit << 0u32 == bit) by (bit_vector);
        assert((word != 0 || bit == 1 ==> next != 0) && (p < 31 ==> next >> ((p + 1) as u32) == 0))
            by (bit_vector)
            requires
                p < 32,
                bit <= 1,
                word >> p == 0,
                next == word ^ (bit << p),
        ;
        next
    }
}

/// Once they differ, registers stay different over bits that agree.
proof fn lemma_difference_stays(register: u32, a: Seq<u8>, b: Seq<u8>, from: nat, to: nat)
    requires
        from <= to,
        bit_register(register, a, from) != bit_register(register, b, from),
        forall|j: int| from <= j < to ==> #[trigger] bit_at(a, j) == bit_at(b, j),
    ensures
        bit_register(register, a, to) != bit_register(register, b, to),
    decreases to,
{
    if from < to {
        let m = (to - 1) as nat;
        lemma_difference_stays(register, a, b, from, m);
        let x = bit_register(register, a, m);
        let y = bit_register(register, b, m);
        let s = bit_value(a, to - 1);
        assert(bit_at(a, to - 1) == bit_at(b, to - 1));
        assert(x ^ s != y ^ s) by (bit_vector)
            requires
                x != y,
        ;
        if crc_shift(x ^ s) == crc_shift(y ^ s) {
            lemma_shift_injective(x ^ s, y ^ s);
        }
    }
}

/// Bytes of which every bit agrees are equal.
proof fn lemma_same_bits(a: Seq<u8>, b: Seq<u8>, i: int)
    requires
        0 <= i < a.len(),
        0 <= i < b.len(),
        forall|k: int| 8 * i <= k < 8 * i + 8 ==> #[trigger] bit_at(a, k) == bit_at(b, k),
    ensures
        a[i] == b[i],
{
    let (x, y) = (a[i], b[i]);
    assert forall|t: u8| t < 8 implies #[trigger] (x >> t) & 1u8 == (y >> t) & 1u8 by {
        let k = 8 * i + t;
        assert(bit_at(a, k) == bit_at(b, k));
        assert(k / 8 == i && k % 8 == t);
        assert(((x >> t) & 1u8 == 1u8 || (x >> t) & 1u8 == 0u8) && ((y >> t) & 1u8 == 1u8 || (y
            >> t) & 1u8 == 0u8)) by (bit_vector);
    }
    assert(x == y) by (bit_vector)
        requires
            (x >> 0u8) & 1u8 == (y >> 0u8) & 1u8,
            (x >> 1u8) & 1u8 == (y >> 1u8) & 1u8,
            (x >> 2u8) & 1u8 == (y >> 2u8) & 1u8,
            (x >> 3u8) & 1u8 == (y >> 3u8) & 1u8,
            (x >> 4u8) & 1u8 == (y >> 4u8) & 1u8,
            (x >> 5u8) & 1u8 == (y >> 5u8) & 1u8,
            (x >> 6u8) & 1u8 == (y >> 6u8) & 1u8,
            (x >> 7u8) & 1u8 == (y >> 7u8) & 1u8,
    ;
}

/// Changing any bits within 32 consecutive ones changes the CRC32, whatever
/// the change: a burst of that length is always detected.
pub proof fn burst_changes_crc(a: Seq<u8>, b: Seq<u8>, from: int)
    requires
        differ_within(a, b, from),
        a != b,
    ensures
        crc32(a) != crc32(b),
{
    let initial = 0xFFFF_FFFFu32;
    let total = (8 * a.len()) as nat;
    assert(exists|i: int| 0 <= i < a.len() && a[i] != b[i]) by {
        if forall|i: int| 0 <= i < a.len() ==> a[i] == b[i] {
            assert(a =~= b);
        }
    }
    let i = choose|i: int| 0 <= i < a.len() && a[i] != b[i];
    if forall|k: int| 8 * i <= k < 8 * i + 8 ==> #[trigger] bit_at(a, k) == bit_at(b, k) {
        lemma_same_bits(a, b, i);
    }
    let k = choose|k: int| 8 * i <= k < 8 * i + 8 && #[trigger] bit_at(a, k) != bit_at(b, k);
    let start = if from < 0 {
        0nat
    } else {
        from as nat
    };
    let width = if start + 32 <= total {
        32nat
    } else {
        (total - start) as nat
    };
    assert(start <= k < start + width);
    let word = lemma_burst(initial, a, b, start, width);
    lemma_shifts(word, word, width);
    let (x, y) = (
        bit_register(initial, a, start + width),
        bit_register(initial, b, start + width),
    );
    assert(x != y) by {
        assert(x ^ x == 0u32) by (bit_vector);
    }
    lemma_difference_stays(initial, a, b, start + width, total);
    lemma_register_by_bits(initial, a);
    lemma_register_by_bits(initial, b);
    let (x, y) = (crc_register(initial, a), crc_register(initial, b));
    assert(!x != !y) by (bit_vector)
        requires
            x != y,
    ;
}

/// Two byte strings that differ in exactly one place.
pub open spec fn differ_at(a: Seq<u8>, b: Seq<u8>, i: int) -> bool {
    &&& a.len() == b.len()
    &&& 0 <= i < a.len()
    &&& a[i] != b[i]
    &&& forall|j: int| 0 <= j < a.len() && j != i ==> a[j] == b[j]
}

/// Changing any one byte changes the CRC32, whatever the change: corruption
/// confined to a byte is always detected.
pub proof fn single_byte_change_changes_crc(a: Seq<u8>, b: Seq<u8>, i: int)
    requires
        differ_at(a, b, i),
    ensures
        crc32(a) != crc32(b),
{
    assert forall|k: int|
        0 <= k < 8 * a.len() && #[trigger] bit_at(a, k) != bit_at(b, k) implies 8 * i <= k < 8 * i
        + 32 by {
        assert(a[k / 8] != b[k / 8]);
    }
    burst_changes_crc(a, b, 8 * i);
}

} // verus!
