//! Fixed-width little-endian integers and length-delimited byte runs.
//!
//! Every on-disk structure of the crate is built from these pieces. Decoders
//! consume a prefix of their input and hand back what follows it.

use vstd::prelude::*;
use vstd::slice::{slice_subrange, slice_to_vec};

verus! {

/// `256` to the power `n`.
pub open spec fn pow256(n: nat) -> nat
    decreases n,
{
    if n == 0 {
        1
    } else {
        256 * pow256((n - 1) as nat)
    }
}

/// The `width` little-endian bytes of `value`, least significant first.
pub open spec fn le_bytes(value: nat, width: nat) -> Seq<u8>
    decreases width,
{
    if width == 0 {
        Seq::empty()
    } else {
        seq![(value % 256) as u8] + le_bytes(value / 256, (width - 1) as nat)
    }
}

/// The number that `bytes` spells, least significant byte first.
pub open spec fn le_value(bytes: Seq<u8>) -> nat
    decreases bytes.len(),
{
    if bytes.len() == 0 {
        0
    } else {
        bytes[0] as nat + 256 * le_value(bytes.drop_first())
    }
}

/// The first `n` bytes of `input` and the rest, if there are that many.
pub open spec fn split_spec(input: Seq<u8>, n: nat) -> Option<(Seq<u8>, Seq<u8>)> {
    if n <= input.len() {
        Some((input.take(n as int), input.skip(n as int)))
    } else {
        None
    }
}

/// The leading byte of `input` and the rest.
pub open spec fn split_u8(input: Seq<u8>) -> Option<(u8, Seq<u8>)> {
    if input.len() >= 1 {
        Some((input[0], input.skip(1)))
    } else {
        None
    }
}

/// The leading little-endian `u32` of `input` and the rest.
pub open spec fn split_u32(input: Seq<u8>) -> Option<(u32, Seq<u8>)> {
    if input.len() >= 4 {
        Some((le_value(input.take(4)) as u32, input.skip(4)))
    } else {
        None
    }
}

/// The leading little-endian `u64` of `input` and the rest.
pub open spec fn split_u64(input: Seq<u8>) -> Option<(u64, Seq<u8>)> {
    if input.len() >= 8 {
        Some((le_value(input.take(8)) as u64, input.skip(8)))
    } else {
        None
    }
}

/// The two's-complement bit pattern of `value`.
pub open spec fn bits_of_i64(value: i64) -> u64 {
    if value >= 0 {
        value as u64
    } else {
        (value + 0x1_0000_0000_0000_0000) as u64
    }
}

/// The signed number with the two's-complement bit pattern `bits`.
pub open spec fn i64_of_bits(bits: u64) -> i64 {
    if bits < 0x8000_0000_0000_0000 {
        bits as i64
    } else {
        (bits - 0x1_0000_0000_0000_0000) as i64
    }
}

/// A `width`-byte encoding has `width` bytes.
pub proof fn lemma_le_bytes_len(value: nat, width: nat)
    ensures
        le_bytes(value, width).len() == width,
    decreases width,
{
    if width > 0 {
        lemma_le_bytes_len(value / 256, (width - 1) as nat);
    }
}

/// Decoding an encoded number gives the number back.
pub proof fn lemma_le_value_of_bytes(value: nat, width: nat)
    requires
        value < pow256(width),
    ensures
        le_value(le_bytes(value, width)) == value,
    decreases width,
{
    lemma_le_bytes_len(value, width);
    if width > 0 {
        let rest = le_bytes(value / 256, (width - 1) as nat);
        lemma_le_value_of_bytes(value / 256, (width - 1) as nat);
        assert(le_bytes(value, width).drop_first() =~= rest);
    }
}

/// `n` bytes spell a number below `256` to the power `n`.
pub proof fn lemma_le_value_bound(bytes: Seq<u8>)
    ensures
        le_value(bytes) < pow256(bytes.len()),
    decreases bytes.len(),
{
    if bytes.len() > 0 {
        lemma_le_value_bound(bytes.drop_first());
    }
}

/// Byte strings of one length that spell the same number are equal.
pub proof fn lemma_le_value_injective(a: Seq<u8>, b: Seq<u8>)
    requires
        a.len() == b.len(),
        le_value(a) == le_value(b),
    ensures
        a == b,
    decreases a.len(),
{
    if a.len() > 0 {
        assert(a[0] as nat == le_value(a) % 256);
        assert(b[0] as nat == le_value(b) % 256);
        lemma_le_value_injective(a.drop_first(), b.drop_first());
        assert(a =~= seq![a[0]] + a.drop_first());
        assert(b =~= seq![b[0]] + b.drop_first());
    }
    assert(a =~= b);
}

/// The powers of `256` at the widths in use.
pub proof fn lemma_pow256_widths()
    ensures
        pow256(4) == 0x1_0000_0000,
        pow256(8) == 0x1_0000_0000_0000_0000,
{
    reveal_with_fuel(pow256, 9);
}

/// A `u32` written in front of `rest` is read back, leaving `rest`.
pub proof fn lemma_split_u32(value: u32, rest: Seq<u8>)
    ensures
        split_u32(le_bytes(value as nat, 4) + rest) == Some((value, rest)),
{
    lemma_pow256_widths();
    lemma_le_bytes_len(value as nat, 4);
    lemma_le_value_of_bytes(value as nat, 4);
    let input = le_bytes(value as nat, 4) + rest;
    assert(input.take(4) =~= le_bytes(value as nat, 4));
    assert(input.skip(4) =~= rest);
}

/// A `u64` written in front of `rest` is read back, leaving `rest`.
pub proof fn lemma_split_u64(value: u64, rest: Seq<u8>)
    ensures
        split_u64(le_bytes(value as nat, 8) + rest) == Some((value, rest)),
{
    lemma_pow256_widths();
    lemma_le_bytes_len(value as nat, 8);
    lemma_le_value_of_bytes(value as nat, 8);
    let input = le_bytes(value as nat, 8) + rest;
    assert(input.take(8) =~= le_bytes(value as nat, 8));
    assert(input.skip(8) =~= rest);
}

/// A byte written in front of `rest` is read back, leaving `rest`.
pub proof fn lemma_split_u8(value: u8, rest: Seq<u8>)
    ensures
        split_u8(seq![value] + rest) == Some((value, rest)),
{
    assert((seq![value] + rest).skip(1) =~= rest);
}

/// A run of bytes written in front of `rest` is read back, leaving `rest`.
pub proof fn lemma_split(run: Seq<u8>, rest: Seq<u8>)
    ensures
        split_spec(run + rest, run.len()) == Some((run, rest)),
{
    assert((run + rest).take(run.len() as int) =~= run);
    assert((run + rest).skip(run.len() as int) =~= rest);
}

/// Splitting loses nothing, and the number that a field spells is spelled by
/// that field alone.
pub proof fn lemma_field_is_canonical(input: Seq<u8>, n: nat)
    requires
        n <= input.len(),
    ensures
        input == input.take(n as int) + input.skip(n as int),
        le_bytes(le_value(input.take(n as int)), n) == input.take(n as int),
{
    let field = input.take(n as int);
    assert(input =~= field + input.skip(n as int));
    let value = le_value(field);
    lemma_le_value_bound(field);
    lemma_le_bytes_len(value, n);
    lemma_le_value_of_bytes(value, n);
    lemma_le_value_injective(le_bytes(value, n), field);
}

/// The number read off the front of `input` is the one that stands there.
pub proof fn lemma_words_are_canonical(input: Seq<u8>)
    ensures
        split_u8(input) matches Some((value, rest)) ==> input == seq![value] + rest,
        split_u32(input) matches Some((value, rest)) ==> input == le_bytes(value as nat, 4) + rest,
        split_u64(input) matches Some((value, rest)) ==> input == le_bytes(value as nat, 8) + rest,
{
    lemma_pow256_widths();
    if input.len() >= 1 {
        assert(input =~= seq![input[0]] + input.skip(1));
    }
    if input.len() >= 4 {
        lemma_field_is_canonical(input, 4);
        lemma_le_value_bound(input.take(4));
    }
    if input.len() >= 8 {
        lemma_field_is_canonical(input, 8);
        lemma_le_value_bound(input.take(8));
    }
}

/// The run read off the front of `input` is the one that stands there.
pub proof fn lemma_run_is_canonical(input: Seq<u8>, n: nat)
    ensures
        split_spec(input, n) matches Some((run, rest)) ==> input == run + rest && run.len() == n,
{
    if n <= input.len() {
        assert(input =~= input.take(n as int) + input.skip(n as int));
    }
}

/// Concatenation is associative.
pub proof fn lemma_concat(a: Seq<u8>, b: Seq<u8>, c: Seq<u8>)
    ensures
        a + b + c == a + (b + c),
{
    assert(a + b + c =~= a + (b + c));
}

/// Cutting off a concatenation within its second part.
pub proof fn lemma_cut_concat(a: Seq<u8>, b: Seq<u8>, n: int)
    requires
        a.len() <= n <= a.len() + b.len(),
    ensures
        (a + b).take(n) == a + b.take(n - a.len()),
{
    assert((a + b).take(n) =~= a + b.take(n - a.len()));
}

/// Cutting off a concatenation within its first part.
pub proof fn lemma_cut_first(a: Seq<u8>, b: Seq<u8>, n: int)
    requires
        0 <= n <= a.len(),
    ensures
        (a + b).take(n) == a.take(n),
{
    assert((a + b).take(n) =~= a.take(n));
}

/// Appends the `width` little-endian bytes of `value`.
fn put_le(out: &mut Vec<u8>, value: u64, width: usize)
    ensures
        final(out)@ == old(out)@ + le_bytes(value as nat, width as nat),
{
    let mut left: u64 = value;
    let mut i: usize = 0;
    assert(out@ + le_bytes(left as nat, (width - i) as nat) =~= old(out)@ + le_bytes(
        value as nat,
        width as nat,
    ));
    while i < width
        invariant
            i <= width,
            out@ + le_bytes(left as nat, (width - i) as nat) == old(out)@ + le_bytes(
                value as nat,
                width as nat,
            ),
        decreases width - i,
    {
        let ghost before = out@;
        let ghost tail = le_bytes((left / 256) as nat, (width - i - 1) as nat);
        out.push((left % 256) as u8);
        assert(out@ + tail =~= before + le_bytes(left as nat, (width - i) as nat));
        left = left / 256;
        i = i + 1;
    }
    assert(out@ + le_bytes(left as nat, 0) =~= out@);
}

/// Appends `value` as four little-endian bytes.
pub fn put_u32(out: &mut Vec<u8>, value: u32)
    ensures
        final(out)@ == old(out)@ + le_bytes(value as nat, 4),
{
    put_le(out, value as u64, 4)
}

/// Appends `value` as eight little-endian bytes.
pub fn put_u64(out: &mut Vec<u8>, value: u64)
    ensures
        final(out)@ == old(out)@ + le_bytes(value as nat, 8),
{
    put_le(out, value, 8)
}

/// Appends one byte.
pub fn put_u8(out: &mut Vec<u8>, value: u8)
    ensures
        final(out)@ == old(out)@ + seq![value],
{
    out.push(value);
    assert(out@ =~= old(out)@ + seq![value]);
}

/// The number that up to eight bytes spell.
fn get_le(bytes: &[u8]) -> (value: u64)
    requires
        bytes@.len() <= 8,
    ensures
        value == le_value(bytes@),
{
    let mut i: usize = bytes.len();
    let mut value: u64 = 0;
    while i > 0
        invariant
            i <= bytes@.len() <= 8,
            value == le_value(bytes@.skip(i as int)),
        decreases i,
    {
        i = i - 1;
        proof {
            let tail = bytes@.skip(i as int);
            assert(tail.drop_first() =~= bytes@.skip(i + 1));
            lemma_le_value_bound(tail);
            lemma_pow256_monotonic(tail.len(), 8);
            lemma_pow256_widths();
        }
        value = bytes[i] as u64 + 256 * value;
    }
    assert(bytes@.skip(0) =~= bytes@);
    value
}

/// `256` to a larger power is no smaller.
proof fn lemma_pow256_monotonic(a: nat, b: nat)
    requires
        a <= b,
    ensures
        pow256(a) <= pow256(b),
    decreases b,
{
    if a < b {
        lemma_pow256_monotonic(a, (b - 1) as nat);
    }
}

/// Splits off the first `n` bytes.
pub fn split_bytes<'a>(input: &'a [u8], n: usize) -> (out: Option<(&'a [u8], &'a [u8])>)
    ensures
        match out {
            Some((head, tail)) => split_spec(input@, n as nat) == Some((head@, tail@)),
            None => split_spec(input@, n as nat) is None,
        },
{
    if n <= input.len() {
        let head = slice_subrange(input, 0, n);
        let tail = slice_subrange(input, n, input.len());
        assert(head@ =~= input@.take(n as int));
        assert(tail@ =~= input@.skip(n as int));
        Some((head, tail))
    } else {
        None
    }
}

/// The `u32` that four bytes spell.
pub fn word_u32(word: &[u8]) -> (value: u32)
    requires
        word@.len() == 4,
    ensures
        value == le_value(word@),
        value == le_value(word@) as u32,
{
    proof {
        lemma_le_value_bound(word@);
        lemma_pow256_widths();
    }
    get_le(word) as u32
}

/// The `u64` that eight bytes spell.
pub fn word_u64(word: &[u8]) -> (value: u64)
    requires
        word@.len() == 8,
    ensures
        value == le_value(word@),
        value == le_value(word@) as u64,
{
    get_le(word)
}

/// Reads the leading byte.
pub fn take_u8<'a>(input: &'a [u8]) -> (out: Option<(u8, &'a [u8])>)
    ensures
        match out {
            Some((value, tail)) => split_u8(input@) == Some((value, tail@)),
            None => split_u8(input@) is None,
        },
{
    match split_bytes(input, 1) {
        Some((head, tail)) => Some((head[0], tail)),
        None => None,
    }
}

/// Reads the leading little-endian `u32`.
pub fn take_u32<'a>(input: &'a [u8]) -> (out: Option<(u32, &'a [u8])>)
    ensures
        match out {
            Some((value, tail)) => split_u32(input@) == Some((value, tail@)),
            None => split_u32(input@) is None,
        },
{
    match split_bytes(input, 4) {
        Some((head, tail)) => Some((word_u32(head), tail)),
        None => None,
    }
}

/// Reads the leading little-endian `u64`.
pub fn take_u64<'a>(input: &'a [u8]) -> (out: Option<(u64, &'a [u8])>)
    ensures
        match out {
            Some((value, tail)) => split_u64(input@) == Some((value, tail@)),
            None => split_u64(input@) is None,
        },
{
    match split_bytes(input, 8) {
        Some((head, tail)) => Some((word_u64(head), tail)),
        None => None,
    }
}

/// Whether two byte strings are equal.
pub fn same_bytes(a: &[u8], b: &[u8]) -> (same: bool)
    ensures
        same == (a@ == b@),
{
    if a.len() != b.len() {
        return false;
    }
    let mut i: usize = 0;
    while i < a.len()
        invariant
            a@.len() == b@.len(),
            i <= a@.len(),
            a@.take(i as int) == b@.take(i as int),
        decreases a@.len() - i,
    {
        if a[i] != b[i] {
            assert(a@[i as int] != b@[i as int]);
            return false;
        }
        assert(a@.take(i + 1) =~= a@.take(i as int).push(a@[i as int]));
        assert(b@.take(i + 1) =~= b@.take(i as int).push(b@[i as int]));
        i = i + 1;
    }
    assert(a@.take(i as int) =~= a@);
    assert(b@.take(i as int) =~= b@);
    true
}

/// Appends a run of bytes.
pub fn put_bytes(out: &mut Vec<u8>, run: &[u8])
    ensures
        final(out)@ == old(out)@ + run@,
{
    out.extend_from_slice(run);
    assert(out@ =~= old(out)@ + run@);
}

/// The two's-complement bit pattern of `value`.
pub fn i64_to_bits(value: i64) -> (bits: u64)
    ensures
        bits == bits_of_i64(value),
{
    if value >= 0 {
        value as u64
    } else {
        (value as i128 + 0x1_0000_0000_0000_0000) as u64
    }
}

/// The signed number with the two's-complement bit pattern `bits`.
pub fn i64_from_bits(bits: u64) -> (value: i64)
    ensures
        value == i64_of_bits(bits),
{
    if bits < 0x8000_0000_0000_0000 {
        bits as i64
    } else {
        (bits as i128 - 0x1_0000_0000_0000_0000) as i64
    }
}

/// The string whose UTF-8 encoding is `bytes`, by `String::from_utf8`: it
/// succeeds exactly on valid UTF-8, and the string it returns is the one that
/// the bytes encode.
#[verifier::external_body]
pub(crate) fn string_from_utf8(bytes: Vec<u8>) -> (out: Option<String>)
    ensures
        match out {
            Some(text) => vstd::utf8::valid_utf8(bytes@) && text@ == vstd::utf8::decode_utf8(
                bytes@,
            ),
            None => !vstd::utf8::valid_utf8(bytes@),
        },
{
    String::from_utf8(bytes).ok()
}

/// The string whose UTF-8 encoding is `bytes`, if they encode one.
pub fn take_text(bytes: &[u8]) -> (out: Option<String>)
    ensures
        match out {
            Some(text) => vstd::utf8::valid_utf8(bytes@) && text@ == vstd::utf8::decode_utf8(
                bytes@,
            ),
            None => !vstd::utf8::valid_utf8(bytes@),
        },
{
    string_from_utf8(slice_to_vec(bytes))
}

} // verus!
