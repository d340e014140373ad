//! Rendering of numbers and byte strings as text.

use vstd::prelude::*;

verus! {

/// The character for the digit `d` (below 16), in lower case.
pub open spec fn digit_char(d: nat) -> char {
    if d < 10 {
        ('0' as nat + d) as char
    } else {
        ('a' as nat + (d - 10)) as char
    }
}

/// `n` in decimal, without leading zeros.
pub open spec fn decimal(n: nat) -> Seq<char>
    decreases n,
{
    if n < 10 {
        seq![digit_char(n)]
    } else {
        decimal(n / 10).push(digit_char(n % 10))
    }
}

/// The low `width` hexadecimal digits of `n`, zero-padded.
pub open spec fn hexadecimal(n: nat, width: nat) -> Seq<char>
    decreases width,
{
    if width == 0 {
        Seq::empty()
    } else {
        hexadecimal(n / 16, (width - 1) as nat).push(digit_char(n % 16))
    }
}

/// `n` as `0x` and eight hexadecimal digits.
pub open spec fn hex32(n: u32) -> Seq<char> {
    "0x"@ + hexadecimal(n as nat, 8)
}

/// The bytes of `s` in decimal, separated by commas.
pub open spec fn joined(s: Seq<u8>) -> Seq<char>
    decreases s.len(),
{
    if s.len() == 0 {
        Seq::empty()
    } else if s.len() == 1 {
        decimal(s[0] as nat)
    } else {
        joined(s.drop_last()) + ", "@ + decimal(s.last() as nat)
    }
}

/// The bytes of `s` as a bracketed list.
pub open spec fn byte_list(s: Seq<u8>) -> Seq<char> {
    "["@ + joined(s) + "]"@
}

/// The text of one digit.
fn digit_text(d: u8) -> (text: &'static str)
    requires
        d < 16,
    ensures
        text@ == seq![digit_char(d as nat)],
{
    proof {
        reveal_strlit("0");
        reveal_strlit("1");
        reveal_strlit("2");
        reveal_strlit("3");
        reveal_strlit("4");
        reveal_strlit("5");
        reveal_strlit("6");
        reveal_strlit("7");
        reveal_strlit("8");
        reveal_strlit("9");
        reveal_strlit("a");
        reveal_strlit("b");
        reveal_strlit("c");
        reveal_strlit("d");
        reveal_strlit("e");
        reveal_strlit("f");
    }
    match d {
        0 => "0",
        1 => "1",
        2 => "2",
        3 => "3",
        4 => "4",
        5 => "5",
        6 => "6",
        7 => "7",
        8 => "8",
        9 => "9",
        10 => "a",
        11 => "b",
        12 => "c",
        13 => "d",
        14 => "e",
        _ => "f",
    }
}

/// Appends `n` in decimal.
pub fn push_decimal(out: &mut String, n: u128)
    ensures
        final(out)@ == old(out)@ + decimal(n as nat),
    decreases n,
{
    if n >= 10 {
        push_decimal(out, n / 10);
    }
    out.append(digit_text((n % 10) as u8));
    assert(out@ =~= old(out)@ + decimal(n as nat));
}

/// Appends the low `width` hexadecimal digits of `n`.
fn push_hexadecimal(out: &mut String, n: u32, width: u8)
    ensures
        final(out)@ == old(out)@ + hexadecimal(n as nat, width as nat),
    decreases width,
{
    if width > 0 {
        push_hexadecimal(out, n / 16, width - 1);
        out.append(digit_text((n % 16) as u8));
    }
    assert(out@ =~= old(out)@ + hexadecimal(n as nat, width as nat));
}

/// Appends `n` as `0x` and eight hexadecimal digits.
pub fn push_hex32(out: &mut String, n: u32)
    ensures
        final(out)@ == old(out)@ + hex32(n),
{
    out.append("0x");
    push_hexadecimal(out, n, 8);
    assert(out@ =~= old(out)@ + hex32(n));
}

/// Appends the bytes of `s` as a bracketed list.
pub fn push_byte_list(out: &mut String, s: &[u8])
    ensures
        final(out)@ == old(out)@ + byte_list(s@),
{
    out.append("[");
    let mut i: usize = 0;
    assert(out@ =~= old(out)@ + "["@ + joined(s@.take(0)));
    while i < s.len()
        invariant
            i <= s@.len(),
            out@ == old(out)@ + "["@ + joined(s@.take(i as int)),
        decreases s@.len() - i,
    {
        proof {
            assert(s@.take(i + 1).drop_last() =~= s@.take(i as int));
        }
        if i > 0 {
            out.append(", ");
        }
        push_decimal(out, s[i] as u128);
        i = i + 1;
        assert(out@ =~= old(out)@ + "["@ + joined(s@.take(i as int)));
    }
    assert(s@.take(i as int) =~= s@);
    out.append("]");
    assert(out@ =~= old(out)@ + byte_list(s@));
}

/// What `{:?}` shows for a string: the text in double quotes, with `"`, `\`
/// and unprintable characters escaped.
pub uninterp spec fn debug_quoted(text: Seq<char>) -> Seq<char>;

/// The `Debug` rendering of a string, by `format!("{:?}", _)`. The result
/// depends on the text alone; how it escapes is left to std.
#[verifier::external_body]
pub(crate) fn quote(text: &str) -> (out: String)
    ensures
        out@ == debug_quoted(text@),
{
    format!("{:?}", text)
}

} // verus!
