//! Fixed-width lowercase hexadecimal rendering of 64-bit hashes and the
//! matching digit parser.

use vstd::prelude::*;
use vstd::arithmetic::power::pow;

verus! {

/// ASCII code of the lowercase hex digit for a nibble.
pub open spec fn hex_byte(nibble: nat) -> u8 {
    if nibble < 10 {
        (48 + nibble) as u8
    } else {
        (87 + nibble) as u8
    }
}

/// The `width` least significant hex digits of `value`, most significant first,
/// as ASCII bytes.
pub open spec fn hex_bytes(value: nat, width: nat) -> Seq<u8>
    decreases width,
{
    if width == 0 {
        Seq::empty()
    } else {
        hex_bytes(value / 16, (width - 1) as nat).push(hex_byte(value % 16))
    }
}

/// The same digits as characters.
pub open spec fn hex_chars(value: nat, width: nat) -> Seq<char> {
    hex_bytes(value, width).map_values(|b: u8| b as char)
}

/// `0-9`, `a-f` or `A-F`.
pub open spec fn is_hex_digit(b: u8) -> bool {
    (48 <= b <= 57) || (97 <= b <= 102) || (65 <= b <= 70)
}

/// Value of one hex digit.
pub open spec fn hex_digit_value(b: u8) -> nat {
    if 48 <= b <= 57 {
        (b - 48) as nat
    } else if 97 <= b <= 102 {
        (b - 87) as nat
    } else {
        (b - 55) as nat
    }
}

/// Big-endian value of a run of hex digits.
pub open spec fn hex_value(digits: Seq<u8>) -> nat
    decreases digits.len(),
{
    if digits.len() == 0 {
        0
    } else {
        hex_value(digits.drop_last()) * 16 + hex_digit_value(digits.last())
    }
}

/// Rendering then parsing gives the value back, reduced to the rendered width.
pub proof fn lemma_hex_roundtrip(value: nat, width: nat)
    ensures
        hex_bytes(value, width).len() == width,
        forall|i: int| 0 <= i < width ==> is_hex_digit(#[trigger] hex_bytes(value, width)[i]),
        hex_value(hex_bytes(value, width)) == value % (pow(16, width) as nat),
    decreases width,
{
    reveal(pow);
    if width == 0 {
    } else {
        let w1 = (width - 1) as nat;
        lemma_hex_roundtrip(value / 16, w1);
        let s = hex_bytes(value, width);
        assert(s.drop_last() =~= hex_bytes(value / 16, w1));
        vstd::arithmetic::power::lemma_pow_positive(16, w1);
        vstd::arithmetic::div_mod::lemma_mod_breakdown(value as int, 16, pow(16, w1));
        assert(pow(16, width) == 16 * pow(16, w1));
        assert(hex_digit_value(hex_byte(value % 16)) == value % 16);
    }
}

/// Appends one character to a string (`String::push`).
#[verifier::external_body]
fn push_char(s: &mut String, c: char)
    ensures
        final(s)@ == old(s)@.push(c),
{
    s.push(c);
}

fn hex_digit_char(nibble: u64) -> (c: char)
    requires
        nibble < 16,
    ensures
        c == hex_byte(nibble as nat) as char,
{
    match nibble {
        0 => '0',
        1 => '1',
        2 => '2',
        3 => '3',
        4 => '4',
        5 => '5',
        6 => '6',
        7 => '7',
        8 => '8',
        9 => '9',
        10 => 'a',
        11 => 'b',
        12 => 'c',
        13 => 'd',
        14 => 'e',
        _ => 'f',
    }
}

fn push_hex(s: &mut String, value: u64, width: usize)
    ensures
        final(s)@ == old(s)@ + hex_chars(value as nat, width as nat),
    decreases width,
{
    if width == 0 {
        assert(hex_chars(value as nat, 0) =~= Seq::<char>::empty());
        assert(old(s)@ + Seq::<char>::empty() =~= old(s)@);
    } else {
        push_hex(s, value / 16, width - 1);
        push_char(s, hex_digit_char(value % 16));
        assert(hex_chars(value as nat, width as nat) =~= hex_chars((value / 16) as nat, (width - 1) as nat).push(
            hex_byte((value % 16) as nat) as char,
        ));
        assert(old(s)@ + hex_chars(value as nat, width as nat) =~= (old(s)@ + hex_chars(
            (value / 16) as nat,
            (width - 1) as nat,
        )).push(hex_byte((value % 16) as nat) as char));
    }
}

/// Renders a 64-bit hash as sixteen lowercase hex digits (`{:016x}`).
pub fn hash_hex(value: u64) -> (text: String)
    ensures
        text@ == hex_chars(value as nat, 16),
{
    let mut text = String::new();
    push_hex(&mut text, value, 16);
    assert(Seq::<char>::empty() + hex_chars(value as nat, 16) =~= hex_chars(value as nat, 16));
    text
}

} // verus!
