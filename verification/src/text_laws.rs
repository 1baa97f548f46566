//! How numbers and bytes are written, and what counts as blank.
use vstd::prelude::*;

use crate::text::{digit, hex_bytes, is_blank, is_white_space, numeral};

verus! {

/// The digits of the first ten values are the decimal digits in order, and those of
/// the next six the first letters.
pub proof fn law_digits(d: int)
    requires
        0 <= d < 16,
    ensures
        digit(d) as u32 == if d < 10 {
            '0' as u32 + d
        } else {
            'a' as u32 + (d - 10)
        },
{
}

/// A value below the base is written as its digit. Written with one digit more, a
/// number other than zero is the base times as large, and larger by that digit.
pub proof fn law_numerals(n: nat, d: nat, base: nat)
    requires
        2 <= base <= 16,
        d < base,
    ensures
        numeral(d, base) == seq![digit(d as int)],
        n > 0 ==> numeral(base * n + d, base) == numeral(n, base).push(digit(d as int)),
{
    if n > 0 {
        assert(base * n >= base) by (nonlinear_arith)
            requires
                n >= 1,
                base >= 2,
        ;
        let whole = base * n + d;
        assert(whole / base == n && whole % base == d) by {
            vstd::arithmetic::div_mod::lemma_fundamental_div_mod_converse(
                whole as int,
                base as int,
                n as int,
                d as int,
            );
        }
    }
}

/// Bytes are written one after the other, each as two digits, the higher one first.
pub proof fn law_hex_bytes(a: Seq<u8>, b: Seq<u8>, byte: u8)
    ensures
        hex_bytes(seq![byte]) == seq![digit(byte as int / 16), digit(byte as int % 16)],
        hex_bytes(a + b) == hex_bytes(a) + hex_bytes(b),
        hex_bytes(a).len() == 2 * a.len(),
    decreases a.len() + b.len(),
{
    reveal_with_fuel(hex_bytes, 3);
    assert(seq![byte].drop_last() =~= Seq::<u8>::empty());
    assert(hex_bytes(seq![byte]) =~= seq![digit(byte as int / 16), digit(byte as int % 16)]);
    if b.len() == 0 {
        assert(a + b =~= a);
        assert(hex_bytes(a) + hex_bytes(b) =~= hex_bytes(a));
        if a.len() > 0 {
            law_hex_bytes(a.drop_last(), b, byte);
        }
    } else {
        law_hex_bytes(a, b.drop_last(), byte);
        assert((a + b).drop_last() =~= a + b.drop_last());
        assert((a + b).last() == b.last());
        assert(hex_bytes(a + b) =~= hex_bytes(a) + hex_bytes(b));
    }
}

/// White space are the 25 characters with these numbers.
pub proof fn law_white_space(c: char)
    ensures
        is_white_space(c) <==> {
            let number = c as u32;
            ||| 9 <= number <= 13
            ||| number == 32
            ||| number == 133
            ||| number == 160
            ||| number == 5760
            ||| 8192 <= number <= 8202
            ||| 8232 <= number <= 8233
            ||| number == 8239
            ||| number == 8287
            ||| number == 12288
        },
{
}

/// Text is blank where it is empty, and joined text where both parts are; one
/// character is blank where it is white space.
pub proof fn law_blank_text(a: Seq<char>, b: Seq<char>, c: char)
    ensures
        is_blank(Seq::<char>::empty()),
        is_blank(a + b) <==> is_blank(a) && is_blank(b),
        is_blank(seq![c]) <==> is_white_space(c),
{
    if is_blank(a + b) {
        assert forall|i: int| 0 <= i < a.len() implies is_white_space(#[trigger] a[i]) by {
            assert((a + b)[i] == a[i]);
        }
        assert forall|i: int| 0 <= i < b.len() implies is_white_space(#[trigger] b[i]) by {
            assert((a + b)[a.len() + i] == b[i]);
        }
    }
    if is_blank(seq![c]) {
        assert(is_white_space(seq![c][0]));
    }
}

} // verus!
