//! Text helpers with exact contracts: joining pieces, writing numbers, and
//! telling blank text from text with content.
use vstd::prelude::*;

verus! {

/// The pieces `a` and `b`, joined.
pub fn join2(a: &str, b: &str) -> (r: String)
    ensures
        r@ == a@ + b@,
{
    let mut r = String::new();
    r.append(a);
    r.append(b);
    assert(r@ =~= a@ + b@);
    r
}

/// The pieces `a`, `b` and `c`, joined.
pub fn join3(a: &str, b: &str, c: &str) -> (r: String)
    ensures
        r@ == a@ + b@ + c@,
{
    let mut r = join2(a, b);
    r.append(c);
    r
}

/// The pieces `a` to `d`, joined.
pub fn join4(a: &str, b: &str, c: &str, d: &str) -> (r: String)
    ensures
        r@ == a@ + b@ + c@ + d@,
{
    let mut r = join3(a, b, c);
    r.append(d);
    r
}

/// The pieces `a` to `e`, joined.
pub fn join5(a: &str, b: &str, c: &str, d: &str, e: &str) -> (r: String)
    ensures
        r@ == a@ + b@ + c@ + d@ + e@,
{
    let mut r = join4(a, b, c, d);
    r.append(e);
    r
}

/// Whether two texts hold the same characters.
pub fn same_text(a: &String, b: &String) -> (r: bool)
    ensures
        r == (a@ == b@),
{
    *a == *b
}

/// The digit that stands for `d` in bases up to sixteen.
pub open spec fn digit(d: int) -> char {
    if d == 0 {
        '0'
    } else if d == 1 {
        '1'
    } else if d == 2 {
        '2'
    } else if d == 3 {
        '3'
    } else if d == 4 {
        '4'
    } else if d == 5 {
        '5'
    } else if d == 6 {
        '6'
    } else if d == 7 {
        '7'
    } else if d == 8 {
        '8'
    } else if d == 9 {
        '9'
    } else if d == 10 {
        'a'
    } else if d == 11 {
        'b'
    } else if d == 12 {
        'c'
    } else if d == 13 {
        'd'
    } else if d == 14 {
        'e'
    } else {
        'f'
    }
}

/// `n` written in base `base`, most significant digit first, without leading
/// zeros; zero is the single digit zero.
pub open spec fn numeral(n: nat, base: nat) -> Seq<char>
    decreases n,
    via numeral_terminates
{
    if base < 2 || n < base {
        seq![digit(n as int)]
    } else {
        numeral(n / base, base).push(digit((n % base) as int))
    }
}

#[via_fn]
proof fn numeral_terminates(n: nat, base: nat) {
    if base >= 2 && n >= base {
        assert(n / base < n) by (nonlinear_arith)
            requires
                2 <= base <= n,
        ;
    }
}

/// `n` in decimal.
pub open spec fn decimal(n: nat) -> Seq<char> {
    numeral(n, 10)
}

/// The digit of `d` as a text of one character.
fn digit_text(d: u64) -> (r: &'static str)
    requires
        d < 16,
    ensures
        r@ == seq![digit(d as int)],
{
    proof {
        reveal_strlit("0");
        reveal_strlit("1");
        reveal_strlit("2");
        reveal_strlit("3");
        reveal_strlit("4");
        reveal_strlit("5");
        reveal_strlit("6");
        reveal_strlit("7");
        reveal_strlit("8");
        reveal_strlit("9");
        reveal_strlit("a");
        reveal_strlit("b");
        reveal_strlit("c");
        reveal_strlit("d");
        reveal_strlit("e");
        reveal_strlit("f");
    }
    match d {
        0 => "0",
        1 => "1",
        2 => "2",
        3 => "3",
        4 => "4",
        5 => "5",
        6 => "6",
        7 => "7",
        8 => "8",
        9 => "9",
        10 => "a",
        11 => "b",
        12 => "c",
        13 => "d",
        14 => "e",
        _ => "f",
    }
}

/// Writes `n` in base `base`.
pub fn numeral_text(n: u64, base: u64) -> (r: String)
    requires
        2 <= base <= 16,
    ensures
        r@ == numeral(n as nat, base as nat),
    decreases n,
{
    if n < base {
        let mut r = String::new();
        r.append(digit_text(n));
        assert(r@ =~= seq![digit(n as int)]);
        r
    } else {
        proof {
            assert(n / base < n) by (nonlinear_arith)
                requires
                    2 <= base <= n,
            ;
            assert(n % base < base) by (nonlinear_arith)
                requires
                    2 <= base,
            ;
        }
        let mut r = numeral_text(n / base, base);
        r.append(digit_text(n % base));
        assert(r@ =~= numeral((n / base) as nat, base as nat).push(digit((n % base) as int)));
        r
    }
}

/// Writes `n` in decimal.
pub fn decimal_text(n: u64) -> (r: String)
    ensures
        r@ == decimal(n as nat),
{
    numeral_text(n, 10)
}

/// Each byte as two hexadecimal digits, in order.
pub open spec fn hex_bytes(bytes: Seq<u8>) -> Seq<char>
    decreases bytes.len(),
{
    if bytes.len() == 0 {
        Seq::empty()
    } else {
        hex_bytes(bytes.drop_last()).push(digit(bytes.last() as int / 16)).push(
            digit(bytes.last() as int % 16),
        )
    }
}

/// Writes each byte as two hexadecimal digits.
pub fn hex_bytes_text(bytes: &[u8]) -> (r: String)
    ensures
        r@ == hex_bytes(bytes@),
{
    let mut r = String::new();
    let mut i: usize = 0;
    while i < bytes.len()
        invariant
            i <= bytes@.len(),
            r@ == hex_bytes(bytes@.take(i as int)),
        decreases bytes@.len() - i,
    {
        let b: u8 = bytes[i];
        let before = Ghost(r@);
        r.append(digit_text((b / 16) as u64));
        r.append(digit_text((b % 16) as u64));
        i = i + 1;
        proof {
            let taken = bytes@.take(i as int);
            assert(taken.drop_last() =~= bytes@.take(i - 1));
            assert(taken.last() == b);
            assert(r@ =~= before@.push(digit(b as int / 16)).push(digit(b as int % 16)));
        }
    }
    assert(bytes@.take(bytes@.len() as int) =~= bytes@);
    r
}

/// White space as Unicode defines it (the `White_Space` property).
pub open spec fn is_white_space(c: char) -> bool {
    ||| '\u{9}' <= c <= '\u{d}'
    ||| c == ' '
    ||| c == '\u{85}'
    ||| c == '\u{a0}'
    ||| c == '\u{1680}'
    ||| '\u{2000}' <= c <= '\u{200a}'
    ||| c == '\u{2028}'
    ||| c == '\u{2029}'
    ||| c == '\u{202f}'
    ||| c == '\u{205f}'
    ||| c == '\u{3000}'
}

/// Blank text: nothing is left once white space is trimmed.
pub open spec fn is_blank(text: Seq<char>) -> bool {
    forall|i: int| 0 <= i < text.len() ==> is_white_space(#[trigger] text[i])
}

fn white_space_char(c: char) -> (r: bool)
    ensures
        r == is_white_space(c),
{
    ('\u{9}' <= c && c <= '\u{d}') || c == ' ' || c == '\u{85}' || c == '\u{a0}' || c == '\u{1680}'
        || ('\u{2000}' <= c && c <= '\u{200a}') || c == '\u{2028}' || c == '\u{2029}' || c
        == '\u{202f}' || c == '\u{205f}' || c == '\u{3000}'
}

/// Whether `text` is blank.
pub fn blank(text: &str) -> (r: bool)
    ensures
        r == is_blank(text@),
{
    let n: usize = text.unicode_len();
    let mut i: usize = 0;
    while i < n
        invariant
            i <= n == text@.len(),
            forall|j: int| 0 <= j < i ==> is_white_space(#[trigger] text@[j]),
        decreases n - i,
    {
        if !white_space_char(text.get_char(i)) {
            return false;
        }
        i = i + 1;
    }
    true
}

/// A character that digits are written with.
pub open spec fn is_digit(c: char) -> bool {
    '0' <= c <= '9' || 'a' <= c <= 'f'
}

/// Digits of different value are different.
proof fn lemma_digit_injective(a: int, b: int)
    requires
        0 <= a < 16,
        0 <= b < 16,
        digit(a) == digit(b),
    ensures
        a == b,
{
}

/// A number is written in digits, and in at least one.
pub proof fn lemma_numeral_digits(n: nat, base: nat)
    ensures
        numeral(n, base).len() >= 1,
        forall|i: int| 0 <= i < numeral(n, base).len() ==> is_digit(#[trigger] numeral(n, base)[i]),
    decreases n,
{
    if base >= 2 && n >= base {
        assert(n / base < n) by (nonlinear_arith)
            requires
                2 <= base <= n,
        ;
        lemma_numeral_digits(n / base, base);
    }
}

/// Different numbers are written differently.
pub proof fn lemma_numeral_injective(a: nat, b: nat, base: nat)
    requires
        2 <= base <= 16,
        numeral(a, base) == numeral(b, base),
    ensures
        a == b,
    decreases a,
{
    lemma_numeral_digits(a / base, base);
    lemma_numeral_digits(b / base, base);
    if a < base && b < base {
        assert(numeral(a, base)[0] == digit(a as int));
        assert(numeral(b, base)[0] == digit(b as int));
        lemma_digit_injective(a as int, b as int);
    } else if a < base {
        assert(numeral(a, base).len() == 1);
        assert(numeral(b, base).len() >= 2);
    } else if b < base {
        assert(numeral(b, base).len() == 1);
        assert(numeral(a, base).len() >= 2);
    } else {
        let x = numeral(a, base);
        let y = numeral(b, base);
        assert(x.drop_last() =~= numeral(a / base, base));
        assert(y.drop_last() =~= numeral(b / base, base));
        assert(x.last() == y.last());
        assert(a / base < a) by (nonlinear_arith)
            requires
                2 <= base <= a,
        ;
        assert(0 <= a % base < base && 0 <= b % base < base) by (nonlinear_arith)
            requires
                2 <= base,
        ;
        lemma_numeral_injective(a / base, b / base, base);
        lemma_digit_injective((a % base) as int, (b % base) as int);
        assert(a == base * (a / base) + a % base) by (nonlinear_arith)
            requires
                2 <= base,
        ;
        assert(b == base * (b / base) + b % base) by (nonlinear_arith)
            requires
                2 <= base,
        ;
    }
}

/// Bytes are written in digits, two for each.
pub proof fn lemma_hex_digits(bytes: Seq<u8>)
    ensures
        hex_bytes(bytes).len() == 2 * bytes.len(),
        forall|i: int| 0 <= i < hex_bytes(bytes).len() ==> is_digit(#[trigger] hex_bytes(bytes)[i]),
    decreases bytes.len(),
{
    if bytes.len() > 0 {
        lemma_hex_digits(bytes.drop_last());
    }
}

/// Different bytes are written differently.
pub proof fn lemma_hex_injective(a: Seq<u8>, b: Seq<u8>)
    requires
        hex_bytes(a) == hex_bytes(b),
    ensures
        a == b,
    decreases a.len(),
{
    lemma_hex_digits(a);
    lemma_hex_digits(b);
    if a.len() > 0 {
        let x = hex_bytes(a);
        let y = hex_bytes(b);
        assert(x.drop_last().drop_last() =~= hex_bytes(a.drop_last()));
        assert(y.drop_last().drop_last() =~= hex_bytes(b.drop_last()));
        lemma_hex_injective(a.drop_last(), b.drop_last());
        assert(x.last() == y.last());
        assert(x[x.len() - 2] == y[y.len() - 2]);
        lemma_digit_injective(a.last() as int / 16, b.last() as int / 16);
        lemma_digit_injective(a.last() as int % 16, b.last() as int % 16);
        assert(a =~= a.drop_last().push(a.last()));
        assert(b =~= b.drop_last().push(b.last()));
    } else {
        assert(a =~= b);
    }
}

/// A text without the mark, followed by the mark and more, can be taken apart in
/// one way.
pub proof fn lemma_split_first(
    mark: char,
    a: Seq<char>,
    b: Seq<char>,
    x: Seq<char>,
    y: Seq<char>,
)
    requires
        a + (seq![mark] + b) == x + (seq![mark] + y),
        forall|i: int| 0 <= i < a.len() ==> #[trigger] a[i] != mark,
        forall|i: int| 0 <= i < x.len() ==> #[trigger] x[i] != mark,
    ensures
        a == x,
        b == y,
{
    let whole = a + (seq![mark] + b);
    assert(whole.len() == a.len() + 1 + b.len());
    assert((x + (seq![mark] + y)).len() == x.len() + 1 + y.len());
    assert(whole[a.len() as int] == mark);
    assert((x + (seq![mark] + y))[x.len() as int] == mark);
    if a.len() < x.len() {
        assert(whole[a.len() as int] == x[a.len() as int]);
    } else if x.len() < a.len() {
        assert(whole[x.len() as int] == a[x.len() as int]);
    }
    assert forall|i: int| 0 <= i < a.len() implies a[i] == x[i] by {
        assert(whole[i] == a[i]);
        assert((x + (seq![mark] + y))[i] == x[i]);
    }
    assert(a =~= x);
    assert(b.len() == y.len());
    assert forall|i: int| 0 <= i < b.len() implies b[i] == y[i] by {
        assert(whole[a.len() + 1 + i] == b[i]);
        assert((x + (seq![mark] + y))[x.len() + 1 + i] == y[i]);
    }
    assert(b =~= y);
}

/// A text followed by the mark and a text without it can be taken apart in one
/// way.
pub proof fn lemma_split_last(mark: char, a: Seq<char>, b: Seq<char>, x: Seq<char>, y: Seq<char>)
    requires
        a + (seq![mark] + b) == x + (seq![mark] + y),
        forall|i: int| 0 <= i < b.len() ==> #[trigger] b[i] != mark,
        forall|i: int| 0 <= i < y.len() ==> #[trigger] y[i] != mark,
    ensures
        a == x,
        b == y,
{
    let whole = a + (seq![mark] + b);
    let other = x + (seq![mark] + y);
    assert(whole.len() == a.len() + 1 + b.len());
    assert(other.len() == x.len() + 1 + y.len());
    assert(whole[a.len() as int] == mark);
    assert(other[x.len() as int] == mark);
    if a.len() < x.len() {
        assert(whole[x.len() as int] == b[x.len() - a.len() - 1]);
    } else if x.len() < a.len() {
        assert(other[a.len() as int] == y[a.len() - x.len() - 1]);
    }
    assert forall|i: int| 0 <= i < a.len() implies a[i] == x[i] by {
        assert(whole[i] == a[i]);
        assert(other[i] == x[i]);
    }
    assert(a =~= x);
    assert forall|i: int| 0 <= i < b.len() implies b[i] == y[i] by {
        assert(whole[a.len() + 1 + i] == b[i]);
        assert(other[x.len() + 1 + i] == y[i]);
    }
    assert(b =~= y);
}

} // verus!
