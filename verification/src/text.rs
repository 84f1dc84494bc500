//! Text helpers shared by the naming rules: decimal digits, zero padding and
//! the replacement of path separators.

use vstd::prelude::*;
use vstd::string::*;

verus! {

/// `String::push` of the standard library appends the character to the end
/// of the string.
pub assume_specification[ String::push ](s: &mut String, c: char)
    ensures
        final(s)@ == old(s)@.push(c),
;

/// Whether `c` separates the components of a path on some platform.
pub open spec fn is_separator(c: char) -> bool {
    c == '/' || c == '\\'
}

/// `s` with every path separator replaced by an underscore.
pub open spec fn sanitized(s: Seq<char>) -> Seq<char> {
    Seq::new(s.len(), |i: int| if is_separator(s[i]) { '_' } else { s[i] })
}

/// Replaces every `/` and `\` of `s` by `_`, so that the result can serve as
/// a single path component.
pub fn sanitize_component(s: &str) -> (r: String)
    ensures
        r@ == sanitized(s@),
{
    let mut out = String::new();
    for c in it: s.chars()
        invariant
            it.seq() == s@,
            out@ == sanitized(s@).take(it.index() as int),
    {
        if c == '/' || c == '\\' {
            out.push('_');
        } else {
            out.push(c);
        }
        assert(out@ =~= sanitized(s@).take(it.index() + 1));
    }
    assert(out@ =~= sanitized(s@));
    out
}

/// The character of the decimal digit `d`, for `0 <= d < 10`.
pub open spec fn digit_char(d: int) -> char {
    (48 + d) as u8 as char
}

/// The number of decimal digits of `n`; zero has one digit.
pub open spec fn decimal_len(n: nat) -> nat
    decreases n,
{
    if n < 10 {
        1
    } else {
        1 + decimal_len(n / 10)
    }
}

/// The `count` lowest decimal digits of `n`, most significant first.
pub open spec fn last_digits(n: nat, count: nat) -> Seq<char>
    decreases count,
{
    if count == 0 {
        Seq::empty()
    } else {
        last_digits(n / 10, (count - 1) as nat).push(digit_char((n % 10) as int))
    }
}

/// `n` in decimal, padded on the left with zeros to at least `width`
/// characters; a number with more digits than `width` keeps all of them.
pub open spec fn zero_padded(n: nat, width: nat) -> Seq<char> {
    last_digits(
        n,
        if decimal_len(n) > width {
            decimal_len(n)
        } else {
            width
        },
    )
}

/// Lexical order on strings: the first differing character decides, and a
/// proper prefix comes first.
pub open spec fn lex_lt(a: Seq<char>, b: Seq<char>) -> bool
    decreases a.len(),
{
    if b.len() == 0 {
        false
    } else if a.len() == 0 {
        true
    } else if a[0] != b[0] {
        (a[0] as u32) < (b[0] as u32)
    } else {
        lex_lt(a.drop_first(), b.drop_first())
    }
}

/// Whether `n` can be written with `count` digits.
pub open spec fn fits_digits(n: nat, count: nat) -> bool {
    n == 0 || decimal_len(n) <= count
}

fn digit(d: usize) -> (c: char)
    requires
        d < 10,
    ensures
        c == digit_char(d as int),
{
    (48u8 + d as u8) as char
}

/// Counts the decimal digits of `n`.
pub fn decimal_length(n: usize) -> (r: usize)
    ensures
        r == decimal_len(n as nat),
        1 <= r <= 20,
{
    let mut rest: usize = n;
    let mut count: usize = 1;
    proof {
        lemma_pow10_twenty();
        lemma_decimal_len_bound(n as nat, 20);
    }
    while rest >= 10
        invariant
            1 <= count,
            decimal_len(n as nat) == (count - 1) + decimal_len(rest as nat),
            decimal_len(n as nat) <= 20,
        decreases rest,
    {
        rest = rest / 10;
        count = count + 1;
    }
    count
}

/// Ten to the power `e`.
spec fn pow10(e: nat) -> nat
    decreases e,
{
    if e == 0 {
        1
    } else {
        10 * pow10((e - 1) as nat)
    }
}

proof fn lemma_decimal_len_bound(n: nat, e: nat)
    requires
        n < pow10(e),
        e >= 1,
    ensures
        decimal_len(n) <= e,
    decreases e,
{
    if n >= 10 {
        assert(pow10(1) == 10) by {
            reveal_with_fuel(pow10, 2);
        }
        lemma_decimal_len_bound(n / 10, (e - 1) as nat);
    }
}

proof fn lemma_pow10_twenty()
    ensures
        pow10(20) == 100000000000000000000,
{
    reveal_with_fuel(pow10, 21);
}

/// Appends `zero_padded(n, width)` to `out`.
pub fn push_zero_padded(out: &mut String, n: usize, width: usize)
    ensures
        final(out)@ == old(out)@ + zero_padded(n as nat, width as nat),
{
    let digits = decimal_length(n);
    let count = if digits > width {
        digits
    } else {
        width
    };
    let mut buf: Vec<char> = Vec::new();
    while buf.len() < count
        invariant
            buf.len() <= count,
        decreases count - buf.len(),
    {
        buf.push('0');
    }
    let mut rest: usize = n;
    let mut i: usize = count;
    while i > 0
        invariant
            i <= count,
            buf.len() == count,
            last_digits(n as nat, count as nat) == last_digits(rest as nat, i as nat)
                + buf@.subrange(i as int, count as int),
        decreases i,
    {
        let ghost before = buf@;
        i = i - 1;
        buf.set(i, digit(rest % 10));
        proof {
            let d = digit_char((rest % 10) as int);
            assert(buf@.subrange(i as int, count as int) =~= seq![d] + before.subrange(
                i + 1,
                count as int,
            ));
            assert(last_digits(rest as nat, (i + 1) as nat) + before.subrange(
                i + 1,
                count as int,
            ) =~= last_digits((rest / 10) as nat, i as nat) + buf@.subrange(
                i as int,
                count as int,
            ));
        }
        rest = rest / 10;
    }
    assert(buf@ =~= last_digits(n as nat, count as nat));
    let ghost start = out@;
    let mut k: usize = 0;
    while k < count
        invariant
            k <= count,
            buf.len() == count,
            out@ == start + buf@.take(k as int),
        decreases count - k,
    {
        out.push(buf[k]);
        k = k + 1;
        assert(out@ =~= start + buf@.take(k as int));
    }
    assert(buf@.take(count as int) =~= buf@);
}

proof fn lemma_lex_lt_push(s: Seq<char>, t: Seq<char>, x: char, y: char)
    requires
        s.len() == t.len(),
    ensures
        lex_lt(s.push(x), t.push(y)) <==> lex_lt(s, t) || (s == t && (x as u32) < (y as u32)),
    decreases s.len(),
{
    let a = s.push(x);
    let b = t.push(y);
    if s.len() == 0 {
        assert(s =~= t);
        assert(a.drop_first().len() == 0);
        assert(b.drop_first().len() == 0);
        assert(!lex_lt(a.drop_first(), b.drop_first()));
    } else {
        assert(a.drop_first() =~= s.drop_first().push(x));
        assert(b.drop_first() =~= t.drop_first().push(y));
        lemma_lex_lt_push(s.drop_first(), t.drop_first(), x, y);
        if s[0] == t[0] {
            if s.drop_first() == t.drop_first() {
                assert(s =~= seq![s[0]] + s.drop_first());
                assert(t =~= seq![t[0]] + t.drop_first());
            }
        }
    }
}

proof fn lemma_last_digits_order(a: nat, b: nat, count: nat)
    requires
        fits_digits(a, count),
        fits_digits(b, count),
    ensures
        a < b <==> lex_lt(last_digits(a, count), last_digits(b, count)),
        a == b <==> last_digits(a, count) == last_digits(b, count),
        last_digits(a, count).len() == count,
        last_digits(b, count).len() == count,
    decreases count,
{
    if count > 0 {
        let k = (count - 1) as nat;
        lemma_last_digits_order(a / 10, b / 10, k);
        let s = last_digits(a / 10, k);
        let t = last_digits(b / 10, k);
        let x = digit_char((a % 10) as int);
        let y = digit_char((b % 10) as int);
        lemma_lex_lt_push(s, t, x, y);
        assert((x as u32) < (y as u32) <==> a % 10 < b % 10);
        assert(x == y <==> a % 10 == b % 10);
        if s.push(x) == t.push(y) {
            assert(s =~= s.push(x).drop_last());
            assert(t =~= t.push(y).drop_last());
            assert(s.push(x).last() == x);
        }
    }
}

/// Zero padding keeps numeric order: of two numbers that fit into `width`
/// digits, the smaller one has the lexically smaller padded form, and
/// different numbers have different padded forms.
pub proof fn lemma_zero_padded_order(a: nat, b: nat, width: nat)
    requires
        decimal_len(a) <= width,
        decimal_len(b) <= width,
    ensures
        a < b <==> lex_lt(zero_padded(a, width), zero_padded(b, width)),
        a == b <==> zero_padded(a, width) == zero_padded(b, width),
        zero_padded(a, width).len() == width,
{
    lemma_last_digits_order(a, b, width);
}

/// Whether `c` is a decimal digit.
pub open spec fn is_digit(c: char) -> bool {
    48 <= c as u32 <= 57
}

proof fn lemma_last_digits_are_digits(n: nat, count: nat)
    ensures
        forall|i: int|
            0 <= i < last_digits(n, count).len() ==> is_digit(#[trigger] last_digits(n, count)[i]),
    decreases count,
{
    if count > 0 {
        let head = last_digits(n / 10, (count - 1) as nat);
        let last = digit_char((n % 10) as int);
        lemma_last_digits_are_digits(n / 10, (count - 1) as nat);
        assert(is_digit(last));
        assert forall|i: int| 0 <= i < last_digits(n, count).len() implies is_digit(
            #[trigger] last_digits(n, count)[i],
        ) by {
            if i < head.len() {
                assert(last_digits(n, count)[i] == head[i]);
            } else {
                assert(last_digits(n, count)[i] == last);
            }
        }
    }
}

/// A zero-padded number holds decimal digits only.
pub proof fn lemma_zero_padded_digits(n: nat, width: nat)
    ensures
        forall|i: int|
            0 <= i < zero_padded(n, width).len() ==> is_digit(#[trigger] zero_padded(n, width)[i]),
{
    lemma_last_digits_are_digits(
        n,
        if decimal_len(n) > width {
            decimal_len(n)
        } else {
            width
        },
    );
}

/// The code of a character has at most seven decimal digits.
pub proof fn lemma_char_code_digits(c: char)
    ensures
        decimal_len(c as u32 as nat) <= 7,
{
    assert(pow10(7) == 10000000) by {
        reveal_with_fuel(pow10, 8);
    }
    lemma_decimal_len_bound(c as u32 as nat, 7);
}

/// A smaller number never has more digits.
pub proof fn lemma_decimal_len_monotonic(a: nat, b: nat)
    requires
        a <= b,
    ensures
        decimal_len(a) <= decimal_len(b),
    decreases b,
{
    if b >= 10 && a >= 10 {
        lemma_decimal_len_monotonic(a / 10, b / 10);
    }
}

} // verus!
