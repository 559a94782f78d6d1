//! Small verified string-building helpers: decimal rendering of integers and
//! two-digit zero padding, used by the screen texts and the timestamp format.

use vstd::prelude::*;

verus! {

/// The character for a single decimal digit.
pub open spec fn digit_char(d: nat) -> char {
    if d == 0 {
        '0'
    } else if d == 1 {
        '1'
    } else if d == 2 {
        '2'
    } else if d == 3 {
        '3'
    } else if d == 4 {
        '4'
    } else if d == 5 {
        '5'
    } else if d == 6 {
        '6'
    } else if d == 7 {
        '7'
    } else if d == 8 {
        '8'
    } else {
        '9'
    }
}

/// The usual decimal rendering of `n`, without leading zeros (except "0").
pub open spec fn dec_digits(n: nat) -> Seq<char>
    decreases n,
{
    if n < 10 {
        seq![digit_char(n)]
    } else {
        dec_digits(n / 10) + seq![digit_char(n % 10)]
    }
}

/// Appends the single digit `d` to `s`.
pub fn append_digit(s: &mut String, d: u64)
    requires
        d < 10,
    ensures
        final(s)@ == old(s)@ + seq![digit_char(d as nat)],
{
    proof {
        reveal_strlit("0");
        reveal_strlit("1");
        reveal_strlit("2");
        reveal_strlit("3");
        reveal_strlit("4");
        reveal_strlit("5");
        reveal_strlit("6");
        reveal_strlit("7");
        reveal_strlit("8");
        reveal_strlit("9");
    }
    if d == 0 {
        s.append("0");
    } else if d == 1 {
        s.append("1");
    } else if d == 2 {
        s.append("2");
    } else if d == 3 {
        s.append("3");
    } else if d == 4 {
        s.append("4");
    } else if d == 5 {
        s.append("5");
    } else if d == 6 {
        s.append("6");
    } else if d == 7 {
        s.append("7");
    } else if d == 8 {
        s.append("8");
    } else {
        s.append("9");
    }
    proof {
        assert(s@ =~= old(s)@ + seq![digit_char(d as nat)]);
    }
}

/// Appends the decimal rendering of `n` to `s`.
pub fn append_u64(s: &mut String, n: u64)
    ensures
        final(s)@ == old(s)@ + dec_digits(n as nat),
    decreases n,
{
    if n < 10 {
        append_digit(s, n);
    } else {
        append_u64(s, n / 10);
        append_digit(s, n % 10);
        proof {
            assert(s@ =~= old(s)@ + dec_digits(n as nat));
        }
    }
}

/// The decimal rendering of `n` as a fresh string.
pub fn u64_to_string(n: u64) -> (s: String)
    ensures
        s@ == dec_digits(n as nat),
{
    let mut s = String::new();
    append_u64(&mut s, n);
    proof {
        assert(s@ =~= dec_digits(n as nat));
    }
    s
}

/// Two-digit zero-padded rendering, for clock fields such as minutes.
pub open spec fn dec2_digits(n: nat) -> Seq<char> {
    seq![digit_char(n / 10 % 10), digit_char(n % 10)]
}

/// Three-digit zero-padded rendering, for millisecond fractions.
pub open spec fn dec3_digits(n: nat) -> Seq<char> {
    seq![digit_char(n / 100 % 10), digit_char(n / 10 % 10), digit_char(n % 10)]
}

/// Four-digit zero-padded rendering, for years.
pub open spec fn dec4_digits(n: nat) -> Seq<char> {
    seq![
        digit_char(n / 1000 % 10),
        digit_char(n / 100 % 10),
        digit_char(n / 10 % 10),
        digit_char(n % 10),
    ]
}

/// Appends `n` as exactly two digits, zero padded.
pub fn append_2digits(s: &mut String, n: u64)
    requires
        n < 100,
    ensures
        final(s)@ == old(s)@ + dec2_digits(n as nat),
{
    append_digit(s, n / 10);
    append_digit(s, n % 10);
    proof {
        assert(s@ =~= old(s)@ + dec2_digits(n as nat));
    }
}

/// Appends `n` as exactly three digits, zero padded.
pub fn append_3digits(s: &mut String, n: u64)
    requires
        n < 1000,
    ensures
        final(s)@ == old(s)@ + dec3_digits(n as nat),
{
    append_digit(s, n / 100);
    append_digit(s, n / 10 % 10);
    append_digit(s, n % 10);
    proof {
        assert(s@ =~= old(s)@ + dec3_digits(n as nat));
    }
}

/// Appends `n` as exactly four digits, zero padded.
pub fn append_4digits(s: &mut String, n: u64)
    requires
        n < 10000,
    ensures
        final(s)@ == old(s)@ + dec4_digits(n as nat),
{
    append_digit(s, n / 1000);
    append_digit(s, n / 100 % 10);
    append_digit(s, n / 10 % 10);
    append_digit(s, n % 10);
    proof {
        assert(s@ =~= old(s)@ + dec4_digits(n as nat));
    }
}

/// Character-for-character string equality.
pub fn str_eq(a: &str, b: &str) -> (r: bool)
    ensures
        r == (a@ == b@),
{
    let alen = a.unicode_len();
    let blen = b.unicode_len();
    if alen != blen {
        return false;
    }
    let mut i: usize = 0;
    while i < alen
        invariant
            0 <= i <= alen,
            alen == a@.len(),
            alen == b@.len(),
            forall|j: int| 0 <= j < i ==> a@[j] == b@[j],
        decreases alen - i,
    {
        if a.get_char(i) != b.get_char(i) {
            return false;
        }
        i += 1;
    }
    proof {
        assert(a@ =~= b@);
    }
    true
}

/// A decimal digit character.
pub open spec fn spec_is_digit(c: char) -> bool {
    '0' <= c && c <= '9'
}

/// The numeric value of a digit character.
pub open spec fn spec_digit_val(c: char) -> int {
    (c as int) - ('0' as int)
}

/// Every character of `s` in `[from, to)` is a decimal digit.
pub open spec fn all_digits(s: Seq<char>, from: int, to: int) -> bool {
    forall|i: int| from <= i < to ==> spec_is_digit(#[trigger] s[i])
}

/// The number written by the digit run `s[from..to]`, most significant first.
pub open spec fn digits_val(s: Seq<char>, from: int, to: int) -> int
    decreases to - from,
{
    if to <= from {
        0
    } else {
        digits_val(s, from, to - 1) * 10 + spec_digit_val(s[to - 1])
    }
}

pub open spec fn pow10(n: nat) -> int
    decreases n,
{
    if n == 0 {
        1
    } else {
        10 * pow10((n - 1) as nat)
    }
}

pub proof fn lemma_digits_val_bound(s: Seq<char>, from: int, to: int)
    requires
        from <= to,
        all_digits(s, from, to),
    ensures
        0 <= digits_val(s, from, to) < pow10((to - from) as nat),
    decreases to - from,
{
    if to > from {
        lemma_digits_val_bound(s, from, to - 1);
    }
}

pub proof fn lemma_pow10_pos(n: nat)
    ensures
        pow10(n) >= 1,
    decreases n,
{
    if n > 0 {
        lemma_pow10_pos((n - 1) as nat);
    }
}

pub proof fn lemma_pow10_mono(a: nat, b: nat)
    requires
        a <= b,
    ensures
        1 <= pow10(a) <= pow10(b),
    decreases b,
{
    lemma_pow10_pos(a);
    if a < b {
        lemma_pow10_mono(a, (b - 1) as nat);
        lemma_pow10_pos((b - 1) as nat);
    }
}

/// A digit character reads back as its digit.
pub proof fn lemma_digit_char_val(d: nat)
    requires
        d < 10,
    ensures
        spec_is_digit(digit_char(d)),
        spec_digit_val(digit_char(d)) == d,
{
}

/// The value of a digit run depends only on the run itself.
pub proof fn lemma_digits_val_subrange(s: Seq<char>, from: int, to: int)
    requires
        0 <= from <= to <= s.len(),
    ensures
        digits_val(s, from, to) == digits_val(s.subrange(from, to), 0, to - from),
    decreases to - from,
{
    if to > from {
        lemma_digits_val_subrange(s, from, to - 1);
        assert(s.subrange(from, to - 1) =~= s.subrange(from, to).subrange(0, to - 1 - from));
        lemma_digits_val_subrange(s.subrange(from, to), 0, to - 1 - from);
    }
}

/// Reading back a two-digit rendering gives the number.
pub proof fn lemma_dec2_val(n: nat)
    requires
        n < 100,
    ensures
        all_digits(dec2_digits(n), 0, 2),
        digits_val(dec2_digits(n), 0, 2) == n,
{
    lemma_digit_char_val(n / 10 % 10);
    lemma_digit_char_val(n % 10);
    let s = dec2_digits(n);
    reveal_with_fuel(digits_val, 4);
    assert(digits_val(s, 0, 1) == spec_digit_val(s[0]));
    assert(digits_val(s, 0, 2) == digits_val(s, 0, 1) * 10 + spec_digit_val(s[1]));
    assert forall|i: int| 0 <= i < 2 implies spec_is_digit(#[trigger] dec2_digits(n)[i]) by {
    }
}

/// Reading back a three-digit rendering gives the number.
pub proof fn lemma_dec3_val(n: nat)
    requires
        n < 1000,
    ensures
        all_digits(dec3_digits(n), 0, 3),
        digits_val(dec3_digits(n), 0, 3) == n,
{
    lemma_digit_char_val(n / 100 % 10);
    lemma_digit_char_val(n / 10 % 10);
    lemma_digit_char_val(n % 10);
    let s = dec3_digits(n);
    reveal_with_fuel(digits_val, 5);
    assert(digits_val(s, 0, 1) == spec_digit_val(s[0]));
    assert(digits_val(s, 0, 2) == digits_val(s, 0, 1) * 10 + spec_digit_val(s[1]));
    assert(digits_val(s, 0, 3) == digits_val(s, 0, 2) * 10 + spec_digit_val(s[2]));
    assert forall|i: int| 0 <= i < 3 implies spec_is_digit(#[trigger] dec3_digits(n)[i]) by {
    }
}

/// Reading back a four-digit rendering gives the number.
pub proof fn lemma_dec4_val(n: nat)
    requires
        n < 10000,
    ensures
        all_digits(dec4_digits(n), 0, 4),
        digits_val(dec4_digits(n), 0, 4) == n,
{
    lemma_digit_char_val(n / 1000 % 10);
    lemma_digit_char_val(n / 100 % 10);
    lemma_digit_char_val(n / 10 % 10);
    lemma_digit_char_val(n % 10);
    let s = dec4_digits(n);
    reveal_with_fuel(digits_val, 6);
    assert(digits_val(s, 0, 1) == spec_digit_val(s[0]));
    assert(digits_val(s, 0, 2) == digits_val(s, 0, 1) * 10 + spec_digit_val(s[1]));
    assert(digits_val(s, 0, 3) == digits_val(s, 0, 2) * 10 + spec_digit_val(s[2]));
    assert(digits_val(s, 0, 4) == digits_val(s, 0, 3) * 10 + spec_digit_val(s[3]));
    assert forall|i: int| 0 <= i < 4 implies spec_is_digit(#[trigger] dec4_digits(n)[i]) by {
    }
}

/// What the decimal rendering guarantees: nonempty, all digits, no
/// leading zero unless the number is a single digit, and it reads back as
/// the number itself.
pub proof fn lemma_dec_digits_props(n: nat)
    ensures
        dec_digits(n).len() >= 1,
        all_digits(dec_digits(n), 0, dec_digits(n).len() as int),
        digits_val(dec_digits(n), 0, dec_digits(n).len() as int) == n,
        (n < 10) <==> (dec_digits(n).len() == 1),
        dec_digits(n).len() > 1 ==> dec_digits(n)[0] != '0',
    decreases n,
{
    if n < 10 {
        lemma_digit_char_val(n);
        reveal_with_fuel(digits_val, 3);
    } else {
        lemma_dec_digits_props(n / 10);
        lemma_digit_char_val(n % 10);
        let d = dec_digits(n);
        let h = dec_digits(n / 10);
        assert(d =~= h + seq![digit_char(n % 10)]);
        assert(d.len() == h.len() + 1);
        assert(d[0] == h[0]);
        assert forall|i: int| 0 <= i < d.len() implies spec_is_digit(#[trigger] d[i]) by {
            if i < h.len() {
                assert(d[i] == h[i]);
            }
        }
        assert(d.subrange(0, d.len() - 1) =~= h);
        lemma_digits_val_subrange(d, 0, d.len() - 1);
        assert(digits_val(d, 0, d.len() as int) == digits_val(d, 0, d.len() - 1) * 10
            + spec_digit_val(d[d.len() - 1]));
    }
}

/// A number below `pow10(k)` renders in at most `k` digits.
pub proof fn lemma_dec_digits_len(n: nat, k: nat)
    requires
        k >= 1,
        n < pow10(k),
    ensures
        dec_digits(n).len() <= k,
    decreases n,
{
    if n < 10 {
    } else {
        assert(pow10(k) == 10 * pow10((k - 1) as nat));
        lemma_pow10_pos((k - 1) as nat);
        if k == 1 {
            assert(pow10(1) == 10);
        } else {
            lemma_dec_digits_len(n / 10, (k - 1) as nat);
            assert(dec_digits(n) =~= dec_digits(n / 10) + seq![digit_char(n % 10)]);
        }
    }
}

} // verus!
