//! The JSON wire format of the scan protocol: the request body the
//! terminal posts and the reply body it reads back, as a grammar over
//! characters, with an encoder and a parser that are proved to round-trip.
//!
//! The grammar is the protocol's: one request object with the two
//! camelCase keys, and one reply object with the employee record and the
//! day's numbers, in the documented key order, with arbitrary blanks
//! between tokens. String values take the standard escapes (and reject
//! raw control characters); numbers are plain decimals, the vacation
//! allowance with an optional fraction read to tenths.

use vstd::prelude::*;

use crate::strutil::{all_digits, dec_digits, digits_val, lemma_dec_digits_len,
    lemma_dec_digits_props, lemma_digits_val_bound, lemma_digits_val_subrange, lemma_pow10_mono,
    pow10, spec_digit_val, spec_is_digit};

verus! {

/// Canonical escaping: quote and backslash take a backslash; every other
/// character stands for itself.
pub open spec fn json_escape(s: Seq<char>) -> Seq<char>
    decreases s.len(),
{
    if s.len() == 0 {
        s
    } else {
        let head: Seq<char> = if s[0] == '"' {
            seq!['\\', '"']
        } else if s[0] == '\\' {
            seq!['\\', '\\']
        } else {
            seq![s[0]]
        };
        head + json_escape(s.drop_first())
    }
}

/// A canonical JSON string: quotes around the escaped content.
pub open spec fn json_string(s: Seq<char>) -> Seq<char> {
    seq!['"'] + json_escape(s) + seq!['"']
}

/// Blank space between tokens.
pub open spec fn spec_is_json_ws(c: char) -> bool {
    c == ' ' || c == '\t' || c == '\n' || c == '\r'
}

/// The first position at or after `i` that is not blank.
pub open spec fn spec_skip_ws(s: Seq<char>, i: int) -> int
    decreases s.len() - i,
{
    if 0 <= i < s.len() && spec_is_json_ws(s[i]) {
        spec_skip_ws(s, i + 1)
    } else {
        i
    }
}

/// Position after `lit` if `s` carries it at `i`.
pub open spec fn spec_eat_lit(s: Seq<char>, i: int, lit: Seq<char>) -> Option<int> {
    if 0 <= i && i + lit.len() <= s.len() && s.subrange(i, i + lit.len()) == lit {
        Option::Some(i + lit.len())
    } else {
        Option::None
    }
}

/// String content from `i` (after the opening quote) to the closing
/// quote: standard escapes are unescaped, raw control characters and
/// unknown escapes are refused. Yields the content and the position after
/// the closing quote.
pub open spec fn spec_str_chars(s: Seq<char>, i: int) -> Option<(Seq<char>, int)>
    decreases s.len() - i,
{
    if i < 0 || i >= s.len() {
        Option::None
    } else if s[i] == '"' {
        Option::Some((Seq::empty(), i + 1))
    } else if s[i] == '\\' {
        if i + 1 < s.len() {
            let e = spec_unescape(s[i + 1]);
            match e {
                Option::Some(c) => {
                    match spec_str_chars(s, i + 2) {
                        Option::Some((rest, j)) => Option::Some((seq![c] + rest, j)),
                        Option::None => Option::None,
                    }
                },
                Option::None => Option::None,
            }
        } else {
            Option::None
        }
    } else if (s[i] as int) < 32 {
        Option::None
    } else {
        match spec_str_chars(s, i + 1) {
            Option::Some((rest, j)) => Option::Some((seq![s[i]] + rest, j)),
            Option::None => Option::None,
        }
    }
}

/// What each escape letter stands for.
pub open spec fn spec_unescape(c: char) -> Option<char> {
    if c == '"' {
        Option::Some('"')
    } else if c == '\\' {
        Option::Some('\\')
    } else if c == '/' {
        Option::Some('/')
    } else if c == 'n' {
        Option::Some('\n')
    } else if c == 'r' {
        Option::Some('\r')
    } else if c == 't' {
        Option::Some('\t')
    } else {
        Option::None
    }
}

/// A whole JSON string at `i`: an opening quote, content, closing quote.
pub open spec fn spec_parse_string(s: Seq<char>, i: int) -> Option<(Seq<char>, int)> {
    if 0 <= i < s.len() && s[i] == '"' {
        spec_str_chars(s, i + 1)
    } else {
        Option::None
    }
}

fn is_json_ws(c: char) -> (b: bool)
    ensures
        b == spec_is_json_ws(c),
{
    c == ' ' || c == '\t' || c == '\n' || c == '\r'
}

/// Steps over blanks.
fn skip_ws(s: &str, i: usize) -> (r: usize)
    requires
        i <= s@.len(),
    ensures
        r as int == spec_skip_ws(s@, i as int),
        i <= r <= s@.len(),
        r < s@.len() ==> !spec_is_json_ws(s@[r as int]),
{
    let n = s.unicode_len();
    let mut j = i;
    while j < n && is_json_ws(s.get_char(j))
        invariant
            i <= j <= n,
            n == s@.len(),
            spec_skip_ws(s@, i as int) == spec_skip_ws(s@, j as int),
        decreases n - j,
    {
        j += 1;
    }
    j
}

/// Consumes the exact text `lit` at `i`, if it is there.
fn eat_lit(s: &str, i: usize, lit: &str) -> (r: Option<usize>)
    requires
        i <= s@.len(),
    ensures
        match r {
            Option::Some(j) => spec_eat_lit(s@, i as int, lit@) == Option::Some(j as int) && i
                <= j <= s@.len(),
            Option::None => spec_eat_lit(s@, i as int, lit@) is None,
        },
{
    let n = s.unicode_len();
    let m = lit.unicode_len();
    if m > n - i {
        proof {
            assert(i + lit@.len() > s@.len());
        }
        return Option::None;
    }
    let mut k: usize = 0;
    while k < m
        invariant
            0 <= k <= m,
            i + m <= n,
            n == s@.len(),
            m == lit@.len(),
            forall|t: int| 0 <= t < k ==> s@[i + t] == lit@[t],
        decreases m - k,
    {
        if s.get_char(i + k) != lit.get_char(k) {
            proof {
                assert(s@.subrange(i as int, i + lit@.len()) != lit@) by {
                    assert(s@.subrange(i as int, i + lit@.len())[k as int] == s@[i + k]);
                }
            }
            return Option::None;
        }
        k += 1;
    }
    proof {
        assert(s@.subrange(i as int, i + lit@.len()) =~= lit@);
    }
    Option::Some(i + m)
}

/// A character that stands for itself inside a JSON string.
pub open spec fn spec_plain_char(c: char) -> bool {
    c != '"' && c != '\\' && (c as int) >= 32
}

/// Reads a JSON string's content starting after its opening quote,
/// unescaping as it goes.
fn read_str_chars(s: &str, i: usize) -> (r: Option<(String, usize)>)
    requires
        i <= s@.len(),
    ensures
        match r {
            Option::Some(p) => spec_str_chars(s@, i as int) == Option::Some((p.0@, p.1 as int))
                && i <= p.1 <= s@.len(),
            Option::None => spec_str_chars(s@, i as int) is None,
        },
{
    let n = s.unicode_len();
    let mut out = String::new();
    let mut run_start = i;
    let mut j = i;
    loop
        invariant
            i <= run_start <= j <= n,
            n == s@.len(),
            forall|t: int| run_start <= t < j ==> spec_plain_char(#[trigger] s@[t]),
            match spec_str_chars(s@, j as int) {
                Option::Some(p) => spec_str_chars(s@, i as int) == Option::Some(
                    (out@ + s@.subrange(run_start as int, j as int) + p.0, p.1),
                ),
                Option::None => spec_str_chars(s@, i as int) is None,
            },
        decreases n - j,
    {
        if j >= n {
            return Option::None;
        }
        let c = s.get_char(j);
        if c == '"' {
            let sub = s.substring_char(run_start, j);
            out.append(sub);
            proof {
                let p0 = spec_str_chars(s@, j as int).unwrap();
                assert(p0.0 == Seq::<char>::empty());
                assert(out@ + p0.0 =~= out@);
            }
            return Option::Some((out, j + 1));
        } else if c == '\\' {
            if j + 1 >= n {
                return Option::None;
            }
            let e = s.get_char(j + 1);
            let unescaped: Option<&str> = if e == '"' {
                Option::Some("\"")
            } else if e == '\\' {
                Option::Some("\\")
            } else if e == '/' {
                Option::Some("/")
            } else if e == 'n' {
                Option::Some("\n")
            } else if e == 'r' {
                Option::Some("\r")
            } else if e == 't' {
                Option::Some("\t")
            } else {
                Option::None
            };
            match unescaped {
                Option::None => {
                    proof {
                        assert(spec_unescape(s@[j + 1]) is None);
                        assert(spec_str_chars(s@, j as int) is None);
                    }
                    return Option::None;
                },
                Option::Some(u) => {
                    let ghost pre_out = out@;
                    let sub = s.substring_char(run_start, j);
                    out.append(sub);
                    out.append(u);
                    proof {
                        reveal_strlit("\"");
                        reveal_strlit("\\");
                        reveal_strlit("/");
                        reveal_strlit("\n");
                        reveal_strlit("\r");
                        reveal_strlit("\t");
                        let uc = spec_unescape(s@[j + 1]).unwrap();
                        assert(u@ =~= seq![uc]);
                        assert(out@ =~= pre_out + s@.subrange(run_start as int, j as int)
                            + seq![uc]);
                        match spec_str_chars(s@, j + 2) {
                            Option::Some(p) => {
                                assert(spec_str_chars(s@, j as int) == Option::Some(
                                    (seq![uc] + p.0, p.1),
                                ));
                                assert(pre_out + s@.subrange(run_start as int, j as int) + (
                                seq![uc] + p.0) =~= out@ + s@.subrange(j + 2, j + 2) + p.0);
                            },
                            Option::None => {
                                assert(spec_str_chars(s@, j as int) is None);
                            },
                        }
                    }
                    run_start = j + 2;
                    j = j + 2;
                },
            }
        } else if (c as u32) < 32 {
            proof {
                assert(spec_str_chars(s@, j as int) is None);
            }
            return Option::None;
        } else {
            proof {
                match spec_str_chars(s@, j + 1) {
                    Option::Some(p) => {
                        assert(spec_str_chars(s@, j as int) == Option::Some(
                            (seq![s@[j as int]] + p.0, p.1),
                        ));
                        assert(out@ + s@.subrange(run_start as int, j as int) + (
                        seq![s@[j as int]] + p.0) =~= out@ + s@.subrange(run_start as int, j + 1)
                            + p.0);
                    },
                    Option::None => {
                        assert(spec_str_chars(s@, j as int) is None);
                    },
                }
            }
            j += 1;
        }
    }
}

/// Reads a whole JSON string at `i`.
fn read_string(s: &str, i: usize) -> (r: Option<(String, usize)>)
    requires
        i <= s@.len(),
    ensures
        match r {
            Option::Some(p) => spec_parse_string(s@, i as int) == Option::Some(
                (p.0@, p.1 as int),
            ) && i <= p.1 <= s@.len(),
            Option::None => spec_parse_string(s@, i as int) is None,
        },
{
    let n = s.unicode_len();
    if i < n && s.get_char(i) == '"' {
        read_str_chars(s, i + 1)
    } else {
        Option::None
    }
}

/// Position after the run of digits starting at `i`.
pub open spec fn spec_digit_run_end(s: Seq<char>, i: int) -> int
    decreases s.len() - i,
{
    if 0 <= i < s.len() && spec_is_digit(s[i]) {
        spec_digit_run_end(s, i + 1)
    } else {
        i
    }
}

/// An unsigned decimal at `i`, as a `u32` field takes it: a nonempty digit
/// run, no leading zero, at most ten digits, value in range.
pub open spec fn spec_parse_u32_num(s: Seq<char>, i: int) -> Option<(int, int)> {
    let j = spec_digit_run_end(s, i);
    if j == i {
        Option::None
    } else if s[i] == '0' && j > i + 1 {
        Option::None
    } else if j - i <= 10 && digits_val(s, i, j) <= u32::MAX {
        Option::Some((digits_val(s, i, j), j))
    } else {
        Option::None
    }
}

/// A signed decimal at `i`, as an `i32` field takes it.
pub open spec fn spec_parse_i32_num(s: Seq<char>, i: int) -> Option<(int, int)> {
    if 0 <= i < s.len() && s[i] == '-' {
        let j = spec_digit_run_end(s, i + 1);
        if j == i + 1 {
            Option::None
        } else if s[i + 1] == '0' && j > i + 2 {
            Option::None
        } else if j - i - 1 <= 10 && digits_val(s, i + 1, j) <= 0x8000_0000 {
            Option::Some((-digits_val(s, i + 1, j), j))
        } else {
            Option::None
        }
    } else {
        let j = spec_digit_run_end(s, i);
        if j == i {
            Option::None
        } else if s[i] == '0' && j > i + 1 {
            Option::None
        } else if j - i <= 10 && digits_val(s, i, j) <= 0x7fff_ffff {
            Option::Some((digits_val(s, i, j), j))
        } else {
            Option::None
        }
    }
}

/// A decimal with an optional fraction at `i`, read to tenths of a unit:
/// the whole part (at most eight digits), and if a point follows, its
/// first digit; further fraction digits are read and dropped.
pub open spec fn spec_parse_tenths(s: Seq<char>, i: int) -> Option<(int, int)> {
    let neg = 0 <= i < s.len() && s[i] == '-';
    let i0 = if neg {
        i + 1
    } else {
        i
    };
    let j = spec_digit_run_end(s, i0);
    if j == i0 {
        Option::None
    } else if s[i0] == '0' && j > i0 + 1 {
        Option::None
    } else if j - i0 > 8 {
        Option::None
    } else {
        let d = digits_val(s, i0, j);
        if j < s.len() && s[j] == '.' {
            let k = spec_digit_run_end(s, j + 1);
            if k == j + 1 {
                Option::None
            } else {
                let t = d * 10 + spec_digit_val(s[j + 1]);
                Option::Some(
                    (
                        if neg {
                            -t
                        } else {
                            t
                        },
                        k,
                    ),
                )
            }
        } else {
            Option::Some(
                (
                    if neg {
                        -(d * 10)
                    } else {
                        d * 10
                    },
                    j,
                ),
            )
        }
    }
}

/// Finds the end of the digit run starting at `i`.
fn digit_run_end(s: &str, i: usize) -> (r: usize)
    requires
        i <= s@.len(),
    ensures
        r as int == spec_digit_run_end(s@, i as int),
        i <= r <= s@.len(),
        all_digits(s@, i as int, r as int),
        r < s@.len() ==> !spec_is_digit(s@[r as int]),
{
    let n = s.unicode_len();
    let mut j = i;
    while j < n && is_digit_char(s.get_char(j))
        invariant
            i <= j <= n,
            n == s@.len(),
            spec_digit_run_end(s@, i as int) == spec_digit_run_end(s@, j as int),
            all_digits(s@, i as int, j as int),
        decreases n - j,
    {
        j += 1;
    }
    j
}

fn is_digit_char(c: char) -> (b: bool)
    ensures
        b == spec_is_digit(c),
{
    '0' <= c && c <= '9'
}

/// Reads the value of the digit run `s[i..j]`; at most ten digits.
fn digits_to_u64(s: &str, i: usize, j: usize) -> (v: u64)
    requires
        i <= j <= s@.len(),
        j - i <= 10,
        all_digits(s@, i as int, j as int),
    ensures
        v as int == digits_val(s@, i as int, j as int),
{
    let mut k = i;
    let mut acc: u64 = 0;
    while k < j
        invariant
            i <= k <= j <= s@.len(),
            j - i <= 10,
            all_digits(s@, i as int, j as int),
            acc as int == digits_val(s@, i as int, k as int),
            (acc as int) < pow10((k - i) as nat),
        decreases j - k,
    {
        proof {
            lemma_pow10_mono((k - i) as nat, 9);
            reveal_with_fuel(pow10, 11);
            assert(pow10(9) == 1000000000i64);
            lemma_digits_val_bound(s@, i as int, k as int + 1);
        }
        let c = s.get_char(k);
        let d = (c as u64) - ('0' as u64);
        acc = acc * 10 + d;
        k += 1;
    }
    acc
}

/// Reads an unsigned decimal for a `u32` field.
fn read_u32_num(s: &str, i: usize) -> (r: Option<(u32, usize)>)
    requires
        i <= s@.len(),
    ensures
        match r {
            Option::Some(p) => spec_parse_u32_num(s@, i as int) == Option::Some(
                (p.0 as int, p.1 as int),
            ) && i <= p.1 <= s@.len(),
            Option::None => spec_parse_u32_num(s@, i as int) is None,
        },
{
    let j = digit_run_end(s, i);
    if j == i {
        return Option::None;
    }
    if s.get_char(i) == '0' && j > i + 1 {
        return Option::None;
    }
    if j - i > 10 {
        return Option::None;
    }
    let v = digits_to_u64(s, i, j);
    if v > u32::MAX as u64 {
        return Option::None;
    }
    Option::Some((v as u32, j))
}

/// Reads a signed decimal for an `i32` field.
fn read_i32_num(s: &str, i: usize) -> (r: Option<(i32, usize)>)
    requires
        i <= s@.len(),
    ensures
        match r {
            Option::Some(p) => spec_parse_i32_num(s@, i as int) == Option::Some(
                (p.0 as int, p.1 as int),
            ) && i <= p.1 <= s@.len(),
            Option::None => spec_parse_i32_num(s@, i as int) is None,
        },
{
    let n = s.unicode_len();
    if i < n && s.get_char(i) == '-' {
        let j = digit_run_end(s, i + 1);
        if j == i + 1 {
            return Option::None;
        }
        if s.get_char(i + 1) == '0' && j > i + 2 {
            return Option::None;
        }
        if j - (i + 1) > 10 {
            return Option::None;
        }
        let v = digits_to_u64(s, i + 1, j);
        if v > 0x8000_0000 {
            return Option::None;
        }
        let r: i32 = if v == 0x8000_0000 {
            i32::MIN
        } else {
            -((v as u32) as i32)
        };
        Option::Some((r, j))
    } else {
        let j = digit_run_end(s, i);
        if j == i {
            return Option::None;
        }
        if s.get_char(i) == '0' && j > i + 1 {
            return Option::None;
        }
        if j - i > 10 {
            return Option::None;
        }
        let v = digits_to_u64(s, i, j);
        if v > 0x7fff_ffff {
            return Option::None;
        }
        Option::Some((v as i32, j))
    }
}

/// Reads a decimal with an optional fraction to tenths.
fn read_tenths(s: &str, i: usize) -> (r: Option<(i32, usize)>)
    requires
        i <= s@.len(),
    ensures
        match r {
            Option::Some(p) => spec_parse_tenths(s@, i as int) == Option::Some(
                (p.0 as int, p.1 as int),
            ) && i <= p.1 <= s@.len(),
            Option::None => spec_parse_tenths(s@, i as int) is None,
        },
{
    let n = s.unicode_len();
    let neg = i < n && s.get_char(i) == '-';
    let i0 = if neg {
        i + 1
    } else {
        i
    };
    let j = digit_run_end(s, i0);
    if j == i0 {
        return Option::None;
    }
    if s.get_char(i0) == '0' && j > i0 + 1 {
        return Option::None;
    }
    if j - i0 > 8 {
        return Option::None;
    }
    let d = digits_to_u64(s, i0, j);
    proof {
        lemma_digits_val_bound(s@, i0 as int, j as int);
        lemma_pow10_mono((j - i0) as nat, 8);
        reveal_with_fuel(pow10, 10);
        assert(pow10(8) == 100000000i64);
    }
    if j < n && s.get_char(j) == '.' {
        let k = digit_run_end(s, j + 1);
        if k == j + 1 {
            return Option::None;
        }
        let c = s.get_char(j + 1);
        let frac = (c as u64) - ('0' as u64);
        let t = d * 10 + frac;
        let r: i32 = if neg {
            -(t as i32)
        } else {
            t as i32
        };
        Option::Some((r, k))
    } else {
        let t = d * 10;
        let r: i32 = if neg {
            -(t as i32)
        } else {
            t as i32
        };
        Option::Some((r, j))
    }
}


/// Escaping distributes over concatenation.
pub proof fn lemma_escape_concat(a: Seq<char>, b: Seq<char>)
    ensures
        json_escape(a + b) == json_escape(a) + json_escape(b),
    decreases a.len(),
{
    if a.len() == 0 {
        assert(a + b =~= b);
        assert(json_escape(a) + json_escape(b) =~= json_escape(b));
    } else {
        assert((a + b).drop_first() =~= a.drop_first() + b);
        lemma_escape_concat(a.drop_first(), b);
        let head: Seq<char> = if a[0] == '"' {
            seq!['\\', '"']
        } else if a[0] == '\\' {
            seq!['\\', '\\']
        } else {
            seq![a[0]]
        };
        assert(head + (json_escape(a.drop_first()) + json_escape(b)) =~= (head + json_escape(
            a.drop_first(),
        )) + json_escape(b));
    }
}

/// Appends the canonical escaping of `s`.
fn append_escaped(out: &mut String, s: &str)
    ensures
        final(out)@ == old(out)@ + json_escape(s@),
{
    proof {
        reveal_strlit("\\\"");
        reveal_strlit("\\\\");
        assert(s@.take(0) =~= Seq::<char>::empty());
        assert(out@ + json_escape(s@.take(0)) =~= out@);
    }
    let n = s.unicode_len();
    let mut i: usize = 0;
    while i < n
        invariant
            0 <= i <= n,
            n == s@.len(),
            out@ == old(out)@ + json_escape(s@.take(i as int)),
        decreases n - i,
    {
        proof {
            reveal_strlit("\\\"");
            reveal_strlit("\\\\");
            reveal_with_fuel(json_escape, 3);
            assert("\\\""@ =~= seq!['\\', '"']);
            assert("\\\\"@ =~= seq!['\\', '\\']);
            assert(s@.take(i + 1) =~= s@.take(i as int) + seq![s@[i as int]]);
            lemma_escape_concat(s@.take(i as int), seq![s@[i as int]]);
            assert(seq![s@[i as int]].drop_first() =~= Seq::<char>::empty());
        }
        let c = s.get_char(i);
        if c == '"' {
            out.append("\\\"");
            proof {
                assert(out@ =~= old(out)@ + json_escape(s@.take(i + 1)));
            }
        } else if c == '\\' {
            out.append("\\\\");
            proof {
                assert(out@ =~= old(out)@ + json_escape(s@.take(i + 1)));
            }
        } else {
            let piece = s.substring_char(i, i + 1);
            out.append(piece);
            proof {
                assert(piece@ =~= seq![s@[i as int]]);
                assert(out@ =~= old(out)@ + json_escape(s@.take(i + 1)));
            }
        }
        i += 1;
    }
    proof {
        assert(s@.take(n as int) =~= s@);
    }
}

/// The canonical request body: the two camelCase keys in order, no blanks.
pub open spec fn req_json(tag: Seq<char>, term: Seq<char>) -> Seq<char> {
    "{\"rfidTagId\":"@ + json_string(tag) + ",\"terminalId\":"@ + json_string(term) + "}"@
}

/// Builds the request body for one scan.
pub fn encode_clock_request(rfid_tag_id: &str, terminal_id: &str) -> (r: String)
    ensures
        r@ == req_json(rfid_tag_id@, terminal_id@),
{
    proof {
        reveal_strlit("{\"rfidTagId\":");
        reveal_strlit(",\"terminalId\":");
        reveal_strlit("}");
        reveal_strlit("\"");
    }
    let mut r = "{\"rfidTagId\":".to_owned();
    r.append("\"");
    append_escaped(&mut r, rfid_tag_id);
    r.append("\"");
    r.append(",\"terminalId\":");
    r.append("\"");
    append_escaped(&mut r, terminal_id);
    r.append("\"");
    r.append("}");
    proof {
        assert(r@ =~= req_json(rfid_tag_id@, terminal_id@));
    }
    r
}

/// What parsing a request body yields: the tag and the terminal id,
/// provided the body is one object with exactly the two keys in order,
/// with arbitrary blanks between tokens and nothing after it.
pub open spec fn spec_parse_clock_request(s: Seq<char>) -> Option<(Seq<char>, Seq<char>)> {
    let i1 = spec_skip_ws(s, 0);
    match spec_eat_lit(s, i1, "{"@) {
        Option::None => Option::None,
        Option::Some(i2) => {
            let i3 = spec_skip_ws(s, i2);
            match spec_eat_lit(s, i3, "\"rfidTagId\""@) {
                Option::None => Option::None,
                Option::Some(i4) => {
                    let i5 = spec_skip_ws(s, i4);
                    match spec_eat_lit(s, i5, ":"@) {
                        Option::None => Option::None,
                        Option::Some(i6) => {
                            let i7 = spec_skip_ws(s, i6);
                            match spec_parse_string(s, i7) {
                                Option::None => Option::None,
                                Option::Some((tag, i8)) => {
                                    let i9 = spec_skip_ws(s, i8);
                                    match spec_eat_lit(s, i9, ",\"terminalId\""@) {
                                        Option::None => Option::None,
                                        Option::Some(i10) => {
                                            let i11 = spec_skip_ws(s, i10);
                                            match spec_eat_lit(s, i11, ":"@) {
                                                Option::None => Option::None,
                                                Option::Some(i12) => {
                                                    let i13 = spec_skip_ws(s, i12);
                                                    match spec_parse_string(s, i13) {
                                                        Option::None => Option::None,
                                                        Option::Some((term, i14)) => {
                                                            let i15 = spec_skip_ws(s, i14);
                                                            match spec_eat_lit(s, i15, "}"@) {
                                                                Option::None => Option::None,
                                                                Option::Some(i16) => {
                                                                    if spec_skip_ws(s, i16)
                                                                        == s.len() {
                                                                        Option::Some((tag, term))
                                                                    } else {
                                                                        Option::None
                                                                    }
                                                                },
                                                            }
                                                        },
                                                    }
                                                },
                                            }
                                        },
                                    }
                                },
                            }
                        },
                    }
                },
            }
        },
    }
}

/// Parses a request body back into its tag and terminal id.
pub fn parse_clock_request(s: &str) -> (r: Option<(String, String)>)
    ensures
        match r {
            Option::Some(p) => spec_parse_clock_request(s@) == Option::Some((p.0@, p.1@)),
            Option::None => spec_parse_clock_request(s@) is None,
        },
{
    let n = s.unicode_len();
    let i1 = skip_ws(s, 0);
    let i2 = match eat_lit(s, i1, "{") {
        Option::Some(j) => j,
        Option::None => {
            return Option::None;
        },
    };
    let i3 = skip_ws(s, i2);
    let i4 = match eat_lit(s, i3, "\"rfidTagId\"") {
        Option::Some(j) => j,
        Option::None => {
            return Option::None;
        },
    };
    let i5 = skip_ws(s, i4);
    let i6 = match eat_lit(s, i5, ":") {
        Option::Some(j) => j,
        Option::None => {
            return Option::None;
        },
    };
    let i7 = skip_ws(s, i6);
    let (tag, i8) = match read_string(s, i7) {
        Option::Some(p) => p,
        Option::None => {
            return Option::None;
        },
    };
    let i9 = skip_ws(s, i8);
    let i10 = match eat_lit(s, i9, ",\"terminalId\"") {
        Option::Some(j) => j,
        Option::None => {
            return Option::None;
        },
    };
    let i11 = skip_ws(s, i10);
    let i12 = match eat_lit(s, i11, ":") {
        Option::Some(j) => j,
        Option::None => {
            return Option::None;
        },
    };
    let i13 = skip_ws(s, i12);
    let (term, i14) = match read_string(s, i13) {
        Option::Some(p) => p,
        Option::None => {
            return Option::None;
        },
    };
    let i15 = skip_ws(s, i14);
    let i16 = match eat_lit(s, i15, "}") {
        Option::Some(j) => j,
        Option::None => {
            return Option::None;
        },
    };
    if skip_ws(s, i16) == n {
        Option::Some((tag, term))
    } else {
        Option::None
    }
}

/// Text without raw control characters, as every field this terminal
/// sends or shows carries.
pub open spec fn no_control_chars(s: Seq<char>) -> bool {
    forall|t: int| 0 <= t < s.len() ==> (#[trigger] s[t] as int) >= 32
}

/// Escaped content embedded in a larger text reads back exactly, up to
/// its closing quote.
proof fn lemma_str_chars_at(s: Seq<char>, i: int, content: Seq<char>)
    requires
        0 <= i,
        i + json_escape(content).len() + 1 <= s.len(),
        s.subrange(i, i + json_escape(content).len()) == json_escape(content),
        s[i + json_escape(content).len()] == '"',
        no_control_chars(content),
    ensures
        spec_str_chars(s, i) == Option::Some(
            (content, i + json_escape(content).len() + 1),
        ),
    decreases content.len(),
{
    let e = json_escape(content);
    if content.len() == 0 {
        assert(e.len() == 0);
        assert(s[i] == '"');
    } else {
        let c = content[0];
        let rest = content.drop_first();
        let e1 = json_escape(rest);
        let head: Seq<char> = if c == '"' {
            seq!['\\', '"']
        } else if c == '\\' {
            seq!['\\', '\\']
        } else {
            seq![c]
        };
        assert(e == head + e1);
        assert forall|t: int| 0 <= t < rest.len() implies (#[trigger] rest[t] as int) >= 32 by {
            assert(rest[t] == content[t + 1]);
        }
        let hl = head.len() as int;
        assert(s.subrange(i + hl, i + hl + e1.len()) =~= e1) by {
            assert forall|t: int| 0 <= t < e1.len() implies s.subrange(
                i + hl,
                i + hl + e1.len(),
            )[t] == e1[t] by {
                assert(s.subrange(i + hl, i + hl + e1.len())[t] == s.subrange(i, i + e.len())[
                    hl + t]);
                assert(e[hl + t] == e1[t]);
            }
        }
        assert(s[i + hl + e1.len()] == '"');
        lemma_str_chars_at(s, i + hl, rest);
        assert(s[i] == e[0]) by {
            assert(s.subrange(i, i + e.len())[0] == s[i]);
        }
        if c == '"' || c == '\\' {
            assert(s[i] == '\\');
            assert(s[i + 1] == e[1]) by {
                assert(s.subrange(i, i + e.len())[1] == s[i + 1]);
            }
            assert(spec_unescape(s[i + 1]) == Option::Some(c));
            assert(spec_str_chars(s, i + 2) == Option::Some(
                (rest, i + hl + e1.len() + 1),
            ));
            assert(seq![c] + rest =~= content);
        } else {
            assert(s[i] == c);
            assert((c as int) >= 32);
            assert(c != '"' && c != '\\');
            assert(spec_str_chars(s, i + 1) == Option::Some(
                (rest, i + hl + e1.len() + 1),
            ));
            assert(seq![c] + rest =~= content);
        }
    }
}

/// The request round trip: a body built by [`encode_clock_request`] parses
/// back to exactly the tag and terminal id it was built from, provided the
/// two carry no raw control characters (which no badge or terminal id
/// does).
pub proof fn lemma_request_round_trip(tag: Seq<char>, term: Seq<char>)
    requires
        no_control_chars(tag),
        no_control_chars(term),
    ensures
        spec_parse_clock_request(req_json(tag, term)) == Option::Some((tag, term)),
{
    reveal_strlit("{\"rfidTagId\":");
    reveal_strlit(",\"terminalId\":");
    reveal_strlit("}");
    reveal_strlit("{");
    reveal_strlit("\"rfidTagId\"");
    reveal_strlit(":");
    reveal_strlit(",\"terminalId\"");
    let s = req_json(tag, term);
    let a: Seq<char> = "{\"rfidTagId\":"@;
    let b: Seq<char> = ",\"terminalId\":"@;
    let jt = json_string(tag);
    let jm = json_string(term);
    let et = json_escape(tag);
    let em = json_escape(term);
    assert(a.len() == 13);
    assert(b.len() == 14);
    let p1 = 13 + jt.len() as int;
    let p2 = p1 + 14;
    assert(s.len() == p2 + jm.len() + 1);
    // the opening brace and first key
    assert(s[0] == '{');
    assert(spec_skip_ws(s, 0) == 0);
    assert(s.subrange(0, 1) =~= "{"@);
    assert(spec_eat_lit(s, 0, "{"@) == Option::Some(1int));
    assert(s[1] == '"');
    assert(spec_skip_ws(s, 1) == 1);
    assert(s.subrange(1, 12) =~= "\"rfidTagId\""@);
    assert(spec_eat_lit(s, 1, "\"rfidTagId\""@) == Option::Some(12int));
    assert(s[12] == ':');
    assert(spec_skip_ws(s, 12) == 12);
    assert(s.subrange(12, 13) =~= ":"@);
    assert(spec_eat_lit(s, 12, ":"@) == Option::Some(13int));
    // the tag string
    assert(s[13] == '"') by {
        assert(s[13] == jt[0]);
    }
    assert(spec_skip_ws(s, 13) == 13);
    assert(s.subrange(14, 14 + et.len() as int) =~= et) by {
        assert forall|t: int| 0 <= t < et.len() implies s.subrange(14, 14 + et.len() as int)[t]
            == et[t] by {
            assert(s[14 + t] == jt[1 + t]);
            assert(jt[1 + t] == et[t]);
        }
    }
    assert(s[14 + et.len() as int] == '"') by {
        assert(s[14 + et.len() as int] == jt[jt.len() - 1]);
    }
    lemma_str_chars_at(s, 14, tag);
    assert(spec_parse_string(s, 13) == Option::Some((tag, p1)));
    // the separator and second key
    assert(s.subrange(p1, p1 + 14) =~= b) by {
        assert forall|t: int| 0 <= t < 14 implies s.subrange(p1, p1 + 14)[t] == b[t] by {
            assert(s[p1 + t] == b[t]);
        }
    }
    assert(s[p1] == ',') by {
        assert(s[p1] == b[0]);
    }
    assert(spec_skip_ws(s, p1) == p1);
    assert(s.subrange(p1, p1 + 13) =~= ",\"terminalId\""@) by {
        assert forall|t: int| 0 <= t < 13 implies s.subrange(p1, p1 + 13)[t]
            == ",\"terminalId\""@[t] by {
            assert(s[p1 + t] == b[t]);
        }
    }
    assert(spec_eat_lit(s, p1, ",\"terminalId\""@) == Option::Some(p1 + 13));
    assert(s[p1 + 13] == ':') by {
        assert(s[p1 + 13] == b[13]);
    }
    assert(spec_skip_ws(s, p1 + 13) == p1 + 13);
    assert(s.subrange(p1 + 13, p1 + 14) =~= ":"@);
    assert(spec_eat_lit(s, p1 + 13, ":"@) == Option::Some(p2));
    // the terminal string
    assert(s[p2] == '"') by {
        assert(s[p2] == jm[0]);
    }
    assert(spec_skip_ws(s, p2) == p2);
    assert(s.subrange(p2 + 1, p2 + 1 + em.len()) =~= em) by {
        assert forall|t: int| 0 <= t < em.len() implies s.subrange(p2 + 1, p2 + 1 + em.len())[t]
            == em[t] by {
            assert(s[p2 + 1 + t] == jm[1 + t]);
            assert(jm[1 + t] == em[t]);
        }
    }
    assert(s[p2 + 1 + em.len()] == '"') by {
        assert(s[p2 + 1 + em.len()] == jm[jm.len() - 1]);
    }
    lemma_str_chars_at(s, p2 + 1, term);
    let p3 = p2 + jm.len() as int;
    assert(spec_parse_string(s, p2) == Option::Some((term, p3)));
    // the closing brace and the end
    assert(s[p3] == '}');
    assert(spec_skip_ws(s, p3) == p3);
    assert(s.subrange(p3, p3 + 1) =~= "}"@);
    assert(spec_eat_lit(s, p3, "}"@) == Option::Some(p3 + 1));
    assert(p3 + 1 == s.len());
    assert(spec_skip_ws(s, p3 + 1) == s.len());
}


/// The mathematical shadow of a parsed reply.
pub ghost struct RespModel {
    pub id: Seq<char>,
    pub first_name: Seq<char>,
    pub last_name: Seq<char>,
    pub photo_url: Option<Seq<char>>,
    pub entry_type: Seq<char>,
    pub timestamp: Seq<char>,
    pub work: int,
    pub brk: int,
    pub overtime: int,
    pub vacation_tenths: int,
}

/// A key and its colon, blanks allowed around the tokens; yields the
/// position of the value.
pub open spec fn spec_key(s: Seq<char>, i: int, key: Seq<char>) -> Option<int> {
    let a = spec_skip_ws(s, i);
    match spec_eat_lit(s, a, key) {
        Option::None => Option::None,
        Option::Some(b) => {
            let c = spec_skip_ws(s, b);
            match spec_eat_lit(s, c, ":"@) {
                Option::None => Option::None,
                Option::Some(d) => Option::Some(spec_skip_ws(s, d)),
            }
        },
    }
}

/// A comma, then a key and its colon.
pub open spec fn spec_comma_key(s: Seq<char>, i: int, key: Seq<char>) -> Option<int> {
    let a = spec_skip_ws(s, i);
    match spec_eat_lit(s, a, ","@) {
        Option::None => Option::None,
        Option::Some(b) => spec_key(s, b, key),
    }
}

/// A closing brace, blanks allowed before it.
pub open spec fn spec_close(s: Seq<char>, i: int) -> Option<int> {
    let a = spec_skip_ws(s, i);
    spec_eat_lit(s, a, "}"@)
}

/// What parsing a reply body yields: the fields of the documented reply
/// object, keys in the documented order, `photoUrl` null or absent or a
/// string, the timestamp checked against the RFC 3339 UTC profile, blanks
/// allowed between tokens and nothing after the object.
pub open spec fn spec_parse_clock_response(s: Seq<char>) -> Option<RespModel> {
    let i0 = spec_skip_ws(s, 0);
    match spec_eat_lit(s, i0, "{"@) {
        Option::None => Option::None,
        Option::Some(i1) => match spec_key(s, i1, "\"employee\""@) {
            Option::None => Option::None,
            Option::Some(i2) => match spec_eat_lit(s, i2, "{"@) {
                Option::None => Option::None,
                Option::Some(i3) => match spec_key(s, i3, "\"id\""@) {
                    Option::None => Option::None,
                    Option::Some(i4) => match spec_parse_string(s, i4) {
                        Option::None => Option::None,
                        Option::Some((id, i5)) => match spec_comma_key(s, i5, "\"firstName\""@) {
                            Option::None => Option::None,
                            Option::Some(i6) => match spec_parse_string(s, i6) {
                                Option::None => Option::None,
                                Option::Some((first, i7)) => spec_parse_response_rest(
                                    s,
                                    i7,
                                    id,
                                    first,
                                ),
                            },
                        },
                    },
                },
            },
        },
    }
}

/// The reply from `lastName` on.
pub open spec fn spec_parse_response_rest(
    s: Seq<char>,
    i7: int,
    id: Seq<char>,
    first: Seq<char>,
) -> Option<RespModel> {
    match spec_comma_key(s, i7, "\"lastName\""@) {
        Option::None => Option::None,
        Option::Some(i8) => match spec_parse_string(s, i8) {
            Option::None => Option::None,
            Option::Some((last, i9)) => {
                let photo_step = spec_parse_photo(s, i9);
                match photo_step {
                    Option::None => Option::None,
                    Option::Some((photo, i12)) => match spec_comma_key(
                        s,
                        i12,
                        "\"entryType\""@,
                    ) {
                        Option::None => Option::None,
                        Option::Some(i13) => match spec_parse_string(s, i13) {
                            Option::None => Option::None,
                            Option::Some((entry, i14)) => spec_parse_response_tail(
                                s,
                                i14,
                                RespModel {
                                    id,
                                    first_name: first,
                                    last_name: last,
                                    photo_url: photo,
                                    entry_type: entry,
                                    timestamp: Seq::empty(),
                                    work: 0,
                                    brk: 0,
                                    overtime: 0,
                                    vacation_tenths: 0,
                                },
                            ),
                        },
                    },
                }
            },
        },
    }
}

/// The optional `photoUrl` member and the employee object's closing brace:
/// either the member (null or a string) and the brace, or the brace alone.
pub open spec fn spec_parse_photo(s: Seq<char>, i9: int) -> Option<(Option<Seq<char>>, int)> {
    match spec_comma_key(s, i9, "\"photoUrl\""@) {
        Option::Some(i10) => {
            match spec_eat_lit(s, i10, "null"@) {
                Option::Some(i11) => match spec_close(s, i11) {
                    Option::None => Option::None,
                    Option::Some(i12) => Option::Some((Option::None, i12)),
                },
                Option::None => match spec_parse_string(s, i10) {
                    Option::None => Option::None,
                    Option::Some((url, i11)) => match spec_close(s, i11) {
                        Option::None => Option::None,
                        Option::Some(i12) => Option::Some((Option::Some(url), i12)),
                    },
                },
            }
        },
        Option::None => match spec_close(s, i9) {
            Option::None => Option::None,
            Option::Some(i12) => Option::Some((Option::None, i12)),
        },
    }
}

/// The reply from `timestamp` on, folded into the model built so far.
pub open spec fn spec_parse_response_tail(s: Seq<char>, i14: int, m: RespModel) -> Option<
    RespModel,
> {
    match spec_comma_key(s, i14, "\"timestamp\""@) {
        Option::None => Option::None,
        Option::Some(i15) => match spec_parse_string(s, i15) {
            Option::None => Option::None,
            Option::Some((ts, i16)) => {
                if !crate::timestamp::valid_rfc3339(ts) {
                    Option::None
                } else {
                    match spec_comma_key(s, i16, "\"todayWorkMinutes\""@) {
                        Option::None => Option::None,
                        Option::Some(i17) => match spec_parse_u32_num(s, i17) {
                            Option::None => Option::None,
                            Option::Some((work, i18)) => match spec_comma_key(
                                s,
                                i18,
                                "\"todayBreakMinutes\""@,
                            ) {
                                Option::None => Option::None,
                                Option::Some(i19) => match spec_parse_u32_num(s, i19) {
                                    Option::None => Option::None,
                                    Option::Some((brk, i20)) => match spec_comma_key(
                                        s,
                                        i20,
                                        "\"overtimeMinutes\""@,
                                    ) {
                                        Option::None => Option::None,
                                        Option::Some(i21) => match spec_parse_i32_num(s, i21) {
                                            Option::None => Option::None,
                                            Option::Some((ot, i22)) => match spec_comma_key(
                                                s,
                                                i22,
                                                "\"remainingVacationDays\""@,
                                            ) {
                                                Option::None => Option::None,
                                                Option::Some(i23) => match spec_parse_tenths(
                                                    s,
                                                    i23,
                                                ) {
                                                    Option::None => Option::None,
                                                    Option::Some((vac, i24)) => match spec_close(
                                                        s,
                                                        i24,
                                                    ) {
                                                        Option::None => Option::None,
                                                        Option::Some(i25) => {
                                                            if spec_skip_ws(s, i25) == s.len() {
                                                                Option::Some(
                                                                    RespModel {
                                                                        timestamp: ts,
                                                                        work: work,
                                                                        brk: brk,
                                                                        overtime: ot,
                                                                        vacation_tenths: vac,
                                                                        ..m
                                                                    },
                                                                )
                                                            } else {
                                                                Option::None
                                                            }
                                                        },
                                                    },
                                                },
                                            },
                                        },
                                    },
                                },
                            },
                        },
                    }
                }
            },
        },
    }
}

/// Consumes a key and its colon.
fn key_at(s: &str, i: usize, key: &str) -> (r: Option<usize>)
    requires
        i <= s@.len(),
    ensures
        match r {
            Option::Some(j) => spec_key(s@, i as int, key@) == Option::Some(j as int) && j
                <= s@.len(),
            Option::None => spec_key(s@, i as int, key@) is None,
        },
{
    let a = skip_ws(s, i);
    let b = match eat_lit(s, a, key) {
        Option::Some(j) => j,
        Option::None => {
            return Option::None;
        },
    };
    let c = skip_ws(s, b);
    let d = match eat_lit(s, c, ":") {
        Option::Some(j) => j,
        Option::None => {
            return Option::None;
        },
    };
    Option::Some(skip_ws(s, d))
}

/// Consumes a comma, then a key and its colon.
fn comma_key_at(s: &str, i: usize, key: &str) -> (r: Option<usize>)
    requires
        i <= s@.len(),
    ensures
        match r {
            Option::Some(j) => spec_comma_key(s@, i as int, key@) == Option::Some(j as int) && j
                <= s@.len(),
            Option::None => spec_comma_key(s@, i as int, key@) is None,
        },
{
    let a = skip_ws(s, i);
    let b = match eat_lit(s, a, ",") {
        Option::Some(j) => j,
        Option::None => {
            return Option::None;
        },
    };
    key_at(s, b, key)
}

/// Consumes a closing brace.
fn close_at(s: &str, i: usize) -> (r: Option<usize>)
    requires
        i <= s@.len(),
    ensures
        match r {
            Option::Some(j) => spec_close(s@, i as int) == Option::Some(j as int) && j
                <= s@.len(),
            Option::None => spec_close(s@, i as int) is None,
        },
{
    let a = skip_ws(s, i);
    eat_lit(s, a, "}")
}

/// Parses a reply body into a [`ClockResponse`]. On success the timestamp
/// has already passed the RFC 3339 UTC check.
pub fn parse_clock_response(s: &str) -> (r: Option<crate::api::ClockResponse>)
    ensures
        match r {
            Option::Some(resp) => spec_parse_clock_response(s@) == Option::Some(
                (RespModel {
                    id: resp.employee.id@,
                    first_name: resp.employee.first_name@,
                    last_name: resp.employee.last_name@,
                    photo_url: match resp.employee.photo_url {
                        Option::Some(u) => Option::Some(u@),
                        Option::None => Option::None,
                    },
                    entry_type: resp.entry_type@,
                    timestamp: resp.timestamp@,
                    work: resp.today_work_minutes as int,
                    brk: resp.today_break_minutes as int,
                    overtime: resp.overtime_minutes as int,
                    vacation_tenths: resp.remaining_vacation_tenths as int,
                }),
            ) && crate::timestamp::valid_rfc3339(resp.timestamp@),
            Option::None => spec_parse_clock_response(s@) is None,
        },
{
    let n = s.unicode_len();
    let i0 = skip_ws(s, 0);
    let i1 = match eat_lit(s, i0, "{") {
        Option::Some(j) => j,
        Option::None => {
            return Option::None;
        },
    };
    let i2 = match key_at(s, i1, "\"employee\"") {
        Option::Some(j) => j,
        Option::None => {
            return Option::None;
        },
    };
    let i3 = match eat_lit(s, i2, "{") {
        Option::Some(j) => j,
        Option::None => {
            return Option::None;
        },
    };
    let i4 = match key_at(s, i3, "\"id\"") {
        Option::Some(j) => j,
        Option::None => {
            return Option::None;
        },
    };
    let (id, i5) = match read_string(s, i4) {
        Option::Some(p) => p,
        Option::None => {
            return Option::None;
        },
    };
    let i6 = match comma_key_at(s, i5, "\"firstName\"") {
        Option::Some(j) => j,
        Option::None => {
            return Option::None;
        },
    };
    let (first, i7) = match read_string(s, i6) {
        Option::Some(p) => p,
        Option::None => {
            return Option::None;
        },
    };
    let i8 = match comma_key_at(s, i7, "\"lastName\"") {
        Option::Some(j) => j,
        Option::None => {
            return Option::None;
        },
    };
    let (last, i9) = match read_string(s, i8) {
        Option::Some(p) => p,
        Option::None => {
            return Option::None;
        },
    };
    let (photo, i12) = match comma_key_at(s, i9, "\"photoUrl\"") {
        Option::Some(i10) => {
            match eat_lit(s, i10, "null") {
                Option::Some(i11) => {
                    match close_at(s, i11) {
                        Option::Some(j) => (Option::None, j),
                        Option::None => {
                            return Option::None;
                        },
                    }
                },
                Option::None => {
                    match read_string(s, i10) {
                        Option::Some((url, i11)) => {
                            match close_at(s, i11) {
                                Option::Some(j) => (Option::Some(url), j),
                                Option::None => {
                                    return Option::None;
                                },
                            }
                        },
                        Option::None => {
                            return Option::None;
                        },
                    }
                },
            }
        },
        Option::None => {
            match close_at(s, i9) {
                Option::Some(j) => (Option::None, j),
                Option::None => {
                    return Option::None;
                },
            }
        },
    };
    let i13 = match comma_key_at(s, i12, "\"entryType\"") {
        Option::Some(j) => j,
        Option::None => {
            return Option::None;
        },
    };
    let (entry, i14) = match read_string(s, i13) {
        Option::Some(p) => p,
        Option::None => {
            return Option::None;
        },
    };
    let i15 = match comma_key_at(s, i14, "\"timestamp\"") {
        Option::Some(j) => j,
        Option::None => {
            return Option::None;
        },
    };
    let (ts, i16) = match read_string(s, i15) {
        Option::Some(p) => p,
        Option::None => {
            return Option::None;
        },
    };
    if !crate::timestamp::is_valid_rfc3339(ts.as_str()) {
        return Option::None;
    }
    let i17 = match comma_key_at(s, i16, "\"todayWorkMinutes\"") {
        Option::Some(j) => j,
        Option::None => {
            return Option::None;
        },
    };
    let (work, i18) = match read_u32_num(s, i17) {
        Option::Some(p) => p,
        Option::None => {
            return Option::None;
        },
    };
    let i19 = match comma_key_at(s, i18, "\"todayBreakMinutes\"") {
        Option::Some(j) => j,
        Option::None => {
            return Option::None;
        },
    };
    let (brk, i20) = match read_u32_num(s, i19) {
        Option::Some(p) => p,
        Option::None => {
            return Option::None;
        },
    };
    let i21 = match comma_key_at(s, i20, "\"overtimeMinutes\"") {
        Option::Some(j) => j,
        Option::None => {
            return Option::None;
        },
    };
    let (ot, i22) = match read_i32_num(s, i21) {
        Option::Some(p) => p,
        Option::None => {
            return Option::None;
        },
    };
    let i23 = match comma_key_at(s, i22, "\"remainingVacationDays\"") {
        Option::Some(j) => j,
        Option::None => {
            return Option::None;
        },
    };
    let (vac, i24) = match read_tenths(s, i23) {
        Option::Some(p) => p,
        Option::None => {
            return Option::None;
        },
    };
    let i25 = match close_at(s, i24) {
        Option::Some(j) => j,
        Option::None => {
            return Option::None;
        },
    };
    if skip_ws(s, i25) != n {
        return Option::None;
    }
    Option::Some(
        crate::api::ClockResponse {
            employee: crate::api::EmployeeInfo {
                id,
                first_name: first,
                last_name: last,
                photo_url: photo,
            },
            entry_type: entry,
            timestamp: ts,
            today_work_minutes: work,
            today_break_minutes: brk,
            overtime_minutes: ot,
            remaining_vacation_tenths: vac,
        },
    )
}


/// A signed decimal's canonical text.
pub open spec fn int_digits(v: int) -> Seq<char> {
    if v >= 0 {
        dec_digits(v as nat)
    } else {
        "-"@ + dec_digits((-v) as nat)
    }
}

/// A piece embedded in a larger text at position `pre.len()`.
proof fn lemma_embed(s: Seq<char>, pre: Seq<char>, mid: Seq<char>, post: Seq<char>)
    requires
        s == pre + mid + post,
    ensures
        s.subrange(pre.len() as int, pre.len() + mid.len() as int) == mid,
        pre.len() + mid.len() <= s.len(),
{
    assert(s.subrange(pre.len() as int, pre.len() + mid.len() as int) =~= mid);
}

/// A digit run bounded on both sides ends where its digits end.
proof fn lemma_run_end_is(s: Seq<char>, i: int, j: int)
    requires
        0 <= i <= j <= s.len(),
        all_digits(s, i, j),
        j == s.len() || !spec_is_digit(s[j]),
    ensures
        spec_digit_run_end(s, i) == j,
    decreases j - i,
{
    if i < j {
        lemma_run_end_is(s, i + 1, j);
    }
}

/// A rendered `u32` embedded in a larger text parses back to itself.
proof fn lemma_u32_at(s: Seq<char>, i: int, n: nat)
    requires
        0 <= i,
        n <= u32::MAX,
        i + dec_digits(n).len() <= s.len(),
        s.subrange(i, i + dec_digits(n).len()) == dec_digits(n),
        i + dec_digits(n).len() == s.len() || !spec_is_digit(s[i + dec_digits(n).len()]),
    ensures
        spec_parse_u32_num(s, i) == Option::Some((n as int, i + dec_digits(n).len())),
{
    let d = dec_digits(n);
    lemma_dec_digits_props(n);
    assert forall|t: int| 0 <= t < d.len() implies s[i + t] == d[t] by {
        assert(s.subrange(i, i + d.len())[t] == s[i + t]);
    }
    assert forall|t: int| i <= t < i + d.len() implies spec_is_digit(#[trigger] s[t]) by {
        assert(s[t] == d[t - i]);
    }
    lemma_run_end_is(s, i, i + d.len());
    assert(s.subrange(i, i + d.len()) =~= d);
    lemma_digits_val_subrange(s, i, i + d.len());
    assert(digits_val(s, i, i + d.len()) == n);
    reveal_with_fuel(pow10, 12);
    assert(pow10(10) == 10000000000i64);
    lemma_dec_digits_len(n, 10);
    assert(s[i] == d[0]);
    if d.len() > 1 {
        assert(s[i] != '0');
    }
}

/// A rendered `i32` embedded in a larger text parses back to itself.
proof fn lemma_i32_at(s: Seq<char>, i: int, v: int)
    requires
        0 <= i,
        -0x8000_0000 <= v <= 0x7fff_ffff,
        i + int_digits(v).len() <= s.len(),
        s.subrange(i, i + int_digits(v).len()) == int_digits(v),
        i + int_digits(v).len() == s.len() || !spec_is_digit(s[i + int_digits(v).len()]),
    ensures
        spec_parse_i32_num(s, i) == Option::Some((v, i + int_digits(v).len())),
{
    reveal_strlit("-");
    assert forall|t: int| 0 <= t < int_digits(v).len() implies s[i + t] == int_digits(v)[t] by {
        assert(s.subrange(i, i + int_digits(v).len())[t] == s[i + t]);
    }
    if v >= 0 {
        let d = dec_digits(v as nat);
        lemma_dec_digits_props(v as nat);
        assert(s[i] == d[0]);
        assert(s[i] != '-');
        assert forall|t: int| i <= t < i + d.len() implies spec_is_digit(#[trigger] s[t]) by {
            assert(s[t] == d[t - i]);
        }
        lemma_run_end_is(s, i, i + d.len());
        assert(s.subrange(i, i + d.len()) =~= d);
        lemma_digits_val_subrange(s, i, i + d.len());
        reveal_with_fuel(pow10, 12);
        assert(pow10(10) == 10000000000i64);
        lemma_dec_digits_len(v as nat, 10);
        if d.len() > 1 {
            assert(s[i] != '0');
        }
    } else {
        let m = (-v) as nat;
        let d = dec_digits(m);
        let e = int_digits(v);
        lemma_dec_digits_props(m);
        assert(e == "-"@ + d);
        assert(s[i] == e[0]);
        assert(e[0] == '-');
        assert forall|t: int| 0 <= t < d.len() implies s[i + 1 + t] == d[t] by {
            assert(s[i + 1 + t] == e[1 + t]);
        }
        assert forall|t: int| i + 1 <= t < i + 1 + d.len() implies spec_is_digit(
            #[trigger] s[t],
        ) by {
            assert(s[t] == d[t - i - 1]);
        }
        lemma_run_end_is(s, i + 1, i + 1 + d.len());
        assert(s.subrange(i + 1, i + 1 + d.len()) =~= d);
        lemma_digits_val_subrange(s, i + 1, i + 1 + d.len());
        assert(digits_val(s, i + 1, i + 1 + d.len()) == m);
        reveal_with_fuel(pow10, 12);
        assert(pow10(10) == 10000000000i64);
        lemma_dec_digits_len(m, 10);
        assert(s[i + 1] == d[0]);
        if d.len() > 1 {
            assert(s[i + 1] != '0');
        }
    }
}

/// A rendered tenths count embedded in a larger text parses back to
/// itself.
proof fn lemma_tenths_at(s: Seq<char>, i: int, v: int)
    requires
        0 <= i,
        -1000000000 < v < 1000000000,
        i + crate::screens::spec_tenths_text(v).len() <= s.len(),
        s.subrange(i, i + crate::screens::spec_tenths_text(v).len())
            == crate::screens::spec_tenths_text(v),
        i + crate::screens::spec_tenths_text(v).len() == s.len() || !spec_is_digit(
            s[i + crate::screens::spec_tenths_text(v).len()],
        ),
    ensures
        spec_parse_tenths(s, i) == Option::Some(
            (v, i + crate::screens::spec_tenths_text(v).len()),
        ),
{
    reveal_strlit("-");
    reveal_strlit("");
    reveal_strlit(".");
    let e = crate::screens::spec_tenths_text(v);
    assert forall|t: int| 0 <= t < e.len() implies s[i + t] == e[t] by {
        assert(s.subrange(i, i + e.len())[t] == s[i + t]);
    }
    let mag: nat = if v < 0 {
        (-v) as nat
    } else {
        v as nat
    };
    let d = dec_digits(mag / 10);
    lemma_dec_digits_props(mag / 10);
    let sgn: int = if v < 0 {
        1int
    } else {
        0int
    };
    assert(""@ =~= Seq::<char>::empty());
    assert(e.len() == sgn + d.len() + 2);
    let i0 = i + sgn;
    if v < 0 {
        assert(s[i] == e[0]);
        assert(e[0] == '-');
    } else {
        assert(s[i] == e[0]);
        assert(e[0] == d[0]);
        assert(s[i] != '-') by {
            assert(spec_is_digit(d[0]));
        }
    }
    assert forall|t: int| 0 <= t < d.len() implies s[i0 + t] == d[t] by {
        assert(s[i0 + t] == e[sgn + t]);
    }
    assert forall|t: int| i0 <= t < i0 + d.len() implies spec_is_digit(#[trigger] s[t]) by {
        assert(s[t] == d[t - i0]);
    }
    assert(s[i0 + d.len()] == e[sgn + d.len()]);
    assert(e[sgn + d.len()] == '.');
    lemma_run_end_is(s, i0, i0 + d.len());
    assert(s.subrange(i0, i0 + d.len()) =~= d);
    lemma_digits_val_subrange(s, i0, i0 + d.len());
    assert(digits_val(s, i0, i0 + d.len()) == mag / 10);
    reveal_with_fuel(pow10, 10);
    assert(pow10(8) == 100000000i64);
    lemma_dec_digits_len(mag / 10, 8);
    if d.len() > 1 {
        assert(s[i0] == d[0]);
        assert(s[i0] != '0');
    }
    let j = i0 + d.len() as int;
    assert(s[j + 1] == e[sgn + d.len() + 1]);
    assert(e[sgn + d.len() + 1] == crate::strutil::digit_char(mag % 10));
    crate::strutil::lemma_digit_char_val(mag % 10);
    assert(spec_is_digit(s[j + 1]));
    lemma_run_end_is(s, j + 1, j + 2);
    assert(spec_digit_val(s[j + 1]) == mag % 10);
    assert((mag / 10) * 10 + mag % 10 == mag);
}


/// A canonical key with its colon, embedded in a larger text, is consumed
/// as the grammar's key step.
proof fn lemma_key_canonical(s: Seq<char>, p: int, key: Seq<char>)
    requires
        0 <= p,
        key.len() >= 1,
        !spec_is_json_ws(key[0]),
        p + key.len() + 2 <= s.len(),
        s.subrange(p, p + key.len()) == key,
        s[p + key.len()] == ':',
        !spec_is_json_ws(s[p + key.len() + 1]),
    ensures
        spec_key(s, p, key) == Option::Some(p + key.len() + 1),
{
    reveal_strlit(":");
    assert(spec_skip_ws(s, p) == p) by {
        assert(s.subrange(p, p + key.len())[0] == s[p]);
    }
    assert(spec_eat_lit(s, p, key) == Option::Some(p + key.len() as int));
    assert(spec_skip_ws(s, p + key.len()) == p + key.len());
    assert(s.subrange(p + key.len(), p + key.len() + 1) =~= ":"@);
    assert(spec_eat_lit(s, p + key.len(), ":"@) == Option::Some(p + key.len() + 1));
    assert(spec_skip_ws(s, p + key.len() + 1) == p + key.len() + 1);
}

/// A canonical comma, key and colon, embedded in a larger text.
proof fn lemma_comma_key_canonical(s: Seq<char>, p: int, key: Seq<char>)
    requires
        0 <= p,
        key.len() >= 1,
        !spec_is_json_ws(key[0]),
        p + key.len() + 3 <= s.len(),
        s[p] == ',',
        s.subrange(p + 1, p + 1 + key.len()) == key,
        s[p + 1 + key.len()] == ':',
        !spec_is_json_ws(s[p + 2 + key.len()]),
    ensures
        spec_comma_key(s, p, key) == Option::Some(p + key.len() + 2),
{
    reveal_strlit(",");
    assert(spec_skip_ws(s, p) == p);
    assert(s.subrange(p, p + 1) =~= ","@);
    assert(spec_eat_lit(s, p, ","@) == Option::Some(p + 1));
    lemma_key_canonical(s, p + 1, key);
}

/// A canonical string embedded in a larger text parses back to its
/// content.
proof fn lemma_string_at(s: Seq<char>, p: int, content: Seq<char>)
    requires
        0 <= p,
        p + json_string(content).len() <= s.len(),
        s.subrange(p, p + json_string(content).len()) == json_string(content),
        no_control_chars(content),
    ensures
        spec_parse_string(s, p) == Option::Some((content, p + json_string(content).len())),
{
    let js = json_string(content);
    let e = json_escape(content);
    assert forall|t: int| 0 <= t < js.len() implies s[p + t] == js[t] by {
        assert(s.subrange(p, p + js.len())[t] == s[p + t]);
    }
    assert(s[p + 0] == js[0]);
    assert(js[0] == '"');
    assert(s.subrange(p + 1, p + 1 + e.len()) =~= e) by {
        assert forall|t: int| 0 <= t < e.len() implies s.subrange(p + 1, p + 1 + e.len())[t]
            == e[t] by {
            assert(s[p + 1 + t] == js[1 + t]);
            assert(js[1 + t] == e[t]);
        }
    }
    assert(s[p + 1 + e.len()] == js[js.len() - 1]);
    assert(js[js.len() - 1] == '"');
    lemma_str_chars_at(s, p + 1, content);
}

/// A closing brace embedded in a larger text.
proof fn lemma_close_canonical(s: Seq<char>, p: int)
    requires
        0 <= p < s.len(),
        s[p] == '}',
    ensures
        spec_close(s, p) == Option::Some(p + 1),
{
    reveal_strlit("}");
    assert(spec_skip_ws(s, p) == p);
    assert(s.subrange(p, p + 1) =~= "}"@);
}


/// The tokens of the canonical reply body, in writing order.
pub open spec fn resp_token(m: RespModel, k: int) -> Seq<char> {
    if k == 0 {
        "{"@
    }
    else if k == 1 {
        "\"employee\""@
    }
    else if k == 2 {
        ":"@
    }
    else if k == 3 {
        "{"@
    }
    else if k == 4 {
        "\"id\""@
    }
    else if k == 5 {
        ":"@
    }
    else if k == 6 {
        json_string(m.id)
    }
    else if k == 7 {
        ","@
    }
    else if k == 8 {
        "\"firstName\""@
    }
    else if k == 9 {
        ":"@
    }
    else if k == 10 {
        json_string(m.first_name)
    }
    else if k == 11 {
        ","@
    }
    else if k == 12 {
        "\"lastName\""@
    }
    else if k == 13 {
        ":"@
    }
    else if k == 14 {
        json_string(m.last_name)
    }
    else if k == 15 {
        ","@
    }
    else if k == 16 {
        "\"photoUrl\""@
    }
    else if k == 17 {
        ":"@
    }
    else if k == 18 {
        (match m.photo_url {
        Option::Some(u) => json_string(u),
        Option::None => "null"@,
    })
    }
    else if k == 19 {
        "}"@
    }
    else if k == 20 {
        ","@
    }
    else if k == 21 {
        "\"entryType\""@
    }
    else if k == 22 {
        ":"@
    }
    else if k == 23 {
        json_string(m.entry_type)
    }
    else if k == 24 {
        ","@
    }
    else if k == 25 {
        "\"timestamp\""@
    }
    else if k == 26 {
        ":"@
    }
    else if k == 27 {
        json_string(m.timestamp)
    }
    else if k == 28 {
        ","@
    }
    else if k == 29 {
        "\"todayWorkMinutes\""@
    }
    else if k == 30 {
        ":"@
    }
    else if k == 31 {
        dec_digits(m.work as nat)
    }
    else if k == 32 {
        ","@
    }
    else if k == 33 {
        "\"todayBreakMinutes\""@
    }
    else if k == 34 {
        ":"@
    }
    else if k == 35 {
        dec_digits(m.brk as nat)
    }
    else if k == 36 {
        ","@
    }
    else if k == 37 {
        "\"overtimeMinutes\""@
    }
    else if k == 38 {
        ":"@
    }
    else if k == 39 {
        int_digits(m.overtime)
    }
    else if k == 40 {
        ","@
    }
    else if k == 41 {
        "\"remainingVacationDays\""@
    }
    else if k == 42 {
        ":"@
    }
    else if k == 43 {
        crate::screens::spec_tenths_text(m.vacation_tenths)
    }
    else {
        "}"@
    }
}

/// The canonical body from token `k` on.
pub open spec fn resp_tail_text(m: RespModel, k: int) -> Seq<char>
    decreases 45 - k,
{
    if k >= 45 || k < 0 {
        Seq::empty()
    } else {
        resp_token(m, k) + resp_tail_text(m, k + 1)
    }
}

/// The canonical reply body: the documented keys in order, `photoUrl`
/// written out (null when absent), no blanks.
pub open spec fn resp_json(m: RespModel) -> Seq<char> {
    resp_tail_text(m, 0)
}

/// The canonical body up to token `k`.
pub open spec fn resp_pre_text(m: RespModel, k: int) -> Seq<char>
    decreases k,
{
    if k <= 0 {
        Seq::empty()
    } else {
        resp_pre_text(m, k - 1) + resp_token(m, k - 1)
    }
}

/// Where token `k` starts in the canonical body.
pub open spec fn resp_pos(m: RespModel, k: int) -> int
    decreases k,
{
    if k <= 0 {
        0
    } else {
        resp_pos(m, k - 1) + resp_token(m, k - 1).len()
    }
}

proof fn lemma_resp_pre_len(m: RespModel, k: int)
    requires
        0 <= k,
    ensures
        resp_pre_text(m, k).len() == resp_pos(m, k),
    decreases k,
{
    if k > 0 {
        lemma_resp_pre_len(m, k - 1);
    }
}

proof fn lemma_resp_split(m: RespModel, k: int)
    requires
        0 <= k <= 45,
    ensures
        resp_json(m) == resp_pre_text(m, k) + resp_tail_text(m, k),
    decreases k,
{
    if k == 0 {
        assert(Seq::<char>::empty() + resp_tail_text(m, 0) =~= resp_tail_text(m, 0));
    } else {
        lemma_resp_split(m, k - 1);
        assert(resp_tail_text(m, k - 1) == resp_token(m, k - 1) + resp_tail_text(m, k));
        assert(resp_pre_text(m, k - 1) + (resp_token(m, k - 1) + resp_tail_text(m, k)) =~= (
        resp_pre_text(m, k - 1) + resp_token(m, k - 1)) + resp_tail_text(m, k));
    }
}

/// Token `k` sits at `resp_pos(m, k)` in the canonical body.
proof fn lemma_resp_embed(m: RespModel, k: int)
    requires
        0 <= k < 45,
    ensures
        0 <= resp_pos(m, k),
        resp_pos(m, k + 1) == resp_pos(m, k) + resp_token(m, k).len(),
        resp_pos(m, k) + resp_token(m, k).len() <= resp_json(m).len(),
        resp_json(m).subrange(
            resp_pos(m, k),
            resp_pos(m, k) + resp_token(m, k).len() as int,
        ) == resp_token(m, k),
{
    lemma_resp_split(m, k);
    lemma_resp_pre_len(m, k);
    assert(resp_tail_text(m, k) == resp_token(m, k) + resp_tail_text(m, k + 1));
    assert(resp_pre_text(m, k) + (resp_token(m, k) + resp_tail_text(m, k + 1)) =~= (
    resp_pre_text(m, k) + resp_token(m, k)) + resp_tail_text(m, k + 1));
    lemma_embed(
        resp_json(m),
        resp_pre_text(m, k),
        resp_token(m, k),
        resp_tail_text(m, k + 1),
    );
}

/// The canonical body ends right after its last token.
proof fn lemma_resp_total_len(m: RespModel)
    ensures
        resp_json(m).len() == resp_pos(m, 45),
{
    lemma_resp_split(m, 45);
    lemma_resp_pre_len(m, 45);
    assert(resp_tail_text(m, 45) == Seq::<char>::empty());
    assert(resp_pre_text(m, 45) + Seq::<char>::empty() =~= resp_pre_text(m, 45));
}


proof fn lemma_rt_head(m: RespModel)
    requires
        no_control_chars(m.id),
    ensures
        spec_skip_ws(resp_json(m), 0) == 0,
        spec_eat_lit(resp_json(m), 0, "{"@) == Option::Some(resp_pos(m, 1)),
        spec_key(resp_json(m), resp_pos(m, 1), "\"employee\""@) == Option::Some(resp_pos(m, 3)),
        spec_eat_lit(resp_json(m), resp_pos(m, 3), "{"@) == Option::Some(resp_pos(m, 4)),
        spec_key(resp_json(m), resp_pos(m, 4), "\"id\""@) == Option::Some(resp_pos(m, 6)),
        spec_parse_string(resp_json(m), resp_pos(m, 6)) == Option::Some((m.id, resp_pos(m, 7))),
{
    reveal_strlit("{");
    reveal_strlit(":");
    reveal_strlit("\"employee\"");
    reveal_strlit("\"id\"");
    let s = resp_json(m);
    lemma_resp_embed(m, 0);
    lemma_resp_embed(m, 1);
    lemma_resp_embed(m, 2);
    lemma_resp_embed(m, 3);
    lemma_resp_embed(m, 4);
    lemma_resp_embed(m, 5);
    lemma_resp_embed(m, 6);
    let q0 = resp_pos(m, 0);
    let q1 = resp_pos(m, 1);
    let q2 = resp_pos(m, 2);
    let q3 = resp_pos(m, 3);
    let q4 = resp_pos(m, 4);
    let q5 = resp_pos(m, 5);
    let q6 = resp_pos(m, 6);
    let q7 = resp_pos(m, 7);
    assert(resp_token(m, 0) == "{"@);
    assert(resp_token(m, 1) == "\"employee\""@);
    assert(resp_token(m, 2) == ":"@);
    assert(resp_token(m, 3) == "{"@);
    assert(resp_token(m, 4) == "\"id\""@);
    assert(resp_token(m, 5) == ":"@);
    assert(resp_token(m, 6) == json_string(m.id));
    assert(s[q0] == '{') by {
        assert(s.subrange(q0, q0 + resp_token(m, 0).len() as int)[0] == s[q0]);
    }
    assert(s[q2] == ':') by {
        assert(s.subrange(q2, q2 + resp_token(m, 2).len() as int)[0] == s[q2]);
    }
    assert(s[q3] == '{') by {
        assert(s.subrange(q3, q3 + resp_token(m, 3).len() as int)[0] == s[q3]);
    }
    assert(s[q5] == ':') by {
        assert(s.subrange(q5, q5 + resp_token(m, 5).len() as int)[0] == s[q5]);
    }
    assert(json_string(m.id)[0] == '"');
    assert(s[q6] == '"') by {
        assert(s.subrange(q6, q6 + resp_token(m, 6).len() as int)[0] == s[q6]);
    }
    assert(q0 == 0);
    assert(spec_skip_ws(s, 0) == 0);
    assert(spec_eat_lit(s, q0, "{"@) == Option::Some(q1));
    lemma_key_canonical(s, q1, "\"employee\""@);
    assert(spec_key(s, q1, "\"employee\""@) == Option::Some(q3));
    assert(spec_eat_lit(s, q3, "{"@) == Option::Some(q4));
    lemma_key_canonical(s, q4, "\"id\""@);
    assert(spec_key(s, q4, "\"id\""@) == Option::Some(q6));
    lemma_string_at(s, q6, m.id);
    assert(spec_parse_string(s, q6) == Option::Some((m.id, q7)));
}

proof fn lemma_rt_names(m: RespModel)
    requires
        no_control_chars(m.first_name),
        no_control_chars(m.last_name),
    ensures
        spec_comma_key(resp_json(m), resp_pos(m, 7), "\"firstName\""@) == Option::Some(
            resp_pos(m, 10),
        ),
        spec_parse_string(resp_json(m), resp_pos(m, 10)) == Option::Some(
            (m.first_name, resp_pos(m, 11)),
        ),
        spec_comma_key(resp_json(m), resp_pos(m, 11), "\"lastName\""@) == Option::Some(
            resp_pos(m, 14),
        ),
        spec_parse_string(resp_json(m), resp_pos(m, 14)) == Option::Some(
            (m.last_name, resp_pos(m, 15)),
        ),
{
    reveal_strlit(",");
    reveal_strlit(":");
    reveal_strlit("\"firstName\"");
    reveal_strlit("\"lastName\"");
    let s = resp_json(m);
    lemma_resp_embed(m, 7);
    lemma_resp_embed(m, 8);
    lemma_resp_embed(m, 9);
    lemma_resp_embed(m, 10);
    lemma_resp_embed(m, 11);
    lemma_resp_embed(m, 12);
    lemma_resp_embed(m, 13);
    lemma_resp_embed(m, 14);
    let q7 = resp_pos(m, 7);
    let q8 = resp_pos(m, 8);
    let q9 = resp_pos(m, 9);
    let q10 = resp_pos(m, 10);
    let q11 = resp_pos(m, 11);
    let q12 = resp_pos(m, 12);
    let q13 = resp_pos(m, 13);
    let q14 = resp_pos(m, 14);
    let q15 = resp_pos(m, 15);
    assert(resp_token(m, 7) == ","@);
    assert(resp_token(m, 8) == "\"firstName\""@);
    assert(resp_token(m, 9) == ":"@);
    assert(resp_token(m, 10) == json_string(m.first_name));
    assert(resp_token(m, 11) == ","@);
    assert(resp_token(m, 12) == "\"lastName\""@);
    assert(resp_token(m, 13) == ":"@);
    assert(resp_token(m, 14) == json_string(m.last_name));
    assert(s[q7] == ',') by {
        assert(s.subrange(q7, q7 + resp_token(m, 7).len() as int)[0] == s[q7]);
    }
    assert(s[q9] == ':') by {
        assert(s.subrange(q9, q9 + resp_token(m, 9).len() as int)[0] == s[q9]);
    }
    assert(json_string(m.first_name)[0] == '"');
    assert(s[q10] == '"') by {
        assert(s.subrange(q10, q10 + resp_token(m, 10).len() as int)[0] == s[q10]);
    }
    assert(s[q11] == ',') by {
        assert(s.subrange(q11, q11 + resp_token(m, 11).len() as int)[0] == s[q11]);
    }
    assert(s[q13] == ':') by {
        assert(s.subrange(q13, q13 + resp_token(m, 13).len() as int)[0] == s[q13]);
    }
    assert(json_string(m.last_name)[0] == '"');
    assert(s[q14] == '"') by {
        assert(s.subrange(q14, q14 + resp_token(m, 14).len() as int)[0] == s[q14]);
    }
    lemma_comma_key_canonical(s, q7, "\"firstName\""@);
    assert(spec_comma_key(s, q7, "\"firstName\""@) == Option::Some(q10));
    lemma_string_at(s, q10, m.first_name);
    assert(spec_parse_string(s, q10) == Option::Some((m.first_name, q11)));
    lemma_comma_key_canonical(s, q11, "\"lastName\""@);
    assert(spec_comma_key(s, q11, "\"lastName\""@) == Option::Some(q14));
    lemma_string_at(s, q14, m.last_name);
    assert(spec_parse_string(s, q14) == Option::Some((m.last_name, q15)));
}

proof fn lemma_rt_photo(m: RespModel)
    requires
        m.photo_url matches Option::Some(u) ==> no_control_chars(u),
    ensures
        spec_parse_photo(resp_json(m), resp_pos(m, 15)) == Option::Some(
            (m.photo_url, resp_pos(m, 20)),
        ),
{
    reveal_strlit(",");
    reveal_strlit(":");
    reveal_strlit("}");
    reveal_strlit("null");
    reveal_strlit("\"photoUrl\"");
    let s = resp_json(m);
    lemma_resp_embed(m, 15);
    lemma_resp_embed(m, 16);
    lemma_resp_embed(m, 17);
    lemma_resp_embed(m, 18);
    lemma_resp_embed(m, 19);
    let q15 = resp_pos(m, 15);
    let q16 = resp_pos(m, 16);
    let q17 = resp_pos(m, 17);
    let q18 = resp_pos(m, 18);
    let q19 = resp_pos(m, 19);
    let q20 = resp_pos(m, 20);
    assert(resp_token(m, 15) == ","@);
    assert(resp_token(m, 16) == "\"photoUrl\""@);
    assert(resp_token(m, 17) == ":"@);
    assert(resp_token(m, 19) == "}"@);
    assert(s[q15] == ',') by {
        assert(s.subrange(q15, q15 + resp_token(m, 15).len() as int)[0] == s[q15]);
    }
    assert(s[q17] == ':') by {
        assert(s.subrange(q17, q17 + resp_token(m, 17).len() as int)[0] == s[q17]);
    }
    assert(s[q19] == '}') by {
        assert(s.subrange(q19, q19 + resp_token(m, 19).len() as int)[0] == s[q19]);
    }
    match m.photo_url {
        Option::Some(u) => {
            assert(resp_token(m, 18) == json_string(u));
            assert(json_string(u)[0] == '"');
            assert(s[q18] == '"') by {
                assert(s.subrange(q18, q18 + resp_token(m, 18).len() as int)[0] == s[q18]);
            }
            assert(!spec_is_json_ws(s[q18]));
            lemma_comma_key_canonical(s, q15, "\"photoUrl\""@);
            assert(spec_comma_key(s, q15, "\"photoUrl\""@) == Option::Some(q18));
            assert(spec_eat_lit(s, q18, "null"@) is None) by {
                if q18 + 4 <= s.len() {
                    assert(s.subrange(q18, q18 + 4)[0] == s[q18]);
                }
            }
            lemma_string_at(s, q18, u);
            assert(spec_parse_string(s, q18) == Option::Some((u, q19)));
            lemma_close_canonical(s, q19);
            assert(spec_parse_photo(s, q15) == Option::Some((m.photo_url, q20)));
        },
        Option::None => {
            assert(resp_token(m, 18) == "null"@);
            assert(s[q18] == 'n') by {
                assert(s.subrange(q18, q18 + resp_token(m, 18).len() as int)[0] == s[q18]);
            }
            assert(!spec_is_json_ws(s[q18]));
            lemma_comma_key_canonical(s, q15, "\"photoUrl\""@);
            assert(spec_comma_key(s, q15, "\"photoUrl\""@) == Option::Some(q18));
            assert(s.subrange(q18, q18 + 4) == "null"@);
            assert(spec_eat_lit(s, q18, "null"@) == Option::Some(q19));
            lemma_close_canonical(s, q19);
            assert(spec_parse_photo(s, q15) == Option::Some((m.photo_url, q20)));
        },
    }
}

proof fn lemma_rt_entry_ts(m: RespModel)
    requires
        no_control_chars(m.entry_type),
        no_control_chars(m.timestamp),
    ensures
        spec_comma_key(resp_json(m), resp_pos(m, 20), "\"entryType\""@) == Option::Some(
            resp_pos(m, 23),
        ),
        spec_parse_string(resp_json(m), resp_pos(m, 23)) == Option::Some(
            (m.entry_type, resp_pos(m, 24)),
        ),
        spec_comma_key(resp_json(m), resp_pos(m, 24), "\"timestamp\""@) == Option::Some(
            resp_pos(m, 27),
        ),
        spec_parse_string(resp_json(m), resp_pos(m, 27)) == Option::Some(
            (m.timestamp, resp_pos(m, 28)),
        ),
{
    reveal_strlit(",");
    reveal_strlit(":");
    reveal_strlit("\"entryType\"");
    reveal_strlit("\"timestamp\"");
    let s = resp_json(m);
    lemma_resp_embed(m, 20);
    lemma_resp_embed(m, 21);
    lemma_resp_embed(m, 22);
    lemma_resp_embed(m, 23);
    lemma_resp_embed(m, 24);
    lemma_resp_embed(m, 25);
    lemma_resp_embed(m, 26);
    lemma_resp_embed(m, 27);
    let q20 = resp_pos(m, 20);
    let q21 = resp_pos(m, 21);
    let q22 = resp_pos(m, 22);
    let q23 = resp_pos(m, 23);
    let q24 = resp_pos(m, 24);
    let q25 = resp_pos(m, 25);
    let q26 = resp_pos(m, 26);
    let q27 = resp_pos(m, 27);
    let q28 = resp_pos(m, 28);
    assert(resp_token(m, 20) == ","@);
    assert(resp_token(m, 21) == "\"entryType\""@);
    assert(resp_token(m, 22) == ":"@);
    assert(resp_token(m, 23) == json_string(m.entry_type));
    assert(resp_token(m, 24) == ","@);
    assert(resp_token(m, 25) == "\"timestamp\""@);
    assert(resp_token(m, 26) == ":"@);
    assert(resp_token(m, 27) == json_string(m.timestamp));
    assert(s[q20] == ',') by {
        assert(s.subrange(q20, q20 + resp_token(m, 20).len() as int)[0] == s[q20]);
    }
    assert(s[q22] == ':') by {
        assert(s.subrange(q22, q22 + resp_token(m, 22).len() as int)[0] == s[q22]);
    }
    assert(json_string(m.entry_type)[0] == '"');
    assert(s[q23] == '"') by {
        assert(s.subrange(q23, q23 + resp_token(m, 23).len() as int)[0] == s[q23]);
    }
    assert(s[q24] == ',') by {
        assert(s.subrange(q24, q24 + resp_token(m, 24).len() as int)[0] == s[q24]);
    }
    assert(s[q26] == ':') by {
        assert(s.subrange(q26, q26 + resp_token(m, 26).len() as int)[0] == s[q26]);
    }
    assert(json_string(m.timestamp)[0] == '"');
    assert(s[q27] == '"') by {
        assert(s.subrange(q27, q27 + resp_token(m, 27).len() as int)[0] == s[q27]);
    }
    lemma_comma_key_canonical(s, q20, "\"entryType\""@);
    assert(spec_comma_key(s, q20, "\"entryType\""@) == Option::Some(q23));
    lemma_string_at(s, q23, m.entry_type);
    assert(spec_parse_string(s, q23) == Option::Some((m.entry_type, q24)));
    lemma_comma_key_canonical(s, q24, "\"timestamp\""@);
    assert(spec_comma_key(s, q24, "\"timestamp\""@) == Option::Some(q27));
    lemma_string_at(s, q27, m.timestamp);
    assert(spec_parse_string(s, q27) == Option::Some((m.timestamp, q28)));
}

proof fn lemma_rt_minutes(m: RespModel)
    requires
        0 <= m.work <= u32::MAX,
        0 <= m.brk <= u32::MAX,
    ensures
        spec_comma_key(resp_json(m), resp_pos(m, 28), "\"todayWorkMinutes\""@) == Option::Some(
            resp_pos(m, 31),
        ),
        spec_parse_u32_num(resp_json(m), resp_pos(m, 31)) == Option::Some(
            (m.work, resp_pos(m, 32)),
        ),
        spec_comma_key(resp_json(m), resp_pos(m, 32), "\"todayBreakMinutes\""@) == Option::Some(
            resp_pos(m, 35),
        ),
        spec_parse_u32_num(resp_json(m), resp_pos(m, 35)) == Option::Some(
            (m.brk, resp_pos(m, 36)),
        ),
{
    reveal_strlit(",");
    reveal_strlit(":");
    reveal_strlit("\"todayWorkMinutes\"");
    reveal_strlit("\"todayBreakMinutes\"");
    let s = resp_json(m);
    lemma_resp_embed(m, 28);
    lemma_resp_embed(m, 29);
    lemma_resp_embed(m, 30);
    lemma_resp_embed(m, 31);
    lemma_resp_embed(m, 32);
    lemma_resp_embed(m, 33);
    lemma_resp_embed(m, 34);
    lemma_resp_embed(m, 35);
    lemma_resp_embed(m, 36);
    let q28 = resp_pos(m, 28);
    let q29 = resp_pos(m, 29);
    let q30 = resp_pos(m, 30);
    let q31 = resp_pos(m, 31);
    let q32 = resp_pos(m, 32);
    let q33 = resp_pos(m, 33);
    let q34 = resp_pos(m, 34);
    let q35 = resp_pos(m, 35);
    let q36 = resp_pos(m, 36);
    let q37 = resp_pos(m, 37);
    assert(resp_token(m, 28) == ","@);
    assert(resp_token(m, 29) == "\"todayWorkMinutes\""@);
    assert(resp_token(m, 30) == ":"@);
    assert(resp_token(m, 31) == dec_digits(m.work as nat));
    assert(resp_token(m, 32) == ","@);
    assert(resp_token(m, 33) == "\"todayBreakMinutes\""@);
    assert(resp_token(m, 34) == ":"@);
    assert(resp_token(m, 35) == dec_digits(m.brk as nat));
    assert(resp_token(m, 36) == ","@);
    assert(s[q28] == ',') by {
        assert(s.subrange(q28, q28 + resp_token(m, 28).len() as int)[0] == s[q28]);
    }
    assert(s[q30] == ':') by {
        assert(s.subrange(q30, q30 + resp_token(m, 30).len() as int)[0] == s[q30]);
    }
    lemma_dec_digits_props(m.work as nat);
    lemma_dec_digits_props(m.brk as nat);
    assert(s[q31] == dec_digits(m.work as nat)[0]) by {
        assert(s.subrange(q31, q31 + resp_token(m, 31).len() as int)[0] == s[q31]);
    }
    assert(s[q32] == ',') by {
        assert(s.subrange(q32, q32 + resp_token(m, 32).len() as int)[0] == s[q32]);
    }
    assert(s[q34] == ':') by {
        assert(s.subrange(q34, q34 + resp_token(m, 34).len() as int)[0] == s[q34]);
    }
    assert(s[q35] == dec_digits(m.brk as nat)[0]) by {
        assert(s.subrange(q35, q35 + resp_token(m, 35).len() as int)[0] == s[q35]);
    }
    assert(s[q36] == ',') by {
        assert(s.subrange(q36, q36 + resp_token(m, 36).len() as int)[0] == s[q36]);
    }
    assert(spec_is_digit(dec_digits(m.work as nat)[0]));
    assert(!spec_is_json_ws(s[q31]));
    lemma_comma_key_canonical(s, q28, "\"todayWorkMinutes\""@);
    assert(spec_comma_key(s, q28, "\"todayWorkMinutes\""@) == Option::Some(q31));
    assert(!spec_is_digit(s[q32]));
    lemma_u32_at(s, q31, m.work as nat);
    assert(spec_parse_u32_num(s, q31) == Option::Some((m.work, q32)));
    assert(spec_is_digit(dec_digits(m.brk as nat)[0]));
    assert(!spec_is_json_ws(s[q35]));
    lemma_comma_key_canonical(s, q32, "\"todayBreakMinutes\""@);
    assert(spec_comma_key(s, q32, "\"todayBreakMinutes\""@) == Option::Some(q35));
    assert(!spec_is_digit(s[q36]));
    lemma_u32_at(s, q35, m.brk as nat);
    assert(spec_parse_u32_num(s, q35) == Option::Some((m.brk, q36)));
}

proof fn lemma_rt_tail_nums(m: RespModel)
    requires
        -0x8000_0000 <= m.overtime <= 0x7fff_ffff,
        -1000000000 < m.vacation_tenths < 1000000000,
    ensures
        spec_comma_key(resp_json(m), resp_pos(m, 36), "\"overtimeMinutes\""@) == Option::Some(
            resp_pos(m, 39),
        ),
        spec_parse_i32_num(resp_json(m), resp_pos(m, 39)) == Option::Some(
            (m.overtime, resp_pos(m, 40)),
        ),
        spec_comma_key(resp_json(m), resp_pos(m, 40), "\"remainingVacationDays\""@)
            == Option::Some(resp_pos(m, 43)),
        spec_parse_tenths(resp_json(m), resp_pos(m, 43)) == Option::Some(
            (m.vacation_tenths, resp_pos(m, 44)),
        ),
        spec_close(resp_json(m), resp_pos(m, 44)) == Option::Some(resp_pos(m, 45)),
        spec_skip_ws(resp_json(m), resp_pos(m, 45)) == resp_json(m).len(),
{
    reveal_strlit(",");
    reveal_strlit(":");
    reveal_strlit("-");
    reveal_strlit("");
    reveal_strlit(".");
    reveal_strlit("}");
    reveal_strlit("\"overtimeMinutes\"");
    reveal_strlit("\"remainingVacationDays\"");
    let s = resp_json(m);
    lemma_resp_embed(m, 36);
    lemma_resp_embed(m, 37);
    lemma_resp_embed(m, 38);
    lemma_resp_embed(m, 39);
    lemma_resp_embed(m, 40);
    lemma_resp_embed(m, 41);
    lemma_resp_embed(m, 42);
    lemma_resp_embed(m, 43);
    lemma_resp_embed(m, 44);
    let q36 = resp_pos(m, 36);
    let q37 = resp_pos(m, 37);
    let q38 = resp_pos(m, 38);
    let q39 = resp_pos(m, 39);
    let q40 = resp_pos(m, 40);
    let q41 = resp_pos(m, 41);
    let q42 = resp_pos(m, 42);
    let q43 = resp_pos(m, 43);
    let q44 = resp_pos(m, 44);
    let q45 = resp_pos(m, 45);
    assert(resp_token(m, 36) == ","@);
    assert(resp_token(m, 37) == "\"overtimeMinutes\""@);
    assert(resp_token(m, 38) == ":"@);
    assert(resp_token(m, 39) == int_digits(m.overtime));
    assert(resp_token(m, 40) == ","@);
    assert(resp_token(m, 41) == "\"remainingVacationDays\""@);
    assert(resp_token(m, 42) == ":"@);
    assert(resp_token(m, 43) == crate::screens::spec_tenths_text(m.vacation_tenths));
    assert(resp_token(m, 44) == "}"@);
    assert(s[q36] == ',') by {
        assert(s.subrange(q36, q36 + resp_token(m, 36).len() as int)[0] == s[q36]);
    }
    assert(s[q38] == ':') by {
        assert(s.subrange(q38, q38 + resp_token(m, 38).len() as int)[0] == s[q38]);
    }
    assert(s[q40] == ',') by {
        assert(s.subrange(q40, q40 + resp_token(m, 40).len() as int)[0] == s[q40]);
    }
    assert(s[q42] == ':') by {
        assert(s.subrange(q42, q42 + resp_token(m, 42).len() as int)[0] == s[q42]);
    }
    assert(s[q44] == '}') by {
        assert(s.subrange(q44, q44 + resp_token(m, 44).len() as int)[0] == s[q44]);
    }
    if m.overtime >= 0 {
        lemma_dec_digits_props(m.overtime as nat);
        assert(int_digits(m.overtime) == dec_digits(m.overtime as nat));
        assert(spec_is_digit(int_digits(m.overtime)[0]));
    } else {
        lemma_dec_digits_props((-m.overtime) as nat);
        assert(int_digits(m.overtime) == "-"@ + dec_digits((-m.overtime) as nat));
        assert(int_digits(m.overtime)[0] == '-');
    }
    assert(s[q39] == int_digits(m.overtime)[0]) by {
        assert(s.subrange(q39, q39 + resp_token(m, 39).len() as int)[0] == s[q39]);
    }
    assert(!spec_is_json_ws(s[q39]));
    lemma_comma_key_canonical(s, q36, "\"overtimeMinutes\""@);
    assert(spec_comma_key(s, q36, "\"overtimeMinutes\""@) == Option::Some(q39));
    assert(!spec_is_digit(s[q40]));
    lemma_i32_at(s, q39, m.overtime);
    assert(spec_parse_i32_num(s, q39) == Option::Some((m.overtime, q40)));
    let dvc = crate::screens::spec_tenths_text(m.vacation_tenths);
    let vmag: nat = if m.vacation_tenths < 0 {
        (-m.vacation_tenths) as nat
    } else {
        m.vacation_tenths as nat
    };
    lemma_dec_digits_props(vmag / 10);
    assert(""@ =~= Seq::<char>::empty());
    if m.vacation_tenths < 0 {
        assert(dvc[0] == '-');
    } else {
        assert(dvc[0] == dec_digits(vmag / 10)[0]);
        assert(spec_is_digit(dvc[0]));
    }
    assert(s[q43] == dvc[0]) by {
        assert(s.subrange(q43, q43 + resp_token(m, 43).len() as int)[0] == s[q43]);
    }
    assert(!spec_is_json_ws(s[q43]));
    lemma_comma_key_canonical(s, q40, "\"remainingVacationDays\""@);
    assert(spec_comma_key(s, q40, "\"remainingVacationDays\""@) == Option::Some(q43));
    assert(!spec_is_digit(s[q44]));
    lemma_tenths_at(s, q43, m.vacation_tenths);
    assert(spec_parse_tenths(s, q43) == Option::Some((m.vacation_tenths, q44)));
    lemma_close_canonical(s, q44);
    assert(spec_close(s, q44) == Option::Some(q45));
    lemma_resp_total_len(m);
    assert(spec_skip_ws(s, q45) == q45);
}

/// The reply round trip: the canonical body of a well-formed reply parses
/// back to exactly that reply. Well-formed: text fields carry no raw
/// control characters, the timestamp is a well-formed RFC 3339 UTC
/// instant, and the numbers lie in their fields' ranges.
pub proof fn lemma_response_round_trip(m: RespModel)
    requires
        no_control_chars(m.id),
        no_control_chars(m.first_name),
        no_control_chars(m.last_name),
        m.photo_url matches Option::Some(u) ==> no_control_chars(u),
        no_control_chars(m.entry_type),
        no_control_chars(m.timestamp),
        crate::timestamp::valid_rfc3339(m.timestamp),
        0 <= m.work <= u32::MAX,
        0 <= m.brk <= u32::MAX,
        -0x8000_0000 <= m.overtime <= 0x7fff_ffff,
        -1000000000 < m.vacation_tenths < 1000000000,
    ensures
        spec_parse_clock_response(resp_json(m)) == Option::Some(m),
{
    let s = resp_json(m);
    lemma_rt_head(m);
    lemma_rt_names(m);
    lemma_rt_photo(m);
    lemma_rt_entry_ts(m);
    lemma_rt_minutes(m);
    lemma_rt_tail_nums(m);
    let m0 = RespModel {
        id: m.id,
        first_name: m.first_name,
        last_name: m.last_name,
        photo_url: m.photo_url,
        entry_type: m.entry_type,
        timestamp: Seq::empty(),
        work: 0,
        brk: 0,
        overtime: 0,
        vacation_tenths: 0,
    };
    assert((RespModel {
        timestamp: m.timestamp,
        work: m.work,
        brk: m.brk,
        overtime: m.overtime,
        vacation_tenths: m.vacation_tenths,
        ..m0
    }) == m);
    assert(spec_parse_response_tail(s, resp_pos(m, 24), m0) == Option::Some(m));
    assert(spec_parse_response_rest(s, resp_pos(m, 11), m.id, m.first_name) == Option::Some(m));
    assert(spec_parse_clock_response(s) == Option::Some(m));
}

} // verus!
