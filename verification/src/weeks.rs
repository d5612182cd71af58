//! Storage encoding of a course's active-week list.
//!
//! A week list is held in one text column. The text form is a bracketed,
//! comma-separated list of decimal integers, as a JSON array of integers
//! is written: `[1,3,5]`. Encoding is exact; decoding is lenient, in that
//! text that does not parse as such a list yields the empty week list.

use vstd::prelude::*;
use vstd::arithmetic::div_mod::lemma_fundamental_div_mod;

verus! {

/// The decimal digit character for `d` (0 through 9).
pub open spec fn digit_char(d: int) -> char {
    if d == 0 {
        '0'
    } else if d == 1 {
        '1'
    } else if d == 2 {
        '2'
    } else if d == 3 {
        '3'
    } else if d == 4 {
        '4'
    } else if d == 5 {
        '5'
    } else if d == 6 {
        '6'
    } else if d == 7 {
        '7'
    } else if d == 8 {
        '8'
    } else {
        '9'
    }
}

/// Decimal digit characters of a nonnegative integer, most significant first.
pub open spec fn dec_digits(n: int) -> Seq<char>
    decreases n,
{
    if n < 10 {
        seq![digit_char(n)]
    } else {
        dec_digits(n / 10) + seq![digit_char(n % 10)]
    }
}

/// The decimal character form of `v`, with a leading '-' when negative.
pub open spec fn int_chars(v: int) -> Seq<char> {
    if v < 0 {
        seq!['-'] + dec_digits(-v)
    } else {
        dec_digits(v)
    }
}

/// The elements of `ws` in decimal, separated by commas.
pub open spec fn encode_elems(ws: Seq<i32>) -> Seq<char>
    decreases ws.len(),
{
    if ws.len() == 0 {
        Seq::empty()
    } else if ws.len() == 1 {
        int_chars(ws[0] as int)
    } else {
        int_chars(ws[0] as int) + seq![','] + encode_elems(ws.drop_first())
    }
}

/// The storage text form of a week list.
pub open spec fn spec_encode_weeks(ws: Seq<i32>) -> Seq<char> {
    seq!['['] + encode_elems(ws) + seq![']']
}

/// Whether `c` is one of the whitespace characters the decoder skips.
pub open spec fn is_ws(c: char) -> bool {
    c == ' ' || c == '\t' || c == '\n' || c == '\r'
}

/// The value of a decimal digit character, or -1 for any other character.
pub open spec fn digit_val(c: char) -> int {
    if c == '0' {
        0
    } else if c == '1' {
        1
    } else if c == '2' {
        2
    } else if c == '3' {
        3
    } else if c == '4' {
        4
    } else if c == '5' {
        5
    } else if c == '6' {
        6
    } else if c == '7' {
        7
    } else if c == '8' {
        8
    } else if c == '9' {
        9
    } else {
        -1
    }
}

/// Whether `c` is a decimal digit character.
pub open spec fn is_digit(c: char) -> bool {
    digit_val(c) >= 0
}

/// The first position at or after `i` that holds no whitespace.
pub open spec fn skip_ws(s: Seq<char>, i: int) -> int
    decreases s.len() - i,
{
    if 0 <= i < s.len() && is_ws(s[i]) {
        skip_ws(s, i + 1)
    } else {
        i
    }
}

/// Reads a run of digits from position `i`, extending the accumulated
/// value `acc`; yields the value and the position after the run.
pub open spec fn parse_digits(s: Seq<char>, i: int, acc: int) -> (int, int)
    decreases s.len() - i,
{
    if 0 <= i < s.len() && is_digit(s[i]) {
        parse_digits(s, i + 1, acc * 10 + digit_val(s[i]))
    } else {
        (acc, i)
    }
}

/// Reads a nonnegative integer at position `i`: either a single zero,
/// or a digit run that does not start with zero.
pub open spec fn parse_nat(s: Seq<char>, i: int) -> Option<(int, int)> {
    if 0 <= i < s.len() && is_digit(s[i]) {
        if s[i] == '0' {
            Some((0, i + 1))
        } else {
            Some(parse_digits(s, i, 0))
        }
    } else {
        None
    }
}

/// Reads an integer at position `i`, with an optional leading minus sign.
pub open spec fn parse_int(s: Seq<char>, i: int) -> Option<(int, int)> {
    if 0 <= i < s.len() && s[i] == '-' {
        match parse_nat(s, i + 1) {
            Some((v, n)) => Some((-v, n)),
            None => None,
        }
    } else {
        parse_nat(s, i)
    }
}

/// Whether `v` fits in a 32-bit signed integer.
pub open spec fn in_i32_range(v: int) -> bool {
    -0x8000_0000 <= v <= 0x7fff_ffff
}

pub proof fn lemma_skip_ws_bounds(s: Seq<char>, i: int)
    requires
        0 <= i <= s.len(),
    ensures
        i <= skip_ws(s, i) <= s.len(),
    decreases s.len() - i,
{
    if i < s.len() && is_ws(s[i]) {
        lemma_skip_ws_bounds(s, i + 1);
    }
}

pub proof fn lemma_parse_digits_bounds(s: Seq<char>, i: int, acc: int)
    requires
        0 <= i <= s.len(),
    ensures
        i <= parse_digits(s, i, acc).1 <= s.len(),
    decreases s.len() - i,
{
    if i < s.len() && is_digit(s[i]) {
        lemma_parse_digits_bounds(s, i + 1, acc * 10 + digit_val(s[i]));
    }
}

pub proof fn lemma_parse_int_advances(s: Seq<char>, i: int)
    requires
        0 <= i <= s.len(),
    ensures
        parse_int(s, i) matches Some(r) ==> i < r.1 <= s.len(),
{
    if i < s.len() && s[i] == '-' {
        if i + 1 < s.len() && is_digit(s[i + 1]) {
            lemma_parse_digits_bounds(s, i + 2, digit_val(s[i + 1]));
        }
    } else {
        if i < s.len() && is_digit(s[i]) {
            lemma_parse_digits_bounds(s, i + 1, digit_val(s[i]));
        }
    }
}

/// Reads `int (ws ',' ws int)* ws ']'` from position `i`; yields the
/// elements, each within 32-bit range, and the position after `']'`.
pub open spec fn parse_elems(s: Seq<char>, i: int) -> Option<(Seq<i32>, int)>
    decreases s.len() - i
        when 0 <= i <= s.len()
{
    match parse_int(s, i) {
        Some((v, n)) => if !in_i32_range(v) {
            None
        } else {
            let k = skip_ws(s, n);
            if k < s.len() && s[k] == ',' {
                let m = skip_ws(s, k + 1);
                proof {
                    lemma_parse_int_advances(s, i);
                    lemma_skip_ws_bounds(s, n);
                    lemma_skip_ws_bounds(s, k + 1);
                }
                match parse_elems(s, m) {
                    Some((rest, e)) => Some((seq![v as i32] + rest, e)),
                    None => None,
                }
            } else if k < s.len() && s[k] == ']' {
                Some((seq![v as i32], k + 1))
            } else {
                None
            }
        },
        None => None,
    }
}

/// Parses a whole week-list text: optional whitespace around a bracketed,
/// comma-separated list of integers, nothing after it. `None` on any
/// malformed text.
pub open spec fn spec_parse_weeks(s: Seq<char>) -> Option<Seq<i32>> {
    let i = skip_ws(s, 0);
    if 0 <= i < s.len() && s[i] == '[' {
        let j = skip_ws(s, i + 1);
        if 0 <= j < s.len() && s[j] == ']' {
            if skip_ws(s, j + 1) == s.len() {
                Some(Seq::empty())
            } else {
                None
            }
        } else {
            match parse_elems(s, j) {
                Some((ws, e)) => if skip_ws(s, e) == s.len() {
                    Some(ws)
                } else {
                    None
                },
                None => None,
            }
        }
    } else {
        None
    }
}

/// The week list read from a stored text: the parsed list, or the empty
/// list when the text does not parse. This is the documented lenient
/// fallback, not an error path.
pub open spec fn spec_decode_weeks(s: Seq<char>) -> Seq<i32> {
    match spec_parse_weeks(s) {
        Some(ws) => ws,
        None => Seq::empty(),
    }
}

pub proof fn lemma_parse_digits_monotone(s: Seq<char>, i: int, acc: int)
    requires
        0 <= i <= s.len(),
        acc >= 0,
    ensures
        parse_digits(s, i, acc).0 >= acc,
    decreases s.len() - i,
{
    if i < s.len() && is_digit(s[i]) {
        lemma_parse_digits_monotone(s, i + 1, acc * 10 + digit_val(s[i]));
    }
}

pub proof fn lemma_parse_elems_bounds(s: Seq<char>, i: int)
    requires
        0 <= i <= s.len(),
    ensures
        parse_elems(s, i) matches Some(r) ==> i < r.1 <= s.len(),
    decreases s.len() - i,
{
    lemma_parse_int_advances(s, i);
    match parse_int(s, i) {
        Some((v, n)) => {
            if in_i32_range(v) {
                lemma_skip_ws_bounds(s, n);
                let k = skip_ws(s, n);
                if k < s.len() && s[k] == ',' {
                    lemma_skip_ws_bounds(s, k + 1);
                    lemma_parse_elems_bounds(s, skip_ws(s, k + 1));
                }
            }
        },
        None => {},
    }
}

/// How an executable digit accumulator tracks the mathematical one:
/// exact below 2^32, and at least 2^32 once the true value has passed it.
spec fn acc_rel(a: int, e: u64) -> bool {
    if a < 0x1_0000_0000 {
        e == a
    } else {
        e >= 0x1_0000_0000
    }
}

/// The digit value of `c`, with 10 standing for any non-digit.
fn char_digit(c: char) -> (r: u64)
    ensures
        is_digit(c) ==> r as int == digit_val(c),
        !is_digit(c) ==> r == 10,
{
    match c {
        '0' => 0,
        '1' => 1,
        '2' => 2,
        '3' => 3,
        '4' => 4,
        '5' => 5,
        '6' => 6,
        '7' => 7,
        '8' => 8,
        '9' => 9,
        _ => 10,
    }
}

fn exec_skip_ws(s: &str, n: usize, i: usize) -> (r: usize)
    requires
        i <= n,
        n == s@.len(),
    ensures
        r as int == skip_ws(s@, i as int),
        i <= r <= n,
    decreases n - i,
{
    proof {
        lemma_skip_ws_bounds(s@, i as int);
    }
    if i < n {
        let c = s.get_char(i);
        if c == ' ' || c == '\t' || c == '\n' || c == '\r' {
            return exec_skip_ws(s, n, i + 1);
        }
    }
    i
}

fn exec_parse_digits(s: &str, n: usize, i: usize, acc: u64, gacc: Ghost<int>) -> (r: (u64, usize))
    requires
        i <= n,
        n == s@.len(),
        gacc@ >= 0,
        acc_rel(gacc@, acc),
    ensures
        r.1 as int == parse_digits(s@, i as int, gacc@).1,
        acc_rel(parse_digits(s@, i as int, gacc@).0, r.0),
    decreases n - i,
{
    if i < n {
        let c = s.get_char(i);
        let d = char_digit(c);
        if d < 10 {
            let new_acc: u64 = if acc < 0x1_0000_0000 {
                acc * 10 + d
            } else {
                acc
            };
            let gnew: Ghost<int> = Ghost(gacc@ * 10 + digit_val(s@[i as int]));
            proof {
                assert(acc_rel(gnew@, new_acc));
            }
            return exec_parse_digits(s, n, i + 1, new_acc, gnew);
        }
    }
    (acc, i)
}

fn exec_parse_nat(s: &str, n: usize, i: usize) -> (r: Option<(u64, usize)>)
    requires
        i <= n,
        n == s@.len(),
    ensures
        match parse_nat(s@, i as int) {
            Some(p) => r matches Some(q) && q.1 as int == p.1 && p.0 >= 0 && acc_rel(p.0, q.0),
            None => r is None,
        },
{
    if i < n {
        let c = s.get_char(i);
        let d = char_digit(c);
        if d < 10 {
            if c == '0' {
                return Some((0, i + 1));
            } else {
                proof {
                    lemma_parse_digits_monotone(s@, i as int, 0);
                }
                return Some(exec_parse_digits(s, n, i, 0, Ghost(0)));
            }
        }
    }
    None
}

fn exec_parse_int(s: &str, n: usize, i: usize) -> (r: Option<(bool, u64, usize)>)
    requires
        i <= n,
        n == s@.len(),
    ensures
        match parse_int(s@, i as int) {
            Some(p) => r matches Some(t) && t.2 as int == p.1 && (if t.0 {
                p.0 <= 0 && acc_rel(-p.0, t.1)
            } else {
                p.0 >= 0 && acc_rel(p.0, t.1)
            }),
            None => r is None,
        },
{
    if i < n && s.get_char(i) == '-' {
        match exec_parse_nat(s, n, i + 1) {
            Some((mag, nn)) => Some((true, mag, nn)),
            None => None,
        }
    } else {
        match exec_parse_nat(s, n, i) {
            Some((mag, nn)) => Some((false, mag, nn)),
            None => None,
        }
    }
}

fn exec_parse_elems(s: &str, n: usize, i: usize) -> (r: Option<(Vec<i32>, usize)>)
    requires
        i <= n,
        n == s@.len(),
    ensures
        match parse_elems(s@, i as int) {
            Some(p) => r matches Some(q) && q.0@ == p.0 && q.1 as int == p.1,
            None => r is None,
        },
    decreases n - i,
{
    proof {
        lemma_parse_int_advances(s@, i as int);
    }
    match exec_parse_int(s, n, i) {
        Some((neg, mag, nn)) => {
            let ghost p = parse_int(s@, i as int).unwrap();
            let ghost v = p.0;
            if neg && mag > 0x8000_0000 {
                assert(!in_i32_range(v));
                return None;
            }
            if !neg && mag > 0x7fff_ffff {
                assert(!in_i32_range(v));
                return None;
            }
            let vi: i32 = if neg {
                if mag == 0x8000_0000 {
                    i32::MIN
                } else {
                    -(mag as i32)
                }
            } else {
                mag as i32
            };
            proof {
                assert(in_i32_range(v));
                assert(vi as int == v);
                lemma_skip_ws_bounds(s@, nn as int);
            }
            let k = exec_skip_ws(s, n, nn);
            if k < n && s.get_char(k) == ',' {
                let m = exec_skip_ws(s, n, k + 1);
                match exec_parse_elems(s, n, m) {
                    Some((mut rest, e)) => {
                        rest.insert(0, vi);
                        proof {
                            let (ws, se) = parse_elems(s@, i as int).unwrap();
                            assert(rest@ =~= ws);
                        }
                        Some((rest, e))
                    },
                    None => None,
                }
            } else if k < n && s.get_char(k) == ']' {
                let mut one: Vec<i32> = Vec::new();
                one.push(vi);
                proof {
                    let (ws, se) = parse_elems(s@, i as int).unwrap();
                    assert(one@ =~= ws);
                }
                Some((one, k + 1))
            } else {
                None
            }
        },
        None => None,
    }
}

/// Decodes a stored week-list text; malformed text yields the empty
/// list (the lenient fallback), never an error.
pub fn decode_weeks(s: &str) -> (r: Vec<i32>)
    ensures
        r@ == spec_decode_weeks(s@),
{
    let n = s.unicode_len();
    let i = exec_skip_ws(s, n, 0);
    if i < n && s.get_char(i) == '[' {
        let j = exec_skip_ws(s, n, i + 1);
        if j < n && s.get_char(j) == ']' {
            Vec::new()
        } else {
            proof {
                lemma_parse_elems_bounds(s@, j as int);
            }
            match exec_parse_elems(s, n, j) {
                Some((ws, e)) => {
                    if exec_skip_ws(s, n, e) == n {
                        ws
                    } else {
                        Vec::new()
                    }
                },
                None => Vec::new(),
            }
        }
    } else {
        Vec::new()
    }
}

spec fn pow10(k: nat) -> int
    decreases k,
{
    if k == 0 {
        1
    } else {
        10 * pow10((k - 1) as nat)
    }
}

proof fn lemma_dec_digits_first(n: int)
    requires
        n >= 0,
    ensures
        dec_digits(n).len() >= 1,
        is_digit(dec_digits(n)[0]),
        dec_digits(n)[0] == '0' ==> n == 0,
    decreases n,
{
    if n < 10 {
        assert(dec_digits(n) == seq![digit_char(n)]);
    } else {
        lemma_dec_digits_first(n / 10);
        assert(dec_digits(n)[0] == dec_digits(n / 10)[0]);
        assert(n / 10 >= 1) by {
            lemma_fundamental_div_mod(n, 10);
        }
    }
}

proof fn lemma_int_chars_first(v: int)
    ensures
        int_chars(v).len() >= 1,
        is_digit(int_chars(v)[0]) || int_chars(v)[0] == '-',
{
    if v < 0 {
        lemma_dec_digits_first(-v);
    } else {
        lemma_dec_digits_first(v);
    }
}

/// Reading the digit text of `m` extends an accumulated value by
/// exactly `m`, shifted past the digits already read.
proof fn lemma_parse_digits_prefix(s: Seq<char>, i: int, j: int, m: int, acc: int)
    requires
        0 <= i <= j <= s.len(),
        m >= 0,
        j - i == dec_digits(m).len(),
        s.subrange(i, j) == dec_digits(m),
    ensures
        parse_digits(s, i, acc) == parse_digits(s, j, acc * pow10((j - i) as nat) + m),
    decreases m,
{
    assert(pow10(0) == 1);
    assert(pow10(1) == 10 * pow10(0));
    if m < 10 {
        assert(dec_digits(m) == seq![digit_char(m)]);
        assert(j == i + 1);
        assert(s.subrange(i, j)[0] == s[i]);
        assert(s[i] == digit_char(m));
        assert(is_digit(s[i]) && digit_val(s[i]) == m);
        assert(parse_digits(s, i, acc) == parse_digits(s, i + 1, acc * 10 + m));
        assert(acc * pow10(1nat) + m == acc * 10 + m) by (nonlinear_arith)
            requires
                pow10(1nat) == 10,
        ;
    } else {
        let digits = dec_digits(m);
        let len = j - i;
        assert(digits == dec_digits(m / 10) + seq![digit_char(m % 10)]);
        let len1 = dec_digits(m / 10).len() as int;
        assert(len == len1 + 1);
        assert forall|t: int| 0 <= t < len1 implies #[trigger] s.subrange(i, j - 1)[t] == dec_digits(
            m / 10,
        )[t] by {
            assert(s.subrange(i, j)[t] == s[i + t]);
            assert(s.subrange(i, j - 1)[t] == s[i + t]);
        }
        assert(s.subrange(i, j - 1) =~= dec_digits(m / 10));
        assert(s.subrange(i, j)[len - 1] == s[j - 1]);
        assert(s[j - 1] == digits[len - 1]);
        assert(s[j - 1] == digit_char(m % 10));
        lemma_fundamental_div_mod(m, 10);
        assert(0 <= m % 10 < 10);
        lemma_parse_digits_prefix(s, i, j - 1, m / 10, acc);
        let acc1 = acc * pow10((j - 1 - i) as nat) + m / 10;
        assert(is_digit(s[j - 1]) && digit_val(s[j - 1]) == m % 10);
        assert(parse_digits(s, j - 1, acc1) == parse_digits(s, j, acc1 * 10 + m % 10));
        assert(acc1 * 10 + m % 10 == acc * pow10((j - i) as nat) + m) by (nonlinear_arith)
            requires
                acc1 == acc * pow10((j - 1 - i) as nat) + m / 10,
                pow10((j - i) as nat) == 10 * pow10((j - 1 - i) as nat),
                m == 10 * (m / 10) + m % 10,
        ;
    }
}

/// Reading the decimal text of `v`, when the character after it is not
/// a digit, yields exactly `v`.
proof fn lemma_parse_int_chars(s: Seq<char>, i: int, v: i32)
    requires
        0 <= i,
        i + int_chars(v as int).len() <= s.len(),
        s.subrange(i, i + int_chars(v as int).len() as int) == int_chars(v as int),
        i + int_chars(v as int).len() == s.len() || !is_digit(
            s[i + int_chars(v as int).len() as int],
        ),
    ensures
        parse_int(s, i) == Some(((v as int), i + int_chars(v as int).len() as int)),
{
    let vv = v as int;
    let ics = int_chars(vv);
    let l = ics.len() as int;
    let e = i + l;
    assert(s.subrange(i, e)[0] == s[i]);
    if vv >= 0 {
        lemma_dec_digits_first(vv);
        assert(ics == dec_digits(vv));
        assert(s[i] == ics[0]);
        assert(is_digit(s[i]));
        assert(s[i] != '-');
        if s[i] == '0' {
            assert(vv == 0);
            assert(dec_digits(0) == seq![digit_char(0)]);
            assert(l == 1);
            assert(parse_nat(s, i) == Some((0int, i + 1)));
        } else {
            lemma_parse_digits_prefix(s, i, e, vv, 0);
            assert(0 * pow10((e - i) as nat) + vv == vv) by (nonlinear_arith);
            assert(parse_digits(s, i, 0) == parse_digits(s, e, vv));
            assert(parse_digits(s, e, vv) == (vv, e));
            assert(parse_nat(s, i) == Some((vv, e)));
        }
    } else {
        let m = -vv;
        lemma_dec_digits_first(m);
        assert(ics == seq!['-'] + dec_digits(m));
        assert(s[i] == ics[0]);
        assert(s[i] == '-');
        assert forall|t: int| 0 <= t < e - (i + 1) implies #[trigger] s.subrange(i + 1, e)[t] == dec_digits(
            m,
        )[t] by {
            assert(s.subrange(i, e)[t + 1] == s[i + 1 + t]);
            assert(s.subrange(i + 1, e)[t] == s[i + 1 + t]);
        }
        assert(s.subrange(i + 1, e) =~= dec_digits(m));
        assert(s.subrange(i + 1, e)[0] == s[i + 1]);
        assert(s[i + 1] == dec_digits(m)[0]);
        assert(is_digit(s[i + 1]));
        if s[i + 1] == '0' {
            assert(m == 0);
            assert(false);
        } else {
            lemma_parse_digits_prefix(s, i + 1, e, m, 0);
            assert(0 * pow10((e - i - 1) as nat) + m == m) by (nonlinear_arith);
            assert(parse_digits(s, i + 1, 0) == parse_digits(s, e, m));
            assert(parse_digits(s, e, m) == (m, e));
            assert(parse_nat(s, i + 1) == Some((m, e)));
            assert(parse_int(s, i) == Some((-m, e)));
        }
    }
}

/// Reading encoded elements followed by `']'` yields exactly those
/// elements and stops just past the bracket.
proof fn lemma_parse_encoded_elems(s: Seq<char>, i: int, ws: Seq<i32>)
    requires
        ws.len() >= 1,
        0 <= i <= s.len(),
        s.len() == i + encode_elems(ws).len() + 1,
        s.subrange(i, s.len() as int) == encode_elems(ws) + seq![']'],
    ensures
        parse_elems(s, i) == Some((ws, s.len() as int)),
    decreases ws.len(),
{
    let v = ws[0];
    let ics = int_chars(v as int);
    let l = ics.len() as int;
    let n = i + l;
    let sl = s.len() as int;
    lemma_int_chars_first(v as int);
    if ws.len() == 1 {
        assert(encode_elems(ws) == ics);
        assert forall|t: int| 0 <= t < l implies #[trigger] s.subrange(i, n)[t] == ics[t] by {
            assert(s.subrange(i, sl)[t] == s[i + t]);
            assert(s.subrange(i, n)[t] == s[i + t]);
        }
        assert(s.subrange(i, n) =~= ics);
        assert(s.subrange(i, sl)[l] == s[n]);
        assert(s[n] == ']');
        lemma_parse_int_chars(s, i, v);
        assert(skip_ws(s, n) == n);
        assert(parse_elems(s, i) == Some((seq![v], n + 1)));
        assert(seq![v] =~= ws);
    } else {
        let rest = ws.drop_first();
        let erest = encode_elems(rest);
        assert(encode_elems(ws) == ics + seq![','] + erest);
        assert forall|t: int| 0 <= t < l implies #[trigger] s.subrange(i, n)[t] == ics[t] by {
            assert(s.subrange(i, sl)[t] == s[i + t]);
            assert(s.subrange(i, n)[t] == s[i + t]);
        }
        assert(s.subrange(i, n) =~= ics);
        assert(s.subrange(i, sl)[l] == s[n]);
        assert(s[n] == (ics + seq![','] + erest)[l]);
        assert(s[n] == ',');
        lemma_parse_int_chars(s, i, v);
        assert(skip_ws(s, n) == n);
        let m = n + 1;
        assert forall|t: int| 0 <= t < sl - m implies #[trigger] s.subrange(m, sl)[t] == (erest
            + seq![']'])[t] by {
            assert(s.subrange(i, sl)[m - i + t] == s[m + t]);
            assert(s.subrange(m, sl)[t] == s[m + t]);
        }
        assert(s.subrange(m, s.len() as int) =~= erest + seq![']']);
        lemma_int_chars_first(rest[0] as int);
        assert(erest[0] == int_chars(rest[0] as int)[0]) by {
            if rest.len() == 1 {
                assert(erest == int_chars(rest[0] as int));
            } else {
                assert(erest == int_chars(rest[0] as int) + seq![','] + encode_elems(
                    rest.drop_first(),
                ));
            }
        }
        assert(s.subrange(m, sl)[0] == s[m]);
        assert(s[m] == erest[0]);
        assert(!is_ws(s[m]));
        assert(skip_ws(s, m) == m);
        lemma_parse_encoded_elems(s, m, rest);
        assert(parse_elems(s, i) == Some((seq![v] + rest, s.len() as int)));
        assert(seq![v] + rest =~= ws);
    }
}

/// Decoding an encoded week list yields the original list: the storage
/// encoding loses nothing, whatever the weeks are.
pub proof fn lemma_weeks_round_trip(ws: Seq<i32>)
    ensures
        spec_parse_weeks(spec_encode_weeks(ws)) == Some(ws),
        spec_decode_weeks(spec_encode_weeks(ws)) == ws,
{
    let s = spec_encode_weeks(ws);
    assert(s == seq!['['] + encode_elems(ws) + seq![']']);
    assert(s[0] == (seq!['['] + encode_elems(ws) + seq![']'])[0]);
    assert(s[0] == '[');
    assert(!is_ws('['));
    assert(skip_ws(s, 0) == 0);
    if ws.len() == 0 {
        assert(encode_elems(ws) == Seq::<char>::empty());
        assert(s =~= seq!['[', ']']);
        assert(s[1] == ']');
        assert(!is_ws(']'));
        assert(skip_ws(s, 1) == 1);
        assert(skip_ws(s, 2) == 2);
        assert(spec_parse_weeks(s) == Some(Seq::<i32>::empty()));
        assert(Seq::<i32>::empty() =~= ws);
    } else {
        let ee = encode_elems(ws);
        lemma_int_chars_first(ws[0] as int);
        assert(ee[0] == int_chars(ws[0] as int)[0]) by {
            if ws.len() == 1 {
                assert(ee == int_chars(ws[0] as int));
            } else {
                assert(ee == int_chars(ws[0] as int) + seq![','] + encode_elems(ws.drop_first()));
            }
        }
        assert(s[1] == (seq!['['] + ee + seq![']'])[1]);
        assert(s[1] == ee[0]);
        assert(!is_ws(s[1]));
        assert(skip_ws(s, 1) == 1);
        assert(s[1] != ']');
        let sl = s.len() as int;
        assert forall|t: int| 0 <= t < sl - 1 implies #[trigger] s.subrange(1, sl)[t] == (ee
            + seq![']'])[t] by {
            assert(s.subrange(1, sl)[t] == s[1 + t]);
            assert(s[1 + t] == (seq!['['] + ee + seq![']'])[1 + t]);
        }
        assert(s.subrange(1, s.len() as int) =~= ee + seq![']']);
        lemma_parse_encoded_elems(s, 1, ws);
        assert(skip_ws(s, s.len() as int) == s.len());
        assert(spec_parse_weeks(s) == Some(ws));
    }
}

/// The one-character string for digit `d`.
fn digit_str(d: u64) -> (r: &'static str)
    requires
        d < 10,
    ensures
        r@ == seq![digit_char(d as int)],
{
    proof {
        reveal_strlit("0");
        reveal_strlit("1");
        reveal_strlit("2");
        reveal_strlit("3");
        reveal_strlit("4");
        reveal_strlit("5");
        reveal_strlit("6");
        reveal_strlit("7");
        reveal_strlit("8");
        reveal_strlit("9");
    }
    let r = match d {
        0 => "0",
        1 => "1",
        2 => "2",
        3 => "3",
        4 => "4",
        5 => "5",
        6 => "6",
        7 => "7",
        8 => "8",
        _ => "9",
    };
    proof {
        assert(r@ =~= seq![digit_char(d as int)]);
    }
    r
}

/// Appends the decimal digits of `n` to `out`.
fn push_dec(out: &mut String, n: u64)
    ensures
        final(out)@ == old(out)@ + dec_digits(n as int),
    decreases n,
{
    if n < 10 {
        out.append(digit_str(n));
        proof {
            assert(final(out)@ =~= old(out)@ + dec_digits(n as int));
        }
    } else {
        push_dec(out, n / 10);
        out.append(digit_str(n % 10));
        proof {
            assert(final(out)@ =~= old(out)@ + dec_digits(n as int));
        }
    }
}

/// Appends the decimal form of `v`, sign included, to `out`.
fn push_int(out: &mut String, v: i32)
    ensures
        final(out)@ == old(out)@ + int_chars(v as int),
{
    proof {
        reveal_strlit("-");
    }
    if v < 0 {
        out.append("-");
        let m: u64 = (-(v as i64)) as u64;
        assert(m as int == -(v as int));
        push_dec(out, m);
        proof {
            assert(final(out)@ =~= old(out)@ + int_chars(v as int));
        }
    } else {
        push_dec(out, v as u64);
    }
}

/// Appends the encoded elements of `ws` from position `k` on to `out`.
fn push_elems(out: &mut String, ws: &Vec<i32>, k: usize)
    requires
        k <= ws.len(),
    ensures
        final(out)@ == old(out)@ + encode_elems(ws@.skip(k as int)),
    decreases ws.len() - k,
{
    if k < ws.len() {
        push_int(out, ws[k]);
        proof {
            assert(ws@.skip(k as int)[0] == ws@[k as int]);
        }
        if k + 1 < ws.len() {
            out.append(",");
            proof {
                reveal_strlit(",");
            }
            push_elems(out, ws, k + 1);
            proof {
                assert(ws@.skip(k as int).drop_first() =~= ws@.skip(k as int + 1));
                assert(final(out)@ =~= old(out)@ + encode_elems(ws@.skip(k as int)));
            }
        } else {
            proof {
                assert(ws@.skip(k as int).len() == 1);
                assert(final(out)@ =~= old(out)@ + encode_elems(ws@.skip(k as int)));
            }
        }
    } else {
        proof {
            assert(ws@.skip(k as int).len() == 0);
            assert(final(out)@ =~= old(out)@ + encode_elems(ws@.skip(k as int)));
        }
    }
}

/// Encodes a week list into its storage text form.
pub fn encode_weeks(ws: &Vec<i32>) -> (r: String)
    ensures
        r@ == spec_encode_weeks(ws@),
{
    proof {
        reveal_strlit("[");
        reveal_strlit("]");
    }
    let mut out = String::new();
    out.append("[");
    push_elems(&mut out, ws, 0);
    out.append("]");
    proof {
        assert(ws@.skip(0) =~= ws@);
        assert(out@ =~= spec_encode_weeks(ws@));
    }
    out
}

} // verus!
