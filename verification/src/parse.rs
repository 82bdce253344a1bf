//! Parsing JSON text: the ghost parser that defines which documents
//! are accepted, and (further down) the verified executable parser.
//!
//! The grammar is JSON with numbers of at most fifteen integer digits
//! and at most three fractional digits (no exponents), and with the
//! string escapes `\" \\ \/ \n \r \t`. Whitespace is free between
//! tokens. The ghost functions return `None` where the text is
//! rejected; positions are indices into the character sequence.

use vstd::prelude::*;

use crate::json::{Json, JsonV};
use crate::ser::{is_ws, is_digit, digit_val, pow10};

verus! {

/// The first position at or after `i` that does not hold whitespace.
pub open spec fn skip_ws(s: Seq<char>, i: int) -> int
    decreases s.len() - i,
{
    if 0 <= i < s.len() && is_ws(s[i]) {
        skip_ws(s, i + 1)
    } else {
        i
    }
}

/// The first position at or after `i` that does not hold a digit.
pub open spec fn digits_end(s: Seq<char>, i: int) -> int
    decreases s.len() - i,
{
    if 0 <= i < s.len() && is_digit(s[i]) {
        digits_end(s, i + 1)
    } else {
        i
    }
}

/// The value of the digit run `s[i .. j]`.
pub open spec fn num_val(s: Seq<char>, i: int, j: int) -> int
    decreases j - i,
{
    if j <= i {
        0
    } else {
        num_val(s, i, j - 1) * 10 + digit_val(s[j - 1])
    }
}

/// The word `w` stands at position `i` of `s`.
pub open spec fn lit_at(s: Seq<char>, i: int, w: Seq<char>) -> bool {
    0 <= i && i + w.len() <= s.len() && s.subrange(i, i + w.len()) == w
}

/// The scale that brings a fractional run of `l` digits to thousandths.
pub open spec fn frac_scale(l: int) -> int {
    if l == 1 {
        100
    } else if l == 2 {
        10
    } else {
        1
    }
}

/// Parse a number starting at `i` (a minus sign or digit); the result
/// is its value in thousandths and the position after it.
pub open spec fn pnum(s: Seq<char>, i: int) -> Option<(int, int)> {
    let neg = 0 <= i < s.len() && s[i] == '-';
    let i0 = if neg {
        i + 1
    } else {
        i
    };
    let j = digits_end(s, i0);
    if j == i0 || j - i0 > 15 {
        Option::None
    } else if j < s.len() && s[j] == '.' {
        let k = digits_end(s, j + 1);
        if k - (j + 1) < 1 || k - (j + 1) > 3 {
            Option::None
        } else {
            let m = num_val(s, i0, j) * 1000 + num_val(s, j + 1, k) * frac_scale(k - (j + 1));
            Option::Some(
                (
                    if neg {
                        -m
                    } else {
                        m
                    },
                    k,
                ),
            )
        }
    } else {
        let m = num_val(s, i0, j) * 1000;
        Option::Some(
            (
                if neg {
                    -m
                } else {
                    m
                },
                j,
            ),
        )
    }
}

/// The character that one escape code stands for.
pub open spec fn unesc(c: char) -> Option<char> {
    if c == '"' {
        Option::Some('"')
    } else if c == '\\' {
        Option::Some('\\')
    } else if c == '/' {
        Option::Some('/')
    } else if c == 'n' {
        Option::Some('\n')
    } else if c == 'r' {
        Option::Some('\r')
    } else if c == 't' {
        Option::Some('\t')
    } else {
        Option::None
    }
}

/// Parse a string body starting at `i` (just after the opening quote);
/// the result is the unescaped content and the position after the
/// closing quote.
pub open spec fn pstr(s: Seq<char>, i: int) -> Option<(Seq<char>, int)>
    decreases s.len() - i,
{
    if !(0 <= i < s.len()) {
        Option::None
    } else if s[i] == '"' {
        Option::Some((Seq::empty(), i + 1))
    } else if s[i] == '\\' {
        if i + 1 < s.len() {
            match unesc(s[i + 1]) {
                Option::Some(c) => match pstr(s, i + 2) {
                    Option::Some((t, j)) => Option::Some((seq![c] + t, j)),
                    Option::None => Option::None,
                },
                Option::None => Option::None,
            }
        } else {
            Option::None
        }
    } else {
        match pstr(s, i + 1) {
            Option::Some((t, j)) => Option::Some((seq![s[i]] + t, j)),
            Option::None => Option::None,
        }
    }
}

/// Parse one JSON value starting at `i`, skipping leading whitespace;
/// the result is the value and the position after it.
pub open spec fn pval(s: Seq<char>, i: int) -> Option<(JsonV, int)>
    decreases s.len() - i, 0int,
{
    if i < 0 {
        Option::None
    } else {
        let i1 = skip_ws(s, i);
        if !(i <= i1 < s.len()) {
            Option::None
        } else {
            let c = s[i1];
            if c == 'n' {
                if lit_at(s, i1, seq!['n', 'u', 'l', 'l']) {
                    Option::Some((JsonV::Null, i1 + 4))
                } else {
                    Option::None
                }
            } else if c == 't' {
                if lit_at(s, i1, seq!['t', 'r', 'u', 'e']) {
                    Option::Some((JsonV::Bool(true), i1 + 4))
                } else {
                    Option::None
                }
            } else if c == 'f' {
                if lit_at(s, i1, seq!['f', 'a', 'l', 's', 'e']) {
                    Option::Some((JsonV::Bool(false), i1 + 5))
                } else {
                    Option::None
                }
            } else if c == '"' {
                match pstr(s, i1 + 1) {
                    Option::Some((t, j)) => Option::Some((JsonV::JStr(t), j)),
                    Option::None => Option::None,
                }
            } else if c == '-' || is_digit(c) {
                match pnum(s, i1) {
                    Option::Some((m, j)) => Option::Some((JsonV::Num(m), j)),
                    Option::None => Option::None,
                }
            } else if c == '[' {
                let i2 = skip_ws(s, i1 + 1);
                if i1 < i2 < s.len() && s[i2] == ']' {
                    Option::Some((JsonV::Arr(Seq::empty()), i2 + 1))
                } else {
                    match pelems(s, i1 + 1) {
                        Option::Some((es, j)) => Option::Some((JsonV::Arr(es), j)),
                        Option::None => Option::None,
                    }
                }
            } else if c == '{' {
                let i2 = skip_ws(s, i1 + 1);
                if i1 < i2 < s.len() && s[i2] == '}' {
                    Option::Some((JsonV::Obj(Seq::empty()), i2 + 1))
                } else {
                    match pmembers(s, i1 + 1) {
                        Option::Some((ms, j)) => Option::Some((JsonV::Obj(ms), j)),
                        Option::None => Option::None,
                    }
                }
            } else {
                Option::None
            }
        }
    }
}

/// Parse the elements of a non-empty array, starting just after the
/// opening bracket or a comma; the result ends after the `]`.
pub open spec fn pelems(s: Seq<char>, i: int) -> Option<(Seq<JsonV>, int)>
    decreases s.len() - i, 1int,
{
    match pval(s, i) {
        Option::None => Option::None,
        Option::Some((v, j)) => {
            if !(i < j && j <= s.len()) {
                Option::None
            } else {
                let j1 = skip_ws(s, j);
                if !(j <= j1 < s.len()) {
                    Option::None
                } else if s[j1] == ']' {
                    Option::Some((seq![v], j1 + 1))
                } else if s[j1] == ',' {
                    match pelems(s, j1 + 1) {
                        Option::Some((es, e)) => Option::Some((seq![v] + es, e)),
                        Option::None => Option::None,
                    }
                } else {
                    Option::None
                }
            }
        },
    }
}

/// Parse the members of a non-empty object, starting just after the
/// opening brace or a comma; the result ends after the `}`.
pub open spec fn pmembers(s: Seq<char>, i: int) -> Option<(Seq<(Seq<char>, JsonV)>, int)>
    decreases s.len() - i, 1int,
{
    if i < 0 {
        Option::None
    } else {
        let i1 = skip_ws(s, i);
        if !(i <= i1 < s.len()) {
            Option::None
        } else if s[i1] != '"' {
            Option::None
        } else {
            match pstr(s, i1 + 1) {
                Option::None => Option::None,
                Option::Some((k, j)) => {
                    if !(i < j && j <= s.len()) {
                        Option::None
                    } else {
                        let j1 = skip_ws(s, j);
                        if !(j <= j1 < s.len()) {
                            Option::None
                        } else if s[j1] != ':' {
                            Option::None
                        } else {
                            match pval(s, j1 + 1) {
                                Option::None => Option::None,
                                Option::Some((v, e)) => {
                                    if !(i < e && e <= s.len()) {
                                        Option::None
                                    } else {
                                        let e1 = skip_ws(s, e);
                                        if !(e <= e1 < s.len()) {
                                            Option::None
                                        } else if s[e1] == '}' {
                                            Option::Some((seq![(k, v)], e1 + 1))
                                        } else if s[e1] == ',' {
                                            match pmembers(s, e1 + 1) {
                                                Option::Some((ms, f)) => Option::Some(
                                                    (seq![(k, v)] + ms, f),
                                                ),
                                                Option::None => Option::None,
                                            }
                                        } else {
                                            Option::None
                                        }
                                    }
                                },
                            }
                        }
                    }
                },
            }
        }
    }
}

// ---------------------------------------------------------------------
// The executable parser
// ---------------------------------------------------------------------

/// The document is not well-formed, or a field has the wrong shape.
#[derive(Debug, Clone, Copy, PartialEq, Eq, Structural)]
pub struct ParseError;

/// Relies on `String`'s `FromIterator<char>`: collecting characters
/// builds the string of exactly those characters in order.
#[verifier::external_body]
pub fn chars_to_string(v: &Vec<char>) -> (s: String)
    ensures
        s@ == v@,
{
    v.iter().collect()
}

/// The first non-whitespace position at or after `i`.
pub fn ws_end(s: &Vec<char>, i: usize) -> (r: usize)
    requires
        i <= s@.len(),
    ensures
        r as int == skip_ws(s@, i as int),
        i <= r <= s@.len(),
{
    let mut k = i;
    while k < s.len() && (s[k] == ' ' || s[k] == '\n' || s[k] == '\r' || s[k] == '\t')
        invariant
            i <= k <= s@.len(),
            skip_ws(s@, i as int) == skip_ws(s@, k as int),
        decreases s@.len() - k,
    {
        k = k + 1;
    }
    proof {
        r_is_skip(s@, k as int);
    }
    k
}

/// At a non-whitespace position (or the end), skipping stops.
proof fn r_is_skip(s: Seq<char>, k: int)
    requires
        0 <= k <= s.len(),
        k == s.len() || !crate::ser::is_ws(s[k]),
    ensures
        skip_ws(s, k) == k,
{
}

/// The first non-digit position at or after `i`, with the run's facts.
fn dig_end(s: &Vec<char>, i: usize) -> (r: usize)
    requires
        i <= s@.len(),
    ensures
        r as int == digits_end(s@, i as int),
        i <= r <= s@.len(),
        forall|t: int| i <= t < r ==> is_digit(#[trigger] s@[t]),
{
    let mut k = i;
    while k < s.len() && is_digit_x(s[k])
        invariant
            i <= k <= s@.len(),
            digits_end(s@, i as int) == digits_end(s@, k as int),
            forall|t: int| i <= t < k ==> is_digit(#[trigger] s@[t]),
        decreases s@.len() - k,
    {
        k = k + 1;
    }
    k
}

fn is_digit_x(c: char) -> (r: bool)
    ensures
        r == is_digit(c),
{
    let cv = c as u32;
    48 <= cv && cv <= 57
}

/// The value of a digit run is below ten to its length.
proof fn lemma_num_val_bound(s: Seq<char>, i: int, j: int)
    requires
        0 <= i <= j <= s.len(),
        forall|t: int| i <= t < j ==> is_digit(#[trigger] s[t]),
    ensures
        0 <= num_val(s, i, j) < pow10((j - i) as nat),
    decreases j - i,
{
    if j > i {
        lemma_num_val_bound(s, i, j - 1);
        assert(pow10((j - i) as nat) == 10 * pow10((j - i - 1) as nat));
    }
}

/// Parse a number starting at `i`; mirrors the ghost `pnum`.
fn parse_number(s: &Vec<char>, i: usize) -> (r: Result<(i64, usize), ParseError>)
    requires
        i < s@.len(),
    ensures
        match pnum(s@, i as int) {
            Option::Some((m, end)) => r is Ok && r->Ok_0.0 as int == m && r->Ok_0.1 as int == end
                && i < end <= s@.len(),
            Option::None => r is Err,
        },
{
    proof {
        reveal_with_fuel(pow10, 17);
    }
    let n = s.len();
    let neg = s[i] == '-';
    let i0 = if neg {
        i + 1
    } else {
        i
    };
    let j = dig_end(s, i0);
    if j == i0 || j - i0 > 15 {
        return Result::Err(ParseError);
    }
    let mut units: i64 = 0;
    let mut k = i0;
    while k < j
        invariant
            i0 <= k <= j <= s@.len(),
            j - i0 <= 15,
            units as int == num_val(s@, i0 as int, k as int),
            forall|t: int| i0 <= t < j ==> is_digit(#[trigger] s@[t]),
            0 <= units as int && (units as int) < pow10((k - i0) as nat),
            pow10(15) == 1000000000000000,
            pow10(16) == 10000000000000000,
        decreases j - k,
    {
        proof {
            lemma_num_val_bound(s@, i0 as int, k as int);
            lemma_num_val_bound(s@, i0 as int, k + 1 as int);
            assert(pow10((k + 1 - i0) as nat) == 10 * pow10((k - i0) as nat));
            lemma_pow10_le((k + 1 - i0) as nat, 16nat);
        }
        let d = (s[k] as u32 - 48) as i64;
        units = units * 10 + d;
        k = k + 1;
    }
    if j < s.len() && s[j] == '.' {
        let k2 = dig_end(s, j + 1);
        let fl = k2 - (j + 1);
        if fl < 1 || fl > 3 {
            return Result::Err(ParseError);
        }
        let mut fr: i64 = 0;
        let mut k3 = j + 1;
        while k3 < k2
            invariant
                j + 1 <= k3 <= k2 <= s@.len(),
                k2 - (j + 1) <= 3,
                fr as int == num_val(s@, j + 1 as int, k3 as int),
                forall|t: int| j + 1 <= t < k2 ==> is_digit(#[trigger] s@[t]),
                0 <= fr as int && (fr as int) < pow10((k3 - (j + 1)) as nat),
                pow10(3) == 1000,
                pow10(4) == 10000,
            decreases k2 - k3,
        {
            proof {
                lemma_num_val_bound(s@, j + 1 as int, k3 as int);
                lemma_num_val_bound(s@, j + 1 as int, k3 + 1 as int);
                assert(pow10((k3 + 1 - (j + 1)) as nat) == 10 * pow10((k3 - (j + 1)) as nat));
                lemma_pow10_le((k3 + 1 - (j + 1)) as nat, 4nat);
            }
            let d = (s[k3] as u32 - 48) as i64;
            fr = fr * 10 + d;
            k3 = k3 + 1;
        }
        let scale: i64 = if fl == 1 {
            100
        } else if fl == 2 {
            10
        } else {
            1
        };
        proof {
            lemma_num_val_bound(s@, i0 as int, j as int);
            lemma_pow10_le((j - i0) as nat, 15nat);
            lemma_num_val_bound(s@, j + 1 as int, k2 as int);
        }
        let m = units * 1000 + fr * scale;
        let v: i64 = if neg {
            -m
        } else {
            m
        };
        Result::Ok((v, k2))
    } else {
        proof {
            lemma_num_val_bound(s@, i0 as int, j as int);
            lemma_pow10_le((j - i0) as nat, 15nat);
        }
        let m = units * 1000;
        let v: i64 = if neg {
            -m
        } else {
            m
        };
        Result::Ok((v, j))
    }
}

/// Ten-to-the is monotone in the exponent.
proof fn lemma_pow10_le(a: nat, b: nat)
    requires
        a <= b,
    ensures
        pow10(a) <= pow10(b),
        pow10(a) >= 1,
    decreases b,
{
    if b > 0 {
        if a == b {
            lemma_pow10_le((b - 1) as nat, (b - 1) as nat);
        } else {
            lemma_pow10_le(a, (b - 1) as nat);
        }
    }
}

fn unesc_x(c: char) -> (r: Option<char>)
    ensures
        r == unesc(c),
{
    if c == '"' {
        Option::Some('"')
    } else if c == '\\' {
        Option::Some('\\')
    } else if c == '/' {
        Option::Some('/')
    } else if c == 'n' {
        Option::Some('\n')
    } else if c == 'r' {
        Option::Some('\r')
    } else if c == 't' {
        Option::Some('\t')
    } else {
        Option::None
    }
}

/// Parse a string body from just after the opening quote; mirrors the
/// ghost `pstr`.
fn parse_string(s: &Vec<char>, i: usize) -> (r: Result<(Vec<char>, usize), ParseError>)
    ensures
        match pstr(s@, i as int) {
            Option::Some((t, end)) => r is Ok && r->Ok_0.0@ == t && r->Ok_0.1 as int == end && i
                < end <= s@.len(),
            Option::None => r is Err,
        },
    decreases s@.len() - i,
{
    if i >= s.len() {
        return Result::Err(ParseError);
    }
    let c = s[i];
    if c == '"' {
        let v: Vec<char> = Vec::new();
        proof {
            assert(v@ =~= Seq::<char>::empty());
        }
        Result::Ok((v, i + 1))
    } else if c == '\\' {
        if i + 1 < s.len() {
            match unesc_x(s[i + 1]) {
                Option::Some(u) => {
                    match parse_string(s, i + 2) {
                        Result::Ok((mut t, j)) => {
                            let ghost t0 = t@;
                            let mut v: Vec<char> = Vec::new();
                            v.push(u);
                            v.append(&mut t);
                            proof {
                                assert(v@ =~= seq![u] + t0);
                            }
                            Result::Ok((v, j))
                        },
                        Result::Err(e) => Result::Err(e),
                    }
                },
                Option::None => Result::Err(ParseError),
            }
        } else {
            Result::Err(ParseError)
        }
    } else {
        match parse_string(s, i + 1) {
            Result::Ok((mut t, j)) => {
                let ghost t0 = t@;
                let mut v: Vec<char> = Vec::new();
                v.push(c);
                v.append(&mut t);
                proof {
                    assert(v@ =~= seq![c] + t0);
                }
                Result::Ok((v, j))
            },
            Result::Err(e) => Result::Err(e),
        }
    }
}

/// Parse one JSON value starting at `i`; mirrors the ghost `pval`.
#[verifier::loop_isolation(false)]
#[verifier::rlimit(100)]
pub fn parse_value(s: &Vec<char>, i: usize) -> (r: Result<(Json, usize), ParseError>)
    requires
        i <= s@.len(),
    ensures
        match pval(s@, i as int) {
            Option::Some((v, end)) => r is Ok && r->Ok_0.0@ == v && r->Ok_0.1 as int == end && i
                < end <= s@.len(),
            Option::None => r is Err,
        },
    decreases s@.len() - i,
{
    let i1 = ws_end(s, i);
    if i1 >= s.len() {
        return Result::Err(ParseError);
    }
    let c = s[i1];
    if c == 'n' {
        if s.len() - i1 >= 4 && s[i1 + 1] == 'u' && s[i1 + 2] == 'l' && s[i1 + 3] == 'l' {
            proof {
                assert(s@.subrange(i1 as int, i1 + 4) =~= seq!['n', 'u', 'l', 'l']);
            }
            Result::Ok((Json::Null, i1 + 4))
        } else {
            proof {
                if lit_at(s@, i1 as int, seq!['n', 'u', 'l', 'l']) {
                    assert(s@[i1 + 1] == s@.subrange(i1 as int, i1 + 4)[1]);
                    assert(s@[i1 + 2] == s@.subrange(i1 as int, i1 + 4)[2]);
                    assert(s@[i1 + 3] == s@.subrange(i1 as int, i1 + 4)[3]);
                }
            }
            Result::Err(ParseError)
        }
    } else if c == 't' {
        if s.len() - i1 >= 4 && s[i1 + 1] == 'r' && s[i1 + 2] == 'u' && s[i1 + 3] == 'e' {
            proof {
                assert(s@.subrange(i1 as int, i1 + 4) =~= seq!['t', 'r', 'u', 'e']);
            }
            Result::Ok((Json::Bool(true), i1 + 4))
        } else {
            proof {
                if lit_at(s@, i1 as int, seq!['t', 'r', 'u', 'e']) {
                    assert(s@[i1 + 1] == s@.subrange(i1 as int, i1 + 4)[1]);
                    assert(s@[i1 + 2] == s@.subrange(i1 as int, i1 + 4)[2]);
                    assert(s@[i1 + 3] == s@.subrange(i1 as int, i1 + 4)[3]);
                }
            }
            Result::Err(ParseError)
        }
    } else if c == 'f' {
        if s.len() - i1 >= 5 && s[i1 + 1] == 'a' && s[i1 + 2] == 'l' && s[i1 + 3] == 's' && s[i1
            + 4] == 'e' {
            proof {
                assert(s@.subrange(i1 as int, i1 + 5) =~= seq!['f', 'a', 'l', 's', 'e']);
            }
            Result::Ok((Json::Bool(false), i1 + 5))
        } else {
            proof {
                if lit_at(s@, i1 as int, seq!['f', 'a', 'l', 's', 'e']) {
                    assert(s@[i1 + 1] == s@.subrange(i1 as int, i1 + 5)[1]);
                    assert(s@[i1 + 2] == s@.subrange(i1 as int, i1 + 5)[2]);
                    assert(s@[i1 + 3] == s@.subrange(i1 as int, i1 + 5)[3]);
                    assert(s@[i1 + 4] == s@.subrange(i1 as int, i1 + 5)[4]);
                }
            }
            Result::Err(ParseError)
        }
    } else if c == '"' {
        match parse_string(s, i1 + 1) {
            Result::Ok((t, j)) => Result::Ok((Json::JStr(chars_to_string(&t)), j)),
            Result::Err(e) => Result::Err(e),
        }
    } else if c == '-' || is_digit_x(c) {
        match parse_number(s, i1) {
            Result::Ok((m, j)) => Result::Ok((Json::Num(m), j)),
            Result::Err(e) => Result::Err(e),
        }
    } else if c == '[' {
        let i2 = ws_end(s, i1 + 1);
        if i1 < i2 && i2 < s.len() && s[i2] == ']' {
            let v: Vec<Json> = Vec::new();
            proof {
                assert(crate::json::jview_arr(v@, 0) =~= Seq::<JsonV>::empty());
            }
            return Result::Ok((Json::Arr(v), i2 + 1));
        }
        let mut elems: Vec<Json> = Vec::new();
        let mut cur: usize = i1 + 1;
        proof {
            assert(crate::json::jview_arr(elems@, 0) =~= Seq::<JsonV>::empty());
        }
        loop
            invariant
                i1 + 1 <= cur <= s@.len(),
                pelems(s@, i1 + 1 as int) == (match pelems(s@, cur as int) {
                    Option::Some((es, e)) => Option::Some(
                        (crate::json::jview_arr(elems@, 0) + es, e),
                    ),
                    Option::None => Option::None::<(Seq<JsonV>, int)>,
                }),
            decreases s@.len() - cur,
        {
            let ghost pre = crate::json::jview_arr(elems@, 0);
            match parse_value(s, cur) {
                Result::Err(e) => {
                    return Result::Err(e);
                },
                Result::Ok((v, j)) => {
                    let j1 = ws_end(s, j);
                    if j1 >= s.len() {
                        return Result::Err(ParseError);
                    }
                    if s[j1] == ']' {
                        let ghost olde = elems@;
                        elems.push(v);
                        proof {
                            crate::json::lemma_jview_arr_snoc(olde, v, 0);
                            assert(elems@ == olde.push(v));
                            assert(crate::json::jview_arr(elems@, 0) == pre + seq![v@]);
                            assert(pelems(s@, cur as int) == Option::Some(
                                (seq![v@], j1 + 1 as int),
                            ));
                        }
                        return Result::Ok((Json::Arr(elems), j1 + 1));
                    } else if s[j1] == ',' {
                        let ghost olde = elems@;
                        elems.push(v);
                        proof {
                            crate::json::lemma_jview_arr_snoc(olde, v, 0);
                            assert(elems@ == olde.push(v));
                            assert(crate::json::jview_arr(elems@, 0) == pre + seq![v@]);
                            assert forall|es2: Seq<JsonV>, e2: int|
                                pelems(s@, j1 + 1 as int) == Option::Some((es2, e2)) implies pre
                                + (seq![v@] + es2) =~= crate::json::jview_arr(elems@, 0) + es2
                                by {}
                        }
                        cur = j1 + 1;
                    } else {
                        return Result::Err(ParseError);
                    }
                },
            }
        }
    } else if c == '{' {
        let i2 = ws_end(s, i1 + 1);
        if i1 < i2 && i2 < s.len() && s[i2] == '}' {
            let v: Vec<(String, Json)> = Vec::new();
            proof {
                assert(crate::json::jview_obj(v@, 0) =~= Seq::<(Seq<char>, JsonV)>::empty());
            }
            return Result::Ok((Json::Obj(v), i2 + 1));
        }
        let mut members: Vec<(String, Json)> = Vec::new();
        let mut cur: usize = i1 + 1;
        proof {
            assert(crate::json::jview_obj(members@, 0) =~= Seq::<(Seq<char>, JsonV)>::empty());
        }
        loop
            invariant
                i1 + 1 <= cur <= s@.len(),
                pmembers(s@, i1 + 1 as int) == (match pmembers(s@, cur as int) {
                    Option::Some((ms2, e)) => Option::Some(
                        (crate::json::jview_obj(members@, 0) + ms2, e),
                    ),
                    Option::None => Option::None::<(Seq<(Seq<char>, JsonV)>, int)>,
                }),
            decreases s@.len() - cur,
        {
            let ghost pre = crate::json::jview_obj(members@, 0);
            let k1 = ws_end(s, cur);
            if k1 >= s.len() {
                return Result::Err(ParseError);
            }
            if s[k1] != '"' {
                return Result::Err(ParseError);
            }
            match parse_string(s, k1 + 1) {
                Result::Err(e) => {
                    return Result::Err(e);
                },
                Result::Ok((kv, j)) => {
                    let j1 = ws_end(s, j);
                    if j1 >= s.len() {
                        return Result::Err(ParseError);
                    }
                    if s[j1] != ':' {
                        return Result::Err(ParseError);
                    }
                    match parse_value(s, j1 + 1) {
                        Result::Err(e) => {
                            return Result::Err(e);
                        },
                        Result::Ok((v, e)) => {
                            let e1 = ws_end(s, e);
                            if e1 >= s.len() {
                                return Result::Err(ParseError);
                            }
                            if s[e1] == '}' {
                                let ks = chars_to_string(&kv);
                                let ghost oldm = members@;
                                members.push((ks, v));
                                proof {
                                    crate::json::lemma_jview_obj_snoc(oldm, (ks, v), 0);
                                    assert(members@ == oldm.push((ks, v)));
                                    assert(crate::json::jview_obj(members@, 0) == pre + seq![
                                        (kv@, v@),
                                    ]);
                                    assert(pmembers(s@, cur as int) == Option::Some(
                                        (seq![(kv@, v@)], e1 + 1 as int),
                                    ));
                                }
                                return Result::Ok((Json::Obj(members), e1 + 1));
                            } else if s[e1] == ',' {
                                let ks = chars_to_string(&kv);
                                let ghost oldm = members@;
                                members.push((ks, v));
                                proof {
                                    crate::json::lemma_jview_obj_snoc(oldm, (ks, v), 0);
                                    assert(members@ == oldm.push((ks, v)));
                                    assert(crate::json::jview_obj(members@, 0) == pre + seq![
                                        (kv@, v@),
                                    ]);
                                    assert forall|ms2: Seq<(Seq<char>, JsonV)>, e2: int|
                                        pmembers(s@, e1 + 1 as int) == Option::Some((ms2, e2))
                                        implies pre + (seq![(kv@, v@)] + ms2)
                                        =~= crate::json::jview_obj(members@, 0) + ms2 by {}
                                }
                                cur = e1 + 1;
                            } else {
                                return Result::Err(ParseError);
                            }
                        },
                    }
                },
            }
        }
    } else {
        Result::Err(ParseError)
    }
}

/// Parse a whole document: one value with only whitespace after it.
pub open spec fn parse_doc(s: Seq<char>) -> Option<JsonV> {
    match pval(s, 0) {
        Option::None => Option::None,
        Option::Some((j, end)) => {
            if skip_ws(s, end) == s.len() {
                Option::Some(j)
            } else {
                Option::None
            }
        },
    }
}

} // verus!
