//! The parser reads back what the printer wrote: for every
//! well-formed JSON value, parsing its printed document yields the
//! value again. This file proves that statement, bottom up: whitespace
//! runs, digit runs, numbers, strings, then whole values.

use vstd::prelude::*;

use crate::json::JsonV;
use crate::model::{num_wf, MAX_MILLI};
use crate::parse::{
    digits_end, frac_scale, lit_at, num_val, parse_doc, pelems, pmembers, pnum, pstr, pval,
    skip_ws, unesc,
};
use crate::ser::{
    dec_str, digit_char, digit_val, doc_str, esc, esc_char, frac_str, ind, is_digit, is_ws,
    num_str, pow10, print_items, print_members, print_val, spaces, str_lit,
};

verus! {

/// A well-formed JSON value: every number is in the codec's range.
pub open spec fn jv_wf(j: JsonV) -> bool
    decreases j,
{
    match j {
        JsonV::Null => true,
        JsonV::Bool(_) => true,
        JsonV::Num(m) => num_wf(m),
        JsonV::JStr(_) => true,
        JsonV::Arr(a) => forall|i: int| 0 <= i < a.len() ==> jv_wf(#[trigger] a[i]),
        JsonV::Obj(ms) => forall|i: int| 0 <= i < ms.len() ==> jv_wf(#[trigger] ms[i].1),
    }
}

/// Elements of a well-formed array are well-formed.
pub proof fn lemma_jv_wf_arr(j: JsonV)
    requires
        jv_wf(j),
        j is Arr,
    ensures
        forall|t: int|
            0 <= t < crate::codec::jv_arr(j).len() ==> jv_wf(
                #[trigger] crate::codec::jv_arr(j)[t],
            ),
{
    match j {
        JsonV::Arr(aa) => {
            assert forall|t: int| 0 <= t < crate::codec::jv_arr(j).len() implies jv_wf(
                #[trigger] crate::codec::jv_arr(j)[t],
            ) by {
                assert(crate::codec::jv_arr(j) == aa);
                assert(jv_wf(aa[t]));
            }
        },
        _ => {},
    }
}

/// Member values of a well-formed object are well-formed.
pub proof fn lemma_jv_wf_obj(j: JsonV)
    requires
        jv_wf(j),
        j is Obj,
    ensures
        forall|t: int|
            0 <= t < crate::codec::jv_obj(j).len() ==> jv_wf(
                (#[trigger] crate::codec::jv_obj(j)[t]).1,
            ),
{
    match j {
        JsonV::Obj(mm) => {
            assert forall|t: int| 0 <= t < crate::codec::jv_obj(j).len() implies jv_wf(
                (#[trigger] crate::codec::jv_obj(j)[t]).1,
            ) by {
                assert(crate::codec::jv_obj(j) == mm);
                assert(jv_wf(mm[t].1));
            }
        },
        _ => {},
    }
}

/// Elements of a depth-bounded array are depth-bounded one less.
pub proof fn lemma_jv_depth_arr(j: JsonV, b: int)
    requires
        crate::ser::jv_depth_le(j, b),
        j is Arr,
    ensures
        forall|t: int|
            0 <= t < crate::codec::jv_arr(j).len() ==> crate::ser::jv_depth_le(
                #[trigger] crate::codec::jv_arr(j)[t],
                b - 1,
            ),
{
    match j {
        JsonV::Arr(aa) => {
            assert forall|t: int| 0 <= t < crate::codec::jv_arr(j).len()
                implies crate::ser::jv_depth_le(#[trigger] crate::codec::jv_arr(j)[t], b - 1) by {
                assert(crate::codec::jv_arr(j) == aa);
                assert(crate::ser::jv_depth_le(aa[t], b - 1));
            }
        },
        _ => {},
    }
}

/// Member values of a depth-bounded object are depth-bounded one less.
pub proof fn lemma_jv_depth_obj(j: JsonV, b: int)
    requires
        crate::ser::jv_depth_le(j, b),
        j is Obj,
    ensures
        forall|t: int|
            0 <= t < crate::codec::jv_obj(j).len() ==> crate::ser::jv_depth_le(
                (#[trigger] crate::codec::jv_obj(j)[t]).1,
                b - 1,
            ),
{
    match j {
        JsonV::Obj(mm) => {
            assert forall|t: int| 0 <= t < crate::codec::jv_obj(j).len()
                implies crate::ser::jv_depth_le((#[trigger] crate::codec::jv_obj(j)[t]).1, b - 1)
                by {
                assert(crate::codec::jv_obj(j) == mm);
                assert(crate::ser::jv_depth_le(mm[t].1, b - 1));
            }
        },
        _ => {},
    }
}

// ---------------------------------------------------------------------
// Whitespace and digit runs
// ---------------------------------------------------------------------

/// Skipping whitespace from the start of a whitespace run ends exactly
/// at the run's end.
pub proof fn lemma_skip_ws_run(s: Seq<char>, i: int, j: int)
    requires
        0 <= i <= j <= s.len(),
        forall|k: int| i <= k < j ==> is_ws(#[trigger] s[k]),
        j == s.len() || !is_ws(s[j]),
    ensures
        skip_ws(s, i) == j,
    decreases j - i,
{
    if i < j {
        lemma_skip_ws_run(s, i + 1, j);
    }
}

pub proof fn lemma_digits_run(s: Seq<char>, i: int, j: int)
    requires
        0 <= i <= j <= s.len(),
        forall|k: int| i <= k < j ==> is_digit(#[trigger] s[k]),
        j == s.len() || !is_digit(s[j]),
    ensures
        digits_end(s, i) == j,
    decreases j - i,
{
    if i < j {
        lemma_digits_run(s, i + 1, j);
    }
}

pub proof fn lemma_spaces_ws(n: nat)
    ensures
        spaces(n).len() == n,
        forall|k: int| 0 <= k < n ==> is_ws(#[trigger] spaces(n)[k]),
    decreases n,
{
    if n > 0 {
        lemma_spaces_ws((n - 1) as nat);
    }
}

/// Every character of an indentation is whitespace.
pub proof fn lemma_ind_ws(d: nat)
    ensures
        ind(d).len() == 1 + 2 * d,
        forall|k: int| 0 <= k < ind(d).len() ==> is_ws(#[trigger] ind(d)[k]),
{
    lemma_spaces_ws(2 * d);
}

// ---------------------------------------------------------------------
// Digits and numbers
// ---------------------------------------------------------------------

pub proof fn lemma_dec_str_digits(n: nat)
    ensures
        dec_str(n).len() >= 1,
        forall|k: int| 0 <= k < dec_str(n).len() ==> is_digit(#[trigger] dec_str(n)[k]),
    decreases n,
{
    if n >= 10 {
        lemma_dec_str_digits(n / 10);
    }
}

/// A number below `pow10(k)` prints with at most `k` digits.
pub proof fn lemma_dec_str_len(n: nat, k: nat)
    requires
        k >= 1,
        n < pow10(k),
    ensures
        dec_str(n).len() <= k,
    decreases n,
{
    if n >= 10 {
        assert(pow10(k) == 10 * pow10((k - 1) as nat));
        lemma_dec_str_len(n / 10, (k - 1) as nat);
    }
}

/// The digit run written by `dec_str(n)` reads back as the value `n`.
pub proof fn lemma_dec_str_parse(s: Seq<char>, i: int, n: nat)
    requires
        0 <= i,
        i + dec_str(n).len() <= s.len(),
        s.subrange(i, i + dec_str(n).len() as int) == dec_str(n),
    ensures
        num_val(s, i, i + dec_str(n).len() as int) == n,
        forall|k: int| i <= k < i + dec_str(n).len() ==> is_digit(#[trigger] s[k]),
    decreases n,
{
    let ds = dec_str(n);
    let j = i + ds.len() as int;
    assert forall|k: int| i <= k < j implies is_digit(#[trigger] s[k]) by {
        assert(s[k] == ds[k - i]);
        lemma_dec_str_digits(n);
    }
    if n < 10 {
        assert(s[i] == ds[0]);
        assert(digit_val(s[i]) == n);
        assert(num_val(s, i, j) == num_val(s, i, i) * 10 + digit_val(s[j - 1]));
    } else {
        let dh = dec_str(n / 10);
        assert(ds == dh.push(digit_char((n % 10) as int)));
        assert(s.subrange(i, i + dh.len() as int) =~= dh) by {
            assert forall|k: int| 0 <= k < dh.len() implies s.subrange(i, i + dh.len() as int)[k]
                == dh[k] by {
                assert(s[i + k] == ds[k]);
                assert(ds[k] == dh[k]);
            }
        }
        lemma_dec_str_parse(s, i, n / 10);
        assert(s[j - 1] == ds[ds.len() - 1]);
        assert(digit_val(s[j - 1]) == n % 10);
        assert(num_val(s, i, j) == num_val(s, i, j - 1) * 10 + digit_val(s[j - 1]));
        assert(num_val(s, i, j) == (n / 10) * 10 + n % 10);
        assert(n == (n / 10) * 10 + n % 10);
    }
}

/// The printed form of a number in range reads back as that number.
pub proof fn lemma_num_print(s: Seq<char>, i: int, m: int, end: int)
    requires
        0 <= i <= end <= s.len(),
        s.subrange(i, end) == num_str(m),
        num_wf(m),
        end == s.len() || (!is_digit(s[end]) && s[end] != '.'),
    ensures
        pnum(s, i) == Option::Some((m, end)),
        s[i] == '-' || is_digit(s[i]),
        !is_ws(s[i]),
        i < end,
{
    let a = if m < 0 { -m } else { m };
    let units = (a / 1000) as nat;
    let fr = a % 1000;
    let ns = num_str(m);
    let sign_len: int = if m < 0 { 1 } else { 0 };
    let ds = dec_str(units);
    let dl = ds.len() as int;
    let i0 = i + sign_len;

    assert(pow10(15) == 1000000000000000) by {
        reveal_with_fuel(pow10, 16);
    }
    assert(a <= MAX_MILLI);
    assert(units < pow10(15)) by {
        assert(a / 1000 <= MAX_MILLI / 1000);
    }
    lemma_dec_str_len(units, 15);
    lemma_dec_str_digits(units);

    assert(a == 1000 * (a / 1000) + a % 1000);
    assert(0 <= fr < 1000);
    assert(ns == (if m < 0 { seq!['-'] } else { Seq::<char>::empty() }) + ds + frac_str(fr));
    assert(end - i == ns.len()) by {
        assert(s.subrange(i, end).len() == ns.len());
    }
    assert forall|k: int| 0 <= k < ns.len() implies s[i + k] == ns[k] by {
        assert(s.subrange(i, end)[k] == s[i + k]);
    }

    if m < 0 {
        assert(s[i] == ns[0]);
        assert(ns[0] == '-');
    } else {
        assert(s[i] == ns[0]);
        assert(ns[0] == ds[0]);
    }

    // The integer digit run.
    assert(s.subrange(i0, i0 + dl) =~= ds) by {
        assert forall|k: int| 0 <= k < dl implies s.subrange(i0, i0 + dl)[k] == ds[k] by {
            assert(s[i0 + k] == ns[sign_len + k]);
            assert(ns[sign_len + k] == ds[k]);
        }
    }
    lemma_dec_str_parse(s, i0, units);

    if fr == 0 {
        assert(end == i0 + dl);
        lemma_digits_run(s, i0, end);
        assert(digits_end(s, i0) == end);
        assert(num_val(s, i0, end) == units);
        assert(dl <= 15 && dl >= 1);
        assert(pnum(s, i) == Option::Some((m, end)));
    } else {
        let fs = frac_str(fr);
        assert(fs.len() == 4);
        assert(end == i0 + dl + 4);
        let jd = i0 + dl;
        // digits stop at the point
        assert(s[jd] == ns[sign_len + dl]);
        assert(ns[sign_len + dl] == fs[0]);
        assert(fs[0] == '.');
        assert(!is_digit('.'));
        lemma_digits_run(s, i0, jd);
        // the three fraction digits
        assert(s[jd + 1] == ns[sign_len + dl + 1]);
        assert(s[jd + 2] == ns[sign_len + dl + 2]);
        assert(s[jd + 3] == ns[sign_len + dl + 3]);
        assert(s[jd + 1] == digit_char(fr / 100));
        assert(s[jd + 2] == digit_char((fr / 10) % 10));
        assert(s[jd + 3] == digit_char(fr % 10));
        assert(is_digit(s[jd + 1]) && is_digit(s[jd + 2]) && is_digit(s[jd + 3]));
        lemma_digits_run(s, jd + 1, jd + 4);
        assert(num_val(s, jd + 1, jd + 1) == 0);
        assert(num_val(s, jd + 1, jd + 2) == digit_val(s[jd + 1]));
        assert(num_val(s, jd + 1, jd + 3) == num_val(s, jd + 1, jd + 2) * 10 + digit_val(
            s[jd + 2],
        ));
        assert(num_val(s, jd + 1, jd + 4) == num_val(s, jd + 1, jd + 3) * 10 + digit_val(
            s[jd + 3],
        ));
        assert(num_val(s, jd + 1, jd + 4) == ((fr / 100) * 10 + (fr / 10) % 10) * 10 + fr % 10);
        assert(fr / 100 == (fr / 10) / 10) by (nonlinear_arith)
            requires 0 <= fr < 1000;
        assert((fr / 100) * 100 + ((fr / 10) % 10) * 10 + fr % 10 == fr) by {
            assert(fr / 10 == 10 * ((fr / 10) / 10) + (fr / 10) % 10);
            assert(fr == 10 * (fr / 10) + fr % 10);
        }
        assert(num_val(s, jd + 1, jd + 4) == fr);
        assert(frac_scale(3) == 1);
        assert(num_val(s, i0, jd) * 1000 + fr == a);
        assert(pnum(s, i) == Option::Some((m, end)));
    }
}

// ---------------------------------------------------------------------
// Strings
// ---------------------------------------------------------------------

/// The escaped body written by the printer reads back as the
/// unescaped string content.
pub proof fn lemma_str_print(s: Seq<char>, i: int, t: Seq<char>, end: int)
    requires
        0 <= i <= end <= s.len(),
        s.subrange(i, end) == esc(t) + seq!['"'],
    ensures
        pstr(s, i) == Option::Some((t, end)),
        i < end,
    decreases t.len(),
{
    let body = esc(t) + seq!['"'];
    if t.len() == 0 {
        assert(esc(t) =~= Seq::<char>::empty());
        assert(body.len() == 1);
        assert(s[i] == body[0]);
        assert(s[i] == '"');
        assert(pstr(s, i) == Option::Some((Seq::<char>::empty(), i + 1)));
        assert(t =~= Seq::<char>::empty());
    } else {
        let c = t[0];
        let ec = esc_char(c);
        let tail = esc(t.skip(1)) + seq!['"'];
        assert(esc(t) == ec + esc(t.skip(1)));
        assert(body =~= ec + tail);
        assert forall|k: int| 0 <= k < body.len() implies s[i + k] == body[k] by {
            assert(s.subrange(i, end)[k] == s[i + k]);
        }
        let i2 = i + ec.len() as int;
        assert(s.subrange(i2, end) =~= tail) by {
            assert forall|k: int| 0 <= k < tail.len() implies s.subrange(i2, end)[k] == tail[k]
                by {
                assert(s[i2 + k] == body[ec.len() + k]);
                assert(body[ec.len() + k] == tail[k]);
            }
        }
        lemma_str_print(s, i2, t.skip(1), end);
        if c == '"' || c == '\\' || c == '\n' || c == '\r' || c == '\t' {
            assert(ec.len() == 2);
            assert(s[i] == body[0]);
            assert(s[i] == '\\');
            assert(s[i + 1] == body[1]);
            assert(unesc(s[i + 1]) == Option::Some(c));
            assert(pstr(s, i) == Option::Some((seq![c] + t.skip(1), end)));
            assert(seq![c] + t.skip(1) =~= t);
        } else {
            assert(ec.len() == 1);
            assert(s[i + 0] == body[0]);
            assert(body[0] == ec[0]);
            assert(s[i] == c);
            assert(s[i] != '"' && s[i] != '\\');
            assert(pstr(s, i) == Option::Some((seq![c] + t.skip(1), end)));
            assert(seq![c] + t.skip(1) =~= t);
        }
    }
}

// ---------------------------------------------------------------------
// Values
// ---------------------------------------------------------------------

/// The branch of the parser that a printed value's first character
/// selects.
pub open spec fn starts_right(j: JsonV, c: char) -> bool {
    match j {
        JsonV::Null => c == 'n',
        JsonV::Bool(b) => c == (if b {
            't'
        } else {
            'f'
        }),
        JsonV::Num(_) => c == '-' || is_digit(c),
        JsonV::JStr(_) => c == '"',
        JsonV::Arr(_) => c == '[',
        JsonV::Obj(_) => c == '{',
    }
}

/// A printed value is non-empty and opens with the character of its
/// own parser branch.
pub proof fn lemma_print_first(j: JsonV, d: nat)
    ensures
        print_val(j, d).len() > 0,
        starts_right(j, print_val(j, d)[0]),
{
    match j {
        JsonV::Num(m) => {
            let a = if m < 0 {
                -m
            } else {
                m
            };
            lemma_dec_str_digits((a / 1000) as nat);
            if m >= 0 {
                assert(print_val(j, d)[0] == dec_str((a / 1000) as nat)[0]);
            }
        },
        _ => {},
    }
}

/// Parsing a printed value, after any run of whitespace, yields the
/// value and stops right after its text.
#[verifier::rlimit(100)]
pub proof fn lemma_pval_print(s: Seq<char>, i: int, i0: int, j: JsonV, d: nat, end: int)
    requires
        0 <= i <= i0 <= end <= s.len(),
        forall|t: int| i <= t < i0 ==> is_ws(#[trigger] s[t]),
        s.subrange(i0, end) == print_val(j, d),
        jv_wf(j),
        end == s.len() || (!is_digit(s[end]) && s[end] != '.'),
    ensures
        pval(s, i) == Option::Some((j, end)),
    decreases j, 0int,
{
    let pv = print_val(j, d);
    lemma_print_first(j, d);
    assert(end - i0 == pv.len()) by {
        assert(s.subrange(i0, end).len() == pv.len());
    }
    assert forall|t: int| 0 <= t < pv.len() implies s[i0 + t] == pv[t] by {
        assert(s.subrange(i0, end)[t] == s[i0 + t]);
    }
    assert(s[i0 + 0] == pv[0]);
    assert(!is_ws(s[i0]));
    lemma_skip_ws_run(s, i, i0);
    let c = s[i0];
    match j {
        JsonV::Null => {
            assert(lit_at(s, i0, seq!['n', 'u', 'l', 'l'])) by {
                assert(s.subrange(i0, i0 + 4) =~= seq!['n', 'u', 'l', 'l']) by {
                    assert forall|t: int| 0 <= t < 4 implies s.subrange(i0, i0 + 4)[t] == seq![
                        'n',
                        'u',
                        'l',
                        'l',
                    ][t] by {
                        assert(s.subrange(i0, i0 + 4)[t] == s[i0 + t]);
                        assert(s[i0 + t] == pv[t]);
                    }
                }
            }
        },
        JsonV::Bool(b) => {
            if b {
                assert(lit_at(s, i0, seq!['t', 'r', 'u', 'e'])) by {
                    assert(s.subrange(i0, i0 + 4) =~= seq!['t', 'r', 'u', 'e']) by {
                        assert forall|t: int| 0 <= t < 4 implies s.subrange(i0, i0 + 4)[t] == seq![
                            't',
                            'r',
                            'u',
                            'e',
                        ][t] by {
                            assert(s.subrange(i0, i0 + 4)[t] == s[i0 + t]);
                            assert(s[i0 + t] == pv[t]);
                        }
                    }
                }
            } else {
                assert(lit_at(s, i0, seq!['f', 'a', 'l', 's', 'e'])) by {
                    assert(s.subrange(i0, i0 + 5) =~= seq!['f', 'a', 'l', 's', 'e']) by {
                        assert forall|t: int| 0 <= t < 5 implies s.subrange(i0, i0 + 5)[t] == seq![
                            'f',
                            'a',
                            'l',
                            's',
                            'e',
                        ][t] by {
                            assert(s.subrange(i0, i0 + 5)[t] == s[i0 + t]);
                            assert(s[i0 + t] == pv[t]);
                        }
                    }
                }
            }
        },
        JsonV::Num(m) => {
            lemma_num_print(s, i0, m, end);
        },
        JsonV::JStr(t) => {
            assert(s.subrange(i0 + 1, end) =~= esc(t) + seq!['"']) by {
                assert forall|k: int| 0 <= k < end - i0 - 1 implies s.subrange(i0 + 1, end)[k] == (
                esc(t) + seq!['"'])[k] by {
                    assert(s.subrange(i0 + 1, end)[k] == s[i0 + 1 + k]);
                    assert(s[i0 + 1 + k] == pv[1 + k]);
                    assert(pv[1 + k] == (esc(t) + seq!['"'])[k]);
                }
            }
            lemma_str_print(s, i0 + 1, t, end);
        },
        JsonV::Arr(a) => {
            if a.len() == 0 {
                assert(s[i0 + 1] == pv[1]);
                assert(s[i0 + 1] == ']');
                lemma_skip_ws_run(s, i0 + 1, i0 + 1);
                assert(pval(s, i) == Option::Some((JsonV::Arr(Seq::<JsonV>::empty()), i0 + 2)));
                assert(a =~= Seq::<JsonV>::empty());
            } else {
                let dd = (d + 1) as nat;
                let idl1 = ind(dd).len() as int;
                let idl0 = ind(d).len() as int;
                let items = print_items(a, 0, dd);
                let i2 = i0 + 1 + idl1;
                let e1 = i2 + items.len() as int;
                let e2 = e1 + idl0;
                lemma_ind_ws(dd);
                lemma_ind_ws(d);
                assert(pv == seq!['['] + ind(dd) + items + ind(d) + seq![']']);
                assert(end == e2 + 1);
                assert forall|t: int| i0 + 1 <= t < i2 implies is_ws(#[trigger] s[t]) by {
                    assert(s[t] == pv[t - i0]);
                    assert(pv[t - i0] == ind(dd)[t - i0 - 1]);
                }
                assert(s.subrange(i2, e1) =~= items) by {
                    assert forall|t: int| 0 <= t < items.len() implies s.subrange(i2, e1)[t]
                        == items[t] by {
                        assert(s.subrange(i2, e1)[t] == s[i2 + t]);
                        assert(s[i2 + t] == pv[1 + idl1 + t]);
                        assert(pv[1 + idl1 + t] == items[t]);
                    }
                }
                assert forall|t: int| e1 <= t < e2 implies is_ws(#[trigger] s[t]) by {
                    assert(s[t] == pv[t - i0]);
                    assert(pv[t - i0] == ind(d)[t - i0 - (1 + idl1 + items.len())]);
                }
                assert(s[e2] == pv[e2 - i0]);
                assert(s[e2] == ']');
                assert(jv_wf(a[0]));
                lemma_print_first(a[0], dd);
                assert(items[0] == print_val(a[0], dd)[0]);
                assert(s[i2 + 0] == pv[1 + idl1 + 0]);
                assert(s[i2] == items[0]);
                assert(!is_ws(s[i2]));
                lemma_skip_ws_run(s, i0 + 1, i2);
                assert(s[i2] != ']');
                lemma_pitems_print(s, i0 + 1, i2, a, 0, dd, e1, e2);
                assert(a.skip(0) =~= a);
                assert(pval(s, i) == Option::Some((JsonV::Arr(a), e2 + 1)));
            }
        },
        JsonV::Obj(ms) => {
            if ms.len() == 0 {
                assert(s[i0 + 1] == pv[1]);
                assert(s[i0 + 1] == '}');
                lemma_skip_ws_run(s, i0 + 1, i0 + 1);
                assert(pval(s, i) == Option::Some(
                    (JsonV::Obj(Seq::<(Seq<char>, JsonV)>::empty()), i0 + 2),
                ));
                assert(ms =~= Seq::<(Seq<char>, JsonV)>::empty());
            } else {
                let dd = (d + 1) as nat;
                let idl1 = ind(dd).len() as int;
                let idl0 = ind(d).len() as int;
                let mems = print_members(ms, 0, dd);
                let i2 = i0 + 1 + idl1;
                let e1 = i2 + mems.len() as int;
                let e2 = e1 + idl0;
                lemma_ind_ws(dd);
                lemma_ind_ws(d);
                assert(pv == seq!['{'] + ind(dd) + mems + ind(d) + seq!['}']);
                assert(end == e2 + 1);
                assert forall|t: int| i0 + 1 <= t < i2 implies is_ws(#[trigger] s[t]) by {
                    assert(s[t] == pv[t - i0]);
                    assert(pv[t - i0] == ind(dd)[t - i0 - 1]);
                }
                assert(s.subrange(i2, e1) =~= mems) by {
                    assert forall|t: int| 0 <= t < mems.len() implies s.subrange(i2, e1)[t]
                        == mems[t] by {
                        assert(s.subrange(i2, e1)[t] == s[i2 + t]);
                        assert(s[i2 + t] == pv[1 + idl1 + t]);
                        assert(pv[1 + idl1 + t] == mems[t]);
                    }
                }
                assert forall|t: int| e1 <= t < e2 implies is_ws(#[trigger] s[t]) by {
                    assert(s[t] == pv[t - i0]);
                    assert(pv[t - i0] == ind(d)[t - i0 - (1 + idl1 + mems.len())]);
                }
                assert(s[e2] == pv[e2 - i0]);
                assert(s[e2] == '}');
                assert(mems[0] == str_lit(ms[0].0)[0]);
                assert(s[i2 + 0] == pv[1 + idl1 + 0]);
                assert(s[i2] == mems[0]);
                assert(s[i2] == '"');
                lemma_skip_ws_run(s, i0 + 1, i2);
                assert(s[i2] != '}');
                lemma_pmembers_print(s, i0 + 1, i2, ms, 0, dd, e1, e2);
                assert(ms.skip(0) =~= ms);
                assert(pval(s, i) == Option::Some((JsonV::Obj(ms), e2 + 1)));
            }
        },
    }
}

/// Parsing the printed tail of an array from element `k` on, after any
/// whitespace, yields those elements and stops after the `]`.
#[verifier::rlimit(100)]
pub proof fn lemma_pitems_print(
    s: Seq<char>,
    i: int,
    i0: int,
    a: Seq<JsonV>,
    k: int,
    d: nat,
    e1: int,
    e2: int,
)
    requires
        0 <= i <= i0 <= e1 <= e2 < s.len(),
        forall|t: int| i <= t < i0 ==> is_ws(#[trigger] s[t]),
        0 <= k < a.len(),
        s.subrange(i0, e1) == print_items(a, k, d),
        forall|t: int| e1 <= t < e2 ==> is_ws(#[trigger] s[t]),
        s[e2] == ']',
        forall|t: int| k <= t < a.len() ==> jv_wf(#[trigger] a[t]),
    ensures
        pelems(s, i) == Option::Some((a.skip(k), e2 + 1)),
    decreases a, a.len() - k, 1int,
{
    let items = print_items(a, k, d);
    let pv = print_val(a[k], d);
    let mid = i0 + pv.len() as int;
    lemma_print_first(a[k], d);
    assert(e1 - i0 == items.len()) by {
        assert(s.subrange(i0, e1).len() == items.len());
    }
    assert forall|t: int| 0 <= t < items.len() implies s[i0 + t] == items[t] by {
        assert(s.subrange(i0, e1)[t] == s[i0 + t]);
    }
    if k + 1 < a.len() {
        let idl = ind(d).len() as int;
        lemma_ind_ws(d);
        assert(items == pv + seq![','] + ind(d) + print_items(a, k + 1, d));
        assert(s.subrange(i0, mid) =~= pv) by {
            assert forall|t: int| 0 <= t < pv.len() implies s.subrange(i0, mid)[t] == pv[t] by {
                assert(s.subrange(i0, mid)[t] == s[i0 + t]);
                assert(items[t] == pv[t]);
            }
        }
        assert(s[mid] == items[pv.len() as int]);
        assert(s[mid] == ',');
        lemma_pval_print(s, i, i0, a[k], d, mid);
        lemma_skip_ws_run(s, mid, mid);
        let i0b = mid + 1 + idl;
        assert forall|t: int| mid + 1 <= t < i0b implies is_ws(#[trigger] s[t]) by {
            assert(s[t] == items[t - i0]);
            assert(items[t - i0] == ind(d)[t - mid - 1]);
        }
        assert(s.subrange(i0b, e1) =~= print_items(a, k + 1, d)) by {
            assert forall|t: int| 0 <= t < print_items(a, k + 1, d).len() implies s.subrange(
                i0b,
                e1,
            )[t] == print_items(a, k + 1, d)[t] by {
                assert(s.subrange(i0b, e1)[t] == s[i0b + t]);
                assert(s[i0b + t] == items[i0b - i0 + t]);
                assert(items[i0b - i0 + t] == print_items(a, k + 1, d)[t]);
            }
        }
        lemma_pitems_print(s, mid + 1, i0b, a, k + 1, d, e1, e2);
        assert(seq![a[k]] + a.skip(k + 1) =~= a.skip(k));
        assert(pelems(s, i) == Option::Some((a.skip(k), e2 + 1)));
    } else {
        assert(items == pv);
        assert(mid == e1);
        assert(s.subrange(i0, mid) =~= pv);
        if e1 == e2 {
            lemma_pval_print(s, i, i0, a[k], d, mid);
        } else {
            assert(!is_digit(s[e1]) && s[e1] != '.') by {
                assert(is_ws(s[e1]));
            }
            lemma_pval_print(s, i, i0, a[k], d, mid);
        }
        lemma_skip_ws_run(s, e1, e2);
        assert(seq![a[k]] =~= a.skip(k));
        assert(pelems(s, i) == Option::Some((a.skip(k), e2 + 1)));
    }
}

/// Parsing the printed tail of an object from member `k` on, after any
/// whitespace, yields those members and stops after the `}`.
#[verifier::rlimit(100)]
pub proof fn lemma_pmembers_print(
    s: Seq<char>,
    i: int,
    i0: int,
    ms: Seq<(Seq<char>, JsonV)>,
    k: int,
    d: nat,
    e1: int,
    e2: int,
)
    requires
        0 <= i <= i0 <= e1 <= e2 < s.len(),
        forall|t: int| i <= t < i0 ==> is_ws(#[trigger] s[t]),
        0 <= k < ms.len(),
        s.subrange(i0, e1) == print_members(ms, k, d),
        forall|t: int| e1 <= t < e2 ==> is_ws(#[trigger] s[t]),
        s[e2] == '}',
        forall|t: int| k <= t < ms.len() ==> jv_wf(#[trigger] ms[t].1),
    ensures
        pmembers(s, i) == Option::Some((ms.skip(k), e2 + 1)),
    decreases ms, ms.len() - k, 1int,
{
    let mems = print_members(ms, k, d);
    let sl = str_lit(ms[k].0);
    let pv = print_val(ms[k].1, d);
    let one = sl + seq![':', ' '] + pv;
    let jq = i0 + sl.len() as int;
    let mid = i0 + one.len() as int;
    lemma_print_first(ms[k].1, d);
    assert(e1 - i0 == mems.len()) by {
        assert(s.subrange(i0, e1).len() == mems.len());
    }
    assert forall|t: int| 0 <= t < mems.len() implies s[i0 + t] == mems[t] by {
        assert(s.subrange(i0, e1)[t] == s[i0 + t]);
    }
    assert(s[i0 + 0] == mems[0]);
    assert(s[i0] == '"');
    lemma_skip_ws_run(s, i, i0);
    // the key string
    assert(s.subrange(i0 + 1, jq) =~= esc(ms[k].0) + seq!['"']) by {
        assert forall|t: int| 0 <= t < sl.len() - 1 implies s.subrange(i0 + 1, jq)[t] == (esc(
            ms[k].0,
        ) + seq!['"'])[t] by {
            assert(s.subrange(i0 + 1, jq)[t] == s[i0 + 1 + t]);
            assert(s[i0 + 1 + t] == mems[1 + t]);
            assert(mems[1 + t] == one[1 + t]);
            assert(one[1 + t] == sl[1 + t]);
            assert(sl[1 + t] == (esc(ms[k].0) + seq!['"'])[t]);
        }
    }
    lemma_str_print(s, i0 + 1, ms[k].0, jq);
    // the colon and the space
    assert(s[jq] == mems[jq - i0]);
    assert(mems[jq - i0] == one[jq - i0]);
    assert(s[jq] == ':');
    lemma_skip_ws_run(s, jq, jq);
    assert(s[jq + 1] == mems[jq + 1 - i0]);
    assert(mems[jq + 1 - i0] == one[jq + 1 - i0]);
    assert(s[jq + 1] == ' ');
    // the value
    assert(s.subrange(jq + 2, mid) =~= pv) by {
        assert forall|t: int| 0 <= t < pv.len() implies s.subrange(jq + 2, mid)[t] == pv[t] by {
            assert(s.subrange(jq + 2, mid)[t] == s[jq + 2 + t]);
            assert(s[jq + 2 + t] == mems[jq + 2 + t - i0]);
            assert(mems[jq + 2 + t - i0] == one[jq + 2 + t - i0]);
            assert(one[jq + 2 + t - i0] == pv[t]);
        }
    }
    if k + 1 < ms.len() {
        let idl = ind(d).len() as int;
        lemma_ind_ws(d);
        assert(mems == one + seq![','] + ind(d) + print_members(ms, k + 1, d));
        assert(s[mid] == mems[one.len() as int]);
        assert(s[mid] == ',');
        lemma_pval_print(s, jq + 1, jq + 2, ms[k].1, d, mid);
        lemma_skip_ws_run(s, mid, mid);
        let i0b = mid + 1 + idl;
        assert forall|t: int| mid + 1 <= t < i0b implies is_ws(#[trigger] s[t]) by {
            assert(s[t] == mems[t - i0]);
            assert(mems[t - i0] == ind(d)[t - mid - 1]);
        }
        assert(s.subrange(i0b, e1) =~= print_members(ms, k + 1, d)) by {
            assert forall|t: int| 0 <= t < print_members(ms, k + 1, d).len() implies s.subrange(
                i0b,
                e1,
            )[t] == print_members(ms, k + 1, d)[t] by {
                assert(s.subrange(i0b, e1)[t] == s[i0b + t]);
                assert(s[i0b + t] == mems[i0b - i0 + t]);
                assert(mems[i0b - i0 + t] == print_members(ms, k + 1, d)[t]);
            }
        }
        lemma_pmembers_print(s, mid + 1, i0b, ms, k + 1, d, e1, e2);
        assert((ms[k].0, ms[k].1) == ms[k]);
        assert(seq![ms[k]] + ms.skip(k + 1) =~= ms.skip(k));
        assert(pmembers(s, i) == Option::Some((ms.skip(k), e2 + 1)));
    } else {
        assert(mems == one);
        assert(mid == e1);
        if e1 == e2 {
            lemma_pval_print(s, jq + 1, jq + 2, ms[k].1, d, mid);
        } else {
            assert(!is_digit(s[e1]) && s[e1] != '.') by {
                assert(is_ws(s[e1]));
            }
            lemma_pval_print(s, jq + 1, jq + 2, ms[k].1, d, mid);
        }
        lemma_skip_ws_run(s, e1, e2);
        assert((ms[k].0, ms[k].1) == ms[k]);
        assert(seq![ms[k]] =~= ms.skip(k));
        assert(pmembers(s, i) == Option::Some((ms.skip(k), e2 + 1)));
    }
}

/// Round trip of the text layer: parsing a printed document yields the
/// printed value.
pub proof fn lemma_parse_print(j: JsonV)
    requires
        jv_wf(j),
    ensures
        parse_doc(doc_str(j)) == Option::Some(j),
{
    let s = doc_str(j);
    assert(s.subrange(0, s.len() as int) =~= s);
    lemma_pval_print(s, 0, 0, j, 0, s.len() as int);
}

} // verus!
