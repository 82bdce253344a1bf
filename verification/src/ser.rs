//! Printing a JSON value as text: the ghost printer that defines the
//! document form, and the verified executable printer.
//!
//! The form is pretty-printed: arrays and objects put each element on
//! its own line, indented two spaces per depth. Numbers are printed in
//! thousandths-precision decimal notation; a whole number prints with
//! no fractional part.

use vstd::prelude::*;

use crate::json::{
    Json, JsonV, jview, jview_arr, jview_obj, lemma_jview_arr_props, lemma_jview_obj_props,
};

verus! {

pub open spec fn is_ws(c: char) -> bool {
    c == ' ' || c == '\n' || c == '\r' || c == '\t'
}

pub open spec fn is_digit(c: char) -> bool {
    48 <= c as int && c as int <= 57
}

/// The character of one decimal digit.
pub open spec fn digit_char(d: int) -> char
    recommends
        0 <= d < 10,
{
    ((48 + d) as u8) as char
}

/// The numeric value of one digit character.
pub open spec fn digit_val(c: char) -> int {
    c as int - 48
}

/// Ten to the power `k`.
pub open spec fn pow10(k: nat) -> int
    decreases k,
{
    if k == 0 {
        1
    } else {
        10 * pow10((k - 1) as nat)
    }
}

/// The decimal digits of `n`, most significant first.
pub open spec fn dec_str(n: nat) -> Seq<char>
    decreases n,
{
    if n < 10 {
        seq![digit_char(n as int)]
    } else {
        dec_str(n / 10).push(digit_char((n % 10) as int))
    }
}

/// The printed fractional part of a number held in thousandths:
/// empty when it is zero, else a point and three digits.
pub open spec fn frac_str(fr: int) -> Seq<char>
    recommends
        0 <= fr < 1000,
{
    if fr == 0 {
        Seq::empty()
    } else {
        seq!['.', digit_char(fr / 100), digit_char((fr / 10) % 10), digit_char(fr % 10)]
    }
}

/// The printed form of the number `m / 1000`.
pub open spec fn num_str(m: int) -> Seq<char> {
    let a = if m < 0 {
        -m
    } else {
        m
    };
    let sign: Seq<char> = if m < 0 {
        seq!['-']
    } else {
        Seq::empty()
    };
    sign + dec_str((a / 1000) as nat) + frac_str(a % 1000)
}

/// The escape of one string character.
pub open spec fn esc_char(c: char) -> Seq<char> {
    if c == '"' {
        seq!['\\', '"']
    } else if c == '\\' {
        seq!['\\', '\\']
    } else if c == '\n' {
        seq!['\\', 'n']
    } else if c == '\r' {
        seq!['\\', 'r']
    } else if c == '\t' {
        seq!['\\', 't']
    } else {
        seq![c]
    }
}

/// The escaped body of a string.
pub open spec fn esc(s: Seq<char>) -> Seq<char>
    decreases s.len(),
{
    if s.len() == 0 {
        Seq::empty()
    } else {
        esc_char(s[0]) + esc(s.skip(1))
    }
}

/// A quoted, escaped string.
pub open spec fn str_lit(s: Seq<char>) -> Seq<char> {
    seq!['"'] + esc(s) + seq!['"']
}

pub open spec fn spaces(n: nat) -> Seq<char>
    decreases n,
{
    if n == 0 {
        Seq::empty()
    } else {
        seq![' '] + spaces((n - 1) as nat)
    }
}

/// A line break followed by the indentation of depth `d`.
pub open spec fn ind(d: nat) -> Seq<char> {
    seq!['\n'] + spaces(2 * d)
}

/// The printed form of a JSON value at nesting depth `d`.
pub open spec fn print_val(j: JsonV, d: nat) -> Seq<char>
    decreases j, 0int,
{
    match j {
        JsonV::Null => seq!['n', 'u', 'l', 'l'],
        JsonV::Bool(b) => if b {
            seq!['t', 'r', 'u', 'e']
        } else {
            seq!['f', 'a', 'l', 's', 'e']
        },
        JsonV::Num(m) => num_str(m),
        JsonV::JStr(s) => str_lit(s),
        JsonV::Arr(a) => if a.len() == 0 {
            seq!['[', ']']
        } else {
            seq!['['] + ind(d + 1) + print_items(a, 0, d + 1) + ind(d) + seq![']']
        },
        JsonV::Obj(ms) => if ms.len() == 0 {
            seq!['{', '}']
        } else {
            seq!['{'] + ind(d + 1) + print_members(ms, 0, d + 1) + ind(d) + seq!['}']
        },
    }
}

/// The printed elements of an array from index `k` on, separated by
/// commas and line breaks.
pub open spec fn print_items(a: Seq<JsonV>, k: int, d: nat) -> Seq<char>
    decreases a, a.len() - k, 1int,
{
    if !(0 <= k < a.len()) {
        Seq::empty()
    } else if k + 1 < a.len() {
        print_val(a[k], d) + seq![','] + ind(d) + print_items(a, k + 1, d)
    } else {
        print_val(a[k], d)
    }
}

/// The printed members of an object from index `k` on.
pub open spec fn print_members(ms: Seq<(Seq<char>, JsonV)>, k: int, d: nat) -> Seq<char>
    decreases ms, ms.len() - k, 1int,
{
    if !(0 <= k < ms.len()) {
        Seq::empty()
    } else {
        let one = str_lit(ms[k].0) + seq![':', ' '] + print_val(ms[k].1, d);
        if k + 1 < ms.len() {
            one + seq![','] + ind(d) + print_members(ms, k + 1, d)
        } else {
            one
        }
    }
}

/// The whole printed document of a JSON value.
pub open spec fn doc_str(j: JsonV) -> Seq<char> {
    print_val(j, 0)
}

// ---------------------------------------------------------------------
// The executable printer
// ---------------------------------------------------------------------

/// Deepest nesting the executable printer accepts.
pub const PRINT_DEPTH_MAX: usize = 1000000;

/// The value nests at most `b` levels of arrays and objects deep.
pub open spec fn jv_depth_le(j: JsonV, b: int) -> bool
    decreases j,
{
    match j {
        JsonV::Null => true,
        JsonV::Bool(_) => true,
        JsonV::Num(_) => true,
        JsonV::JStr(_) => true,
        JsonV::Arr(a) => b >= 1 && forall|i: int|
            0 <= i < a.len() ==> jv_depth_le(#[trigger] a[i], b - 1),
        JsonV::Obj(ms) => b >= 1 && forall|i: int|
            0 <= i < ms.len() ==> jv_depth_le(#[trigger] ms[i].1, b - 1),
    }
}

/// Escaping one more character appends its escape.
proof fn lemma_esc_snoc(t: Seq<char>, c: char)
    ensures
        esc(t.push(c)) == esc(t) + esc_char(c),
    decreases t.len(),
{
    if t.len() == 0 {
        assert(t.push(c)[0] == c);
        assert(t.push(c).skip(1) =~= Seq::<char>::empty());
        assert(esc(t) == Seq::<char>::empty());
        assert(esc(t.push(c)) == esc_char(c) + esc(t.push(c).skip(1)));
        assert(esc(t.push(c).skip(1)) == Seq::<char>::empty());
        assert(esc(t.push(c)) =~= esc(t) + esc_char(c));
    } else {
        assert(t.push(c)[0] == t[0]);
        assert(t.push(c).skip(1) =~= t.skip(1).push(c));
        lemma_esc_snoc(t.skip(1), c);
        assert(esc(t.push(c)) =~= esc(t) + esc_char(c));
    }
}

/// Appends the decimal digits of `n`.
fn push_dec(n: u64, out: &mut Vec<char>)
    ensures
        final(out)@ == old(out)@ + dec_str(n as nat),
    decreases n,
{
    if n < 10 {
        out.push(((48 + n) as u8) as char);
        assert(out@ =~= old(out)@ + dec_str(n as nat));
    } else {
        push_dec(n / 10, out);
        out.push(((48 + (n % 10)) as u8) as char);
        assert(out@ =~= old(out)@ + dec_str(n as nat));
    }
}

/// Appends the printed form of the number `m / 1000`.
fn push_num(m: i64, out: &mut Vec<char>)
    requires
        crate::model::num_wf(m as int),
    ensures
        final(out)@ == old(out)@ + num_str(m as int),
{
    let a: u64 = if m < 0 {
        out.push('-');
        (-m) as u64
    } else {
        m as u64
    };
    let units: u64 = a / 1000;
    let fr: u64 = a % 1000;
    push_dec(units, out);
    if fr != 0 {
        out.push('.');
        out.push(((48 + fr / 100) as u8) as char);
        out.push(((48 + (fr / 10) % 10) as u8) as char);
        out.push(((48 + fr % 10) as u8) as char);
    }
    assert(out@ =~= old(out)@ + num_str(m as int));
}

/// Appends a quoted, escaped string.
fn push_str_lit(s: &str, out: &mut Vec<char>)
    ensures
        final(out)@ == old(out)@ + str_lit(s@),
{
    out.push('"');
    let n = s.unicode_len();
    let mut i: usize = 0;
    while i < n
        invariant
            n == s@.len(),
            0 <= i <= n,
            out@ == old(out)@ + seq!['"'] + esc(s@.take(i as int)),
        decreases n - i,
    {
        let c = s.get_char(i);
        if c == '"' {
            out.push('\\');
            out.push('"');
        } else if c == '\\' {
            out.push('\\');
            out.push('\\');
        } else if c == '\n' {
            out.push('\\');
            out.push('n');
        } else if c == '\r' {
            out.push('\\');
            out.push('r');
        } else if c == '\t' {
            out.push('\\');
            out.push('t');
        } else {
            out.push(c);
        }
        proof {
            lemma_esc_snoc(s@.take(i as int), c);
            assert(s@.take(i as int).push(c) =~= s@.take(i + 1 as int));
            assert(out@ =~= old(out)@ + seq!['"'] + esc(s@.take(i + 1 as int)));
        }
        i = i + 1;
    }
    out.push('"');
    proof {
        assert(s@.take(n as int) =~= s@);
        assert(out@ =~= old(out)@ + str_lit(s@));
    }
}

/// Appends a line break and the indentation of depth `d`.
fn push_ind(d: usize, out: &mut Vec<char>)
    requires
        d <= PRINT_DEPTH_MAX,
    ensures
        final(out)@ == old(out)@ + ind(d as nat),
{
    out.push('\n');
    let n = 2 * d;
    let mut i: usize = 0;
    while i < n
        invariant
            n == 2 * d,
            0 <= i <= n,
            out@ == old(out)@ + seq!['\n'] + spaces(i as nat),
        decreases n - i,
    {
        out.push(' ');
        proof {
            lemma_spaces_snoc((i + 1) as nat);
        }
        i = i + 1;
    }
    assert(out@ =~= old(out)@ + ind(d as nat));
}

/// A run of spaces grows at its end.
proof fn lemma_spaces_snoc(n: nat)
    requires
        n >= 1,
    ensures
        spaces(n) == spaces((n - 1) as nat).push(' '),
    decreases n,
{
    if n > 1 {
        lemma_spaces_snoc((n - 1) as nat);
        assert(spaces(n) =~= spaces((n - 1) as nat).push(' '));
    } else {
        assert(spaces(1nat) =~= spaces(0nat).push(' '));
    }
}

/// Appends the printed form of a JSON value at depth `d`.
#[verifier::loop_isolation(false)]
#[verifier::rlimit(100)]
pub fn print_json(j: &Json, d: usize, out: &mut Vec<char>)
    requires
        d <= PRINT_DEPTH_MAX,
        jv_depth_le(j@, PRINT_DEPTH_MAX - d),
        crate::inverse::jv_wf(j@),
    ensures
        final(out)@ == old(out)@ + print_val(j@, d as nat),
    decreases j,
{
    match j {
        Json::Null => {
            out.push('n');
            out.push('u');
            out.push('l');
            out.push('l');
            assert(out@ =~= old(out)@ + print_val(j@, d as nat));
        },
        Json::Bool(b) => {
            if *b {
                out.push('t');
                out.push('r');
                out.push('u');
                out.push('e');
            } else {
                out.push('f');
                out.push('a');
                out.push('l');
                out.push('s');
                out.push('e');
            }
            assert(out@ =~= old(out)@ + print_val(j@, d as nat));
        },
        Json::Num(m) => {
            push_num(*m, out);
        },
        Json::JStr(s) => {
            push_str_lit(s.as_str(), out);
        },
        Json::Arr(a) => {
            let ghost av = jview_arr(a@, 0);
            proof {
                lemma_jview_arr_props(a@, 0);
                if a.len() > 0 {
                    assert(crate::codec::jv_arr(j@) == av);
                    crate::inverse::lemma_jv_depth_arr(j@, PRINT_DEPTH_MAX - d);
                    crate::inverse::lemma_jv_wf_arr(j@);
                }
            }
            out.push('[');
            if a.len() == 0 {
                out.push(']');
                assert(print_val(j@, d as nat) =~= seq!['[', ']']);
                assert(out@ =~= old(out)@ + print_val(j@, d as nat));
            } else {
                let dd = d + 1;
                push_ind(dd, out);
                let ghost base = out@;
                let mut k: usize = 0;
                while k + 1 < a.len()
                    invariant
                        0 <= k < a.len(),
                        dd == d + 1,
                        dd <= PRINT_DEPTH_MAX,
                        jv_depth_le(j@, PRINT_DEPTH_MAX - d),
                        j@ == JsonV::Arr(av),
                        crate::inverse::jv_wf(j@),
                        av == jview_arr(a@, 0),
                        av.len() == a.len(),
                        forall|t: int| 0 <= t < a.len() ==> #[trigger] av[t] == jview(a@[t]),
                        out@ + print_items(av, k as int, dd as nat) == base + print_items(
                            av,
                            0,
                            dd as nat,
                        ),
                    decreases a.len() - k,
                {
                    proof {
                        assert(jv_depth_le(av[k as int], PRINT_DEPTH_MAX - d - 1));
                        assert(crate::inverse::jv_wf(av[k as int]));
                    }
                    print_json(&a[k], dd, out);
                    out.push(',');
                    push_ind(dd, out);
                    proof {
                        assert(out@ + print_items(av, k + 1 as int, dd as nat) =~= base
                            + print_items(av, 0, dd as nat));
                    }
                    k = k + 1;
                }
                proof {
                    assert(jv_depth_le(av[k as int], PRINT_DEPTH_MAX - d - 1));
                    assert(crate::inverse::jv_wf(av[k as int]));
                }
                print_json(&a[k], dd, out);
                proof {
                    assert(print_items(av, k as int, dd as nat) == print_val(
                        av[k as int],
                        dd as nat,
                    ));
                    assert(out@ =~= base + print_items(av, 0, dd as nat));
                }
                push_ind(d, out);
                out.push(']');
                assert(out@ =~= old(out)@ + print_val(j@, d as nat));
            }
        },
        Json::Obj(ms) => {
            let ghost mv = jview_obj(ms@, 0);
            proof {
                lemma_jview_obj_props(ms@, 0);
                if ms.len() > 0 {
                    assert(crate::codec::jv_obj(j@) == mv);
                    crate::inverse::lemma_jv_depth_obj(j@, PRINT_DEPTH_MAX - d);
                    crate::inverse::lemma_jv_wf_obj(j@);
                }
            }
            out.push('{');
            if ms.len() == 0 {
                out.push('}');
                assert(print_val(j@, d as nat) =~= seq!['{', '}']);
                assert(out@ =~= old(out)@ + print_val(j@, d as nat));
            } else {
                let dd = d + 1;
                push_ind(dd, out);
                let ghost base = out@;
                let mut k: usize = 0;
                while k + 1 < ms.len()
                    invariant
                        0 <= k < ms.len(),
                        dd == d + 1,
                        dd <= PRINT_DEPTH_MAX,
                        jv_depth_le(j@, PRINT_DEPTH_MAX - d),
                        j@ == JsonV::Obj(mv),
                        crate::inverse::jv_wf(j@),
                        mv == jview_obj(ms@, 0),
                        mv.len() == ms.len(),
                        forall|t: int|
                            0 <= t < ms.len() ==> #[trigger] mv[t] == (
                            ms@[t].0@,
                            jview(ms@[t].1),
                            ),
                        out@ + print_members(mv, k as int, dd as nat) == base + print_members(
                            mv,
                            0,
                            dd as nat,
                        ),
                    decreases ms.len() - k,
                {
                    proof {
                        assert(jv_depth_le(mv[k as int].1, PRINT_DEPTH_MAX - d - 1));
                        assert(crate::inverse::jv_wf(mv[k as int].1));
                    }
                    push_str_lit(ms[k].0.as_str(), out);
                    out.push(':');
                    out.push(' ');
                    print_json(&ms[k].1, dd, out);
                    out.push(',');
                    push_ind(dd, out);
                    proof {
                        assert(out@ + print_members(mv, k + 1 as int, dd as nat) =~= base
                            + print_members(mv, 0, dd as nat));
                    }
                    k = k + 1;
                }
                proof {
                    assert(jv_depth_le(mv[k as int].1, PRINT_DEPTH_MAX - d - 1));
                    assert(crate::inverse::jv_wf(mv[k as int].1));
                }
                push_str_lit(ms[k].0.as_str(), out);
                out.push(':');
                out.push(' ');
                print_json(&ms[k].1, dd, out);
                proof {
                    assert(out@ =~= base + print_members(mv, 0, dd as nat));
                }
                push_ind(d, out);
                out.push('}');
                assert(out@ =~= old(out)@ + print_val(j@, d as nat));
            }
        },
    }
}

} // verus!
