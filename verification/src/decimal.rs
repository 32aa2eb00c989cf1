//! Reading decimal numbers from command output and rounding them to whole
//! numbers, with integer arithmetic on the digits: the value of the text is
//! taken exactly, rounded half away from zero and held to `0..=u32::MAX`.
use vstd::prelude::*;
use crate::text::{
    all_digits, copy_range, digit, digit_value, digits_value, first_index, index_of, is_digit,
    lower, ascii_lowercase,
};

verus! {

pub open spec fn pow10(k: nat) -> nat
    decreases k,
{
    if k == 0 {
        1
    } else {
        10 * pow10((k - 1) as nat)
    }
}

/// The largest result a rounding gives.
pub open spec fn u32_max() -> nat {
    4294967295
}

pub open spec fn cap(v: nat) -> nat {
    if v > u32_max() {
        u32_max()
    } else {
        v
    }
}

/// The whole part of `0.d₁d₂…dₙ × 10^p` for the digit string `digits`.
pub open spec fn whole_part(digits: Seq<char>, p: int) -> nat {
    if p <= 0 {
        0
    } else if p >= digits.len() {
        digits_value(digits) * pow10((p - digits.len()) as nat)
    } else {
        digits_value(digits.subrange(0, p))
    }
}

/// The first digit after the decimal point of `0.d₁d₂…dₙ × 10^p`.
pub open spec fn first_fraction_digit(digits: Seq<char>, p: int) -> nat {
    if 0 <= p < digits.len() {
        digit_value(digits[p])
    } else {
        0
    }
}

/// `0.d₁d₂…dₙ × 10^p` rounded half away from zero.
pub open spec fn rounded(digits: Seq<char>, p: int) -> nat {
    whole_part(digits, p) + if first_fraction_digit(digits, p) >= 5 {
        1nat
    } else {
        0nat
    }
}

/// The digits of a plain decimal `D+`, `D+.D*` or `D*.D+`: its whole digits and
/// its fraction digits.
pub open spec fn plain_decimal(t: Seq<char>) -> Option<(Seq<char>, Seq<char>)> {
    match first_index(t, '.') {
        None => if t.len() > 0 && all_digits(t) {
            Some((t, seq![]))
        } else {
            None
        },
        Some(i) => {
            let w = t.subrange(0, i);
            let f = t.subrange(i + 1, t.len() as int);
            if all_digits(w) && all_digits(f) && w.len() + f.len() > 0 {
                Some((w, f))
            } else {
                None
            }
        },
    }
}

/// A number as `f64::from_str` reads it.
pub enum FloatText {
    NotANumber,
    Infinite { negative: bool },
    Finite { negative: bool, digits: Seq<char>, point: int },
}

/// The exponent of a number: an optional sign, then digits.
pub open spec fn exponent_value(e: Seq<char>) -> Option<int> {
    let (negative, d) = if e.len() > 0 && (e[0] == '+' || e[0] == '-') {
        (e[0] == '-', e.drop_first())
    } else {
        (false, e)
    };
    if d.len() > 0 && all_digits(d) {
        Some(
            if negative {
                -(digits_value(d) as int)
            } else {
                digits_value(d) as int
            },
        )
    } else {
        None
    }
}

/// The first `e` or `E`.
pub open spec fn exponent_mark(t: Seq<char>) -> Option<int> {
    match first_index(lower(t), 'e') {
        Some(i) => Some(i),
        None => None,
    }
}

/// The grammar of `f64::from_str`: an optional sign, then `inf`, `infinity` or
/// `nan` in any case, or a plain decimal with an optional exponent `e`/`E`,
/// sign and digits. `point` is where the decimal point stands in `digits`
/// once the exponent is applied.
pub open spec fn float_text(t: Seq<char>) -> Option<FloatText> {
    let (negative, body) = if t.len() > 0 && (t[0] == '+' || t[0] == '-') {
        (t[0] == '-', t.drop_first())
    } else {
        (false, t)
    };
    let l = lower(body);
    if l == "nan"@ {
        Some(FloatText::NotANumber)
    } else if l == "inf"@ || l == "infinity"@ {
        Some(FloatText::Infinite { negative })
    } else {
        let (m, exponent) = match exponent_mark(body) {
            Some(i) => (body.subrange(0, i), exponent_value(body.subrange(i + 1, body.len() as int))),
            None => (body, Some(0int)),
        };
        match (plain_decimal(m), exponent) {
            (Some((w, f)), Some(x)) => Some(
                FloatText::Finite { negative, digits: w + f, point: w.len() + x },
            ),
            _ => None,
        }
    }
}

/// `value.round().clamp(0.0, u32::MAX as f64) as u32` for the number a text
/// reads as: not-a-number and every negative number give 0, infinity
/// `u32::MAX`.
pub open spec fn rounded_u32(f: FloatText) -> u32 {
    match f {
        FloatText::NotANumber => 0,
        FloatText::Infinite { negative } => if negative {
            0
        } else {
            4294967295
        },
        FloatText::Finite { negative, digits, point } => if negative {
            0
        } else {
            cap(rounded(digits, point)) as u32
        },
    }
}

// ---------------------------------------------------------------------------
// Lemmas
// ---------------------------------------------------------------------------

pub proof fn lemma_pow10_positive(k: nat)
    ensures
        pow10(k) >= 1,
        k >= 10 ==> pow10(k) >= 10000000000,
    decreases k,
{
    if k > 0 {
        lemma_pow10_positive((k - 1) as nat);
    }
    if k == 10 {
        reveal_with_fuel(pow10, 11);
    }
}

pub proof fn lemma_digits_zero(s: Seq<char>)
    requires
        all_digits(s),
    ensures
        digits_value(s) == 0 <==> forall|i: int| 0 <= i < s.len() ==> s[i] == '0',
    decreases s.len(),
{
    if s.len() > 0 {
        assert(all_digits(s.drop_last()));
        lemma_digits_zero(s.drop_last());
        if digits_value(s) == 0 {
            assert forall|i: int| 0 <= i < s.len() implies s[i] == '0' by {
                if i < s.len() - 1 {
                    assert(s[i] == s.drop_last()[i]);
                }
            }
        } else {
            if forall|i: int| 0 <= i < s.len() ==> s[i] == '0' {
                assert forall|i: int| 0 <= i < s.drop_last().len() implies s.drop_last()[i] == '0' by {
                    assert(s[i] == s.drop_last()[i]);
                }
                assert(s.last() == '0');
            }
        }
    }
}

// ---------------------------------------------------------------------------
// Executable reading
// ---------------------------------------------------------------------------

/// `min(v, u32::MAX + 1)`: large enough to tell every value above `u32::MAX`.
pub open spec fn sat(v: nat) -> nat {
    if v > 4294967296 {
        4294967296
    } else {
        v
    }
}

proof fn lemma_sat_step(v: nat, d: nat)
    requires
        d < 10,
    ensures
        sat(v * 10 + d) == sat(sat(v) * 10 + d),
{
    assert(v > 4294967296 ==> v * 10 + d > 4294967296) by (nonlinear_arith)
        requires
            d < 10,
    ;
}

/// `sat` of the value of `digits[0..k]`.
fn saturated_digits(digits: &Vec<char>, k: usize) -> (r: u64)
    requires
        k <= digits.len(),
        all_digits(digits@),
    ensures
        r == sat(digits_value(digits@.subrange(0, k as int))),
{
    let mut v: u64 = 0;
    let mut i: usize = 0;
    assert(digits@.subrange(0, 0) =~= seq![]);
    while i < k
        invariant
            i <= k <= digits.len(),
            all_digits(digits@),
            v == sat(digits_value(digits@.subrange(0, i as int))),
        decreases k - i,
    {
        let ghost pre = digits@.subrange(0, i as int);
        let ghost next = digits@.subrange(0, i + 1);
        assert(next.drop_last() =~= pre);
        assert(next.last() == digits@[i as int]);
        assert(is_digit(digits@[i as int]));
        let d: u64 = (digits[i] as u32 - '0' as u32) as u64;
        proof {
            lemma_sat_step(digits_value(pre), d as nat);
        }
        let w = v * 10 + d;
        v = if w > 4294967296 {
            4294967296
        } else {
            w
        };
        i += 1;
    }
    v
}

/// `min(rounded(digits, p), u32::MAX)`.
pub fn round_digits(digits: &Vec<char>, p: i128) -> (r: u32)
    requires
        all_digits(digits@),
    ensures
        r == cap(rounded(digits@, p as int)),
{
    let n = digits.len();
    let whole: u64 = if p <= 0 {
        0
    } else if p >= n as i128 {
        let mut v = saturated_digits(digits, n);
        assert(digits@.subrange(0, n as int) =~= digits@);
        let mut extra: i128 = p - n as i128;
        let ghost dv = digits_value(digits@);
        proof {
            assert(pow10(0) == 1);
            assert(dv * pow10(0) == dv);
        }
        while extra > 0 && v != 0 && v < 4294967296
            invariant
                extra >= 0,
                extra <= p - n,
                v == sat(dv * pow10((p - n - extra) as nat)),
            decreases extra,
        {
            proof {
                let k = (p - n - extra) as nat;
                assert(pow10(k + 1) == 10 * pow10(k));
                lemma_sat_step(dv * pow10(k), 0);
                assert(dv * pow10(k + 1) == dv * pow10(k) * 10) by (nonlinear_arith)
                    requires
                        pow10(k + 1) == 10 * pow10(k),
                ;
            }
            let w = v * 10;
            v = if w > 4294967296 {
                4294967296
            } else {
                w
            };
            extra = extra - 1;
        }
        proof {
            let k = (p - n - extra) as nat;
            let total = (p - n) as nat;
            if extra > 0 {
                if v == 0 {
                    assert(dv * pow10(k) == 0);
                    lemma_pow10_positive(k);
                    assert(dv == 0) by (nonlinear_arith)
                        requires
                            dv * pow10(k) == 0,
                            pow10(k) >= 1,
                    ;
                    assert(dv * pow10(total) == 0) by (nonlinear_arith)
                        requires
                            dv == 0,
                    ;
                } else {
                    lemma_pow10_monotone(k, total);
                    assert(dv * pow10(total) >= dv * pow10(k)) by (nonlinear_arith)
                        requires
                            pow10(total) >= pow10(k),
                    ;
                }
            }
        }
        v
    } else {
        saturated_digits(digits, p as usize)
    };
    let up: bool = 0 <= p && p < n as i128 && digits[p as usize] >= '5';
    proof {
        if 0 <= p < n {
            assert(is_digit(digits@[p as int]));
        }
    }
    let total: u64 = if up {
        whole + 1
    } else {
        whole
    };
    if total > 4294967295 {
        4294967295
    } else {
        total as u32
    }
}

proof fn lemma_pow10_monotone(a: nat, b: nat)
    requires
        a <= b,
    ensures
        pow10(a) <= pow10(b),
    decreases b,
{
    if a < b {
        lemma_pow10_monotone(a, (b - 1) as nat);
        lemma_pow10_positive((b - 1) as nat);
    }
}

pub fn only_digits(s: &Vec<char>) -> (r: bool)
    ensures
        r == all_digits(s@),
{
    let mut i: usize = 0;
    while i < s.len()
        invariant
            i <= s.len(),
            forall|j: int| 0 <= j < i ==> is_digit(#[trigger] s@[j]),
        decreases s.len() - i,
    {
        if !digit(s[i]) {
            return false;
        }
        i += 1;
    }
    true
}

pub fn read_plain_decimal(t: &Vec<char>) -> (r: Option<(Vec<char>, Vec<char>)>)
    ensures
        r matches Some((w, f)) ==> plain_decimal(t@) == Some((w@, f@)),
        r is None ==> plain_decimal(t@) is None,
{
    match index_of(t, '.') {
        None => {
            if t.len() > 0 && only_digits(t) {
                Some((copy_range(t, 0, t.len()), Vec::new()))
            } else {
                None
            }
        },
        Some(i) => {
            let w = copy_range(t, 0, i);
            let f = copy_range(t, i + 1, t.len());
            if only_digits(&w) && only_digits(&f) && (w.len() > 0 || f.len() > 0) {
                Some((w, f))
            } else {
                None
            }
        },
    }
}

/// Exponents beyond this magnitude put the decimal point far outside any
/// digit string.
pub open spec fn exponent_limit() -> nat {
    0x400000000000000000
}

pub open spec fn sat_exponent(v: nat) -> nat {
    if v > exponent_limit() {
        exponent_limit()
    } else {
        v
    }
}

proof fn lemma_sat_exponent_step(v: nat, d: nat)
    requires
        d < 10,
    ensures
        sat_exponent(v * 10 + d) == sat_exponent(sat_exponent(v) * 10 + d),
{
    assert(v > exponent_limit() ==> v * 10 + d > exponent_limit()) by (nonlinear_arith)
        requires
            d < 10,
    ;
}

/// The sign and the magnitude (held to `exponent_limit()`) of an exponent.
fn read_exponent(e: &Vec<char>) -> (r: Option<(bool, u128)>)
    ensures
        r matches Some((negative, m)) ==> exponent_value(e@) matches Some(x) && (negative ==> x
            <= 0) && (!negative ==> x >= 0) && m == sat_exponent(
            if x < 0 {
                (-x) as nat
            } else {
                x as nat
            },
        ),
        r is None ==> exponent_value(e@) is None,
{
    let signed = e.len() > 0 && (e[0] == '+' || e[0] == '-');
    let negative = signed && e[0] == '-';
    let from: usize = if signed {
        1
    } else {
        0
    };
    let d = copy_range(e, from, e.len());
    proof {
        if signed {
            assert(d@ =~= e@.drop_first());
        } else {
            assert(d@ =~= e@);
        }
    }
    if d.len() == 0 || !only_digits(&d) {
        return None;
    }
    let mut m: u128 = 0;
    let mut i: usize = 0;
    assert(d@.subrange(0, 0) =~= seq![]);
    while i < d.len()
        invariant
            i <= d.len(),
            all_digits(d@),
            m == sat_exponent(digits_value(d@.subrange(0, i as int))),
        decreases d.len() - i,
    {
        let ghost pre = d@.subrange(0, i as int);
        let ghost next = d@.subrange(0, i + 1);
        assert(next.drop_last() =~= pre);
        assert(next.last() == d@[i as int]);
        assert(is_digit(d@[i as int]));
        let dv: u128 = (d[i] as u32 - '0' as u32) as u128;
        proof {
            lemma_sat_exponent_step(digits_value(pre), dv as nat);
        }
        let w = m * 10 + dv;
        m = if w > 0x400000000000000000 {
            0x400000000000000000
        } else {
            w
        };
        i += 1;
    }
    assert(d@.subrange(0, d.len() as int) =~= d@);
    Some((negative, m))
}

/// Far from the digits, the point decides the rounding alone: far to the
/// left it gives 0, far to the right `u32::MAX` unless every digit is 0.
proof fn lemma_far_point(digits: Seq<char>, p: int, q: int)
    requires
        all_digits(digits),
        (p < 0 && q < 0) || (p >= digits.len() + 11 && q >= digits.len() + 11),
    ensures
        cap(rounded(digits, p)) == cap(rounded(digits, q)),
{
    if p >= digits.len() + 11 {
        let dv = digits_value(digits);
        lemma_pow10_positive((p - digits.len()) as nat);
        lemma_pow10_positive((q - digits.len()) as nat);
        if dv > 0 {
            assert(dv * pow10((p - digits.len()) as nat) >= pow10((p - digits.len()) as nat))
                by (nonlinear_arith)
                requires
                    dv > 0,
            ;
            assert(dv * pow10((q - digits.len()) as nat) >= pow10((q - digits.len()) as nat))
                by (nonlinear_arith)
                requires
                    dv > 0,
            ;
        } else {
            assert(dv * pow10((p - digits.len()) as nat) == 0) by (nonlinear_arith)
                requires
                    dv == 0,
            ;
            assert(dv * pow10((q - digits.len()) as nat) == 0) by (nonlinear_arith)
                requires
                    dv == 0,
            ;
        }
    }
}

pub open spec fn parsed_rounded(t: Seq<char>) -> Option<u32> {
    match float_text(t) {
        Some(f) => Some(rounded_u32(f)),
        None => None,
    }
}

/// What `t.parse::<f64>()` gives, rounded and held to `0..=u32::MAX` as
/// `round().clamp(0.0, u32::MAX as f64) as u32` does.
pub fn parse_rounded(t: &Vec<char>) -> (r: Option<u32>)
    ensures
        r == parsed_rounded(t@),
{
    let signed = t.len() > 0 && (t[0] == '+' || t[0] == '-');
    let negative = signed && t[0] == '-';
    let from: usize = if signed {
        1
    } else {
        0
    };
    let body = copy_range(t, from, t.len());
    proof {
        if signed {
            assert(body@ =~= t@.drop_first());
        } else {
            assert(body@ =~= t@);
        }
    }
    let l = ascii_lowercase(&body);
    if crate::text::is(&l, "nan") {
        return Some(0);
    }
    if crate::text::is(&l, "inf") || crate::text::is(&l, "infinity") {
        return Some(
            if negative {
                0
            } else {
                4294967295
            },
        );
    }
    let mark = index_of(&l, 'e');
    let ghost b = body@;
    proof {
        assert(exponent_mark(b) == match mark {
            Some(i) => Some(i as int),
            None => None::<int>,
        });
    }
    let (m, exponent): (Vec<char>, Option<(bool, u128)>) = match mark {
        Some(i) => {
            assert(l@.len() == body@.len());
            let e = copy_range(&body, i + 1, body.len());
            (copy_range(&body, 0, i), read_exponent(&e))
        },
        None => (body, Some((false, 0))),
    };
    let (w, f) = match read_plain_decimal(&m) {
        Some(parts) => parts,
        None => return None,
    };
    let (exp_negative, magnitude) = match exponent {
        Some(x) => x,
        None => return None,
    };
    let ghost xe: int = match mark {
        Some(i) => exponent_value(b.subrange(i + 1, b.len() as int))->0,
        None => 0,
    };
    assert(magnitude == sat_exponent(
        if xe < 0 {
            (-xe) as nat
        } else {
            xe as nat
        },
    ));
    assert(exp_negative ==> xe <= 0);
    assert(!exp_negative ==> xe >= 0);
    if negative {
        return Some(0);
    }
    let mut digits = w;
    let whole_len = digits.len();
    crate::text::append_chars(&mut digits, &f);
    proof {
        assert(all_digits(digits@));
    }
    let point: i128 = if exp_negative {
        whole_len as i128 - magnitude as i128
    } else {
        whole_len as i128 + magnitude as i128
    };
    let r = round_digits(&digits, point);
    proof {
        let x = whole_len + xe;
        assert(float_text(t@) == Some(FloatText::Finite { negative: false, digits: digits@, point: x }));
        if magnitude < exponent_limit() {
            assert(x == point);
        } else {
            assert(digits.len() + 11 < exponent_limit());
            if exp_negative {
                assert(x < 0 && point < 0);
            } else {
                assert(x >= digits.len() + 11 && point >= digits.len() + 11);
            }
            lemma_far_point(digits@, x, point as int);
        }
    }
    Some(r)
}

} // verus!
