//! Decimal millisecond fields read as whole nanoseconds.
//!
//! A field is an optional sign, digits with an optional `.` among or after
//! them (at least one digit in all), and an optional exponent: `e` or `E`, an
//! optional sign and digits. Its value is truncated to whole nanoseconds.

use vstd::prelude::*;

verus! {

pub open spec fn is_digit(c: char) -> bool {
    '0' <= c && c <= '9'
}

pub open spec fn digit_value(c: char) -> int {
    c as int - '0' as int
}

/// Value of a run of decimal digits.
pub open spec fn digits_value(s: Seq<char>) -> int
    decreases s.len(),
{
    if s.len() == 0 {
        0
    } else {
        10 * digits_value(s.drop_last()) + digit_value(s.last())
    }
}

pub open spec fn all_digits(s: Seq<char>) -> bool {
    forall|i: int| 0 <= i < s.len() ==> is_digit(#[trigger] s[i])
}

/// Number of leading digits.
pub open spec fn digit_run(s: Seq<char>) -> int
    decreases s.len(),
{
    if s.len() == 0 || !is_digit(s[0]) {
        0
    } else {
        1 + digit_run(s.drop_first())
    }
}

pub open spec fn pow10(n: int) -> int
    decreases n,
{
    if n <= 0 {
        1
    } else {
        10 * pow10(n - 1)
    }
}

/// Sign and rest of a field.
pub open spec fn split_sign(s: Seq<char>) -> (bool, Seq<char>) {
    if s.len() > 0 && (s[0] == '+' || s[0] == '-') {
        (s[0] == '-', s.drop_first())
    } else {
        (false, s)
    }
}

/// Sign, integer digits, fraction digits and exponent of a decimal number,
/// or `None` where the field is not one.
pub open spec fn decimal_parts(s: Seq<char>) -> Option<(bool, Seq<char>, Seq<char>, int)> {
    let (neg, body) = split_sign(s);
    let d1 = digit_run(body);
    let rest1 = body.skip(d1);
    let has_dot = rest1.len() > 0 && rest1[0] == '.';
    let after = if has_dot {
        rest1.drop_first()
    } else {
        rest1
    };
    let d2 = if has_dot {
        digit_run(after)
    } else {
        0
    };
    let rest2 = after.skip(d2);
    if d1 + d2 == 0 {
        None
    } else if rest2.len() == 0 {
        Some((neg, body.take(d1), after.take(d2), 0))
    } else if rest2[0] != 'e' && rest2[0] != 'E' {
        None
    } else {
        let (eneg, edigits) = split_sign(rest2.drop_first());
        if edigits.len() == 0 || !all_digits(edigits) {
            None
        } else {
            Some((neg, body.take(d1), after.take(d2), if eneg {
                -digits_value(edigits)
            } else {
                digits_value(edigits)
            }))
        }
    }
}

/// `digits_value(m) * 10^shift`, rounded down.
pub open spec fn shifted_value(m: Seq<char>, shift: int) -> int {
    if shift >= 0 {
        digits_value(m) * pow10(shift)
    } else if m.len() + shift > 0 {
        digits_value(m.take(m.len() + shift))
    } else {
        0
    }
}

/// A decimal millisecond field: its sign, its magnitude in whole nanoseconds
/// (rounded down), and whether its exact value is non-zero; `None` where it is
/// not a number or the nanoseconds exceed `u64::MAX`.
pub open spec fn field_ns(s: Seq<char>) -> Option<(bool, u64, bool)> {
    match decimal_parts(s) {
        Some((neg, ip, fp, x)) => {
            let m = ip + fp;
            let v = shifted_value(m, x + 6 - fp.len());
            if 0 <= v <= u64::MAX {
                Some((neg, v as u64, digits_value(m) > 0))
            } else {
                None
            }
        },
        None => None,
    }
}

proof fn lemma_digit_run_is(s: Seq<char>, i: int)
    requires
        0 <= i <= s.len(),
        i < s.len() ==> !is_digit(s[i]),
        forall|k: int| 0 <= k < i ==> is_digit(s[k]),
    ensures
        digit_run(s) == i,
    decreases s.len(),
{
    if s.len() > 0 && i > 0 {
        assert forall|k: int| 0 <= k < i - 1 implies is_digit(s.drop_first()[k]) by {
            assert(s.drop_first()[k] == s[k + 1]);
        }
        lemma_digit_run_is(s.drop_first(), i - 1);
    }
}

proof fn lemma_digits_value_nonneg(s: Seq<char>)
    requires
        all_digits(s),
    ensures
        digits_value(s) >= 0,
    decreases s.len(),
{
    if s.len() > 0 {
        lemma_digits_value_nonneg(s.drop_last());
    }
}

proof fn lemma_pow10(n: int)
    requires
        n >= 0,
    ensures
        pow10(n) >= 1,
        n >= 20 ==> pow10(n) > u64::MAX,
    decreases n,
{
    if n > 0 {
        lemma_pow10(n - 1);
        if n == 20 {
            reveal_with_fuel(pow10, 21);
            assert(pow10(20) == 100_000_000_000_000_000_000);
        }
    }
}

/// Largest value `scan_digits` accepts as a cap.
pub const SCAN_CAP_LIMIT: u128 = 0x10_0000_0000_0000_0000_0000_0000;

/// Scans the digits that start at `cs[from]`: where they end, and their value
/// unless it exceeds `cap` (`big`).
fn scan_digits(cs: &Vec<char>, from: usize, to: usize, cap: u128) -> (r: (usize, u128, bool))
    requires
        from <= to <= cs.len(),
        cap <= SCAN_CAP_LIMIT,
    ensures
        from <= r.0 <= to,
        digit_run(cs@.subrange(from as int, to as int)) == r.0 - from,
        all_digits(cs@.subrange(from as int, r.0 as int)),
        !r.2 ==> r.1 == digits_value(cs@.subrange(from as int, r.0 as int)) && r.1 <= cap,
        r.2 ==> digits_value(cs@.subrange(from as int, r.0 as int)) > cap,
{
    let mut acc: u128 = 0;
    let mut big = false;
    let mut j = from;
    while j < to && '0' <= cs[j] && cs[j] <= '9'
        invariant
            from <= j <= to <= cs.len(),
            cap <= SCAN_CAP_LIMIT,
            forall|k: int| from <= k < j ==> is_digit(cs@[k]),
            !big ==> acc == digits_value(cs@.subrange(from as int, j as int)),
            !big ==> acc <= cap,
            big ==> digits_value(cs@.subrange(from as int, j as int)) > cap,
        decreases to - j,
    {
        proof {
            let p = cs@.subrange(from as int, j + 1);
            assert(p.drop_last() =~= cs@.subrange(from as int, j as int));
            assert forall|k: int| 0 <= k < p.drop_last().len() implies is_digit(#[trigger] p.drop_last()[k]) by {
                assert(p.drop_last()[k] == cs@[from + k]);
            }
            lemma_digits_value_nonneg(p.drop_last());
        }
        if !big {
            acc = acc * 10 + (cs[j] as u128 - '0' as u128);
            if acc > cap {
                big = true;
            }
        }
        j = j + 1;
    }
    proof {
        let body = cs@.subrange(from as int, to as int);
        assert forall|k: int| 0 <= k < j - from implies is_digit(body[k]) by {
            assert(body[k] == cs@[from + k]);
        }
        lemma_digit_run_is(body, j - from);
        let run = cs@.subrange(from as int, j as int);
        assert forall|k: int| 0 <= k < run.len() implies is_digit(#[trigger] run[k]) by {
            assert(run[k] == cs@[from + k]);
        }
    }
    (j, acc, big)
}

/// The value of the first `keep` digits of `cs[b..j1]` followed by
/// `cs[f0..j2]`, unless it exceeds `u64::MAX` (`big`).
fn mantissa_prefix(cs: &Vec<char>, b: usize, j1: usize, f0: usize, j2: usize, keep: usize) -> (r: (
    u128,
    bool,
))
    requires
        b <= j1 <= f0 <= j2 <= cs.len(),
        all_digits(cs@.subrange(b as int, j1 as int)),
        all_digits(cs@.subrange(f0 as int, j2 as int)),
        keep <= (j1 - b) + (j2 - f0),
    ensures
        ({
            let m = cs@.subrange(b as int, j1 as int) + cs@.subrange(f0 as int, j2 as int);
            &&& !r.1 ==> r.0 == digits_value(m.take(keep as int)) && r.0 <= u64::MAX
            &&& r.1 ==> digits_value(m.take(keep as int)) > u64::MAX
        }),
{
    let ghost m = cs@.subrange(b as int, j1 as int) + cs@.subrange(f0 as int, j2 as int);
    let n1 = j1 - b;
    let mut acc: u128 = 0;
    let mut big = false;
    let mut t: usize = 0;
    assert(m.take(0) =~= Seq::<char>::empty());
    while t < keep
        invariant
            t <= keep <= m.len(),
            n1 == j1 - b,
            m == cs@.subrange(b as int, j1 as int) + cs@.subrange(f0 as int, j2 as int),
            b <= j1 <= f0 <= j2 <= cs.len(),
            all_digits(cs@.subrange(b as int, j1 as int)),
            all_digits(cs@.subrange(f0 as int, j2 as int)),
            !big ==> acc == digits_value(m.take(t as int)) && acc <= u64::MAX,
            big ==> digits_value(m.take(t as int)) > u64::MAX,
        decreases keep - t,
    {
        let pos = if t < n1 {
            b + t
        } else {
            f0 + (t - n1)
        };
        proof {
            if t < n1 {
                assert(m[t as int] == cs@.subrange(b as int, j1 as int)[t as int]);
                assert(is_digit(cs@.subrange(b as int, j1 as int)[t as int]));
            } else {
                assert(m[t as int] == cs@.subrange(f0 as int, j2 as int)[t - n1]);
                assert(is_digit(cs@.subrange(f0 as int, j2 as int)[t - n1]));
            }
            assert(m[t as int] == cs@[pos as int]);
            let p = m.take(t + 1);
            assert(p.drop_last() =~= m.take(t as int));
            assert(p.last() == m[t as int]);
            assert forall|k: int| 0 <= k < p.drop_last().len() implies is_digit(#[trigger] p.drop_last()[k]) by {
                assert(p.drop_last()[k] == m[k]);
                if k < n1 {
                    assert(m[k] == cs@.subrange(b as int, j1 as int)[k]);
                } else {
                    assert(m[k] == cs@.subrange(f0 as int, j2 as int)[k - n1]);
                }
            }
            lemma_digits_value_nonneg(p.drop_last());
        }
        if !big {
            acc = acc * 10 + (cs[pos] as u128 - '0' as u128);
            if acc > u64::MAX as u128 {
                big = true;
            }
        }
        t = t + 1;
    }
    (acc, big)
}

/// The exponent written as a sign and a magnitude.
pub open spec fn signed_exp(neg: bool, v: int) -> int {
    if neg {
        -v
    } else {
        v
    }
}

/// Where the parts of a decimal field lie: sign, integer digits `b..j1`,
/// fraction digits `f0..j2`, exponent sign and magnitude (saturated above
/// 2^66, `xbig`).
#[verifier::rlimit(80)]
fn field_parts(cs: &Vec<char>, from: usize, to: usize) -> (r: Option<
    (bool, usize, usize, usize, usize, bool, u128, bool),
>)
    requires
        from <= to <= cs.len(),
    ensures
        r is None ==> decimal_parts(cs@.subrange(from as int, to as int)) is None,
        r matches Some((neg, b, j1, f0, j2, x_neg, xv, xbig)) ==> {
            &&& from <= b <= j1 <= f0 <= j2 <= to
            &&& all_digits(cs@.subrange(b as int, j1 as int))
            &&& all_digits(cs@.subrange(f0 as int, j2 as int))
            &&& (j1 - b) + (j2 - f0) > 0
            &&& decimal_parts(cs@.subrange(from as int, to as int)) matches Some((n, ip, fp, x)) && n
                == neg && ip == cs@.subrange(b as int, j1 as int) && fp == cs@.subrange(
                f0 as int,
                j2 as int,
            ) && (!xbig ==> x == signed_exp(x_neg, xv as int) && xv <= 0x4_0000_0000_0000_0000)
                && (xbig && x_neg ==> x < -0x4_0000_0000_0000_0000) && (xbig && !x_neg ==> x
                > 0x4_0000_0000_0000_0000)
        },
{
    let ghost s = cs@.subrange(from as int, to as int);
    let signed = from < to && (cs[from] == '+' || cs[from] == '-');
    let negative = from < to && cs[from] == '-';
    let b = if signed {
        from + 1
    } else {
        from
    };
    let ghost body = cs@.subrange(b as int, to as int);
    assert(split_sign(s) == (negative, body)) by {
        if signed {
            assert(s.drop_first() =~= body);
        } else {
            assert(s =~= body);
        }
    }
    let (j1, _, _) = scan_digits(cs, b, to, 0);
    assert(body.take(j1 - b) =~= cs@.subrange(b as int, j1 as int));
    assert(body.skip(j1 - b) =~= cs@.subrange(j1 as int, to as int));
    let has_dot = j1 < to && cs[j1] == '.';
    let f0 = if has_dot {
        j1 + 1
    } else {
        j1
    };
    let ghost after = cs@.subrange(f0 as int, to as int);
    assert(has_dot ==> cs@.subrange(j1 as int, to as int).drop_first() =~= after);
    assert(!has_dot ==> cs@.subrange(j1 as int, to as int) =~= after);
    let j2 = if has_dot {
        let (e, _, _) = scan_digits(cs, f0, to, 0);
        e
    } else {
        j1
    };
    assert(after.take(j2 - f0) =~= cs@.subrange(f0 as int, j2 as int));
    assert(after.skip(j2 - f0) =~= cs@.subrange(j2 as int, to as int));
    assert(!has_dot ==> all_digits(cs@.subrange(f0 as int, j2 as int)));
    if (j1 - b) + (j2 - f0) == 0 {
        return None;
    }
    if j2 == to {
        assert(decimal_parts(s) == Some((negative, cs@.subrange(b as int, j1 as int), cs@.subrange(f0 as int, j2 as int), 0int)));
        return Some((negative, b, j1, f0, j2, false, 0, false));
    }
    if cs[j2] != 'e' && cs[j2] != 'E' {
        return None;
    }
    assert(cs@.subrange(j2 as int, to as int).drop_first() =~= cs@.subrange(j2 + 1, to as int));
    assert(cs@.subrange(j2 as int, to as int)[0] == cs@[j2 as int]);
    match exponent_part(cs, j2, to) {
        None => None,
        Some((x_neg, v, vb)) => Some((negative, b, j1, f0, j2, x_neg, v, vb)),
    }
}

/// The exponent that starts with the `e` or `E` at `cs[j2]`: its sign and its
/// magnitude, saturated above 2^66 (`big`).
fn exponent_part(cs: &Vec<char>, j2: usize, to: usize) -> (r: Option<(bool, u128, bool)>)
    requires
        j2 < to <= cs.len(),
        cs@[j2 as int] == 'e' || cs@[j2 as int] == 'E',
    ensures
        ({
            let (eneg, edigits) = split_sign(cs@.subrange(j2 + 1, to as int));
            &&& r is None <==> (edigits.len() == 0 || !all_digits(edigits))
            &&& r matches Some((x_neg, v, big)) ==> x_neg == eneg && (!big ==> v == digits_value(edigits)
                && v <= 0x4_0000_0000_0000_0000) && (big ==> digits_value(edigits) > 0x4_0000_0000_0000_0000)
        }),
{
    let e0 = j2 + 1;
    let ghost rest3 = cs@.subrange(e0 as int, to as int);
    assert(cs@.subrange(j2 as int, to as int).drop_first() =~= rest3);
    let esigned = e0 < to && (cs[e0] == '+' || cs[e0] == '-');
    let x_neg = e0 < to && cs[e0] == '-';
    let ed = if esigned {
        e0 + 1
    } else {
        e0
    };
    let ghost edigits = cs@.subrange(ed as int, to as int);
    assert(split_sign(rest3) == (x_neg, edigits)) by {
        if esigned {
            assert(rest3.drop_first() =~= edigits);
        } else {
            assert(rest3 =~= edigits);
        }
    }
    let (j3, v, vb) = scan_digits(cs, ed, to, 0x4_0000_0000_0000_0000);
    if j3 != to || j3 == ed {
        proof {
            if j3 != to {
                assert(edigits[j3 - ed] == cs@[j3 as int]);
                assert(!is_digit(edigits[j3 - ed])) by {
                    lemma_digit_run_stops(cs@.subrange(ed as int, to as int), j3 - ed);
                }
            }
        }
        return None;
    }
    assert(edigits =~= cs@.subrange(ed as int, j3 as int));
    Some((x_neg, v, vb))
}

proof fn lemma_digit_run_stops(s: Seq<char>, i: int)
    requires
        digit_run(s) == i,
        i < s.len(),
    ensures
        !is_digit(s[i]),
    decreases s.len(),
{
    if i > 0 {
        assert(s.len() > 0 && is_digit(s[0]));
        assert(digit_run(s.drop_first()) == i - 1);
        lemma_digit_run_stops(s.drop_first(), i - 1);
        assert(s.drop_first()[i - 1] == s[i]);
    } else if is_digit(s[0]) {
        lemma_digit_run_nonneg(s.drop_first());
    }
}

proof fn lemma_digit_run_nonneg(s: Seq<char>)
    ensures
        digit_run(s) >= 0,
    decreases s.len(),
{
    if s.len() > 0 {
        lemma_digit_run_nonneg(s.drop_first());
    }
}

/// `shifted_value(m, shift)` where it fits a `u64`, for the mantissa
/// `m = cs[b..j1] + cs[f0..j2]` of value `d` (unless `dbig`).
fn scale_mantissa(
    cs: &Vec<char>,
    b: usize,
    j1: usize,
    f0: usize,
    j2: usize,
    d: u128,
    dbig: bool,
    shift: i128,
) -> (r: Option<u64>)
    requires
        b <= j1 <= f0 <= j2 <= cs.len(),
        all_digits(cs@.subrange(b as int, j1 as int)),
        all_digits(cs@.subrange(f0 as int, j2 as int)),
        ({
            let m = cs@.subrange(b as int, j1 as int) + cs@.subrange(f0 as int, j2 as int);
            &&& digits_value(m) >= 0
            &&& !dbig ==> d == digits_value(m) && d <= u64::MAX
            &&& dbig ==> digits_value(m) > u64::MAX
        }),
    ensures
        ({
            let v = shifted_value(cs@.subrange(b as int, j1 as int) + cs@.subrange(f0 as int, j2 as int), shift as int);
            &&& r matches Some(x) ==> x == v
            &&& r is None ==> !(0 <= v <= u64::MAX)
        }),
{
    let ghost m = cs@.subrange(b as int, j1 as int) + cs@.subrange(f0 as int, j2 as int);
    let nm = (j1 - b) + (j2 - f0);
    if shift >= 0 {
        if !dbig && d == 0 {
            assert(digits_value(m) * pow10(shift as int) == 0) by (nonlinear_arith)
                requires digits_value(m) == 0;
            assert(shifted_value(m, shift as int) == 0);
            return Some(0);
        }
        if dbig || shift >= 20 {
            proof {
                lemma_pow10(shift as int);
                assert(digits_value(m) * pow10(shift as int) >= digits_value(m)) by (nonlinear_arith)
                    requires digits_value(m) >= 1, pow10(shift as int) >= 1;
                assert(digits_value(m) * pow10(shift as int) >= pow10(shift as int)) by (nonlinear_arith)
                    requires digits_value(m) >= 1, pow10(shift as int) >= 1;
            }
            assert(shifted_value(m, shift as int) > u64::MAX);
            return None;
        }
        let mut v: u128 = d;
        let mut c: i128 = 0;
        assert(pow10(0) == 1);
        while c < shift
            invariant
                0 <= c <= shift < 20,
                v == digits_value(m) * pow10(c as int),
                v <= u64::MAX,
                digits_value(m) >= 1,
                m == cs@.subrange(b as int, j1 as int) + cs@.subrange(f0 as int, j2 as int),
            decreases shift - c,
        {
            assert(pow10(c + 1) == 10 * pow10(c as int));
            if v > (u64::MAX / 10) as u128 {
                proof {
                    let dm = digits_value(m);
                    let (p1, p2) = (pow10(c + 1), pow10(shift - (c + 1)));
                    lemma_pow10(shift - (c + 1));
                    lemma_pow10(c + 1);
                    lemma_pow10_split(c + 1, shift - (c + 1));
                    assert(dm * p1 == 10 * v) by (nonlinear_arith)
                        requires v == dm * pow10(c as int), p1 == 10 * pow10(c as int);
                    assert(dm * pow10(shift as int) >= dm * p1) by (nonlinear_arith)
                        requires pow10(shift as int) == p1 * p2, p2 >= 1, dm >= 1, p1 >= 1;
                    assert(10 * v > u64::MAX);
                    assert(shifted_value(m, shift as int) > u64::MAX);
                }
                return None;
            }
            v = v * 10;
            assert(v == digits_value(m) * pow10(c + 1)) by (nonlinear_arith)
                requires v == 10 * (digits_value(m) * pow10(c as int)), pow10(c + 1) == 10 * pow10(c as int);
            c = c + 1;
        }
        assert(c == shift);
        assert(shifted_value(m, shift as int) == v);
        return Some(v as u64);
    }
    assert(m.len() == nm);
    if shift <= -(nm as i128) {
        assert(shifted_value(m, shift as int) == 0);
        return Some(0);
    }
    let keep = (nm as i128 + shift) as usize;
    let (v, vbig) = mantissa_prefix(cs, b, j1, f0, j2, keep);
    assert(keep as int == m.len() + shift);
    assert(shifted_value(m, shift as int) == digits_value(m.take(keep as int)));
    if vbig {
        return None;
    }
    Some(v as u64)
}

/// Reads `cs[from..to]` as a decimal millisecond value.
pub fn parse_field_ns(cs: &Vec<char>, from: usize, to: usize) -> (r: Option<(bool, u64, bool)>)
    requires
        from <= to <= cs.len(),
    ensures
        r == field_ns(cs@.subrange(from as int, to as int)),
{
    match field_parts(cs, from, to) {
        None => None,
        Some((negative, b, j1, f0, j2, x_neg, xv, xbig)) => {
            let ghost ip = cs@.subrange(b as int, j1 as int);
            let ghost fp = cs@.subrange(f0 as int, j2 as int);
            let ghost m = ip + fp;
            let nm = (j1 - b) + (j2 - f0);
            assert(m.take(nm as int) =~= m);
            let (d, dbig) = mantissa_prefix(cs, b, j1, f0, j2, nm);
            let positive = dbig || d > 0;
            proof {
                assert(all_digits(m)) by {
                    assert forall|k: int| 0 <= k < m.len() implies is_digit(#[trigger] m[k]) by {
                        if k < ip.len() {
                            assert(m[k] == ip[k]);
                        } else {
                            assert(m[k] == fp[k - ip.len()]);
                        }
                    }
                }
                lemma_digits_value_nonneg(m);
            }
            if xbig {
                let ghost x = choose|x: int| decimal_parts(cs@.subrange(from as int, to as int)) == Some((negative, ip, fp, x));
                if !x_neg {
                    if positive {
                        proof {
                            lemma_pow10(x + 6 - fp.len());
                            assert(digits_value(m) * pow10(x + 6 - fp.len()) >= pow10(x + 6 - fp.len())) by (nonlinear_arith)
                                requires digits_value(m) >= 1, pow10(x + 6 - fp.len()) >= 1;
                            lemma_pow10_at_least(x + 6 - fp.len(), 20);
                        }
                        return None;
                    }
                    assert(digits_value(m) * pow10(x + 6 - fp.len()) == 0) by (nonlinear_arith)
                        requires digits_value(m) == 0;
                    return Some((negative, 0, false));
                }
                return Some((negative, 0, positive));
            }
            let shift: i128 = if x_neg {
                6 - xv as i128 - (j2 - f0) as i128
            } else {
                xv as i128 + 6 - (j2 - f0) as i128
            };
            match scale_mantissa(cs, b, j1, f0, j2, d, dbig, shift) {
                None => None,
                Some(v) => Some((negative, v, positive)),
            }
        },
    }
}

proof fn lemma_pow10_at_least(n: int, k: int)
    requires
        n >= k >= 0,
    ensures
        pow10(n) >= pow10(k),
    decreases n - k,
{
    if n > k {
        lemma_pow10_at_least(n - 1, k);
        lemma_pow10(n - 1);
    }
}

proof fn lemma_pow10_split(a: int, b: int)
    requires
        a >= 0,
        b >= 0,
    ensures
        pow10(a + b) == pow10(a) * pow10(b),
    decreases b,
{
    if b > 0 {
        lemma_pow10_split(a, b - 1);
        assert(pow10(a + b) == 10 * pow10(a + b - 1));
        assert(pow10(b) == 10 * pow10(b - 1));
        assert(pow10(a + b) == pow10(a) * pow10(b)) by (nonlinear_arith)
            requires pow10(a + b) == 10 * pow10(a + b - 1), pow10(b) == 10 * pow10(b - 1),
                pow10(a + b - 1) == pow10(a) * pow10(b - 1);
    }
}

} // verus!
