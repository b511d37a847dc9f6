//! Interpreting JSON number tokens as fixed-point micro-unit amounts.
//!
//! A token like `12345.67` is read as `12_345_670_000` micro-units,
//! rounding half away from zero at the sixth decimal place.  A token
//! whose significand does not fit sixty-three bits, or whose value
//! falls outside the signed sixty-four bit micro-unit range, is not
//! interpreted.

use vstd::prelude::*;
use crate::money::{digit_char, dec_str, rhu};
use crate::json::{sp_digits_end, p_digits_end};

verus! {

pub open spec fn pow10(k: nat) -> nat
    decreases k,
{
    if k == 0 { 1nat } else { 10 * pow10((k - 1) as nat) }
}

pub open spec fn digit_val(c: char) -> nat {
    if c == '0' { 0 } else if c == '1' { 1 } else if c == '2' { 2 } else if c == '3' { 3 }
    else if c == '4' { 4 } else if c == '5' { 5 } else if c == '6' { 6 } else if c == '7' { 7 }
    else if c == '8' { 8 } else if c == '9' { 9 } else { 0 }
}

/// The number written by a run of decimal digits.
pub open spec fn digits_val(ds: Seq<char>) -> nat
    decreases ds.len(),
{
    if ds.len() == 0 {
        0
    } else {
        digits_val(ds.drop_last()) * 10 + digit_val(ds.last())
    }
}

/// Splits a number token into sign, integer digits, fraction digits
/// and exponent value.
pub open spec fn lex_parts(l: Seq<char>) -> Option<(bool, Seq<char>, Seq<char>, int)> {
    let neg = l.len() > 0 && l[0] == '-';
    let p0: int = if neg { 1 } else { 0 };
    if p0 > l.len() {
        None
    } else {
        let p1 = sp_digits_end(l, p0);
        if p1 == p0 {
            None
        } else if p1 < l.len() && l[p1] == '.' {
            let p2 = sp_digits_end(l, p1 + 1);
            if p2 == p1 + 1 {
                None
            } else {
                lex_exp(l, p2, neg, l.subrange(p0, p1), l.subrange(p1 + 1, p2))
            }
        } else {
            lex_exp(l, p1, neg, l.subrange(p0, p1), Seq::empty())
        }
    }
}

/// Reads an optional exponent at `p` and finishes the split.
pub open spec fn lex_exp(l: Seq<char>, p: int, neg: bool, ints: Seq<char>, fracs: Seq<char>)
    -> Option<(bool, Seq<char>, Seq<char>, int)> {
    if p == l.len() {
        Some((neg, ints, fracs, 0))
    } else if l[p] == 'e' || l[p] == 'E' {
        let esign: int = if p + 1 < l.len() && l[p + 1] == '-' { -1 } else { 1 };
        let p3: int = if p + 1 < l.len() && (l[p + 1] == '+' || l[p + 1] == '-') {
            p + 2
        } else {
            p + 1
        };
        if p3 <= l.len() {
            let p4 = sp_digits_end(l, p3);
            if p4 == l.len() && p4 > p3 {
                Some((neg, ints, fracs, esign * digits_val(l.subrange(p3, p4))))
            } else {
                None
            }
        } else {
            None
        }
    } else {
        None
    }
}

/// The value of a number token in micro-units, rounding half away
/// from zero at the sixth decimal, when the token can be interpreted:
/// its significand must fit sixty-three bits and the result must fit
/// a signed sixty-four bit count.
pub open spec fn sp_micros(l: Seq<char>) -> Option<int> {
    match lex_parts(l) {
        None => None,
        Some((neg, ints, fracs, e)) => {
            let d = digits_val(ints + fracs);
            let scale = e + 6 - fracs.len();
            if d >= 0x8000000000000000 {
                None
            } else if d == 0 {
                Some(0)
            } else if scale >= 0 {
                let m = d * pow10(scale as nat);
                if m <= 0x7fffffffffffffff {
                    Some(if neg { -(m as int) } else { m as int })
                } else {
                    None
                }
            } else {
                let m = rhu(d, pow10((-scale) as nat));
                Some(if neg { -(m as int) } else { m as int })
            }
        },
    }
}

// ---------- arithmetic facts ----------

pub proof fn lemma_pow10_pos(k: nat)
    ensures
        pow10(k) >= 1,
    decreases k,
{
    if k > 0 {
        lemma_pow10_pos((k - 1) as nat);
    }
}

pub proof fn lemma_pow10_monotone(a: nat, b: nat)
    requires
        a <= b,
    ensures
        pow10(a) <= pow10(b),
    decreases b,
{
    if a < b {
        lemma_pow10_monotone(a, (b - 1) as nat);
        lemma_pow10_pos((b - 1) as nat);
    }
}

pub proof fn lemma_pow10_values()
    ensures
        pow10(0) == 1,
        pow10(1) == 10,
        pow10(2) == 100,
        pow10(3) == 1000,
        pow10(4) == 10000,
        pow10(5) == 100000,
        pow10(6) == 1000000,
        pow10(7) == 10000000,
        pow10(8) == 100000000,
        pow10(9) == 1000000000,
        pow10(10) == 10000000000,
        pow10(11) == 100000000000,
        pow10(12) == 1000000000000,
        pow10(13) == 10000000000000,
        pow10(14) == 100000000000000,
        pow10(15) == 1000000000000000,
        pow10(16) == 10000000000000000,
        pow10(17) == 100000000000000000,
        pow10(18) == 1000000000000000000,
        pow10(19) == 10000000000000000000,
        pow10(20) == 100000000000000000000,
{
    assert(pow10(0) == 1);
    assert(pow10(1) == 10);
    assert(pow10(2) == 100);
    assert(pow10(3) == 1000);
    assert(pow10(4) == 10000);
    assert(pow10(5) == 100000);
    assert(pow10(6) == 1000000);
    assert(pow10(7) == 10000000);
    assert(pow10(8) == 100000000);
    assert(pow10(9) == 1000000000);
    assert(pow10(10) == 10000000000);
    assert(pow10(11) == 100000000000);
    assert(pow10(12) == 1000000000000);
    assert(pow10(13) == 10000000000000);
    assert(pow10(14) == 100000000000000);
    assert(pow10(15) == 1000000000000000);
    assert(pow10(16) == 10000000000000000);
    assert(pow10(17) == 100000000000000000);
    assert(pow10(18) == 1000000000000000000);
    assert(pow10(19) == 10000000000000000000);
    assert(pow10(20) == 100000000000000000000);
}

/// Dividing a sixty-three bit number by ten to the twentieth or more,
/// even rounded half up, yields zero.
pub proof fn lemma_rhu_small(d: nat, k: nat)
    requires
        d < 0x8000000000000000,
        k >= 20,
    ensures
        rhu(d, pow10(k)) == 0,
{
    lemma_pow10_values();
    lemma_pow10_monotone(20, k);
    let p = pow10(k);
    assert(p >= 100000000000000000000);
    assert(p / 2 >= 50000000000000000000 && p / 2 <= p) by (nonlinear_arith)
        requires
            p >= 100000000000000000000,
    ;
    assert(d + p / 2 < p || p / 2 > p - 50000000000000000000 + d) by (nonlinear_arith)
        requires
            d < 0x8000000000000000,
            p >= 100000000000000000000,
            p / 2 >= 50000000000000000000,
    ;
    assert(2 * (p / 2) <= p) by (nonlinear_arith)
        requires
            p >= 2,
    ;
    assert(d + p / 2 < p);
    assert((d + p / 2) / p == 0) by (nonlinear_arith)
        requires
            d + p / 2 < p,
            p > 0,
    ;
}

fn digit_val_exec(c: char) -> (d: u64)
    ensures
        d as nat == digit_val(c),
        d <= 9,
{
    if c == '0' { 0 } else if c == '1' { 1 } else if c == '2' { 2 } else if c == '3' { 3 }
    else if c == '4' { 4 } else if c == '5' { 5 } else if c == '6' { 6 } else if c == '7' { 7 }
    else if c == '8' { 8 } else if c == '9' { 9 } else { 0 }
}

fn pow10_u64(k: u64) -> (r: u64)
    requires
        k <= 19,
    ensures
        r as nat == pow10(k as nat),
{
    proof {
        lemma_pow10_values();
    }
    let mut r: u64 = 1;
    let mut i: u64 = 0;
    while i < k
        invariant
            i <= k <= 19,
            r as nat == pow10(i as nat),
        decreases k - i,
    {
        proof {
            lemma_pow10_values();
            lemma_pow10_monotone(i as nat, 18);
        }
        r = r * 10;
        i = i + 1;
    }
    r
}

/// Accumulates the digits of `l` between `from` and `to` onto a
/// running value; `ovf` records that the value has left the
/// sixty-three bit range.
fn acc_digits(l: &Vec<char>, from: usize, to: usize, acc0: u64, ovf0: bool, Ghost(pre): Ghost<
    Seq<char>,
>) -> (r: (u64, bool))
    requires
        from <= to <= l@.len(),
        !ovf0 ==> acc0 as nat == digits_val(pre) && acc0 < 0x8000000000000000,
        ovf0 ==> digits_val(pre) >= 0x8000000000000000,
    ensures
        ({
            let full = pre + l@.subrange(from as int, to as int);
            &&& (!r.1 ==> r.0 as nat == digits_val(full) && r.0 < 0x8000000000000000)
            &&& (r.1 ==> digits_val(full) >= 0x8000000000000000)
        }),
{
    let mut acc = acc0;
    let mut ovf = ovf0;
    let mut k: usize = from;
    proof {
        assert(pre + l@.subrange(from as int, from as int) =~= pre);
    }
    while k < to
        invariant
            from <= k <= to <= l@.len(),
            !ovf ==> acc as nat == digits_val(pre + l@.subrange(from as int, k as int))
                && acc < 0x8000000000000000,
            ovf ==> digits_val(pre + l@.subrange(from as int, k as int)) >= 0x8000000000000000,
        decreases to - k,
    {
        let ghost cur = pre + l@.subrange(from as int, k as int);
        let ghost next = pre + l@.subrange(from as int, k + 1 as int);
        proof {
            assert(next =~= cur.push(l@[k as int]));
            assert(next.drop_last() =~= cur);
            assert(next.last() == l@[k as int]);
            assert(digits_val(next) == digits_val(cur) * 10 + digit_val(l@[k as int]));
        }
        let dv = digit_val_exec(l[k]);
        if ovf {
            proof {
                assert(digits_val(cur) * 10 >= digits_val(cur)) by (nonlinear_arith);
            }
        } else {
            let lim: u64 = (0x7FFFFFFFFFFFFFFF - dv) / 10;
            if acc > lim {
                proof {
                    let m: int = 0x7FFFFFFFFFFFFFFF - dv;
                    assert(m == 10 * (m / 10) + m % 10) by (nonlinear_arith);
                    assert(acc * 10 >= (lim + 1) * 10) by (nonlinear_arith)
                        requires
                            acc >= lim + 1,
                    ;
                    assert((lim + 1) * 10 == lim * 10 + 10) by (nonlinear_arith);
                    assert(digits_val(next) >= 0x8000000000000000);
                }
                ovf = true;
            } else {
                proof {
                    let m: int = 0x7FFFFFFFFFFFFFFF - dv;
                    assert(m == 10 * (m / 10) + m % 10) by (nonlinear_arith);
                    assert(acc * 10 <= lim * 10) by (nonlinear_arith)
                        requires
                            acc <= lim,
                    ;
                }
                acc = acc * 10 + dv;
            }
        }
        k = k + 1;
    }
    (acc, ovf)
}

/// Reads the digits of an exponent, clamping at ten to the twentieth,
/// which no token inside an addressable text can reach by length.
fn acc_exp(l: &Vec<char>, from: usize, to: usize) -> (e: u128)
    requires
        from <= to <= l@.len(),
    ensures
        digits_val(l@.subrange(from as int, to as int)) < 100000000000000000000 ==> e as nat
            == digits_val(l@.subrange(from as int, to as int)),
        digits_val(l@.subrange(from as int, to as int)) >= 100000000000000000000 ==> e
            == 100000000000000000000,
        e <= 100000000000000000000,
{
    let mut acc: u128 = 0;
    let mut k: usize = from;
    while k < to
        invariant
            from <= k <= to <= l@.len(),
            digits_val(l@.subrange(from as int, k as int)) < 100000000000000000000 ==> acc
                as nat == digits_val(l@.subrange(from as int, k as int)),
            digits_val(l@.subrange(from as int, k as int)) >= 100000000000000000000 ==> acc
                == 100000000000000000000,
            acc <= 100000000000000000000,
        decreases to - k,
    {
        let ghost cur = l@.subrange(from as int, k as int);
        let ghost next = l@.subrange(from as int, k + 1 as int);
        proof {
            assert(next =~= cur.push(l@[k as int]));
            assert(next.drop_last() =~= cur);
            assert(digits_val(next) == digits_val(cur) * 10 + digit_val(l@[k as int]));
            assert(digits_val(cur) * 10 >= digits_val(cur)) by (nonlinear_arith);
        }
        let dv = digit_val_exec(l[k]);
        if acc >= 100000000000000000000 {
            acc = 100000000000000000000;
        } else {
            acc = acc * 10 + (dv as u128);
            if acc >= 100000000000000000000 {
                acc = 100000000000000000000;
            }
        }
        k = k + 1;
    }
    acc
}

/// Reads a number token as micro-units; mirrors `sp_micros` exactly.
#[verifier::rlimit(100)]
pub fn micros_of_token(l: &Vec<char>) -> (r: Option<i64>)
    ensures
        match r {
            None => sp_micros(l@) is None,
            Some(m) => sp_micros(l@) == Some(m as int),
        },
{
    proof {
        lemma_pow10_values();
    }
    let n = l.len();
    let neg = n > 0 && l[0] == '-';
    let p0: usize = if neg { 1 } else { 0 };
    if p0 > n {
        return None;
    }
    let p1 = p_digits_end(l, p0);
    if p1 == p0 {
        return None;
    }
    let fs: usize;
    let fe: usize;
    let p2: usize;
    if p1 < n && l[p1] == '.' {
        let q = p_digits_end(l, p1 + 1);
        if q == p1 + 1 {
            return None;
        }
        fs = p1 + 1;
        fe = q;
        p2 = q;
    } else {
        fs = p1;
        fe = p1;
        p2 = p1;
    }
    let ghost ints = l@.subrange(p0 as int, p1 as int);
    let ghost fracs = l@.subrange(fs as int, fe as int);
    proof {
        if fs == fe {
            assert(fracs =~= Seq::<char>::empty());
        }
    }
    // exponent
    let eneg: bool;
    let eclamp: u128;
    let e3: usize;
    let e4: usize;
    if p2 == n {
        eneg = false;
        eclamp = 0;
        e3 = n;
        e4 = n;
    } else if l[p2] == 'e' || l[p2] == 'E' {
        let has_sign = p2 + 1 < n && (l[p2 + 1] == '+' || l[p2 + 1] == '-');
        eneg = p2 + 1 < n && l[p2 + 1] == '-';
        let p3: usize = if has_sign { p2 + 2 } else { p2 + 1 };
        if p3 > n {
            return None;
        }
        let p4 = p_digits_end(l, p3);
        if !(p4 == n && p4 > p3) {
            return None;
        }
        eclamp = acc_exp(l, p3, p4);
        e3 = p3;
        e4 = p4;
    } else {
        return None;
    }
    let ghost parts = lex_parts(l@);
    let ghost edigits = digits_val(l@.subrange(e3 as int, e4 as int));
    proof {
        assert(parts matches Some(p) && p.0 == neg && p.1 == ints && p.2 == fracs);
        if p2 == n {
            assert(l@.subrange(n as int, n as int) =~= Seq::<char>::empty());
            assert(edigits == 0);
            assert(parts->Some_0.3 == 0);
        } else {
            let p: int = p2 as int;
            let sgn: int = if p + 1 < l@.len() && l@[p + 1] == '-' { -1 } else { 1 };
            let sp3: int = if p + 1 < l@.len() && (l@[p + 1] == '+' || l@[p + 1] == '-') {
                p + 2
            } else {
                p + 1
            };
            assert(e3 as int == sp3);
            assert(e4 as int == sp_digits_end(l@, sp3));
            assert(sgn == -1 <==> eneg);
            assert(parts->Some_0.3 == sgn * digits_val(l@.subrange(sp3, e4 as int)));
            assert(parts->Some_0.3 == (if eneg { -(edigits as int) } else { edigits as int }));
        }
        assert(eclamp as nat <= edigits);
        assert(edigits < 100000000000000000000 ==> eclamp as nat == edigits);
        assert(edigits >= 100000000000000000000 ==> eclamp == 100000000000000000000);
    }
    let ghost e_real = parts->Some_0.3;
    // significand
    let (d0, ovf0) = acc_digits(l, p0, p1, 0, false, Ghost(Seq::<char>::empty()));
    proof {
        assert(Seq::<char>::empty() + ints =~= ints);
        assert(ints + l@.subrange(fs as int, fe as int) =~= ints + fracs);
    }
    let (d, ovf) = acc_digits(l, fs, fe, d0, ovf0, Ghost(ints));
    if ovf {
        return None;
    }
    if d == 0 {
        return Some(0);
    }
    // scale = exponent + 6 - fraction length
    let frac_len: usize = fe - fs;
    proof {
        assert(fracs.len() == frac_len as int);
    }
    if eclamp == 100000000000000000000 {
        // the written exponent is beyond anything a token could need
        if eneg {
            proof {
                assert(edigits >= 100000000000000000000);
                assert(e_real <= -100000000000000000000);
                let scale_real = e_real + 6 - fracs.len();
                assert(scale_real <= -20);
                lemma_rhu_small(d as nat, (-scale_real) as nat);
            }
            if neg {
                return Some(0);
            }
            return Some(0);
        } else {
            proof {
                assert(edigits >= 100000000000000000000);
                assert(e_real >= 100000000000000000000);
                assert(fracs.len() <= usize::MAX as int);
                let scale_real = e_real + 6 - fracs.len();
                assert(scale_real >= 19);
                lemma_pow10_monotone(19, scale_real as nat);
                assert(d as nat * pow10(scale_real as nat) >= pow10(scale_real as nat))
                    by (nonlinear_arith)
                    requires
                        d as nat >= 1,
                        pow10(scale_real as nat) >= 0,
                ;
                assert(d as nat * pow10(scale_real as nat) > 0x7fffffffffffffff);
            }
            return None;
        }
    }
    let e_i: i128 = if eneg {
        -(eclamp as i128)
    } else {
        eclamp as i128
    };
    proof {
        assert(edigits < 100000000000000000000);
        assert(e_real == e_i as int);
    }
    let scale: i128 = e_i + 6 - (frac_len as i128);
    let ghost scale_real = e_real + 6 - fracs.len();
    proof {
        assert(scale_real == scale as int);
    }
    finish_micros(d, neg, scale, Ghost(l@))
}

/// Finishes the conversion once the exact scale is known.
fn finish_micros(d: u64, neg: bool, scale: i128, Ghost(l): Ghost<Seq<char>>) -> (r: Option<i64>)
    requires
        0 < d < 0x8000000000000000,
        lex_parts(l) matches Some(p) && p.0 == neg && digits_val(p.1 + p.2) == d as nat
            && scale as int == p.3 + 6 - p.2.len(),
    ensures
        match r {
            None => sp_micros(l) is None,
            Some(m) => sp_micros(l) == Some(m as int),
        },
{
    proof {
        lemma_pow10_values();
    }
    let ghost scale_real = scale as int;
    if scale >= 19 {
        proof {
            lemma_pow10_monotone(19, scale_real as nat);
            assert(d as nat * pow10(scale_real as nat) >= pow10(scale_real as nat))
                by (nonlinear_arith)
                requires
                    d as nat >= 1,
                    pow10(scale_real as nat) >= 0,
            ;
            assert(d as nat * pow10(scale_real as nat) > 0x7fffffffffffffff);
        }
        return None;
    }
    if scale >= 0 {
        let p = pow10_u64(scale as u64);
        proof {
            lemma_pow10_pos(scale as nat);
        }
        if d > 0x7FFFFFFFFFFFFFFF / p {
            proof {
                let m: int = 0x7FFFFFFFFFFFFFFF;
                assert(m == (m / (p as int)) * (p as int) + m % (p as int)) by (nonlinear_arith)
                    requires
                        p as int > 0,
                ;
                assert(d as int * p as int > m) by (nonlinear_arith)
                    requires
                        d as int >= m / (p as int) + 1,
                        p as int > 0,
                        m == (m / (p as int)) * (p as int) + m % (p as int),
                        m % (p as int) < p as int,
                ;
            }
            return None;
        }
        proof {
            let m: int = 0x7FFFFFFFFFFFFFFF;
            assert(m == (m / (p as int)) * (p as int) + m % (p as int)) by (nonlinear_arith)
                requires
                    p as int > 0,
            ;
            assert(m % (p as int) >= 0) by (nonlinear_arith)
                requires
                    p as int > 0,
            ;
            assert(d as int * p as int <= (m / (p as int)) * (p as int)) by (nonlinear_arith)
                requires
                    d as int <= m / (p as int),
                    p as int > 0,
            ;
        }
        let m = d * p;
        let mi = m as i64;
        if neg {
            return Some(-mi);
        }
        return Some(mi);
    }
    if scale <= -20 {
        proof {
            lemma_rhu_small(d as nat, (-scale_real) as nat);
        }
        return Some(0);
    }
    // scale between minus nineteen and minus one
    let k: u64 = (-scale) as u64;
    let p = pow10_u64(k);
    proof {
        lemma_pow10_pos(k as nat);
        lemma_pow10_monotone(k as nat, 19);
    }
    let m = (d + p / 2) / p;
    proof {
        assert(m as nat == rhu(d as nat, p as nat));
        assert(m as int <= d as int) by (nonlinear_arith)
            requires
                p as int >= 10,
                d as int >= 1,
                m as int == (d as int + p as int / 2) / (p as int),
                p as int / 2 * 2 <= p as int,
        ;
    }
    let mi = m as i64;
    if neg {
        Some(-mi)
    } else {
        Some(mi)
    }
}

// ---------- writing an amount back as a token ----------

/// The six digits behind the decimal point for a sub-unit rest `r`.
pub open spec fn frac6(r: nat) -> Seq<char> {
    seq![
        digit_char((r / 100000) % 10),
        digit_char((r / 10000) % 10),
        digit_char((r / 1000) % 10),
        digit_char((r / 100) % 10),
        digit_char((r / 10) % 10),
        digit_char(r % 10),
    ]
}

/// Drops trailing zero digits.
pub open spec fn trim0(s: Seq<char>) -> Seq<char>
    decreases s.len(),
{
    if s.len() > 0 && s.last() == '0' {
        trim0(s.drop_last())
    } else {
        s
    }
}

/// The token for a non-negative amount of micro-units: whole units,
/// a point, and the fraction with trailing zeros dropped (a whole
/// amount is written with one zero decimal, as `13000.0`).
pub open spec fn mag_token(n: nat) -> Seq<char> {
    if n % 1000000 == 0 {
        dec_str(n / 1000000) + seq!['.', '0']
    } else {
        dec_str(n / 1000000) + seq!['.'] + trim0(frac6(n % 1000000))
    }
}

/// The number token for `m` micro-units.
pub open spec fn sp_token_of_micros(m: int) -> Seq<char> {
    if m < 0 {
        seq!['-'] + mag_token((-m) as nat)
    } else {
        mag_token(m as nat)
    }
}

/// The decimal digits of `n` as characters.
fn dec_chars(n: u64) -> (r: Vec<char>)
    ensures
        r@ == dec_str(n as nat),
    decreases n,
{
    if n < 10 {
        let mut r: Vec<char> = Vec::new();
        r.push(crate::money::digit_char_exec(n));
        proof {
            assert(r@ =~= seq![digit_char(n as nat)]);
        }
        r
    } else {
        let mut r = dec_chars(n / 10);
        r.push(crate::money::digit_char_exec(n % 10));
        r
    }
}

/// Writes `m` micro-units as a number token.
pub fn token_of_micros(m: i64) -> (r: Vec<char>)
    ensures
        r@ == sp_token_of_micros(m as int),
{
    let neg = m < 0;
    let mag: u64 = if m < 0 {
        ((-(m + 1)) as u64) + 1
    } else {
        m as u64
    };
    let whole = mag / 1000000;
    let rest = mag % 1000000;
    let mut out: Vec<char> = Vec::new();
    if neg {
        out.push('-');
    }
    let ghost signpart = out@;
    proof {
        if neg {
            assert(signpart =~= seq!['-']);
        } else {
            assert(signpart =~= Seq::<char>::empty());
        }
    }
    let mut ds = dec_chars(whole);
    out.append(&mut ds);
    out.push('.');
    if rest == 0 {
        out.push('0');
        proof {
            assert(out@ =~= signpart + (dec_str(whole as nat) + seq!['.', '0']));
            if neg {
                assert(out@ =~= sp_token_of_micros(m as int));
            } else {
                assert(signpart + (dec_str(whole as nat) + seq!['.', '0']) =~= dec_str(
                    whole as nat,
                ) + seq!['.', '0']);
            }
        }
    } else {
        let mut fr: Vec<char> = Vec::new();
        fr.push(crate::money::digit_char_exec((rest / 100000) % 10));
        fr.push(crate::money::digit_char_exec((rest / 10000) % 10));
        fr.push(crate::money::digit_char_exec((rest / 1000) % 10));
        fr.push(crate::money::digit_char_exec((rest / 100) % 10));
        fr.push(crate::money::digit_char_exec((rest / 10) % 10));
        fr.push(crate::money::digit_char_exec(rest % 10));
        proof {
            assert(fr@ =~= frac6(rest as nat));
        }
        while fr.len() > 0 && fr[fr.len() - 1] == '0'
            invariant
                trim0(fr@) == trim0(frac6(rest as nat)),
            decreases fr@.len(),
        {
            let ghost before = fr@;
            fr.pop();
            proof {
                assert(fr@ =~= before.drop_last());
            }
        }
        proof {
            assert(trim0(fr@) == fr@);
        }
        out.append(&mut fr);
        proof {
            assert(out@ =~= signpart + (dec_str(whole as nat) + seq!['.'] + trim0(
                frac6(rest as nat),
            )));
            if !neg {
                assert(signpart + (dec_str(whole as nat) + seq!['.'] + trim0(
                    frac6(rest as nat),
                )) =~= dec_str(whole as nat) + seq!['.'] + trim0(frac6(rest as nat)));
            }
        }
    }
    out
}

} // verus!
