//! Fixed-point USD amounts and their display form.
//!
//! A monetary amount is carried as a signed count of micro-dollars
//! (millionths of one dollar), so `1_000_000` stands for `$1.00`.
//! Display follows three magnitude buckets: plain dollars below one
//! thousand, a `K` suffix below one million, and an `M` suffix above,
//! always with two decimal digits, rounding half away from zero.

use vstd::prelude::*;
use crate::strutil::push_char;

verus! {

/// One dollar, in micro-dollars.
pub const MICROS_PER_DOLLAR: u64 = 1000000;

pub open spec fn digit_char(d: nat) -> char {
    if d == 0 { '0' } else if d == 1 { '1' } else if d == 2 { '2' } else if d == 3 { '3' }
    else if d == 4 { '4' } else if d == 5 { '5' } else if d == 6 { '6' } else if d == 7 { '7' }
    else if d == 8 { '8' } else { '9' }
}

pub open spec fn is_dec_digit(c: char) -> bool {
    c == '0' || c == '1' || c == '2' || c == '3' || c == '4'
    || c == '5' || c == '6' || c == '7' || c == '8' || c == '9'
}

/// Decimal digits of `n`, most significant first, with no leading zeros
/// (a single `'0'` for zero).
pub open spec fn dec_str(n: nat) -> Seq<char>
    decreases n,
{
    if n < 10 { seq![digit_char(n)] } else { dec_str(n / 10).push(digit_char(n % 10)) }
}

/// Division of `a` by `b`, rounded half up.
pub open spec fn rhu(a: nat, b: nat) -> nat
    recommends b > 0,
{
    (a + b / 2) / b
}

/// `h` hundredths rendered as a decimal number with exactly two digits
/// after the point.
pub open spec fn two_dec(h: nat) -> Seq<char> {
    dec_str(h / 100) + seq!['.', digit_char((h / 10) % 10), digit_char(h % 10)]
}

/// The display form of `m` micro-dollars: `$ 0.00` for zero, two
/// decimals with an `M` suffix from one million dollars up, a `K`
/// suffix from one thousand dollars up, plain dollars otherwise
/// (negative amounts always render plain, as `$ -...`).
pub open spec fn spec_format_usd(m: int) -> Seq<char> {
    if m == 0 {
        seq!['$', ' ', '0', '.', '0', '0']
    } else if m < 0 {
        seq!['$', ' ', '-'] + two_dec(rhu((-m) as nat, 10000))
    } else if m >= 1000000000000 {
        seq!['$', ' '] + two_dec(rhu(m as nat, 10000000000)) + seq!['M']
    } else if m >= 1000000000 {
        seq!['$', ' '] + two_dec(rhu(m as nat, 10000000)) + seq!['K']
    } else {
        seq!['$', ' '] + two_dec(rhu(m as nat, 10000))
    }
}

/// The display form of a fraction `m` (in millionths of one) as a
/// percentage with two decimals: `810000` renders as `81.00%`.
pub open spec fn spec_format_pct(m: int) -> Seq<char> {
    if m < 0 {
        seq!['-'] + two_dec(rhu((-m) as nat, 100)) + seq!['%']
    } else {
        two_dec(rhu(m as nat, 100)) + seq!['%']
    }
}

pub(crate) fn digit_char_exec(d: u64) -> (c: char)
    requires
        d < 10,
    ensures
        c == digit_char(d as nat),
{
    if d == 0 { '0' } else if d == 1 { '1' } else if d == 2 { '2' } else if d == 3 { '3' }
    else if d == 4 { '4' } else if d == 5 { '5' } else if d == 6 { '6' } else if d == 7 { '7' }
    else if d == 8 { '8' } else { '9' }
}

/// Renders `n` in decimal, no leading zeros.
pub fn dec_string(n: u64) -> (s: String)
    ensures
        s@ == dec_str(n as nat),
    decreases n,
{
    if n < 10 {
        let mut s = String::new();
        push_char(&mut s, digit_char_exec(n));
        proof { assert(s@ =~= seq![digit_char(n as nat)]); }
        s
    } else {
        let mut s = dec_string(n / 10);
        push_char(&mut s, digit_char_exec(n % 10));
        s
    }
}

fn rhu_u64(a: u64, b: u64) -> (r: u64)
    requires
        b > 0,
        a + b / 2 <= u64::MAX,
    ensures
        r as nat == rhu(a as nat, b as nat),
{
    (a + b / 2) / b
}

/// Renders `h` hundredths with exactly two digits after the point.
pub fn two_dec_string(h: u64) -> (s: String)
    ensures
        s@ == two_dec(h as nat),
{
    let mut s = dec_string(h / 100);
    push_char(&mut s, '.');
    push_char(&mut s, digit_char_exec((h / 10) % 10));
    push_char(&mut s, digit_char_exec(h % 10));
    proof {
        assert(s@ =~= two_dec(h as nat));
    }
    s
}

/// Magnitude of a negative amount.
fn neg_mag(m: i64) -> (r: u64)
    requires
        m < 0,
    ensures
        r as int == -(m as int),
{
    let r: u64 = ((-(m + 1)) as u64) + 1;
    r
}

/// Formats `m` micro-dollars for display.
pub fn format_usd(m: i64) -> (s: String)
    ensures
        s@ == spec_format_usd(m as int),
{
    proof {
        reveal_strlit("$ 0.00");
        reveal_strlit("$ -");
        reveal_strlit("$ ");
        reveal_strlit("M");
        reveal_strlit("K");
        reveal_strlit("");
    }
    if m == 0 {
        let s = String::new().concat("$ 0.00");
        proof { assert(s@ =~= spec_format_usd(m as int)); }
        s
    } else if m < 0 {
        let mag = neg_mag(m);
        let mut s = String::new().concat("$ -");
        let t = two_dec_string(rhu_u64(mag, 10000));
        let s = s.concat(t.as_str());
        proof { assert(s@ =~= spec_format_usd(m as int)); }
        s
    } else if m >= 1000000000000 {
        let s = String::new().concat("$ ");
        let t = two_dec_string(rhu_u64(m as u64, 10000000000));
        let mut s = s.concat(t.as_str());
        push_char(&mut s, 'M');
        proof { assert(s@ =~= spec_format_usd(m as int)); }
        s
    } else if m >= 1000000000 {
        let s = String::new().concat("$ ");
        let t = two_dec_string(rhu_u64(m as u64, 10000000));
        let mut s = s.concat(t.as_str());
        push_char(&mut s, 'K');
        proof { assert(s@ =~= spec_format_usd(m as int)); }
        s
    } else {
        let s = String::new().concat("$ ");
        let t = two_dec_string(rhu_u64(m as u64, 10000));
        let s = s.concat(t.as_str());
        proof { assert(s@ =~= spec_format_usd(m as int)); }
        s
    }
}

/// Formats a fraction `m` (millionths of one) as a percentage.
pub fn format_pct(m: i64) -> (s: String)
    ensures
        s@ == spec_format_pct(m as int),
{
    proof {
        reveal_strlit("-");
        reveal_strlit("%");
    }
    if m < 0 {
        let mag = neg_mag(m);
        let mut s = String::new().concat("-");
        let t = two_dec_string(rhu_u64(mag, 100));
        let mut s = s.concat(t.as_str());
        push_char(&mut s, '%');
        proof { assert(s@ =~= spec_format_pct(m as int)); }
        s
    } else {
        let mut s = two_dec_string(rhu_u64(m as u64, 100));
        push_char(&mut s, '%');
        proof { assert(s@ =~= spec_format_pct(m as int)); }
        s
    }
}

// ---------- laws about the display form ----------

/// The magnitude bucket an amount falls in: zero, plain, thousands,
/// millions.
pub open spec fn usd_bucket(m: int) -> int {
    if m == 0 { 0 }
    else if m >= 1000000000000 { 3 }
    else if m >= 1000000000 { 2 }
    else { 1 }
}

/// Law: over non-negative amounts, the magnitude bucket used by
/// `format_usd` is monotonic in the amount.
pub proof fn lemma_format_usd_bucket_monotonic(a: int, b: int)
    requires
        0 <= a <= b,
    ensures
        usd_bucket(a) <= usd_bucket(b),
{
}

/// Law: the bucket is visible in the rendered text — a non-negative
/// amount renders with a trailing `M` exactly in the millions bucket,
/// with a trailing `K` exactly in the thousands bucket, and with a
/// trailing digit otherwise.
pub proof fn lemma_format_usd_bucket_suffix(m: int)
    requires
        m >= 0,
    ensures
        (usd_bucket(m) == 3) <==> (spec_format_usd(m).last() == 'M'),
        (usd_bucket(m) == 2) <==> (spec_format_usd(m).last() == 'K'),
        (usd_bucket(m) == 0 || usd_bucket(m) == 1) <==> is_dec_digit(spec_format_usd(m).last()),
{
    lemma_dec_str_digits(rhu(m as nat, 10000) / 100);
    lemma_dec_str_digits(rhu(m as nat, 10000000) / 100);
    lemma_dec_str_digits(rhu(m as nat, 10000000000) / 100);
}

pub proof fn lemma_dec_str_digits(n: nat)
    ensures
        dec_str(n).len() >= 1,
        forall|i: int| 0 <= i < dec_str(n).len() ==> is_dec_digit(#[trigger] dec_str(n)[i]),
    decreases n,
{
    if n >= 10 {
        lemma_dec_str_digits(n / 10);
    }
}

/// Where the two-decimal tail of a rendered amount sits: a point at
/// `j`, two digits after it, at most a one-letter suffix after those,
/// and only digits between the `$ ` prefix and the point.
pub open spec fn two_dec_tail_at(s: Seq<char>, j: int) -> bool {
    &&& 2 <= j
    &&& j + 3 <= s.len()
    &&& s[j] == '.'
    &&& is_dec_digit(s[j + 1])
    &&& is_dec_digit(s[j + 2])
    &&& (j + 3 == s.len() || (j + 4 == s.len() && (s[j + 3] == 'K' || s[j + 3] == 'M')))
    &&& forall|t: int| 2 <= t < j ==> is_dec_digit(#[trigger] s[t])
}

/// Law: every non-negative amount renders as `$ `, then a digit run,
/// then a point and exactly two decimal digits, then at most a
/// one-letter magnitude suffix.
pub proof fn lemma_format_usd_shape(m: int)
    requires
        m >= 0,
    ensures
        spec_format_usd(m).len() >= 6,
        spec_format_usd(m)[0] == '$',
        spec_format_usd(m)[1] == ' ',
        exists|j: int| two_dec_tail_at(spec_format_usd(m), j),
{
    let s = spec_format_usd(m);
    if m == 0 {
        assert(two_dec_tail_at(s, 3));
    } else if m >= 1000000000000 {
        let h = rhu(m as nat, 10000000000);
        lemma_dec_str_digits(h / 100);
        let j = 2 + dec_str(h / 100).len() as int;
        assert(two_dec_tail_at(s, j));
    } else if m >= 1000000000 {
        let h = rhu(m as nat, 10000000);
        lemma_dec_str_digits(h / 100);
        let j = 2 + dec_str(h / 100).len() as int;
        assert(two_dec_tail_at(s, j));
    } else {
        let h = rhu(m as nat, 10000);
        lemma_dec_str_digits(h / 100);
        let j = 2 + dec_str(h / 100).len() as int;
        assert(two_dec_tail_at(s, j));
    }
}

} // verus!
