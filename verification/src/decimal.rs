//! Numbers written in decimal, and how they are written out in fixed-point, scientific
//! and general notation. A number is rounded to the nearest numeral of the length asked
//! for, and from half-way to the one that ends in an even digit.

use vstd::prelude::*;
use crate::numeral::all_digits;
use crate::numeral::digit_char;
use crate::numeral::digit_of;
use crate::numeral::digits_value;
use crate::numeral::radix_text;
use crate::numeral::is_all_digits;
use crate::numeral::is_digit;
use crate::numeral::parse_magnitude;
use crate::text::first_index_of;
use crate::text::find_char;
use crate::text::has_char;
use crate::text::lemma_first_index_of;
use crate::text::push_all;
use crate::text::slice_chars;

verus! {

/// A number written in decimal: a sign, the digits before the point and those after it.
pub struct Numeral {
    pub negative: bool,
    pub whole: Seq<char>,
    pub fraction: Seq<char>,
}

/// A number written in decimal, as the program holds it. Its digits are digits.
#[derive(Debug, PartialEq, Eq)]
pub struct Decimal {
    negative: bool,
    whole: Vec<char>,
    fraction: Vec<char>,
}

impl View for Decimal {
    type V = Numeral;

    closed spec fn view(&self) -> Numeral {
        Numeral { negative: self.negative, whole: self.whole@, fraction: self.fraction@ }
    }
}

impl Numeral {
    /// All the digits, those before the point first.
    pub open spec fn digits(self) -> Seq<char> {
        self.whole + self.fraction
    }
}

/// The number that a text writes in digits: an optional sign, digits, and at most one
/// point among them, with a digit on at least one side of it.
pub open spec fn numeral_of(t: Seq<char>) -> Option<Numeral> {
    let signed = t.len() > 0 && (t[0] == '-' || t[0] == '+');
    let body = if signed {
        t.skip(1)
    } else {
        t
    };
    let dot = first_index_of(body, '.');
    let whole = body.take(dot);
    let fraction = if dot < body.len() {
        body.skip(dot + 1)
    } else {
        seq![]
    };
    if all_digits(whole) && all_digits(fraction) && whole.len() + fraction.len() > 0 {
        Some(Numeral { negative: signed && t[0] == '-', whole, fraction })
    } else {
        None
    }
}

/// The number with its point moved `by` places to the right, or to the left for a
/// negative `by`; zeros fill the places that the digits do not reach.
pub open spec fn shifted(d: Numeral, by: int) -> Numeral {
    let at = d.whole.len() + by;
    if at <= 0 {
        Numeral { negative: d.negative, whole: seq![], fraction: zeros((-at) as nat) + d.digits() }
    } else if at >= d.digits().len() {
        Numeral {
            negative: d.negative,
            whole: d.digits() + zeros((at - d.digits().len()) as nat),
            fraction: seq![],
        }
    } else {
        Numeral { negative: d.negative, whole: d.digits().take(at), fraction: d.digits().skip(at) }
    }
}

/// Whether the number is zero: all its digits are zeros.
pub open spec fn is_zero(d: Numeral) -> bool {
    leading_zeros(d.digits()) == d.digits().len()
}

/// Zero, with a sign.
pub open spec fn zero_numeral(negative: bool) -> Numeral {
    Numeral { negative, whole: seq!['0'], fraction: seq![] }
}

/// The number 1 or 0 that a truth value counts as.
pub open spec fn numeral_of_bool(b: bool) -> Numeral {
    Numeral {
        negative: false,
        whole: if b {
            seq!['1']
        } else {
            seq!['0']
        },
        fraction: seq![],
    }
}

/// `n` zeros.
pub open spec fn zeros(n: nat) -> Seq<char> {
    Seq::new(n, |i: int| '0')
}

/// Whether every digit of `s` is a zero.
pub open spec fn all_zero(s: Seq<char>) -> bool {
    forall|i: int| 0 <= i < s.len() ==> #[trigger] s[i] == '0'
}

/// The first `n` digits of `s`, with zeros in place of those that `s` lacks.
pub open spec fn take_padded(s: Seq<char>, n: nat) -> Seq<char> {
    if n <= s.len() {
        s.take(n as int)
    } else {
        s + zeros((n - s.len()) as nat)
    }
}

/// What of `s` follows its first `n` digits.
pub open spec fn drop_digits(s: Seq<char>, n: nat) -> Seq<char> {
    if n <= s.len() {
        s.skip(n as int)
    } else {
        seq![]
    }
}

/// Whether the last of the digits kept is odd.
pub open spec fn ends_odd(kept: Seq<char>) -> bool {
    kept.len() > 0 && digit_of(kept.last()) % 2 == 1
}

/// Whether a numeral that is cut before the digits `rest` is rounded up. It is rounded
/// to the nearest numeral of the length kept, and from half-way to the even one.
pub open spec fn rounds_up(kept: Seq<char>, rest: Seq<char>) -> bool {
    rest.len() > 0 && (digit_of(rest[0]) > 5 || (digit_of(rest[0]) == 5 && (ends_odd(kept)
        || !all_zero(rest.skip(1)))))
}

/// The digits of the number that is one more than the number that `ds` writes. It has one
/// digit more than `ds` where all of `ds` are nines.
pub open spec fn increment(ds: Seq<char>) -> Seq<char>
    decreases ds.len(),
{
    if ds.len() == 0 {
        seq!['1']
    } else if ds.last() == '9' {
        increment(ds.drop_last()).push('0')
    } else {
        ds.drop_last().push(digit_char(digit_of(ds.last()) + 1, false))
    }
}

/// The digits `kept`, rounded by the digits `rest` that are cut off behind them.
pub open spec fn rounded(kept: Seq<char>, rest: Seq<char>) -> Seq<char> {
    if rounds_up(kept, rest) {
        increment(kept)
    } else {
        kept
    }
}

/// How many zeros stand at the front of `s`.
pub open spec fn leading_zeros(s: Seq<char>) -> nat
    decreases s.len(),
{
    if s.len() > 0 && s[0] == '0' {
        1 + leading_zeros(s.drop_first())
    } else {
        0
    }
}

/// The digits before the point as they are written out: without zeros in front, and a
/// single `0` where nothing is left.
pub open spec fn whole_text(ds: Seq<char>) -> Seq<char> {
    if leading_zeros(ds) == ds.len() {
        seq!['0']
    } else {
        ds.skip(leading_zeros(ds) as int)
    }
}

/// The sign as it is written: `-` for a negative number, nothing else.
pub open spec fn sign_text(negative: bool) -> Seq<char> {
    if negative {
        seq!['-']
    } else {
        seq![]
    }
}

/// The digits before the point and the first `p` digits after it, rounded.
pub open spec fn fixed_digits_spec(d: Numeral, p: nat) -> Seq<char> {
    rounded(d.whole + take_padded(d.fraction, p), drop_digits(d.fraction, p))
}

/// The number in fixed-point notation with `p` digits after the point.
pub open spec fn fixed_text(d: Numeral, p: nat) -> Seq<char> {
    let r = fixed_digits_spec(d, p);
    let split = r.len() - p;
    sign_text(d.negative) + whole_text(r.take(split)) + if p > 0 {
        seq!['.'] + r.skip(split)
    } else {
        seq![]
    }
}

/// The power of ten of the first digit of the number that is not zero; 0 for zero.
pub open spec fn decimal_exponent(d: Numeral) -> int {
    if leading_zeros(d.digits()) == d.digits().len() {
        0
    } else {
        d.whole.len() - 1 - leading_zeros(d.digits())
    }
}

/// The digits of the number from the first one that is not zero.
pub open spec fn significant(d: Numeral) -> Seq<char> {
    d.digits().skip(leading_zeros(d.digits()) as int)
}

/// The first `p + 1` significant digits of the number, rounded.
pub open spec fn mantissa(d: Numeral, p: nat) -> Seq<char> {
    rounded(take_padded(significant(d), p + 1), drop_digits(significant(d), p + 1))
}

/// The mantissa as it is written: its first digit, and after a point the `p` digits that
/// follow it.
pub open spec fn mantissa_text(d: Numeral, p: nat) -> Seq<char> {
    seq![mantissa(d, p)[0]] + if p > 0 {
        seq!['.'] + mantissa(d, p).subrange(1, p + 1 as int)
    } else {
        seq![]
    }
}

/// The power of ten that goes with the mantissa of `p + 1` digits: that of the first
/// digit of the number, and one more where rounding has carried into a new digit.
pub open spec fn scientific_exponent(d: Numeral, p: nat) -> int {
    if mantissa(d, p).len() > p + 1 {
        decimal_exponent(d) + 1
    } else {
        decimal_exponent(d)
    }
}

/// The exponent part of a number in scientific notation: `e` or `E`, the sign of the
/// power of ten, which is `+` for zero, and its magnitude in at least two digits.
pub open spec fn exponent_part(power: int, upper: bool) -> Seq<char> {
    let magnitude = if power < 0 {
        (-power) as nat
    } else {
        power as nat
    };
    seq![
        if upper {
            'E'
        } else {
            'e'
        },
        if power < 0 {
            '-'
        } else {
            '+'
        },
    ] + (if magnitude < 10 {
        seq!['0']
    } else {
        seq![]
    }) + radix_text(magnitude, 10, false)
}

/// The number in scientific notation with `p` digits after the point: one digit, the
/// point and `p` digits, then the exponent part.
pub open spec fn scientific_text(d: Numeral, p: nat, upper: bool) -> Seq<char> {
    sign_text(d.negative) + mantissa_text(d, p) + exponent_part(scientific_exponent(d, p), upper)
}

/// The number in scientific notation with `p` digits after the point, without the zeros
/// at the end of the mantissa and without a point left at its end.
pub open spec fn short_scientific_text(d: Numeral, p: nat, upper: bool) -> Seq<char> {
    sign_text(d.negative) + (if p > 0 {
        trimmed(mantissa_text(d, p))
    } else {
        mantissa_text(d, p)
    }) + exponent_part(scientific_exponent(d, p), upper)
}

/// How many zeros stand at the end of `s`.
pub open spec fn trailing_zeros(s: Seq<char>) -> nat
    decreases s.len(),
{
    if s.len() > 0 && s.last() == '0' {
        1 + trailing_zeros(s.drop_last())
    } else {
        0
    }
}

/// A numeral with a point, without the zeros at its end and without a point left at
/// its end.
pub open spec fn trimmed(t: Seq<char>) -> Seq<char> {
    let cut = t.take(t.len() - trailing_zeros(t));
    if cut.len() > 0 && cut.last() == '.' {
        cut.drop_last()
    } else {
        cut
    }
}

/// The number of significant digits that general notation writes: the precision, and 1
/// for the precision 0.
pub open spec fn general_digits(p: nat) -> nat {
    if p == 0 {
        1
    } else {
        p
    }
}

/// The power of ten by which general notation picks its form: that of the first digit
/// of the number once it is rounded to the significant digits asked for.
pub open spec fn general_exponent(d: Numeral, p: nat) -> int {
    scientific_exponent(d, (general_digits(p) - 1) as nat)
}

/// The number in general notation with `p` significant digits, where a precision of 0
/// counts as 1. Where the power of ten of the rounded number is below -4 or not below
/// `p`, that is scientific notation with `p - 1` digits after the point. Otherwise it is
/// fixed-point notation with as many digits after the point as make `p` significant
/// digits. Either way the zeros at the end of the digits after the point are left out,
/// and the point with them if nothing is left behind it.
pub open spec fn general_text(d: Numeral, p: nat, upper: bool) -> Seq<char> {
    let digits = general_digits(p);
    let exponent = general_exponent(d, p);
    if exponent < -4 || exponent >= digits {
        short_scientific_text(d, (digits - 1) as nat, upper)
    } else {
        let fixed = fixed_text(d, (digits - 1 - exponent) as nat);
        if has_char(fixed, '.') {
            trimmed(fixed)
        } else {
            fixed
        }
    }
}

/// The whole part of the number as an integer.
pub open spec fn truncated(d: Numeral) -> int {
    if d.negative {
        -(digits_value(d.whole) as int)
    } else {
        digits_value(d.whole) as int
    }
}

/// The whole part of the number, or the nearest 64-bit signed integer if it is out of range.
pub open spec fn truncated_i64(d: Numeral) -> i64 {
    if truncated(d) > i64::MAX {
        i64::MAX
    } else if truncated(d) < i64::MIN {
        i64::MIN
    } else {
        truncated(d) as i64
    }
}

/// The whole part of the number, or the nearest 64-bit unsigned integer if it is out of range.
pub open spec fn truncated_u64(d: Numeral) -> u64 {
    if truncated(d) > u64::MAX {
        u64::MAX
    } else if truncated(d) < 0 {
        0
    } else {
        truncated(d) as u64
    }
}

/// What `increment` gives are digits again, as many as before or one more.
pub proof fn lemma_increment(ds: Seq<char>)
    requires
        all_digits(ds),
    ensures
        all_digits(increment(ds)),
        ds.len() <= increment(ds).len() <= ds.len() + 1,
        increment(ds).len() > 0,
    decreases ds.len(),
{
    if ds.len() == 0 {
    } else if ds.last() == '9' {
        lemma_increment(ds.drop_last());
    } else {
        let d = digit_of(ds.last());
        assert(is_digit(ds.last()));
        assert(d < 9);
        assert(is_digit(digit_char(d + 1, false))) by {
            assert(d == 0 || d == 1 || d == 2 || d == 3 || d == 4 || d == 5 || d == 6 || d == 7
                || d == 8);
        }
    }
}

/// The digits that `increment` gives write the number that is one more.
pub proof fn lemma_increment_value(ds: Seq<char>)
    requires
        all_digits(ds),
    ensures
        digits_value(increment(ds)) == digits_value(ds) + 1,
    decreases ds.len(),
{
    if ds.len() == 0 {
        assert(seq!['1'].drop_last() =~= Seq::<char>::empty());
        reveal_with_fuel(digits_value, 2);
    } else if ds.last() == '9' {
        let head = ds.drop_last();
        lemma_increment_value(head);
        assert(increment(head).push('0').drop_last() =~= increment(head));
    } else {
        let head = ds.drop_last();
        let d = digit_of(ds.last());
        assert(is_digit(ds.last()));
        let next = digit_char(d + 1, false);
        assert(is_digit(next) && digit_of(next) == d + 1) by {
            assert(d == 0 || d == 1 || d == 2 || d == 3 || d == 4 || d == 5 || d == 6 || d == 7
                || d == 8);
        }
        assert(head.push(next).drop_last() =~= head);
    }
}

/// A number that has no more than `p` digits after the point is written in fixed-point
/// notation as it is, with zeros up to `p` digits.
pub proof fn lemma_fixed_text_exact(d: Numeral, p: nat)
    requires
        d.fraction.len() <= p,
    ensures
        fixed_text(d, p) == sign_text(d.negative) + whole_text(d.whole) + if p > 0 {
            seq!['.'] + d.fraction + zeros((p - d.fraction.len()) as nat)
        } else {
            seq![]
        },
{
    let padded = take_padded(d.fraction, p);
    assert(padded =~= d.fraction + zeros((p - d.fraction.len()) as nat));
    let kept = d.whole + padded;
    assert(drop_digits(d.fraction, p) =~= Seq::<char>::empty());
    assert(kept.take(kept.len() - p) =~= d.whole);
    assert(kept.skip(kept.len() - p) =~= padded);
}

proof fn lemma_increment_nines(ds: Seq<char>, i: int)
    requires
        0 <= i <= ds.len(),
        forall|j: int| i <= j < ds.len() ==> ds[j] == '9',
    ensures
        increment(ds) =~= increment(ds.take(i)) + zeros((ds.len() - i) as nat),
    decreases ds.len() - i,
{
    if i == ds.len() {
        assert(ds.take(i) =~= ds);
    } else {
        let dl = ds.drop_last();
        lemma_increment_nines(dl, i);
        assert(dl.take(i) =~= ds.take(i));
    }
}

fn increment_digits(ds: &Vec<char>) -> (r: Vec<char>)
    requires
        all_digits(ds@),
    ensures
        r@ == increment(ds@),
        all_digits(r@),
        ds@.len() <= r@.len() <= ds@.len() + 1,
{
    let mut i: usize = ds.len();
    while i > 0 && ds[i - 1] == '9'
        invariant
            i <= ds.len(),
            forall|j: int| i <= j < ds.len() ==> ds@[j] == '9',
        decreases i,
    {
        i -= 1;
    }
    let mut r: Vec<char> = Vec::new();
    if i == 0 {
        r.push('1');
        assert(ds@.take(0) =~= Seq::<char>::empty());
    } else {
        r = slice_chars(ds, 0, i - 1);
        let c = ds[i - 1];
        assert(is_digit(c));
        let d: u64 = (c as u32 - 48) as u64;
        let next = crate::numeral::digit_char_of(d + 1, false);
        r.push(next);
        proof {
            let head = ds@.take(i as int);
            assert(head.last() == c);
            assert(head.drop_last() =~= ds@.subrange(0, i - 1));
            assert(r@ =~= increment(head));
        }
    }
    let ghost head_done = r@;
    let mut k: usize = i;
    while k < ds.len()
        invariant
            i <= k <= ds.len(),
            r@ == head_done + zeros((k - i) as nat),
        decreases ds.len() - k,
    {
        r.push('0');
        k += 1;
        assert(r@ =~= head_done + zeros((k - i) as nat));
    }
    proof {
        lemma_increment_nines(ds@, i as int);
        lemma_increment(ds@);
    }
    r
}

/// Copies the first `n` digits of `s`, with zeros in place of those that `s` lacks.
fn push_padded(out: &mut Vec<char>, s: &Vec<char>, n: u128)
    ensures
        final(out)@ == old(out)@ + take_padded(s@, n as nat),
{
    let mut i: u128 = 0;
    while i < n
        invariant
            i <= n,
            out@ == old(out)@ + take_padded(s@, i as nat),
        decreases n - i,
    {
        let c = if i < s.len() as u128 {
            s[i as usize]
        } else {
            '0'
        };
        out.push(c);
        i += 1;
        assert(out@ =~= old(out)@ + take_padded(s@, i as nat));
    }
    assert(take_padded(s@, 0) =~= Seq::<char>::empty());
}

/// Whether the digits of `src` from `from` on round the digits `kept` up.
fn rounds_up_at(kept: &Vec<char>, src: &Vec<char>, from: usize) -> (up: bool)
    requires
        from <= src.len(),
        all_digits(kept@),
        all_digits(src@),
    ensures
        up == rounds_up(kept@, src@.skip(from as int)),
{
    let ghost rest = src@.skip(from as int);
    if from == src.len() {
        return false;
    }
    let first = src[from];
    assert(rest[0] == first);
    assert(is_digit(first));
    if first > '5' {
        return true;
    }
    if '5' > first {
        return false;
    }
    let odd = kept.len() > 0 && (kept[kept.len() - 1] as u32 - 48) % 2 == 1;
    assert(kept.len() > 0 ==> is_digit(kept@.last()));
    if odd {
        return true;
    }
    let mut i: usize = from + 1;
    while i < src.len()
        invariant
            from < i <= src.len(),
            rest == src@.skip(from as int),
            rest[0] == '5',
            !ends_odd(kept@),
            forall|j: int| 1 <= j < i - from ==> rest[j] == '0',
        decreases src.len() - i,
    {
        if src[i] != '0' {
            assert(rest.skip(1)[i - from - 1] == src@[i as int]);
            assert(!all_zero(rest.skip(1)));
            return true;
        }
        i += 1;
    }
    assert(all_zero(rest.skip(1))) by {
        assert forall|j: int| 0 <= j < rest.skip(1).len() implies rest.skip(1)[j] == '0' by {
            assert(rest.skip(1)[j] == rest[j + 1]);
        }
    }
    false
}

/// Counts the zeros at the front of the first `upto` characters of `s`.
fn count_leading_zeros(s: &Vec<char>, upto: usize) -> (n: usize)
    requires
        upto <= s.len(),
    ensures
        n == leading_zeros(s@.take(upto as int)),
        n <= upto,
{
    let ghost t = s@.take(upto as int);
    assert(t.skip(0) =~= t);
    let mut n: usize = 0;
    while n < upto && s[n] == '0'
        invariant
            n <= upto <= s.len(),
            t == s@.take(upto as int),
            leading_zeros(t) == n + leading_zeros(t.skip(n as int)),
        decreases upto - n,
    {
        proof {
            let u = t.skip(n as int);
            assert(u[0] == s@[n as int]);
            assert(u.drop_first() =~= t.skip(n + 1));
        }
        n += 1;
    }
    proof {
        let u = t.skip(n as int);
        if n < upto {
            assert(u[0] == s@[n as int]);
        }
    }
    n
}

/// Appends the first `upto` digits of `ds` as the digits before the point are written.
fn push_whole(out: &mut Vec<char>, ds: &Vec<char>, upto: usize)
    requires
        upto <= ds.len(),
    ensures
        final(out)@ == old(out)@ + whole_text(ds@.take(upto as int)),
{
    let lead = count_leading_zeros(ds, upto);
    if lead == upto {
        out.push('0');
        assert(out@ =~= old(out)@ + seq!['0']);
    } else {
        let w = slice_chars(ds, lead, upto);
        assert(w@ =~= ds@.take(upto as int).skip(lead as int));
        push_all(out, &w);
    }
}

/// Appends the first digit of `r`, and after a point the `p` digits that follow it.
fn push_mantissa(out: &mut Vec<char>, r: &Vec<char>, p: usize)
    requires
        r.len() > p,
    ensures
        final(out)@ == old(out)@ + seq![r@[0]] + if p > 0 {
            seq!['.'] + r@.subrange(1, p + 1)
        } else {
            seq![]
        },
{
    out.push(r[0]);
    if p > 0 {
        out.push('.');
        let f = slice_chars(r, 1, p + 1);
        push_all(out, &f);
        assert(out@ =~= old(out)@ + seq![r@[0]] + (seq!['.'] + r@.subrange(1, p + 1)));
    } else {
        assert(out@ =~= old(out)@ + seq![r@[0]] + Seq::<char>::empty());
    }
}

/// Appends `n` zeros.
fn push_zeros(out: &mut Vec<char>, n: u128)
    ensures
        final(out)@ == old(out)@ + zeros(n as nat),
{
    let mut i: u128 = 0;
    assert(out@ =~= old(out)@ + zeros(0));
    while i < n
        invariant
            i <= n,
            out@ == old(out)@ + zeros(i as nat),
        decreases n - i,
    {
        out.push('0');
        i += 1;
        assert(out@ =~= old(out)@ + zeros(i as nat));
    }
}

fn push_sign(out: &mut Vec<char>, negative: bool)
    ensures
        final(out)@ == old(out)@ + sign_text(negative),
{
    if negative {
        out.push('-');
        assert(out@ =~= old(out)@ + sign_text(negative));
    } else {
        assert(out@ =~= old(out)@ + sign_text(negative));
    }
}

fn write_exponent(power: i128, upper: bool) -> (text: Vec<char>)
    requires
        -(u64::MAX as int) <= power <= u64::MAX,
    ensures
        text@ == exponent_part(power as int, upper),
{
    let magnitude: u64 = if power < 0 {
        (-power) as u64
    } else {
        power as u64
    };
    let mut text: Vec<char> = Vec::new();
    text.push(
        if upper {
            'E'
        } else {
            'e'
        },
    );
    text.push(
        if power < 0 {
            '-'
        } else {
            '+'
        },
    );
    if magnitude < 10 {
        text.push('0');
    }
    let m = crate::numeral::render_u64(magnitude, 10, false);
    push_all(&mut text, &m);
    assert(text@ =~= exponent_part(power as int, upper));
    text
}

/// Cuts the zeros off the end of a numeral, and a point that is left at its end.
fn trim(t: &Vec<char>) -> (cut: Vec<char>)
    ensures
        cut@ == trimmed(t@),
{
    let mut end: usize = t.len();
    assert(t@.take(end as int) =~= t@);
    while end > 0 && t[end - 1] == '0'
        invariant
            end <= t.len(),
            trailing_zeros(t@) == (t.len() - end) + trailing_zeros(t@.take(end as int)),
        decreases end,
    {
        proof {
            let u = t@.take(end as int);
            assert(u.last() == t@[end - 1]);
            assert(u.drop_last() =~= t@.take(end - 1));
        }
        end -= 1;
    }
    proof {
        let u = t@.take(end as int);
        if end > 0 {
            assert(u.last() == t@[end - 1]);
        }
        assert(t@.take(t.len() - trailing_zeros(t@)) =~= u);
    }
    if end > 0 && t[end - 1] == '.' {
        let cut = slice_chars(t, 0, end - 1);
        assert(cut@ =~= t@.take(end as int).drop_last());
        cut
    } else {
        let cut = slice_chars(t, 0, end);
        assert(cut@ =~= t@.take(end as int));
        cut
    }
}

impl Decimal {
    #[verifier::type_invariant]
    spec fn digits_are_digits(self) -> bool {
        all_digits(self.whole@) && all_digits(self.fraction@)
    }

    /// Whether the number has a minus sign.
    pub fn is_negative(&self) -> (negative: bool)
        ensures
            negative == self@.negative,
    {
        self.negative
    }

    /// The digits before the point.
    pub fn whole_digits(&self) -> (digits: &Vec<char>)
        ensures
            digits@ == self@.whole,
    {
        &self.whole
    }

    /// The digits after the point.
    pub fn fraction_digits(&self) -> (digits: &Vec<char>)
        ensures
            digits@ == self@.fraction,
    {
        &self.fraction
    }

    /// Reads a numeral.
    pub fn parse(t: &Vec<char>) -> (d: Option<Decimal>)
        ensures
            match d {
                Some(d) => numeral_of(t@) == Some(d@),
                None => numeral_of(t@) is None,
            },
    {
        let signed = t.len() > 0 && (t[0] == '-' || t[0] == '+');
        let start: usize = if signed {
            1
        } else {
            0
        };
        let body = slice_chars(t, start, t.len());
        assert(body@ =~= if signed {
            t@.skip(1)
        } else {
            t@
        });
        let dot = find_char(&body, '.');
        let whole = slice_chars(&body, 0, dot);
        let fraction = if dot < body.len() {
            let f = slice_chars(&body, dot + 1, body.len());
            assert(f@ =~= body@.skip(dot + 1));
            f
        } else {
            Vec::new()
        };
        assert(whole@ =~= body@.take(dot as int));
        if is_all_digits(&whole) && is_all_digits(&fraction) && (whole.len() > 0 || fraction.len()
            > 0) {
            Some(Decimal { negative: signed && t[0] == '-', whole, fraction })
        } else {
            None
        }
    }

    /// Moves the point by so many places.
    pub fn shift(self, by: i128) -> (d: Decimal)
        requires
            -0x1_0000_0000_0000_0000_0000 <= by <= 0x1_0000_0000_0000_0000_0000,
        ensures
            d@ == shifted(self@, by as int),
    {
        proof {
            use_type_invariant(&self);
        }
        let mut all: Vec<char> = Vec::new();
        push_all(&mut all, &self.whole);
        push_all(&mut all, &self.fraction);
        let at: i128 = self.whole.len() as i128 + by;
        if at <= 0 {
            let mut fraction: Vec<char> = Vec::new();
            push_zeros(&mut fraction, (-at) as u128);
            push_all(&mut fraction, &all);
            let d = Decimal { negative: self.negative, whole: Vec::new(), fraction };
            assert(d@.whole =~= shifted(self@, by as int).whole);
            d
        } else if at >= all.len() as i128 {
            let mut whole: Vec<char> = Vec::new();
            push_all(&mut whole, &all);
            push_zeros(&mut whole, (at - all.len() as i128) as u128);
            let d = Decimal { negative: self.negative, whole, fraction: Vec::new() };
            assert(d@.fraction =~= shifted(self@, by as int).fraction);
            d
        } else {
            let whole = slice_chars(&all, 0, at as usize);
            let fraction = slice_chars(&all, at as usize, all.len());
            let d = Decimal { negative: self.negative, whole, fraction };
            assert(d@.whole =~= shifted(self@, by as int).whole);
            assert(d@.fraction =~= shifted(self@, by as int).fraction);
            d
        }
    }

    /// The number 1 or 0 that a truth value counts as.
    pub fn from_bool(b: bool) -> (d: Decimal)
        ensures
            d@ == numeral_of_bool(b),
    {
        let whole: Vec<char> = if b {
            vec!['1']
        } else {
            vec!['0']
        };
        let d = Decimal { negative: false, whole, fraction: Vec::new() };
        proof {
            assert(d@.whole =~= numeral_of_bool(b).whole);
            assert(d@.fraction =~= numeral_of_bool(b).fraction);
        }
        d
    }

    /// Writes the number in fixed-point notation with `p` digits after the point.
    pub fn render_fixed(&self, p: usize) -> (text: Vec<char>)
        ensures
            text@ == fixed_text(self@, p as nat),
    {
        proof {
            use_type_invariant(self);
        }
        self.fixed_digits(p as u128)
    }

    /// The digits before the point and the first `p` digits after it, rounded.
    fn kept_digits(&self, p: u128) -> (r: Vec<char>)
        ensures
            r@ == fixed_digits_spec(self@, p as nat),
            r@.len() >= p,
    {
        proof {
            use_type_invariant(self);
        }
        let mut kept: Vec<char> = Vec::new();
        push_all(&mut kept, &self.whole);
        push_padded(&mut kept, &self.fraction, p);
        let cut: usize = if p <= self.fraction.len() as u128 {
            p as usize
        } else {
            self.fraction.len()
        };
        proof {
            assert(self.fraction@.skip(cut as int) =~= drop_digits(self.fraction@, p as nat));
            assert(all_digits(kept@));
            lemma_increment(kept@);
        }
        if rounds_up_at(&kept, &self.fraction, cut) {
            increment_digits(&kept)
        } else {
            kept
        }
    }

    fn fixed_digits(&self, p: u128) -> (text: Vec<char>)
        ensures
            text@ == fixed_text(self@, p as nat),
    {
        let r = self.kept_digits(p);
        let split: usize = (r.len() as u128 - p) as usize;
        let mut text: Vec<char> = Vec::new();
        push_sign(&mut text, self.negative);
        push_whole(&mut text, &r, split);
        if p > 0 {
            text.push('.');
            let f = slice_chars(&r, split, r.len());
            assert(f@ =~= r@.skip(split as int));
            push_all(&mut text, &f);
        }
        assert(text@ =~= fixed_text(self@, p as nat));
        text
    }

    /// Zero, with a sign.
    pub fn zero(negative: bool) -> (d: Decimal)
        ensures
            d@ == zero_numeral(negative),
    {
        let d = Decimal { negative, whole: vec!['0'], fraction: Vec::new() };
        proof {
            assert(d@.whole =~= zero_numeral(negative).whole);
            assert(d@.fraction =~= zero_numeral(negative).fraction);
        }
        d
    }

    /// Tells whether the number is zero.
    pub fn is_zero(&self) -> (zero: bool)
        ensures
            zero == is_zero(self@),
    {
        let mut all: Vec<char> = Vec::new();
        push_all(&mut all, &self.whole);
        push_all(&mut all, &self.fraction);
        assert(all@.take(all.len() as int) =~= all@);
        count_leading_zeros(&all, all.len()) == all.len()
    }

    /// The power of ten of the first digit that is not zero.
    pub fn exponent(&self) -> (e: i128)
        ensures
            e == decimal_exponent(self@),
            -(usize::MAX as int) <= e < usize::MAX,
    {
        let mut all: Vec<char> = Vec::new();
        push_all(&mut all, &self.whole);
        push_all(&mut all, &self.fraction);
        assert(all@.take(all.len() as int) =~= all@);
        let lead = count_leading_zeros(&all, all.len());
        if lead == all.len() {
            0
        } else {
            self.whole.len() as i128 - 1 - lead as i128
        }
    }

    /// The first `p + 1` significant digits, rounded.
    fn mantissa_digits(&self, p: usize) -> (r: Vec<char>)
        ensures
            r@ == mantissa(self@, p as nat),
            p + 1 <= r@.len() <= p + 2,
    {
        proof {
            use_type_invariant(self);
        }
        let mut all: Vec<char> = Vec::new();
        push_all(&mut all, &self.whole);
        push_all(&mut all, &self.fraction);
        assert(all@.take(all.len() as int) =~= all@);
        let lead = count_leading_zeros(&all, all.len());
        let sig = slice_chars(&all, lead, all.len());
        assert(sig@ =~= significant(self@));
        let mut kept: Vec<char> = Vec::new();
        push_padded(&mut kept, &sig, p as u128 + 1);
        let cut: usize = if p < sig.len() {
            p + 1
        } else {
            sig.len()
        };
        proof {
            assert(sig@.skip(cut as int) =~= drop_digits(sig@, (p + 1) as nat));
            assert(all_digits(kept@));
            lemma_increment(kept@);
        }
        if rounds_up_at(&kept, &sig, cut) {
            increment_digits(&kept)
        } else {
            kept
        }
    }

    /// The mantissa of `p + 1` digits as it is written, and the exponent part that goes
    /// with it.
    fn scientific_parts(&self, p: usize, upper: bool) -> (parts: (Vec<char>, Vec<char>))
        ensures
            parts.0@ == mantissa_text(self@, p as nat),
            parts.1@ == exponent_part(scientific_exponent(self@, p as nat), upper),
    {
        let r = self.mantissa_digits(p);
        let power = self.rounded_exponent(p);
        let mut written: Vec<char> = Vec::new();
        push_mantissa(&mut written, &r, p);
        assert(written@ =~= mantissa_text(self@, p as nat));
        (written, write_exponent(power, upper))
    }

    /// Writes the number in scientific notation with `p` digits after the point.
    pub fn render_scientific(&self, p: usize, upper: bool) -> (text: Vec<char>)
        ensures
            text@ == scientific_text(self@, p as nat, upper),
    {
        let (written, exponent) = self.scientific_parts(p, upper);
        let mut text: Vec<char> = Vec::new();
        push_sign(&mut text, self.negative);
        push_all(&mut text, &written);
        push_all(&mut text, &exponent);
        text
    }

    fn render_short_scientific(&self, p: usize, upper: bool) -> (text: Vec<char>)
        ensures
            text@ == short_scientific_text(self@, p as nat, upper),
    {
        let (written, exponent) = self.scientific_parts(p, upper);
        let mut text: Vec<char> = Vec::new();
        push_sign(&mut text, self.negative);
        if p > 0 {
            let short = trim(&written);
            push_all(&mut text, &short);
        } else {
            push_all(&mut text, &written);
        }
        push_all(&mut text, &exponent);
        text
    }

    /// The power of ten that goes with the mantissa of `p + 1` digits.
    fn rounded_exponent(&self, p: usize) -> (power: i128)
        ensures
            power == scientific_exponent(self@, p as nat),
            -(usize::MAX as int) <= power <= usize::MAX,
    {
        let r = self.mantissa_digits(p);
        let base = self.exponent();
        if r.len() as u128 > p as u128 + 1 {
            base + 1
        } else {
            base
        }
    }

    /// Writes the number in general notation with `p` significant digits.
    pub fn render_general(&self, p: usize, upper: bool) -> (text: Vec<char>)
        ensures
            text@ == general_text(self@, p as nat, upper),
    {
        let digits: usize = if p == 0 {
            1
        } else {
            p
        };
        let exponent = self.rounded_exponent(digits - 1);
        if exponent < -4 || exponent >= digits as i128 {
            self.render_short_scientific(digits - 1, upper)
        } else {
            let places: u128 = (digits as i128 - 1 - exponent) as u128;
            let fixed = self.fixed_digits(places);
            proof {
                lemma_first_index_of(fixed@, '.');
            }
            if find_char(&fixed, '.') < fixed.len() {
                trim(&fixed)
            } else {
                fixed
            }
        }
    }

    /// The whole part, kept within the 64-bit signed integers.
    pub fn to_i64(&self) -> (n: i64)
        ensures
            n == truncated_i64(self@),
    {
        proof {
            use_type_invariant(self);
        }
        assert(self.whole@.skip(0) =~= self.whole@);
        if self.whole.len() == 0 {
            return 0;
        }
        if self.negative {
            match parse_magnitude(&self.whole, 0, 0x8000_0000_0000_0000) {
                Some(m) => if m == 0x8000_0000_0000_0000 {
                    i64::MIN
                } else {
                    -(m as i64)
                },
                None => i64::MIN,
            }
        } else {
            match parse_magnitude(&self.whole, 0, 0x7fff_ffff_ffff_ffff) {
                Some(m) => m as i64,
                None => i64::MAX,
            }
        }
    }

    /// The whole part, kept within the 64-bit unsigned integers.
    pub fn to_u64(&self) -> (n: u64)
        ensures
            n == truncated_u64(self@),
    {
        proof {
            use_type_invariant(self);
        }
        assert(self.whole@.skip(0) =~= self.whole@);
        if self.whole.len() == 0 {
            return 0;
        }
        match parse_magnitude(&self.whole, 0, u64::MAX) {
            Some(m) => if self.negative {
                0
            } else {
                m
            },
            None => if self.negative {
                0
            } else {
                u64::MAX
            },
        }
    }
}

} // verus!
