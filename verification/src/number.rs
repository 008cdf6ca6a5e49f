//! Real numbers as string formatting meets them: a number written in decimal, an
//! infinity, or what is no number. A text is read as the standard reading of
//! floating-point numbers takes it, but digit for digit: the digits that are written are
//! the digits of the number, and only a number beyond the range of a double becomes an
//! infinity or zero.

use vstd::prelude::*;
use crate::decimal::Decimal;
use crate::decimal::Numeral;
use crate::decimal::all_zero;
use crate::decimal::decimal_exponent;
use crate::decimal::fixed_text;
use crate::decimal::general_text;
use crate::decimal::is_zero;
use crate::decimal::leading_zeros;
use crate::decimal::numeral_of;
use crate::decimal::scientific_text;
use crate::decimal::shifted;
use crate::decimal::sign_text;
use crate::decimal::truncated_i64;
use crate::decimal::truncated_u64;
use crate::decimal::zero_numeral;
use crate::numeral::digits_value;
use crate::numeral::is_all_digits;
use crate::numeral::is_digit;
use crate::numeral::all_digits;
use crate::numeral::signed_numeral;
use crate::text::chars_of;
use crate::text::push_all;
use crate::text::slice_chars;

verus! {

/// A real number, an infinity, or what is no number.
pub enum Real {
    Finite(Numeral),
    /// An infinity; negative if the flag is set.
    Infinite(bool),
    NotANumber,
}

/// A real number, an infinity, or what is no number, as the program holds it.
#[derive(Debug, PartialEq, Eq)]
pub enum Number {
    Finite(Decimal),
    /// An infinity; negative if the flag is set.
    Infinite(bool),
    NotANumber,
}

impl View for Number {
    type V = Real;

    open spec fn view(&self) -> Real {
        match self {
            Number::Finite(d) => Real::Finite(d@),
            Number::Infinite(negative) => Real::Infinite(*negative),
            Number::NotANumber => Real::NotANumber,
        }
    }
}

/// The digits of the least whole number that is beyond every double: 2^1024 - 2^970. A
/// number from here on is read as an infinity.
pub open spec fn overflow_digits() -> Seq<char> {
    "179769313486231580793728971405303415079934132710037826936173778980444968292764750946649017977587207096330286416692887910946555547851940402630657488671505820681908902000708383676273854845817711531764475730270069855571366959622842914819860834936475292719074168444365510704342711559699508093042880177904174497792"@
}

/// The digits after the point of 2^-1075, which is half of the least double above zero.
/// A number up to here is read as zero.
pub open spec fn underflow_digits() -> Seq<char> {
    "0000000000000000000000000000000000000000000000000000000000000000000000000000000000000000000000000000000000000000000000000000000000000000000000000000000000000000000000000000000000000000000000000000000000000000000000000000000000000000000000000000000000000000000000000000000000000000000000000000000000000000000000000000000000024703282292062327208828439643411068618252990130716238221279284125033775363510437593264991818081799618989828234772285886546332835517796989819938739800539093906315035659515570226392290858392449105184435931802849936536152500319370457678249219365623669863658480757001585769269903706311928279558551332927834338409351978015531246597263579574622766465272827220056374006485499977096599470454020828166226237857393450736339007967761930577506740176324673600968951340535537458516661134223766678604162159680461914467291840300530057530849048765391711386591646239524912623653881879636239373280423891018672348497668235089863388587925628302755995657524455507255189313690836254779186948667994968324049705821028513185451396213837722826145437693412532098591327667236328125"@
}

/// Whether the digits `a` from index `i` on write a lesser number than those of `b`,
/// where both have the same length.
pub open spec fn digits_before(a: Seq<char>, b: Seq<char>, i: int) -> bool
    decreases a.len() - i,
{
    if i < 0 || i >= a.len() || i >= b.len() {
        false
    } else if a[i] != b[i] {
        a[i] < b[i]
    } else {
        digits_before(a, b, i + 1)
    }
}

/// Whether the whole number that `w` writes is at least the one that `limit` writes,
/// where `limit` has no zero in front.
pub open spec fn whole_at_least(w: Seq<char>, limit: Seq<char>) -> bool {
    let bare = w.skip(leading_zeros(w) as int);
    bare.len() > limit.len() || (bare.len() == limit.len() && !digits_before(bare, limit, 0))
}

/// Whether the digits after the point `f` from index `i` on write more than those of
/// `limit`.
pub open spec fn fraction_beyond(f: Seq<char>, limit: Seq<char>, i: int) -> bool
    decreases f.len() - i,
{
    if i < 0 || i >= f.len() {
        false
    } else if i >= limit.len() {
        !all_zero(f.skip(i))
    } else if f[i] != limit[i] {
        f[i] > limit[i]
    } else {
        fraction_beyond(f, limit, i + 1)
    }
}

/// Whether the number is beyond the greatest double.
pub open spec fn overflows(d: Numeral) -> bool {
    whole_at_least(d.whole, overflow_digits())
}

/// Whether the number is not zero and too small for the least double above zero.
pub open spec fn underflows(d: Numeral) -> bool {
    !is_zero(d) && leading_zeros(d.whole) == d.whole.len() && !fraction_beyond(
        d.fraction,
        underflow_digits(),
        0,
    )
}

/// The number as a double can stand for it: an infinity beyond the greatest double,
/// zero below the least one, and itself in between.
pub open spec fn ranged(d: Numeral) -> Real {
    if overflows(d) {
        Real::Infinite(d.negative)
    } else if underflows(d) {
        Real::Finite(zero_numeral(d.negative))
    } else {
        Real::Finite(d)
    }
}

/// The index of the first `e` or `E` of `t`, or the length of `t` if it has none.
pub open spec fn exponent_mark(t: Seq<char>) -> int
    decreases t.len(),
{
    if t.len() == 0 {
        0
    } else if t[0] == 'e' || t[0] == 'E' {
        0
    } else {
        1 + exponent_mark(t.drop_first())
    }
}

/// Whether `body` is the word written in small letters as `small` and in capitals as
/// `capital`, in letters of either kind.
pub open spec fn is_word(body: Seq<char>, small: Seq<char>, capital: Seq<char>) -> bool {
    body.len() == small.len() && body.len() == capital.len() && forall|i: int|
        0 <= i < body.len() ==> (#[trigger] body[i]) == small[i] || body[i] == capital[i]
}

/// The text without its sign.
pub open spec fn unsigned_text(t: Seq<char>) -> Seq<char> {
    if t.len() > 0 && (t[0] == '-' || t[0] == '+') {
        t.skip(1)
    } else {
        t
    }
}

/// Whether the text is `inf` or `infinity`, with or without a sign, in letters of either
/// kind.
pub open spec fn names_infinity(t: Seq<char>) -> bool {
    is_word(unsigned_text(t), "inf"@, "INF"@) || is_word(
        unsigned_text(t),
        "infinity"@,
        "INFINITY"@,
    )
}

/// Whether the text is `nan`, with or without a sign, in letters of either kind.
pub open spec fn names_no_number(t: Seq<char>) -> bool {
    is_word(unsigned_text(t), "nan"@, "NAN"@)
}

/// The greatest power of ten that the first digit of a double can stand for is 308, and
/// the least -324. A number whose first digit stands for a power of ten beyond these
/// two bounds is an infinity or zero whatever its digits are.
pub open spec fn greatest_power() -> int {
    400
}

/// See [`greatest_power`].
pub open spec fn least_power() -> int {
    -1100
}

/// The number that digits with an exponent part write: the digits `d` with the point
/// moved `by` places.
pub open spec fn scaled(d: Numeral, by: int) -> Real {
    if is_zero(d) {
        Real::Finite(zero_numeral(d.negative))
    } else if decimal_exponent(d) + by > greatest_power() {
        Real::Infinite(d.negative)
    } else if decimal_exponent(d) + by < least_power() {
        Real::Finite(zero_numeral(d.negative))
    } else {
        ranged(shifted(d, by))
    }
}

/// The number that a text writes, as the standard reading of floating-point numbers
/// takes it:
/// - `inf`, `infinity` and `nan`, with or without a sign and in letters of either kind;
/// - digits with an optional sign and at most one point among them, and an optional
///   exponent part, which is `e` or `E`, an optional sign and digits, and moves the
///   point by so many places.
///
/// A number beyond the greatest double is an infinity, and one below the least double
/// above zero is zero. Any other number is the number that its digits write, where the
/// standard reading would take the nearest double.
pub open spec fn real_of(t: Seq<char>) -> Option<Real> {
    if names_infinity(t) {
        Some(Real::Infinite(t.len() > 0 && t[0] == '-'))
    } else if names_no_number(t) {
        Some(Real::NotANumber)
    } else if exponent_mark(t) >= t.len() {
        match numeral_of(t) {
            Some(d) => Some(ranged(d)),
            None => None,
        }
    } else {
        match numeral_of(t.take(exponent_mark(t))) {
            Some(d) => match signed_numeral(t.skip(exponent_mark(t) + 1)) {
                Some(by) => Some(scaled(d, by)),
                None => None,
            },
            None => None,
        }
    }
}

/// The real number 1 or 0 that a truth value counts as.
pub open spec fn real_of_bool(b: bool) -> Real {
    Real::Finite(crate::decimal::numeral_of_bool(b))
}

/// How an infinity or what is no number is written: `inf` or `nan`, in capitals where
/// they are asked for, and with a minus sign for the negative infinity.
pub open spec fn word_text(r: Real, upper: bool) -> Seq<char> {
    match r {
        Real::Infinite(negative) => sign_text(negative) + if upper {
            "INF"@
        } else {
            "inf"@
        },
        _ => if upper {
            "NAN"@
        } else {
            "nan"@
        },
    }
}

/// The number in fixed-point notation with `p` digits after the point.
pub open spec fn real_fixed_text(r: Real, p: nat, upper: bool) -> Seq<char> {
    match r {
        Real::Finite(d) => fixed_text(d, p),
        _ => word_text(r, upper),
    }
}

/// The number in scientific notation with `p` digits after the point.
pub open spec fn real_scientific_text(r: Real, p: nat, upper: bool) -> Seq<char> {
    match r {
        Real::Finite(d) => scientific_text(d, p, upper),
        _ => word_text(r, upper),
    }
}

/// The number in general notation with `p` significant digits.
pub open spec fn real_general_text(r: Real, p: nat, upper: bool) -> Seq<char> {
    match r {
        Real::Finite(d) => general_text(d, p, upper),
        _ => word_text(r, upper),
    }
}

/// The whole part of the number within the 64-bit signed integers: the greatest and the
/// least of them for the infinities, and 0 for what is no number.
pub open spec fn real_i64(r: Real) -> i64 {
    match r {
        Real::Finite(d) => truncated_i64(d),
        Real::Infinite(negative) => if negative {
            i64::MIN
        } else {
            i64::MAX
        },
        Real::NotANumber => 0,
    }
}

/// The whole part of the number within the 64-bit unsigned integers: the greatest of
/// them for the positive infinity, and 0 for the negative one and for what is no number.
pub open spec fn real_u64(r: Real) -> u64 {
    match r {
        Real::Finite(d) => truncated_u64(d),
        Real::Infinite(negative) => if negative {
            0
        } else {
            u64::MAX
        },
        Real::NotANumber => 0,
    }
}

proof fn lemma_exponent_mark(t: Seq<char>)
    ensures
        0 <= exponent_mark(t) <= t.len(),
        forall|i: int| 0 <= i < exponent_mark(t) ==> t[i] != 'e' && t[i] != 'E',
        exponent_mark(t) < t.len() ==> t[exponent_mark(t)] == 'e' || t[exponent_mark(t)] == 'E',
    decreases t.len(),
{
    if t.len() == 0 {
    } else if t[0] == 'e' || t[0] == 'E' {
    } else {
        let rest = t.drop_first();
        lemma_exponent_mark(rest);
        assert forall|i: int| 0 <= i < exponent_mark(t) implies t[i] != 'e' && t[i] != 'E' by {
            if i > 0 {
                assert(t[i] == rest[i - 1]);
            }
        }
    }
}

fn find_exponent_mark(t: &Vec<char>) -> (at: usize)
    ensures
        at == exponent_mark(t@),
        at <= t.len(),
{
    proof {
        lemma_exponent_mark(t@);
    }
    let mut i: usize = 0;
    while i < t.len()
        invariant
            i <= t.len(),
            i <= exponent_mark(t@) <= t.len(),
            forall|j: int| 0 <= j < exponent_mark(t@) ==> t@[j] != 'e' && t@[j] != 'E',
            exponent_mark(t@) < t.len() ==> t@[exponent_mark(t@)] == 'e' || t@[exponent_mark(
                t@,
            )] == 'E',
        decreases t.len() - i,
    {
        if t[i] == 'e' || t[i] == 'E' {
            return i;
        }
        i += 1;
    }
    i
}

fn same_word(body: &Vec<char>, small: &str, capital: &str) -> (same: bool)
    ensures
        same == is_word(body@, small@, capital@),
{
    let lower = chars_of(small);
    let upper = chars_of(capital);
    if body.len() != lower.len() || body.len() != upper.len() {
        return false;
    }
    let mut i: usize = 0;
    while i < body.len()
        invariant
            i <= body.len(),
            body.len() == lower.len(),
            body.len() == upper.len(),
            lower@ == small@,
            upper@ == capital@,
            forall|j: int|
                0 <= j < i ==> (#[trigger] body@[j]) == lower@[j] || body@[j] == upper@[j],
        decreases body.len() - i,
    {
        if body[i] != lower[i] && body[i] != upper[i] {
            assert(!(body@[i as int] == small@[i as int] || body@[i as int] == capital@[i as int]));
            return false;
        }
        i += 1;
    }
    true
}

fn before(a: &Vec<char>, b: &Vec<char>) -> (less: bool)
    requires
        a.len() == b.len(),
    ensures
        less == digits_before(a@, b@, 0),
{
    let mut i: usize = 0;
    while i < a.len()
        invariant
            i <= a.len(),
            a.len() == b.len(),
            digits_before(a@, b@, 0) == digits_before(a@, b@, i as int),
        decreases a.len() - i,
    {
        if a[i] != b[i] {
            return a[i] < b[i];
        }
        i += 1;
    }
    false
}

fn count_zeros_in_front(s: &Vec<char>) -> (n: usize)
    ensures
        n == leading_zeros(s@),
        n <= s.len(),
{
    assert(s@.skip(0) =~= s@);
    let mut n: usize = 0;
    while n < s.len() && s[n] == '0'
        invariant
            n <= s.len(),
            leading_zeros(s@) == n + leading_zeros(s@.skip(n as int)),
        decreases s.len() - n,
    {
        proof {
            let u = s@.skip(n as int);
            assert(u[0] == s@[n as int]);
            assert(u.drop_first() =~= s@.skip(n + 1));
        }
        n += 1;
    }
    proof {
        let u = s@.skip(n as int);
        if n < s.len() {
            assert(u[0] == s@[n as int]);
        }
    }
    n
}

fn at_least(w: &Vec<char>, limit: &Vec<char>) -> (reached: bool)
    ensures
        reached == whole_at_least(w@, limit@),
{
    let lead = count_zeros_in_front(w);
    let bare = slice_chars(w, lead, w.len());
    assert(bare@ =~= w@.skip(lead as int));
    if bare.len() > limit.len() {
        true
    } else if bare.len() == limit.len() {
        !before(&bare, limit)
    } else {
        false
    }
}

fn any_digit_from(f: &Vec<char>, from: usize) -> (found: bool)
    requires
        from <= f.len(),
    ensures
        found == !all_zero(f@.skip(from as int)),
{
    let ghost rest = f@.skip(from as int);
    let mut i: usize = from;
    while i < f.len()
        invariant
            from <= i <= f.len(),
            rest == f@.skip(from as int),
            forall|j: int| 0 <= j < i - from ==> #[trigger] rest[j] == '0',
        decreases f.len() - i,
    {
        if f[i] != '0' {
            assert(rest[i - from] != '0');
            return true;
        }
        i += 1;
    }
    false
}

fn beyond(f: &Vec<char>, limit: &Vec<char>) -> (more: bool)
    ensures
        more == fraction_beyond(f@, limit@, 0),
{
    let mut i: usize = 0;
    while i < f.len()
        invariant
            i <= f.len(),
            fraction_beyond(f@, limit@, 0) == fraction_beyond(f@, limit@, i as int),
        decreases f.len() - i,
    {
        if i >= limit.len() {
            return any_digit_from(f, i);
        }
        if f[i] != limit[i] {
            return f[i] > limit[i];
        }
        i += 1;
    }
    false
}

/// Gives the number as a double can stand for it.
fn in_range(d: Decimal) -> (n: Number)
    ensures
        n@ == ranged(d@),
{
    let over = chars_of(
        "179769313486231580793728971405303415079934132710037826936173778980444968292764750946649017977587207096330286416692887910946555547851940402630657488671505820681908902000708383676273854845817711531764475730270069855571366959622842914819860834936475292719074168444365510704342711559699508093042880177904174497792",
    );
    if at_least(d.whole_digits(), &over) {
        return Number::Infinite(d.is_negative());
    }
    let under = chars_of(
        "0000000000000000000000000000000000000000000000000000000000000000000000000000000000000000000000000000000000000000000000000000000000000000000000000000000000000000000000000000000000000000000000000000000000000000000000000000000000000000000000000000000000000000000000000000000000000000000000000000000000000000000000000000000000024703282292062327208828439643411068618252990130716238221279284125033775363510437593264991818081799618989828234772285886546332835517796989819938739800539093906315035659515570226392290858392449105184435931802849936536152500319370457678249219365623669863658480757001585769269903706311928279558551332927834338409351978015531246597263579574622766465272827220056374006485499977096599470454020828166226237857393450736339007967761930577506740176324673600968951340535537458516661134223766678604162159680461914467291840300530057530849048765391711386591646239524912623653881879636239373280423891018672348497668235089863388587925628302755995657524455507255189313690836254779186948667994968324049705821028513185451396213837722826145437693412532098591327667236328125",
    );
    let lead = count_zeros_in_front(d.whole_digits());
    if !d.is_zero() && lead == d.whole_digits().len() && !beyond(d.fraction_digits(), &under) {
        return Number::Finite(Decimal::zero(d.is_negative()));
    }
    Number::Finite(d)
}

/// The greatest number of places that an exponent part is read to move the point by.
pub open spec fn shift_cap() -> int {
    1_000_000_000_000_000_000_000_000_000_000
}

/// Reads how far an exponent part moves the point; a number beyond the cap either way
/// is read as the cap.
fn read_shift(t: &Vec<char>) -> (by: Option<i128>)
    ensures
        match by {
            Some(by) => signed_numeral(t@) is Some && by == if signed_numeral(t@)->0
                > shift_cap() {
                shift_cap()
            } else if signed_numeral(t@)->0 < -shift_cap() {
                -shift_cap()
            } else {
                signed_numeral(t@)->0
            },
            None => signed_numeral(t@) is None,
        },
{
    let signed = t.len() > 0 && (t[0] == '-' || t[0] == '+');
    let start: usize = if signed {
        1
    } else {
        0
    };
    let body = slice_chars(t, start, t.len());
    assert(body@ =~= if signed {
        t@.skip(1)
    } else {
        t@
    });
    if body.len() == 0 || !is_all_digits(&body) {
        return None;
    }
    let cap: u128 = 1_000_000_000_000_000_000_000_000_000_000;
    let mut acc: u128 = 0;
    let mut i: usize = 0;
    assert(body@.take(0) =~= Seq::<char>::empty());
    while i < body.len()
        invariant
            i <= body.len(),
            all_digits(body@),
            cap == shift_cap(),
            acc <= cap,
            acc == if digits_value(body@.take(i as int)) > cap {
                cap as nat
            } else {
                digits_value(body@.take(i as int))
            },
        decreases body.len() - i,
    {
        let c = body[i];
        assert(is_digit(c));
        proof {
            assert(body@.take(i + 1).drop_last() =~= body@.take(i as int));
            assert(body@.take(i + 1).last() == c);
        }
        let next: u128 = acc * 10 + (c as u32 - 48) as u128;
        acc = if next > cap {
            cap
        } else {
            next
        };
        i += 1;
    }
    assert(body@.take(i as int) =~= body@);
    if signed && t[0] == '-' {
        Some(-(acc as i128))
    } else {
        Some(acc as i128)
    }
}

impl Number {
    /// Reads a number.
    pub fn parse(t: &Vec<char>) -> (n: Option<Number>)
        ensures
            match n {
                Some(n) => real_of(t@) == Some(n@),
                None => real_of(t@) is None,
            },
    {
        let signed = t.len() > 0 && (t[0] == '-' || t[0] == '+');
        let start: usize = if signed {
            1
        } else {
            0
        };
        let body = slice_chars(t, start, t.len());
        assert(body@ =~= unsigned_text(t@));
        if same_word(&body, "inf", "INF") || same_word(&body, "infinity", "INFINITY") {
            return Some(Number::Infinite(signed && t[0] == '-'));
        }
        if same_word(&body, "nan", "NAN") {
            return Some(Number::NotANumber);
        }
        let mark = find_exponent_mark(t);
        if mark >= t.len() {
            return match Decimal::parse(t) {
                Some(d) => Some(in_range(d)),
                None => None,
            };
        }
        let head = slice_chars(t, 0, mark);
        let tail = slice_chars(t, mark + 1, t.len());
        assert(head@ =~= t@.take(mark as int));
        assert(tail@ =~= t@.skip(mark + 1));
        let d = match Decimal::parse(&head) {
            Some(d) => d,
            None => {
                return None;
            },
        };
        let by = match read_shift(&tail) {
            Some(by) => by,
            None => {
                return None;
            },
        };
        if d.is_zero() {
            return Some(Number::Finite(Decimal::zero(d.is_negative())));
        }
        let power = d.exponent() + by;
        if power > 400 {
            Some(Number::Infinite(d.is_negative()))
        } else if power < -1100 {
            Some(Number::Finite(Decimal::zero(d.is_negative())))
        } else {
            Some(in_range(d.shift(by)))
        }
    }

    /// The real number 1 or 0 that a truth value counts as.
    pub fn from_bool(b: bool) -> (n: Number)
        ensures
            n@ == real_of_bool(b),
    {
        Number::Finite(Decimal::from_bool(b))
    }

    fn word(&self, upper: bool) -> (text: Vec<char>)
        requires
            !(self@ is Finite),
        ensures
            text@ == word_text(self@, upper),
    {
        let mut text: Vec<char> = Vec::new();
        match self {
            Number::Infinite(negative) => {
                if *negative {
                    text.push('-');
                }
                assert(text@ =~= sign_text(*negative));
                let word = chars_of(
                    if upper {
                        "INF"
                    } else {
                        "inf"
                    },
                );
                push_all(&mut text, &word);
            },
            _ => {
                let word = chars_of(
                    if upper {
                        "NAN"
                    } else {
                        "nan"
                    },
                );
                push_all(&mut text, &word);
                assert(text@ =~= word@);
            },
        }
        text
    }

    /// Writes the number in fixed-point notation with `p` digits after the point.
    pub fn render_fixed(&self, p: usize, upper: bool) -> (text: Vec<char>)
        ensures
            text@ == real_fixed_text(self@, p as nat, upper),
    {
        match self {
            Number::Finite(d) => d.render_fixed(p),
            _ => self.word(upper),
        }
    }

    /// Writes the number in scientific notation with `p` digits after the point.
    pub fn render_scientific(&self, p: usize, upper: bool) -> (text: Vec<char>)
        ensures
            text@ == real_scientific_text(self@, p as nat, upper),
    {
        match self {
            Number::Finite(d) => d.render_scientific(p, upper),
            _ => self.word(upper),
        }
    }

    /// Writes the number in general notation with `p` significant digits.
    pub fn render_general(&self, p: usize, upper: bool) -> (text: Vec<char>)
        ensures
            text@ == real_general_text(self@, p as nat, upper),
    {
        match self {
            Number::Finite(d) => d.render_general(p, upper),
            _ => self.word(upper),
        }
    }

    /// The whole part, kept within the 64-bit signed integers.
    pub fn to_i64(&self) -> (n: i64)
        ensures
            n == real_i64(self@),
    {
        match self {
            Number::Finite(d) => d.to_i64(),
            Number::Infinite(negative) => if *negative {
                i64::MIN
            } else {
                i64::MAX
            },
            Number::NotANumber => 0,
        }
    }

    /// The whole part, kept within the 64-bit unsigned integers.
    pub fn to_u64(&self) -> (n: u64)
        ensures
            n == real_u64(self@),
    {
        match self {
            Number::Finite(d) => d.to_u64(),
            Number::Infinite(negative) => if *negative {
                0
            } else {
                u64::MAX
            },
            Number::NotANumber => 0,
        }
    }
}

} // verus!
