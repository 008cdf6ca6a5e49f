//! Integers as text: reading them, and writing them in a base.

use vstd::prelude::*;

verus! {

/// Whether `c` is one of the ten decimal digits.
pub open spec fn is_digit(c: char) -> bool {
    '0' <= c <= '9'
}

/// The number that a decimal digit stands for; 0 for any other character.
pub open spec fn digit_of(c: char) -> nat {
    if is_digit(c) {
        (c as u32 - 48) as nat
    } else {
        0
    }
}

/// Whether every character of `s` is a decimal digit.
pub open spec fn all_digits(s: Seq<char>) -> bool {
    forall|i: int| 0 <= i < s.len() ==> is_digit(#[trigger] s[i])
}

/// Tells whether every character of `s` is a decimal digit.
pub fn is_all_digits(s: &Vec<char>) -> (all: bool)
    ensures
        all == all_digits(s@),
{
    let mut i: usize = 0;
    while i < s.len()
        invariant
            i <= s.len(),
            forall|j: int| 0 <= j < i ==> is_digit(#[trigger] s@[j]),
        decreases s.len() - i,
    {
        if !(s[i] >= '0' && s[i] <= '9') {
            return false;
        }
        i += 1;
    }
    true
}

/// The number written by a sequence of decimal digits, most significant first.
pub open spec fn digits_value(s: Seq<char>) -> nat
    decreases s.len(),
{
    if s.len() == 0 {
        0
    } else {
        digits_value(s.drop_last()) * 10 + digit_of(s.last())
    }
}

/// The number written by `s`, if `s` is a nonempty run of digits.
pub open spec fn plain_numeral(s: Seq<char>) -> Option<nat> {
    if s.len() > 0 && all_digits(s) {
        Some(digits_value(s))
    } else {
        None
    }
}

/// The number written by `s`: digits, with at most one `+` in front.
pub open spec fn unsigned_numeral(s: Seq<char>) -> Option<nat> {
    if s.len() > 0 && s[0] == '+' {
        plain_numeral(s.skip(1))
    } else {
        plain_numeral(s)
    }
}

/// The number written by `s`: digits, with at most one `+` or `-` in front.
pub open spec fn signed_numeral(s: Seq<char>) -> Option<int> {
    if s.len() > 0 && s[0] == '-' {
        match plain_numeral(s.skip(1)) {
            Some(n) => Some(-(n as int)),
            None => None,
        }
    } else {
        match unsigned_numeral(s) {
            Some(n) => Some(n as int),
            None => None,
        }
    }
}

/// What reading `s` as a 64-bit unsigned integer gives: the number written, if it fits.
pub open spec fn parse_u64_spec(s: Seq<char>) -> Option<u64> {
    match unsigned_numeral(s) {
        Some(n) => if n <= u64::MAX {
            Some(n as u64)
        } else {
            None
        },
        None => None,
    }
}

/// What reading `s` as a 32-bit unsigned integer gives: the number written, if it fits.
pub open spec fn parse_u32_spec(s: Seq<char>) -> Option<u32> {
    match unsigned_numeral(s) {
        Some(n) => if n <= u32::MAX {
            Some(n as u32)
        } else {
            None
        },
        None => None,
    }
}

/// What reading `s` as a 64-bit signed integer gives: the number written, if it fits.
pub open spec fn parse_i64_spec(s: Seq<char>) -> Option<i64> {
    match signed_numeral(s) {
        Some(n) => if i64::MIN <= n <= i64::MAX {
            Some(n as i64)
        } else {
            None
        },
        None => None,
    }
}

/// The value of a run of digits never shrinks when more digits follow.
pub proof fn lemma_digits_value_prefix(s: Seq<char>, k: int)
    requires
        0 <= k <= s.len(),
    ensures
        digits_value(s.subrange(0, k)) <= digits_value(s),
    decreases s.len() - k,
{
    if k == s.len() {
        assert(s.subrange(0, k) =~= s);
    } else {
        lemma_digits_value_prefix(s, k + 1);
        let t = s.subrange(0, k + 1);
        assert(t.drop_last() =~= s.subrange(0, k));
    }
}

/// Reads the digits of `s` from `start` on as a number that may not exceed `limit`.
pub fn parse_magnitude(s: &Vec<char>, start: usize, limit: u64) -> (r: Option<u64>)
    requires
        start <= s.len(),
    ensures
        r == match plain_numeral(s@.skip(start as int)) {
            Some(n) => if n <= limit {
                Some(n as u64)
            } else {
                None
            },
            None => None,
        },
{
    let ghost body = s@.skip(start as int);
    if start == s.len() {
        return None;
    }
    let mut acc: u64 = 0;
    let mut i: usize = start;
    while i < s.len()
        invariant
            start <= i <= s.len(),
            body == s@.skip(start as int),
            acc == digits_value(body.subrange(0, i - start)),
            acc <= limit,
            forall|j: int| 0 <= j < i - start ==> is_digit(#[trigger] body[j]),
        decreases s.len() - i,
    {
        let c = s[i];
        assert(body[i - start] == c);
        if !(c >= '0' && c <= '9') {
            return None;
        }
        let d: u64 = (c as u32 - 48) as u64;
        let wide: u128 = acc as u128 * 10 + d as u128;
        proof {
            let t = body.subrange(0, i - start + 1);
            assert(t.drop_last() =~= body.subrange(0, i - start));
            assert(t.last() == c);
            assert(digits_value(t) == wide);
        }
        if wide > limit as u128 {
            proof {
                lemma_digits_value_prefix(body, i - start + 1);
                if all_digits(body) {
                    assert(digits_value(body) > limit);
                }
            }
            return None;
        }
        acc = wide as u64;
        i += 1;
    }
    proof {
        assert(body.subrange(0, i - start) =~= body);
        assert(all_digits(body));
    }
    Some(acc)
}

/// Reads `s` as a 64-bit unsigned integer.
pub fn parse_u64(s: &Vec<char>) -> (r: Option<u64>)
    ensures
        r == parse_u64_spec(s@),
{
    if s.len() > 0 && s[0] == '+' {
        parse_magnitude(s, 1, u64::MAX)
    } else {
        assert(s@.skip(0) =~= s@);
        parse_magnitude(s, 0, u64::MAX)
    }
}

/// What reading `s` as an unsigned integer of the machine's word size gives.
pub open spec fn parse_usize_spec(s: Seq<char>) -> Option<usize> {
    match unsigned_numeral(s) {
        Some(n) => if n <= usize::MAX {
            Some(n as usize)
        } else {
            None
        },
        None => None,
    }
}

/// Reads `s` as an unsigned integer of the machine's word size.
pub fn parse_usize(s: &Vec<char>) -> (r: Option<usize>)
    ensures
        r == parse_usize_spec(s@),
{
    let m = if s.len() > 0 && s[0] == '+' {
        parse_magnitude(s, 1, usize::MAX as u64)
    } else {
        assert(s@.skip(0) =~= s@);
        parse_magnitude(s, 0, usize::MAX as u64)
    };
    match m {
        Some(n) => Some(n as usize),
        None => None,
    }
}

/// Reads `s` as a 32-bit unsigned integer.
pub fn parse_u32(s: &Vec<char>) -> (r: Option<u32>)
    ensures
        r == parse_u32_spec(s@),
{
    let m = if s.len() > 0 && s[0] == '+' {
        parse_magnitude(s, 1, 0xffff_ffff)
    } else {
        assert(s@.skip(0) =~= s@);
        parse_magnitude(s, 0, 0xffff_ffff)
    };
    match m {
        Some(n) => Some(n as u32),
        None => None,
    }
}

/// Reads `s` as a 64-bit signed integer.
pub fn parse_i64(s: &Vec<char>) -> (r: Option<i64>)
    ensures
        r == parse_i64_spec(s@),
{
    if s.len() > 0 && s[0] == '-' {
        match parse_magnitude(s, 1, 0x8000_0000_0000_0000) {
            Some(n) => {
                if n == 0x8000_0000_0000_0000 {
                    Some(i64::MIN)
                } else {
                    Some(-(n as i64))
                }
            },
            None => None,
        }
    } else if s.len() > 0 && s[0] == '+' {
        match parse_magnitude(s, 1, 0x7fff_ffff_ffff_ffff) {
            Some(n) => Some(n as i64),
            None => None,
        }
    } else {
        assert(s@.skip(0) =~= s@);
        match parse_magnitude(s, 0, 0x7fff_ffff_ffff_ffff) {
            Some(n) => Some(n as i64),
            None => None,
        }
    }
}

/// The character for one digit of a numeral in a base up to sixteen.
pub open spec fn digit_char(d: nat, upper: bool) -> char {
    if d < 10 {
        seq!['0', '1', '2', '3', '4', '5', '6', '7', '8', '9'][d as int]
    } else if upper {
        seq!['A', 'B', 'C', 'D', 'E', 'F'][d - 10]
    } else {
        seq!['a', 'b', 'c', 'd', 'e', 'f'][d - 10]
    }
}

/// The digits of `n` in the given base, most significant first; none for zero.
pub open spec fn radix_digits(n: nat, radix: nat, upper: bool) -> Seq<char>
    decreases n,
{
    if n == 0 || radix < 2 {
        seq![]
    } else {
        proof {
            assert(n / radix < n) by (nonlinear_arith)
                requires
                    n > 0,
                    radix >= 2,
            ;
        }
        radix_digits(n / radix, radix, upper).push(digit_char(n % radix, upper))
    }
}

/// The numeral of `n` in the given base: its digits, or a single `0`.
pub open spec fn radix_text(n: nat, radix: nat, upper: bool) -> Seq<char> {
    if n == 0 {
        seq!['0']
    } else {
        radix_digits(n, radix, upper)
    }
}

/// The decimal numeral of an integer, with `-` in front of a negative one.
pub open spec fn int_text(n: int) -> Seq<char> {
    if n < 0 {
        seq!['-'] + radix_text((-n) as nat, 10, false)
    } else {
        radix_text(n as nat, 10, false)
    }
}

/// The bit pattern of a 64-bit signed integer, read as an unsigned one.
pub open spec fn twos_complement(n: i64) -> nat {
    if n < 0 {
        (n + 0x1_0000_0000_0000_0000) as nat
    } else {
        n as nat
    }
}

/// The character for one digit.
pub fn digit_char_of(d: u64, upper: bool) -> (c: char)
    requires
        d < 16,
    ensures
        c == digit_char(d as nat, upper),
        d < 10 ==> is_digit(c) && digit_of(c) == d,
{
    if d == 0 {
        '0'
    } else if d == 1 {
        '1'
    } else if d == 2 {
        '2'
    } else if d == 3 {
        '3'
    } else if d == 4 {
        '4'
    } else if d == 5 {
        '5'
    } else if d == 6 {
        '6'
    } else if d == 7 {
        '7'
    } else if d == 8 {
        '8'
    } else if d == 9 {
        '9'
    } else if d == 10 {
        if upper {
            'A'
        } else {
            'a'
        }
    } else if d == 11 {
        if upper {
            'B'
        } else {
            'b'
        }
    } else if d == 12 {
        if upper {
            'C'
        } else {
            'c'
        }
    } else if d == 13 {
        if upper {
            'D'
        } else {
            'd'
        }
    } else if d == 14 {
        if upper {
            'E'
        } else {
            'e'
        }
    } else {
        if upper {
            'F'
        } else {
            'f'
        }
    }
}

/// Writes `n` in the given base.
pub fn render_u64(n: u64, radix: u64, upper: bool) -> (text: Vec<char>)
    requires
        2 <= radix <= 16,
    ensures
        text@ == radix_text(n as nat, radix as nat, upper),
{
    if n == 0 {
        return vec!['0'];
    }
    let mut low: Vec<char> = Vec::new();
    let mut rest: u64 = n;
    while rest > 0
        invariant
            2 <= radix <= 16,
            radix_digits(n as nat, radix as nat, upper) == radix_digits(
                rest as nat,
                radix as nat,
                upper,
            ) + low@.reverse(),
        decreases rest,
    {
        let d: u64 = rest % radix;
        let c = digit_char_of(d, upper);
        let ghost before = low@;
        low.push(c);
        proof {
            assert(low@.reverse() =~= seq![c] + before.reverse());
            assert(radix_digits(rest as nat, radix as nat, upper) == radix_digits(
                (rest / radix) as nat,
                radix as nat,
                upper,
            ).push(c));
            assert(radix_digits((rest / radix) as nat, radix as nat, upper).push(c)
                + before.reverse() =~= radix_digits((rest / radix) as nat, radix as nat, upper)
                + low@.reverse());
        }
        rest = rest / radix;
    }
    let mut text: Vec<char> = Vec::new();
    let mut i: usize = low.len();
    while i > 0
        invariant
            i <= low.len(),
            text@ == low@.reverse().subrange(0, low.len() - i),
        decreases i,
    {
        i -= 1;
        text.push(low[i]);
        assert(text@ =~= low@.reverse().subrange(0, low.len() - i));
    }
    proof {
        assert(text@ =~= low@.reverse());
        assert(radix_digits(0, radix as nat, upper) + low@.reverse() =~= low@.reverse());
    }
    text
}

/// Writes `n` in decimal.
pub fn render_i64(n: i64) -> (text: Vec<char>)
    ensures
        text@ == int_text(n as int),
{
    if n < 0 {
        let magnitude: u64 = if n == i64::MIN {
            0x8000_0000_0000_0000
        } else {
            (-n) as u64
        };
        let digits = render_u64(magnitude, 10, false);
        let mut text: Vec<char> = vec!['-'];
        crate::text::push_all(&mut text, &digits);
        text
    } else {
        render_u64(n as u64, 10, false)
    }
}

/// The bit pattern of `n` as an unsigned integer.
pub fn bits_of(n: i64) -> (bits: u64)
    ensures
        bits == twos_complement(n),
{
    if n < 0 {
        let shifted: i128 = n as i128 + 0x1_0000_0000_0000_0000;
        shifted as u64
    } else {
        n as u64
    }
}

} // verus!
