//! The parts of a conversion specifier, and how a converted value is laid out in its field.

use vstd::prelude::*;
use crate::decimal::zeros;
use crate::numeral::is_digit;
use crate::numeral::parse_usize;
use crate::numeral::parse_usize_spec;
use crate::text::chars_of;
use crate::text::find_char;
use crate::text::first_index_of;
use crate::text::has_char;
use crate::text::lemma_first_index_of;
use crate::text::push_all;
use crate::text::slice_chars;

verus! {

/// What a conversion specifier asks for.
#[derive(Clone, Copy, Debug, PartialEq, Eq)]
pub struct Directive {
    /// The flag `-`: the text stands at the left of its field.
    pub left: bool,
    /// The flag `+`: a number that is not negative has a plus sign.
    pub plus: bool,
    /// The flag ` `: a number that is not negative has a blank in place of a sign.
    pub space: bool,
    /// The flag `0`: a number is filled up with zeros, not with blanks.
    pub zero: bool,
    /// The flag `#`: an octal or hexadecimal number has the mark of its base in front.
    pub alternate: bool,
    /// The least width of the field.
    pub width: Option<usize>,
    /// The precision.
    pub precision: Option<usize>,
    /// The conversion character.
    pub conv: char,
}

/// Whether the specifier names its value: it begins with `%(`.
pub open spec fn is_named(specifier: Seq<char>) -> bool {
    specifier.len() >= 2 && specifier[0] == '%' && specifier[1] == '('
}

/// Whether `c` is one of the flags `-`, `+`, `0`, ` ` and `#`.
pub open spec fn is_flag(c: char) -> bool {
    c == '-' || c == '+' || c == '0' || c == ' ' || c == '#'
}

/// Whether `c` is one of the length letters `h`, `l` and `L`, which change nothing.
pub open spec fn is_length(c: char) -> bool {
    c == 'h' || c == 'l' || c == 'L'
}

/// The index behind the flags that stand in `s` from index `i` on.
pub open spec fn flags_end(s: Seq<char>, i: int) -> int
    decreases s.len() - i,
{
    if 0 <= i < s.len() && is_flag(s[i]) {
        flags_end(s, i + 1)
    } else {
        i
    }
}

/// The index behind the digits that stand in `s` from index `i` on.
pub open spec fn digits_end(s: Seq<char>, i: int) -> int
    decreases s.len() - i,
{
    if 0 <= i < s.len() && is_digit(s[i]) {
        digits_end(s, i + 1)
    } else {
        i
    }
}

/// The index at which the flags of a specifier begin: behind the `%`, or behind the
/// bracket that closes the name.
pub open spec fn directive_start(s: Seq<char>) -> int {
    if is_named(s) {
        first_index_of(s, ')') + 1
    } else {
        1
    }
}

/// What a specifier asks for, if it is well formed: `%`, a name in brackets or none,
/// flags, a width in digits or none, a point and a precision in digits or none, a
/// length letter or none, and one conversion character. A point without digits asks
/// for the precision 0. A width or precision of `*`, which would be taken from the
/// values, is no part of a specifier.
pub open spec fn directive_of(s: Seq<char>) -> Option<Directive> {
    let start = directive_start(s);
    let flags_to = flags_end(s, start);
    let width_to = digits_end(s, flags_to);
    let has_point = 0 <= width_to < s.len() && s[width_to] == '.';
    let precision_to = if has_point {
        digits_end(s, width_to + 1)
    } else {
        width_to
    };
    let length_to = if 0 <= precision_to < s.len() && is_length(s[precision_to]) {
        precision_to + 1
    } else {
        precision_to
    };
    let width = if width_to > flags_to {
        parse_usize_spec(s.subrange(flags_to, width_to))
    } else {
        None
    };
    let precision = if !has_point {
        None
    } else if precision_to > width_to + 1 {
        parse_usize_spec(s.subrange(width_to + 1, precision_to))
    } else {
        Some(0usize)
    };
    if s.len() > 0 && s[0] == '%' && length_to + 1 == s.len() && (width_to > flags_to
        ==> width is Some) && (has_point ==> precision is Some) {
        Some(
            Directive {
                left: has_char(s.subrange(start, flags_to), '-'),
                plus: has_char(s.subrange(start, flags_to), '+'),
                space: has_char(s.subrange(start, flags_to), ' '),
                zero: has_char(s.subrange(start, flags_to), '0'),
                alternate: has_char(s.subrange(start, flags_to), '#'),
                width,
                precision,
                conv: s.last(),
            },
        )
    } else {
        None
    }
}

fn scan_flags(s: &Vec<char>, from: usize) -> (to: usize)
    requires
        from <= s.len(),
    ensures
        to == flags_end(s@, from as int),
        from <= to <= s.len(),
{
    let mut i: usize = from;
    while i < s.len() && (s[i] == '-' || s[i] == '+' || s[i] == '0' || s[i] == ' ' || s[i] == '#')
        invariant
            from <= i <= s.len(),
            flags_end(s@, from as int) == flags_end(s@, i as int),
        decreases s.len() - i,
    {
        i += 1;
    }
    i
}

fn scan_digits(s: &Vec<char>, from: usize) -> (to: usize)
    requires
        from <= s.len(),
    ensures
        to == digits_end(s@, from as int),
        from <= to <= s.len(),
{
    let mut i: usize = from;
    while i < s.len() && s[i] >= '0' && s[i] <= '9'
        invariant
            from <= i <= s.len(),
            digits_end(s@, from as int) == digits_end(s@, i as int),
        decreases s.len() - i,
    {
        i += 1;
    }
    i
}

fn range_has(s: &Vec<char>, from: usize, to: usize, c: char) -> (found: bool)
    requires
        from <= to <= s.len(),
    ensures
        found == has_char(s@.subrange(from as int, to as int), c),
{
    let ghost part = s@.subrange(from as int, to as int);
    let mut i: usize = from;
    while i < to
        invariant
            from <= i <= to <= s.len(),
            part == s@.subrange(from as int, to as int),
            forall|j: int| 0 <= j < i - from ==> part[j] != c,
        decreases to - i,
    {
        if s[i] == c {
            assert(part[i - from] == c);
            return true;
        }
        i += 1;
    }
    false
}

/// Reads what a specifier asks for.
pub fn parse_directive(specifier: &str) -> (directive: Option<Directive>)
    ensures
        directive == directive_of(specifier@),
{
    let s = chars_of(specifier);
    if s.len() == 0 || s[0] != '%' {
        return None;
    }
    let start: usize = if s.len() >= 2 && s[1] == '(' {
        proof {
            lemma_first_index_of(s@, ')');
        }
        let close = find_char(&s, ')');
        if close >= s.len() {
            proof {
                reveal_with_fuel(flags_end, 1);
                reveal_with_fuel(digits_end, 1);
            }
            return None;
        }
        close + 1
    } else {
        1
    };
    let flags_to = scan_flags(&s, start);
    let width_to = scan_digits(&s, flags_to);
    let has_point = width_to < s.len() && s[width_to] == '.';
    let precision_to = if has_point {
        scan_digits(&s, width_to + 1)
    } else {
        width_to
    };
    let length_to = if precision_to < s.len() && (s[precision_to] == 'h' || s[precision_to] == 'l'
        || s[precision_to] == 'L') {
        precision_to + 1
    } else {
        precision_to
    };
    if length_to >= s.len() || length_to + 1 != s.len() {
        return None;
    }
    let width = if width_to > flags_to {
        match parse_usize(&slice_chars(&s, flags_to, width_to)) {
            Some(w) => Some(w),
            None => {
                return None;
            },
        }
    } else {
        None
    };
    let precision = if !has_point {
        None
    } else if precision_to > width_to + 1 {
        match parse_usize(&slice_chars(&s, width_to + 1, precision_to)) {
            Some(p) => Some(p),
            None => {
                return None;
            },
        }
    } else {
        Some(0)
    };
    Some(
        Directive {
            left: range_has(&s, start, flags_to, '-'),
            plus: range_has(&s, start, flags_to, '+'),
            space: range_has(&s, start, flags_to, ' '),
            zero: range_has(&s, start, flags_to, '0'),
            alternate: range_has(&s, start, flags_to, '#'),
            width,
            precision,
            conv: s[s.len() - 1],
        },
    )
}

/// `n` blanks.
pub open spec fn blanks(n: nat) -> Seq<char> {
    Seq::new(n, |i: int| ' ')
}

/// Whether the conversion writes an integer.
pub open spec fn is_integer_conversion(conv: char) -> bool {
    conv == 'd' || conv == 'i' || conv == 'u' || conv == 'b' || conv == 'o' || conv == 'x' || conv
        == 'X'
}

/// Whether the conversion writes a number.
pub open spec fn is_numeric_conversion(conv: char) -> bool {
    is_integer_conversion(conv) || conv == 'e' || conv == 'E' || conv == 'f' || conv == 'F'
        || conv == 'g' || conv == 'G'
}

/// The sign in front of a number: its own minus sign, or what the flags `+` and ` ` ask
/// for where it has none.
pub open spec fn sign_of(body: Seq<char>, d: Directive) -> Seq<char> {
    if !is_numeric_conversion(d.conv) {
        seq![]
    } else if body.len() > 0 && body[0] == '-' {
        seq!['-']
    } else if d.plus {
        seq!['+']
    } else if d.space {
        seq![' ']
    } else {
        seq![]
    }
}

/// The mark of the base that the flag `#` puts in front of an octal or hexadecimal
/// number.
pub open spec fn base_mark(d: Directive) -> Seq<char> {
    if !d.alternate {
        seq![]
    } else if d.conv == 'o' {
        seq!['0', 'o']
    } else if d.conv == 'x' {
        seq!['0', 'x']
    } else if d.conv == 'X' {
        seq!['0', 'X']
    } else {
        seq![]
    }
}

/// The text without its sign; an integer with zeros in front up to as many digits as
/// the precision asks for.
pub open spec fn unsigned_part(body: Seq<char>, d: Directive) -> Seq<char> {
    let bare = if is_numeric_conversion(d.conv) && body.len() > 0 && body[0] == '-' {
        body.skip(1)
    } else {
        body
    };
    if is_integer_conversion(d.conv) && d.precision is Some && bare.len() < d.precision->0 {
        zeros((d.precision->0 - bare.len()) as nat) + bare
    } else {
        bare
    }
}

/// Whether the field is filled up with zeros behind the sign: the flag `0` asks for it,
/// the text is a number and does not stand at the left, and no precision is given for
/// an integer.
pub open spec fn fills_with_zeros(d: Directive) -> bool {
    d.zero && !d.left && is_numeric_conversion(d.conv) && !(is_integer_conversion(d.conv)
        && d.precision is Some)
}

/// How much is missing to the width of the field.
pub open spec fn padding(len: nat, d: Directive) -> nat {
    match d.width {
        Some(w) => if w > len {
            (w - len) as nat
        } else {
            0
        },
        None => 0,
    }
}

/// The converted text in its field: with its sign and the mark of its base, and filled
/// up to the width of the field with blanks in front, with blanks behind for the flag
/// `-`, or with zeros behind the sign for the flag `0`.
pub open spec fn laid_out(body: Seq<char>, d: Directive) -> Seq<char> {
    let front = sign_of(body, d) + base_mark(d);
    let rest = unsigned_part(body, d);
    let missing = padding(front.len() + rest.len(), d);
    if d.left {
        front + rest + blanks(missing)
    } else if fills_with_zeros(d) {
        front + zeros(missing) + rest
    } else {
        blanks(missing) + front + rest
    }
}

fn integer_conversion(conv: char) -> (yes: bool)
    ensures
        yes == is_integer_conversion(conv),
{
    conv == 'd' || conv == 'i' || conv == 'u' || conv == 'b' || conv == 'o' || conv == 'x' || conv
        == 'X'
}

fn numeric_conversion(conv: char) -> (yes: bool)
    ensures
        yes == is_numeric_conversion(conv),
{
    integer_conversion(conv) || conv == 'e' || conv == 'E' || conv == 'f' || conv == 'F' || conv
        == 'g' || conv == 'G'
}

fn push_repeated(out: &mut Vec<char>, c: char, n: usize)
    ensures
        final(out)@ == old(out)@ + Seq::new(n as nat, |i: int| c),
{
    let mut i: usize = 0;
    assert(out@ =~= old(out)@ + Seq::new(0, |i: int| c));
    while i < n
        invariant
            i <= n,
            out@ == old(out)@ + Seq::new(i as nat, |j: int| c),
        decreases n - i,
    {
        out.push(c);
        i += 1;
        assert(out@ =~= old(out)@ + Seq::new(i as nat, |j: int| c));
    }
}

fn front_of(body: &Vec<char>, d: &Directive) -> (front: Vec<char>)
    ensures
        front@ == sign_of(body@, *d) + base_mark(*d),
{
    let mut front: Vec<char> = Vec::new();
    if numeric_conversion(d.conv) {
        if body.len() > 0 && body[0] == '-' {
            front.push('-');
        } else if d.plus {
            front.push('+');
        } else if d.space {
            front.push(' ');
        }
    }
    assert(front@ =~= sign_of(body@, *d));
    if d.alternate && (d.conv == 'o' || d.conv == 'x' || d.conv == 'X') {
        front.push('0');
        front.push(d.conv);
    }
    assert(front@ =~= sign_of(body@, *d) + base_mark(*d));
    front
}

fn rest_of(body: &Vec<char>, d: &Directive) -> (rest: Vec<char>)
    ensures
        rest@ == unsigned_part(body@, *d),
{
    let from: usize = if numeric_conversion(d.conv) && body.len() > 0 && body[0] == '-' {
        1
    } else {
        0
    };
    let bare = slice_chars(body, from, body.len());
    assert(bare@ =~= if from == 1 {
        body@.skip(1)
    } else {
        body@
    });
    match d.precision {
        Some(p) => {
            if integer_conversion(d.conv) && bare.len() < p {
                let mut rest: Vec<char> = Vec::new();
                push_repeated(&mut rest, '0', p - bare.len());
                assert(rest@ =~= zeros((p - bare.len()) as nat));
                push_all(&mut rest, &bare);
                rest
            } else {
                bare
            }
        },
        None => bare,
    }
}

/// Lays a converted text out in its field.
pub fn lay_out(body: &Vec<char>, d: &Directive) -> (text: Vec<char>)
    ensures
        text@ == laid_out(body@, *d),
{
    let front = front_of(body, d);
    let rest = rest_of(body, d);
    let missing: usize = match d.width {
        Some(w) => {
            let have: u128 = front.len() as u128 + rest.len() as u128;
            if w as u128 > have {
                (w as u128 - have) as usize
            } else {
                0
            }
        },
        None => 0,
    };
    assert(missing == padding(front@.len() + rest@.len(), *d));
    let numeric = numeric_conversion(d.conv);
    let integer = integer_conversion(d.conv);
    let mut text: Vec<char> = Vec::new();
    if d.left {
        push_all(&mut text, &front);
        push_all(&mut text, &rest);
        push_repeated(&mut text, ' ', missing);
        assert(text@ =~= front@ + rest@ + blanks(missing as nat));
    } else if d.zero && numeric && !(integer && d.precision.is_some()) {
        push_all(&mut text, &front);
        push_repeated(&mut text, '0', missing);
        push_all(&mut text, &rest);
        assert(text@ =~= front@ + zeros(missing as nat) + rest@);
    } else {
        push_repeated(&mut text, ' ', missing);
        push_all(&mut text, &front);
        push_all(&mut text, &rest);
        assert(text@ =~= blanks(missing as nat) + front@ + rest@);
    }
    text
}

} // verus!
