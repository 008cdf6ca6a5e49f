//! Formatting with the `%` operator. The conversion specifiers of a template are found
//! by a regular expression; each is replaced by the text of its value.

use vstd::prelude::*;
use vstd::string::StringSliceAdditionalSpecFns;
use vstd::utf8::*;
use crate::number::Number;
use crate::number::Real;
use crate::number::real_fixed_text;
use crate::number::real_general_text;
use crate::number::real_i64;
use crate::number::real_of;
use crate::number::real_of_bool;
use crate::number::real_scientific_text;
use crate::number::real_u64;
use crate::directive::Directive;
use crate::directive::directive_of;
use crate::directive::is_named;
use crate::directive::laid_out;
use crate::directive::lay_out;
use crate::directive::parse_directive;
use crate::finder_types::FinderType;
use crate::numeral::bits_of;
use crate::numeral::int_text;
use crate::numeral::parse_i64;
use crate::numeral::parse_i64_spec;
use crate::numeral::parse_u32;
use crate::numeral::parse_u32_spec;
use crate::numeral::parse_u64;
use crate::numeral::parse_u64_spec;
use crate::numeral::radix_text;
use crate::numeral::render_i64;
use crate::numeral::render_u64;
use crate::numeral::twos_complement;
use crate::text::chars_of;
use crate::text::find_char;
use crate::text::first_index_of;
use crate::text::lemma_first_index_of;
use crate::text::slice_chars;
use crate::text::string_of;

verus! {

/// The text of an optional string.
pub open spec fn opt_text(s: Option<String>) -> Option<Seq<char>> {
    match s {
        Some(s) => Some(s@),
        None => None,
    }
}

/// The precision that stands in a conversion specifier when it gives none.
pub open spec fn default_precision() -> nat {
    6
}

/// The precision that a conversion specifier gives, if it is well formed and gives one.
pub open spec fn precision_of(specifier: Seq<char>) -> Option<usize> {
    match directive_of(specifier) {
        Some(d) => d.precision,
        None => None,
    }
}

/// The precision to format with: the one that the specifier gives, or the default.
pub open spec fn precision_or_default(specifier: Seq<char>) -> nat {
    match precision_of(specifier) {
        Some(p) => p as nat,
        None => default_precision(),
    }
}

/// The precision to format a real number with: the one asked for, or the default.
pub open spec fn precision_asked(d: Directive) -> nat {
    match d.precision {
        Some(p) => p as nat,
        None => default_precision(),
    }
}

/// Whether the specifier ends in the given conversion character.
pub open spec fn ends_in(specifier: Seq<char>, conv: char) -> bool {
    specifier.len() > 0 && specifier.last() == conv
}

/// The digit that a truth value counts as.
pub open spec fn bool_text(b: bool) -> Seq<char> {
    if b {
        seq!['1']
    } else {
        seq!['0']
    }
}

/// The number that a value stands for where a real number is asked for. An integer and
/// a string are read as the number that their text writes; a string that writes no
/// number stands for none.
pub open spec fn value_numeral(v: FinderType) -> Option<Real> {
    match v {
        FinderType::Int(t) => real_of(t@),
        FinderType::Float(f) => f.value(),
        FinderType::Bool(b) => Some(real_of_bool(b)),
        FinderType::Str(t) => real_of(t@),
    }
}

/// `%d` and `%i`: an integer as it is written, a floating-point number cut to its whole
/// part, a truth value as 1 or 0, a string as the integer that it writes.
pub open spec fn int_conversion(v: FinderType) -> Option<Seq<char>> {
    match v {
        FinderType::Int(t) => Some(t@),
        FinderType::Float(f) => match f.value() {
            Some(d) => Some(int_text(real_i64(d) as int)),
            None => None,
        },
        FinderType::Bool(b) => Some(bool_text(b)),
        FinderType::Str(t) => match parse_i64_spec(t@) {
            Some(n) => Some(int_text(n as int)),
            None => None,
        },
    }
}

/// `%u`: the value as an unsigned integer.
pub open spec fn unsigned_conversion(v: FinderType) -> Option<Seq<char>> {
    match v {
        FinderType::Int(t) => match parse_u64_spec(t@) {
            Some(n) => Some(radix_text(n as nat, 10, false)),
            None => None,
        },
        FinderType::Float(f) => match f.value() {
            Some(d) => Some(radix_text(real_u64(d) as nat, 10, false)),
            None => None,
        },
        FinderType::Bool(b) => Some(bool_text(b)),
        FinderType::Str(t) => match parse_u64_spec(t@) {
            Some(n) => Some(radix_text(n as nat, 10, false)),
            None => None,
        },
    }
}

/// `%b`, `%o`, `%x` and `%X`: the bit pattern of the integer in the given base. A string
/// is no integer here.
pub open spec fn radix_conversion(v: FinderType, radix: nat, upper: bool) -> Option<Seq<char>> {
    match v {
        FinderType::Int(t) => match parse_i64_spec(t@) {
            Some(n) => Some(radix_text(twos_complement(n), radix, upper)),
            None => None,
        },
        FinderType::Float(f) => match f.value() {
            Some(d) => Some(radix_text(twos_complement(real_i64(d)), radix, upper)),
            None => None,
        },
        FinderType::Bool(b) => Some(bool_text(b)),
        FinderType::Str(_) => None,
    }
}

/// Whether `code` is the code of a character.
pub open spec fn is_char_code(code: u32) -> bool {
    code <= 0xD7FF || (0xE000 <= code <= 0x10FFFF)
}

/// `%c`: the character with the given code, or a string of one character as it is.
pub open spec fn char_conversion(v: FinderType) -> Option<Seq<char>> {
    match v {
        FinderType::Int(t) => match parse_u32_spec(t@) {
            Some(code) => if is_char_code(code) {
                Some(seq![code as char])
            } else {
                None
            },
            None => None,
        },
        FinderType::Str(t) => if t@.len() == 1 {
            Some(t@)
        } else {
            None
        },
        _ => None,
    }
}

/// `%p`: `0x` and the number in hexadecimal.
pub open spec fn pointer_conversion(v: FinderType) -> Option<Seq<char>> {
    match v {
        FinderType::Int(t) => match parse_u64_spec(t@) {
            Some(n) => Some(seq!['0', 'x'] + radix_text(n as nat, 16, false)),
            None => None,
        },
        FinderType::Float(f) => match f.value() {
            Some(d) => Some(seq!['0', 'x'] + radix_text(real_u64(d) as nat, 16, false)),
            None => None,
        },
        _ => None,
    }
}

/// `%f` and `%F`: fixed-point notation with `p` digits after the point; an infinity
/// and what is no number in capitals for `%F`.
pub open spec fn float_conversion(v: FinderType, p: nat, upper: bool) -> Option<Seq<char>> {
    match value_numeral(v) {
        Some(r) => Some(real_fixed_text(r, p, upper)),
        None => None,
    }
}

/// `%e` and `%E`: scientific notation with `p` digits after the point, in capitals for
/// `%E`.
pub open spec fn scientific_conversion(v: FinderType, p: nat, upper: bool) -> Option<Seq<char>> {
    match value_numeral(v) {
        Some(r) => Some(real_scientific_text(r, p, upper)),
        None => None,
    }
}

/// `%g` and `%G`: general notation with `p` significant digits, in capitals for `%G`.
pub open spec fn general_conversion(v: FinderType, p: nat, upper: bool) -> Option<Seq<char>> {
    match value_numeral(v) {
        Some(r) => Some(real_general_text(r, p, upper)),
        None => None,
    }
}

/// `%s`: the text of the value, cut to as many characters as a precision asks for.
pub open spec fn text_conversion(v: FinderType, precision: Option<usize>) -> Seq<char> {
    match precision {
        Some(p) => if p < v.text().len() {
            v.text().take(p as int)
        } else {
            v.text()
        },
        None => v.text(),
    }
}

/// The text that a value is turned into by the conversion of a specifier, before it is
/// laid out in its field. No text where the value is of a kind that the conversion does
/// not take, where a string does not write a number that is asked for, and for a
/// conversion character that is not known.
pub open spec fn conversion(d: Directive, v: FinderType) -> Option<Seq<char>> {
    if d.conv == 's' {
        Some(text_conversion(v, d.precision))
    } else if d.conv == 'd' || d.conv == 'i' {
        int_conversion(v)
    } else if d.conv == 'u' {
        unsigned_conversion(v)
    } else if d.conv == 'b' {
        radix_conversion(v, 2, false)
    } else if d.conv == 'f' || d.conv == 'F' {
        float_conversion(v, precision_asked(d), d.conv == 'F')
    } else if d.conv == 'g' || d.conv == 'G' {
        general_conversion(v, precision_asked(d), d.conv == 'G')
    } else if d.conv == 'e' || d.conv == 'E' {
        scientific_conversion(v, precision_asked(d), d.conv == 'E')
    } else if d.conv == 'o' {
        radix_conversion(v, 8, false)
    } else if d.conv == 'x' {
        radix_conversion(v, 16, false)
    } else if d.conv == 'X' {
        radix_conversion(v, 16, true)
    } else if d.conv == 'c' {
        char_conversion(v)
    } else if d.conv == 'p' {
        pointer_conversion(v)
    } else {
        None
    }
}

/// The text that a value is turned into by a specifier: converted, and laid out in the
/// field that the flags and the width of the specifier ask for.
pub open spec fn formatted(d: Directive, v: FinderType) -> Option<Seq<char>> {
    match conversion(d, v) {
        Some(body) => Some(laid_out(body, d)),
        None => None,
    }
}

/// Whether the specifier is `%%`, which stands for a percent sign.
pub open spec fn is_percent_sign(specifier: Seq<char>) -> bool {
    specifier == seq!['%', '%']
}

/// Whether the specifier takes the next positional value.
pub open spec fn takes_positional(specifier: Seq<char>) -> bool {
    !is_percent_sign(specifier) && !is_named(specifier)
}

/// The value given under the name `key`: that of the first entry with this name.
pub open spec fn lookup_value(kwargs: Seq<(String, FinderType)>, key: Seq<char>) -> Option<
    FinderType,
>
    decreases kwargs.len(),
{
    if kwargs.len() == 0 {
        None
    } else if kwargs[0].0@ == key {
        Some(kwargs[0].1)
    } else {
        lookup_value(kwargs.drop_first(), key)
    }
}

/// The text that takes the place of a specifier, where `next_arg` positional values have
/// been taken before. `%%` gives a percent sign. A specifier that begins with `%(` takes
/// the value named between the brackets; any other takes the next positional value.
/// There is no text where the specifier is not well formed, where the value is missing
/// or where the conversion gives none.
pub open spec fn substitution(
    specifier: Seq<char>,
    next_arg: nat,
    args: Seq<FinderType>,
    kwargs: Seq<(String, FinderType)>,
) -> Option<Seq<char>> {
    if is_percent_sign(specifier) {
        Some(seq!['%'])
    } else {
        match directive_of(specifier) {
            Some(d) => if is_named(specifier) {
                match lookup_value(
                    kwargs,
                    specifier.subrange(2, first_index_of(specifier, ')')),
                ) {
                    Some(v) => formatted(d, v),
                    None => None,
                }
            } else if next_arg >= args.len() {
                None
            } else {
                formatted(d, args[next_arg as int])
            },
            None => None,
        }
    }
}

/// The part of a text between two byte offsets of its UTF-8 encoding.
pub open spec fn piece(text: Seq<char>, from: int, to: int) -> Seq<char> {
    decode_utf8(encode_utf8(text).subrange(from, to))
}

/// Whether the spans are byte ranges of the text, each between two character boundaries,
/// one after the other without overlap.
#[verifier::opaque]
pub open spec fn spans_fit(text: Seq<char>, spans: Seq<(usize, usize)>) -> bool {
    &&& forall|k: int|
        0 <= k < spans.len() ==> {
            &&& (#[trigger] spans[k]).0 <= spans[k].1 <= encode_utf8(text).len()
            &&& is_char_boundary(encode_utf8(text), spans[k].0 as int)
            &&& is_char_boundary(encode_utf8(text), spans[k].1 as int)
        }
    &&& forall|k: int| 0 <= k < spans.len() - 1 ==> (#[trigger] spans[k]).1 <= spans[k + 1].0
}

/// `a` in front of an optional text.
pub open spec fn prepend(a: Seq<char>, b: Option<Seq<char>>) -> Option<Seq<char>> {
    match b {
        Some(b) => Some(a + b),
        None => None,
    }
}

/// The text from byte offset `from` on, with each of the spans from index `k` on
/// replaced by its substitution, where `next_arg` positional values have been taken
/// before. There is no text if one of the specifiers has no substitution.
pub open spec fn format_tail(
    text: Seq<char>,
    spans: Seq<(usize, usize)>,
    k: int,
    from: int,
    next_arg: nat,
    args: Seq<FinderType>,
    kwargs: Seq<(String, FinderType)>,
) -> Option<Seq<char>>
    decreases spans.len() - k,
{
    if k < 0 || k >= spans.len() {
        Some(piece(text, from, encode_utf8(text).len() as int))
    } else {
        let specifier = piece(text, spans[k].0 as int, spans[k].1 as int);
        let next = if takes_positional(specifier) {
            next_arg + 1
        } else {
            next_arg
        };
        match substitution(specifier, next_arg, args, kwargs) {
            Some(text_in_place) => prepend(
                piece(text, from, spans[k].0 as int) + text_in_place,
                format_tail(text, spans, k + 1, spans[k].1 as int, next, args, kwargs),
            ),
            None => None,
        }
    }
}

/// The text with each span replaced by its substitution; positional values are taken
/// from left to right.
pub open spec fn format_spans(
    text: Seq<char>,
    spans: Seq<(usize, usize)>,
    args: Seq<FinderType>,
    kwargs: Seq<(String, FinderType)>,
) -> Option<Seq<char>> {
    format_tail(text, spans, 0, 0, 0, args, kwargs)
}

/// Whether the byte offset lies within one of the spans.
pub open spec fn in_some_span(spans: Seq<(usize, usize)>, i: int) -> bool {
    exists|k: int| 0 <= k < spans.len() && (#[trigger] spans[k]).0 <= i < spans[k].1
}

/// Whether the text holds a percent sign that lies in none of the spans. In the UTF-8
/// encoding of a text the byte 0x25 stands for a percent sign and for nothing else.
pub open spec fn has_stray_percent(text: Seq<char>, spans: Seq<(usize, usize)>) -> bool {
    exists|i: int|
        0 <= i < encode_utf8(text).len() && #[trigger] encode_utf8(text)[i] == 0x25u8
            && !in_some_span(spans, i)
}

/// Gives the character with the given code. This stands for `char::from_u32` of the
/// standard library, of which it is taken on trust that it gives the character for each
/// code from 0 to 0x10FFFF outside the surrogates, and none for any other number.
#[verifier::external_body]
fn char_of_code(code: u32) -> (c: Option<char>)
    ensures
        c == if is_char_code(code) {
            Some(code as char)
        } else {
            None::<char>
        },
{
    char::from_u32(code)
}

/// Reads the precision out of a conversion specifier.
pub fn extract_precision(specifier: &str) -> (p: Option<usize>)
    ensures
        p == precision_of(specifier@),
{
    match parse_directive(specifier) {
        Some(d) => d.precision,
        None => None,
    }
}

fn precision_for(specifier: &str) -> (p: usize)
    ensures
        p == precision_or_default(specifier@),
{
    match extract_precision(specifier) {
        Some(p) => p,
        None => 6,
    }
}

fn ends_with_char(specifier: &str, conv: char) -> (yes: bool)
    ensures
        yes == ends_in(specifier@, conv),
{
    let chars = chars_of(specifier);
    chars.len() > 0 && chars[chars.len() - 1] == conv
}

fn bool_string(b: bool) -> (s: String)
    ensures
        s@ == bool_text(b),
{
    let digit: Vec<char> = if b {
        vec!['1']
    } else {
        vec!['0']
    };
    assert(digit@ =~= bool_text(b));
    string_of(&digit)
}

fn numeral_for(value: &FinderType) -> (d: Option<Number>)
    ensures
        match d {
            Some(d) => value_numeral(*value) == Some(d@),
            None => value_numeral(*value) is None,
        },
        *value is Float || *value is Bool ==> d is Some,
{
    match value {
        FinderType::Int(t) => Number::parse(&chars_of(t.as_str())),
        FinderType::Float(f) => Some(f.to_number()),
        FinderType::Bool(b) => Some(Number::from_bool(*b)),
        FinderType::Str(t) => Number::parse(&chars_of(t.as_str())),
    }
}

/// `%d` and `%i`.
pub fn format_value_as_int(value: &FinderType) -> (text: Option<String>)
    ensures
        opt_text(text) == int_conversion(*value),
        !(*value is Str) ==> text is Some,
{
    match value {
        FinderType::Int(t) => Some(t.clone()),
        FinderType::Float(f) => Some(string_of(&render_i64(f.to_number().to_i64()))),
        FinderType::Bool(b) => Some(bool_string(*b)),
        FinderType::Str(t) => match parse_i64(&chars_of(t.as_str())) {
            Some(n) => Some(string_of(&render_i64(n))),
            None => None,
        },
    }
}

/// `%u`.
pub fn format_value_as_unsigned(value: &FinderType) -> (text: Option<String>)
    ensures
        opt_text(text) == unsigned_conversion(*value),
        *value is Float || *value is Bool ==> text is Some,
{
    match value {
        FinderType::Int(t) => match parse_u64(&chars_of(t.as_str())) {
            Some(n) => Some(string_of(&render_u64(n, 10, false))),
            None => None,
        },
        FinderType::Float(f) => Some(string_of(&render_u64(f.to_number().to_u64(), 10, false))),
        FinderType::Bool(b) => Some(bool_string(*b)),
        FinderType::Str(t) => match parse_u64(&chars_of(t.as_str())) {
            Some(n) => Some(string_of(&render_u64(n, 10, false))),
            None => None,
        },
    }
}

fn format_value_in_radix(value: &FinderType, radix: u64, upper: bool) -> (text: Option<String>)
    requires
        2 <= radix <= 16,
    ensures
        opt_text(text) == radix_conversion(*value, radix as nat, upper),
        *value is Float || *value is Bool ==> text is Some,
{
    match value {
        FinderType::Int(t) => match parse_i64(&chars_of(t.as_str())) {
            Some(n) => Some(string_of(&render_u64(bits_of(n), radix, upper))),
            None => None,
        },
        FinderType::Float(f) => Some(
            string_of(&render_u64(bits_of(f.to_number().to_i64()), radix, upper)),
        ),
        FinderType::Bool(b) => Some(bool_string(*b)),
        FinderType::Str(_) => None,
    }
}

/// `%b`.
pub fn format_value_as_binary(value: &FinderType) -> (text: Option<String>)
    ensures
        opt_text(text) == radix_conversion(*value, 2, false),
        *value is Float || *value is Bool ==> text is Some,
{
    format_value_in_radix(value, 2, false)
}

/// `%o`.
pub fn format_value_as_octal(value: &FinderType) -> (text: Option<String>)
    ensures
        opt_text(text) == radix_conversion(*value, 8, false),
        *value is Float || *value is Bool ==> text is Some,
{
    format_value_in_radix(value, 8, false)
}

/// `%x` and `%X`.
pub fn format_value_as_hex(value: &FinderType, uppercase: bool) -> (text: Option<String>)
    ensures
        opt_text(text) == radix_conversion(*value, 16, uppercase),
        *value is Float || *value is Bool ==> text is Some,
{
    format_value_in_radix(value, 16, uppercase)
}

/// `%c`.
pub fn format_value_as_char(value: &FinderType) -> (text: Option<String>)
    ensures
        opt_text(text) == char_conversion(*value),
{
    match value {
        FinderType::Int(t) => match parse_u32(&chars_of(t.as_str())) {
            Some(code) => match char_of_code(code) {
                Some(c) => {
                    let one: Vec<char> = vec![c];
                    assert(one@ =~= seq![code as char]);
                    Some(string_of(&one))
                },
                None => None,
            },
            None => None,
        },
        FinderType::Str(t) => {
            if t.as_str().unicode_len() == 1 {
                Some(t.clone())
            } else {
                None
            }
        },
        _ => None,
    }
}

/// `%p`.
pub fn format_value_as_pointer(value: &FinderType) -> (text: Option<String>)
    ensures
        opt_text(text) == pointer_conversion(*value),
        *value is Float ==> text is Some,
{
    let number = match value {
        FinderType::Int(t) => parse_u64(&chars_of(t.as_str())),
        FinderType::Float(f) => Some(f.to_number().to_u64()),
        _ => None,
    };
    match number {
        Some(n) => {
            let mut text: Vec<char> = vec!['0', 'x'];
            let digits = render_u64(n, 16, false);
            crate::text::push_all(&mut text, &digits);
            assert(text@ =~= seq!['0', 'x'] + radix_text(n as nat, 16, false));
            Some(string_of(&text))
        },
        None => None,
    }
}

fn fixed_body(value: &FinderType, precision: usize, uppercase: bool) -> (text: Option<String>)
    ensures
        opt_text(text) == float_conversion(*value, precision as nat, uppercase),
        *value is Float || *value is Bool ==> text is Some,
{
    match numeral_for(value) {
        Some(d) => Some(string_of(&d.render_fixed(precision, uppercase))),
        None => None,
    }
}

fn scientific_body(value: &FinderType, precision: usize, uppercase: bool) -> (text: Option<String>)
    ensures
        opt_text(text) == scientific_conversion(*value, precision as nat, uppercase),
        *value is Float || *value is Bool ==> text is Some,
{
    match numeral_for(value) {
        Some(d) => Some(string_of(&d.render_scientific(precision, uppercase))),
        None => None,
    }
}

fn general_body(value: &FinderType, precision: usize, uppercase: bool) -> (text: Option<String>)
    ensures
        opt_text(text) == general_conversion(*value, precision as nat, uppercase),
        *value is Float || *value is Bool ==> text is Some,
{
    match numeral_for(value) {
        Some(d) => Some(string_of(&d.render_general(precision, uppercase))),
        None => None,
    }
}

/// `%f` and `%F`, with the precision of the specifier; an infinity and what is no
/// number in capitals where the specifier ends in `F`.
pub fn format_value_as_float(value: &FinderType, specifier: &str) -> (text: Option<String>)
    ensures
        opt_text(text) == float_conversion(
            *value,
            precision_or_default(specifier@),
            ends_in(specifier@, 'F'),
        ),
        *value is Float || *value is Bool ==> text is Some,
{
    fixed_body(value, precision_for(specifier), ends_with_char(specifier, 'F'))
}

/// `%e` and `%E`, with the precision of the specifier; in capitals where the specifier
/// ends in `E`.
pub fn format_value_as_scientific(value: &FinderType, specifier: &str) -> (text: Option<String>)
    ensures
        opt_text(text) == scientific_conversion(
            *value,
            precision_or_default(specifier@),
            ends_in(specifier@, 'E'),
        ),
        *value is Float || *value is Bool ==> text is Some,
{
    scientific_body(value, precision_for(specifier), ends_with_char(specifier, 'E'))
}

/// `%g` and `%G`, with the precision of the specifier; in capitals where the specifier
/// ends in `G`.
pub fn format_value_as_general(value: &FinderType, specifier: &str) -> (text: Option<String>)
    ensures
        opt_text(text) == general_conversion(
            *value,
            precision_or_default(specifier@),
            ends_in(specifier@, 'G'),
        ),
        *value is Float || *value is Bool ==> text is Some,
{
    general_body(value, precision_for(specifier), ends_with_char(specifier, 'G'))
}

fn text_body(value: &FinderType, precision: Option<usize>) -> (text: String)
    ensures
        text@ == text_conversion(*value, precision),
{
    let whole = value.to_text();
    match precision {
        Some(p) => {
            let chars = chars_of(whole.as_str());
            if p < chars.len() {
                let cut = slice_chars(&chars, 0, p);
                assert(cut@ =~= whole@.take(p as int));
                string_of(&cut)
            } else {
                whole
            }
        },
        None => whole,
    }
}

/// Turns a value into text by the conversion that a specifier asks for.
pub fn convert_value(d: &Directive, value: &FinderType) -> (text: Option<String>)
    ensures
        opt_text(text) == conversion(*d, *value),
{
    let conv = d.conv;
    let precision: usize = match d.precision {
        Some(p) => p,
        None => 6,
    };
    if conv == 's' {
        Some(text_body(value, d.precision))
    } else if conv == 'd' || conv == 'i' {
        format_value_as_int(value)
    } else if conv == 'u' {
        format_value_as_unsigned(value)
    } else if conv == 'b' {
        format_value_as_binary(value)
    } else if conv == 'f' || conv == 'F' {
        fixed_body(value, precision, conv == 'F')
    } else if conv == 'g' || conv == 'G' {
        general_body(value, precision, conv == 'G')
    } else if conv == 'e' || conv == 'E' {
        scientific_body(value, precision, conv == 'E')
    } else if conv == 'o' {
        format_value_as_octal(value)
    } else if conv == 'x' {
        format_value_as_hex(value, false)
    } else if conv == 'X' {
        format_value_as_hex(value, true)
    } else if conv == 'c' {
        format_value_as_char(value)
    } else if conv == 'p' {
        format_value_as_pointer(value)
    } else {
        None
    }
}

/// Turns a value into text as a specifier asks for it: converted, and laid out in its
/// field.
pub fn format_value(d: &Directive, value: &FinderType) -> (text: Option<String>)
    ensures
        opt_text(text) == formatted(*d, *value),
{
    match convert_value(d, value) {
        Some(body) => Some(string_of(&lay_out(&chars_of(body.as_str()), d))),
        None => None,
    }
}

/// What the `regex` crate finds when it searches `haystack` for `pattern`: the byte
/// ranges of the matches from left to right, or nothing if it does not take the pattern.
pub uninterp spec fn regex_matches(pattern: Seq<char>, haystack: Seq<char>) -> Option<
    Seq<(usize, usize)>,
>;

/// Searches `haystack` for `pattern` with `regex::Regex::new` and `Regex::find_iter`, and
/// gives the start and end of each match. Of the crate it is taken on trust that the
/// matches come one after the other without overlap, that each starts and ends within
/// the haystack on a character boundary of its UTF-8 encoding, and that the same pattern
/// and haystack always give the same matches.
#[verifier::external_body]
fn find_matches(pattern: &str, haystack: &str) -> (found: Option<Vec<(usize, usize)>>)
    ensures
        match found {
            Some(spans) => regex_matches(pattern@, haystack@) == Some(spans@) && spans_fit(
                haystack@,
                spans@,
            ),
            None => regex_matches(pattern@, haystack@) is None,
        },
{
    match regex::Regex::new(pattern) {
        Ok(re) => Some(re.find_iter(haystack).map(|m| (m.start(), m.end())).collect()),
        Err(_) => None,
    }
}

/// The pattern of a conversion specifier: `%`, an optional name in brackets, flags, a
/// width in digits, a point with or without a precision in digits, a length letter and
/// the conversion character. A width or precision of `*` is not in the pattern, so that
/// a template which asks for one has a percent sign outside every specifier and gives
/// no text.
pub open spec fn specifier_pattern_text() -> Seq<char> {
    r"%\(([^)]+)\)[-+0 #]*(?:\d+)?(?:\.\d*)?[hlL]?[sdifFgGeEoxXcubp%]|%[-+0 #]*(?:\d+)?(?:\.\d*)?[hlL]?[sdifFgGeEoxXcubp%]"@
}

/// The pattern of a conversion specifier.
pub fn specifier_pattern() -> (pattern: &'static str)
    ensures
        pattern@ == specifier_pattern_text(),
{
    r"%\(([^)]+)\)[-+0 #]*(?:\d+)?(?:\.\d*)?[hlL]?[sdifFgGeEoxXcubp%]|%[-+0 #]*(?:\d+)?(?:\.\d*)?[hlL]?[sdifFgGeEoxXcubp%]"
}

/// What formatting `template` with the given values gives: the template with each
/// conversion specifier that the pattern finds in it replaced by its substitution.
/// There is no text where a percent sign of the template belongs to no specifier, as
/// before a conversion character that is not known.
pub open spec fn percent_format(
    template: Seq<char>,
    args: Seq<FinderType>,
    kwargs: Seq<(String, FinderType)>,
) -> Option<Seq<char>> {
    match regex_matches(specifier_pattern_text(), template) {
        Some(spans) => if has_stray_percent(template, spans) {
            None
        } else {
            format_spans(template, spans, args, kwargs)
        },
        None => None,
    }
}

fn find_value<'a>(kwargs: &'a [(String, FinderType)], key: &Vec<char>) -> (found: Option<
    &'a FinderType,
>)
    ensures
        match found {
            Some(v) => lookup_value(kwargs@, key@) == Some(*v),
            None => lookup_value(kwargs@, key@) is None,
        },
{
    assert(kwargs@.skip(0) =~= kwargs@);
    let mut i: usize = 0;
    while i < kwargs.len()
        invariant
            i <= kwargs.len(),
            lookup_value(kwargs@, key@) == lookup_value(kwargs@.skip(i as int), key@),
        decreases kwargs.len() - i,
    {
        let ghost rest = kwargs@.skip(i as int);
        assert(rest[0] == kwargs@[i as int]);
        assert(rest.drop_first() =~= kwargs@.skip(i + 1));
        let name = chars_of(kwargs[i].0.as_str());
        if crate::str_format::same_chars(&name, key) {
            return Some(&kwargs[i].1);
        }
        i += 1;
    }
    assert(kwargs@.skip(i as int).len() == 0);
    None
}

/// Gives the text that takes the place of a conversion specifier.
pub fn substitute(
    specifier: &str,
    next_arg: usize,
    args: &[FinderType],
    kwargs: &[(String, FinderType)],
) -> (text: Option<String>)
    ensures
        opt_text(text) == substitution(specifier@, next_arg as nat, args@, kwargs@),
{
    let chars = chars_of(specifier);
    if chars.len() == 2 && chars[0] == '%' && chars[1] == '%' {
        assert(chars@ =~= seq!['%', '%']);
        let sign: Vec<char> = vec!['%'];
        assert(sign@ =~= seq!['%']);
        return Some(string_of(&sign));
    }
    assert(!is_percent_sign(specifier@));
    let d = match parse_directive(specifier) {
        Some(d) => d,
        None => {
            return None;
        },
    };
    if chars.len() >= 2 && chars[0] == '%' && chars[1] == '(' {
        proof {
            lemma_first_index_of(chars@, ')');
        }
        let close = find_char(&chars, ')');
        if close >= chars.len() {
            proof {
                lemma_unclosed_name(chars@);
            }
            return None;
        }
        let key = slice_chars(&chars, 2, close);
        match find_value(kwargs, &key) {
            Some(v) => format_value(&d, v),
            None => None,
        }
    } else if next_arg >= args.len() {
        None
    } else {
        format_value(&d, &args[next_arg])
    }
}

/// A specifier whose name is not closed is not well formed.
proof fn lemma_unclosed_name(s: Seq<char>)
    requires
        is_named(s),
        first_index_of(s, ')') >= s.len(),
    ensures
        directive_of(s) is None,
{
}

fn consumes_positional(specifier: &str) -> (takes: bool)
    ensures
        takes == takes_positional(specifier@),
{
    let chars = chars_of(specifier);
    if chars.len() == 2 && chars[0] == '%' && chars[1] == '%' {
        assert(chars@ =~= seq!['%', '%']);
        false
    } else {
        !(chars.len() >= 2 && chars[0] == '%' && chars[1] == '(')
    }
}

/// A character boundary of a text is one of what follows an earlier boundary.
proof fn lemma_boundary_in_suffix(bytes: Seq<u8>, base: int, at: int)
    requires
        valid_utf8(bytes),
        0 <= base <= at <= bytes.len(),
        is_char_boundary(bytes, base),
        is_char_boundary(bytes, at),
    ensures
        valid_utf8(bytes.subrange(base, bytes.len() as int)),
        is_char_boundary(bytes.subrange(base, bytes.len() as int), at - base),
{
    let suffix = bytes.subrange(base, bytes.len() as int);
    valid_utf8_split(bytes, base);
    if at == base {
    } else if at == bytes.len() {
        is_char_boundary_start_end_of_seq(suffix);
    } else {
        is_char_boundary_iff_not_is_continuation_byte(bytes, at);
        assert(suffix[at - base] == bytes[at]);
        is_char_boundary_iff_not_is_continuation_byte(suffix, at - base);
    }
}

/// Cuts what is left of a text, from byte offset `base` on, at the offsets `a` and `b`.
fn cut_span<'a>(rest: &'a str, base: usize, a: usize, b: usize, Ghost(whole): Ghost<Seq<char>>) -> (parts:
    (&'a str, &'a str, &'a str))
    requires
        base <= a <= b <= encode_utf8(whole).len(),
        is_char_boundary(encode_utf8(whole), base as int),
        is_char_boundary(encode_utf8(whole), a as int),
        is_char_boundary(encode_utf8(whole), b as int),
        rest.spec_bytes() == encode_utf8(whole).subrange(
            base as int,
            encode_utf8(whole).len() as int,
        ),
    ensures
        parts.0@ == piece(whole, base as int, a as int),
        parts.1@ == piece(whole, a as int, b as int),
        parts.2.spec_bytes() == encode_utf8(whole).subrange(
            b as int,
            encode_utf8(whole).len() as int,
        ),
{
    let ghost bytes = encode_utf8(whole);
    proof {
        encode_utf8_valid_utf8(whole);
        lemma_boundary_in_suffix(bytes, base as int, a as int);
    }
    let (literal, tail) = rest.split_at(a - base);
    proof {
        assert(tail.spec_bytes() =~= bytes.subrange(a as int, bytes.len() as int));
        assert(literal.spec_bytes() =~= bytes.subrange(base as int, a as int));
        lemma_boundary_in_suffix(bytes, a as int, b as int);
    }
    let (specifier, after) = tail.split_at(b - a);
    proof {
        assert(specifier.spec_bytes() =~= bytes.subrange(a as int, b as int));
        assert(after.spec_bytes() =~= bytes.subrange(b as int, bytes.len() as int));
        encode_utf8_decode_utf8(literal@);
        encode_utf8_decode_utf8(specifier@);
    }
    (literal, specifier, after)
}

/// Whether `rest` is what is left of `whole` from byte offset `base` on.
pub open spec fn rest_from(whole: Seq<char>, rest: Seq<u8>, base: int) -> bool {
    &&& 0 <= base <= encode_utf8(whole).len()
    &&& is_char_boundary(encode_utf8(whole), base)
    &&& rest == encode_utf8(whole).subrange(base, encode_utf8(whole).len() as int)
}

/// Gives what stands before the next specifier together with what takes the place of the
/// specifier, and what is left of the text behind it.
fn format_one<'a>(
    rest: &'a str,
    base: usize,
    span: (usize, usize),
    next_arg: usize,
    args: &[FinderType],
    kwargs: &[(String, FinderType)],
    Ghost(whole): Ghost<Seq<char>>,
) -> (step: Option<(String, &'a str)>)
    requires
        rest_from(whole, rest.spec_bytes(), base as int),
        base <= span.0 <= span.1 <= encode_utf8(whole).len(),
        is_char_boundary(encode_utf8(whole), span.0 as int),
        is_char_boundary(encode_utf8(whole), span.1 as int),
    ensures
        match step {
            Some((text, after)) => {
                &&& rest_from(whole, after.spec_bytes(), span.1 as int)
                &&& substitution(
                    piece(whole, span.0 as int, span.1 as int),
                    next_arg as nat,
                    args@,
                    kwargs@,
                ) is Some
                &&& text@ == piece(whole, base as int, span.0 as int) + substitution(
                    piece(whole, span.0 as int, span.1 as int),
                    next_arg as nat,
                    args@,
                    kwargs@,
                )->0
            },
            None => substitution(
                piece(whole, span.0 as int, span.1 as int),
                next_arg as nat,
                args@,
                kwargs@,
            ) is None,
        },
{
    let (literal, specifier, after) = cut_span(rest, base, span.0, span.1, Ghost(whole));
    match substitute(specifier, next_arg, args, kwargs) {
        Some(in_place) => {
            let mut text = String::new();
            text.append(literal);
            text.append(in_place.as_str());
            assert(text@ =~= literal@ + in_place@);
            Some((text, after))
        },
        None => None,
    }
}

/// Whether the specifier between the given byte offsets takes a positional value.
fn span_takes_positional(rest: &str, base: usize, span: (usize, usize), Ghost(whole): Ghost<
    Seq<char>,
>) -> (takes: bool)
    requires
        rest_from(whole, rest.spec_bytes(), base as int),
        base <= span.0 <= span.1 <= encode_utf8(whole).len(),
        is_char_boundary(encode_utf8(whole), span.0 as int),
        is_char_boundary(encode_utf8(whole), span.1 as int),
    ensures
        takes == takes_positional(piece(whole, span.0 as int, span.1 as int)),
{
    let (_, specifier, _) = cut_span(rest, base, span.0, span.1, Ghost(whole));
    consumes_positional(specifier)
}

/// One step of formatting: what stands before a specifier, and its substitution.
proof fn lemma_format_step(
    whole: Seq<char>,
    spans: Seq<(usize, usize)>,
    k: int,
    base: int,
    next_arg: nat,
    args: Seq<FinderType>,
    kwargs: Seq<(String, FinderType)>,
    done: Seq<char>,
)
    requires
        0 <= k < spans.len(),
        substitution(piece(whole, spans[k].0 as int, spans[k].1 as int), next_arg, args, kwargs)
            is Some,
    ensures
        prepend(done, format_tail(whole, spans, k, base, next_arg, args, kwargs)) == prepend(
            done + (piece(whole, base, spans[k].0 as int) + substitution(
                piece(whole, spans[k].0 as int, spans[k].1 as int),
                next_arg,
                args,
                kwargs,
            )->0),
            format_tail(
                whole,
                spans,
                k + 1,
                spans[k].1 as int,
                if takes_positional(piece(whole, spans[k].0 as int, spans[k].1 as int)) {
                    next_arg + 1
                } else {
                    next_arg
                },
                args,
                kwargs,
            ),
        ),
{
    let specifier = piece(whole, spans[k].0 as int, spans[k].1 as int);
    let next = if takes_positional(specifier) {
        next_arg + 1
    } else {
        next_arg
    };
    let in_place = substitution(specifier, next_arg, args, kwargs)->0;
    let later = format_tail(whole, spans, k + 1, spans[k].1 as int, next, args, kwargs);
    if later is Some {
        assert(done + (piece(whole, base, spans[k].0 as int) + in_place + later->0) =~= done + (
        piece(whole, base, spans[k].0 as int) + in_place) + later->0);
    }
}

/// The spans from index `k` on begin at or after the end of the span before them.
proof fn lemma_span_follows(text: Seq<char>, spans: Seq<(usize, usize)>, k: int)
    requires
        spans_fit(text, spans),
        0 <= k < spans.len(),
    ensures
        spans[k].0 <= spans[k].1 <= encode_utf8(text).len(),
        is_char_boundary(encode_utf8(text), spans[k].0 as int),
        is_char_boundary(encode_utf8(text), spans[k].1 as int),
        k > 0 ==> spans[k - 1].1 <= spans[k].0,
{
    reveal(spans_fit);
    if k > 0 {
        assert(spans[k - 1].1 <= spans[k - 1 + 1].0);
    }
}

/// Replaces each of the given spans of `format_str` by the substitution of the conversion
/// specifier that stands there.
pub fn format_with_spans(
    format_str: &str,
    spans: &Vec<(usize, usize)>,
    args: &[FinderType],
    kwargs: &[(String, FinderType)],
) -> (text: Option<String>)
    requires
        spans_fit(format_str@, spans@),
    ensures
        opt_text(text) == format_spans(format_str@, spans@, args@, kwargs@),
{
    let ghost whole = format_str@;
    let mut out = String::new();
    let mut rest: &str = format_str;
    let mut base: usize = 0;
    let mut next_arg: usize = 0;
    let mut k: usize = 0;
    proof {
        let bytes = encode_utf8(whole);
        encode_utf8_valid_utf8(whole);
        is_char_boundary_start_end_of_seq(bytes);
        assert(bytes.subrange(0, bytes.len() as int) =~= bytes);
        assert(Seq::<char>::empty() + format_spans(whole, spans@, args@, kwargs@)->0
            =~= format_spans(whole, spans@, args@, kwargs@)->0);
    }
    while k < spans.len()
        invariant
            k <= spans.len(),
            next_arg <= k,
            whole == format_str@,
            spans_fit(whole, spans@),
            rest_from(whole, rest.spec_bytes(), base as int),
            k == 0 ==> base == 0,
            k > 0 ==> base == spans@[k - 1].1,
            format_spans(whole, spans@, args@, kwargs@) == prepend(
                out@,
                format_tail(whole, spans@, k as int, base as int, next_arg as nat, args@, kwargs@),
            ),
        decreases spans.len() - k,
    {
        let span = spans[k];
        proof {
            lemma_span_follows(whole, spans@, k as int);
        }
        let takes = span_takes_positional(rest, base, span, Ghost(whole));
        match format_one(rest, base, span, next_arg, args, kwargs, Ghost(whole)) {
            Some((text, after)) => {
                proof {
                    lemma_format_step(
                        whole,
                        spans@,
                        k as int,
                        base as int,
                        next_arg as nat,
                        args@,
                        kwargs@,
                        out@,
                    );
                }
                out.append(text.as_str());
                rest = after;
            },
            None => {
                return None;
            },
        }
        if takes {
            next_arg += 1;
        }
        base = span.1;
        k += 1;
    }
    proof {
        encode_utf8_decode_utf8(rest@);
    }
    out.append(rest);
    Some(out)
}

/// Tells whether one of the spans covers the byte offset.
fn covers(spans: &Vec<(usize, usize)>, at: usize) -> (covered: bool)
    ensures
        covered == in_some_span(spans@, at as int),
{
    let mut k: usize = 0;
    while k < spans.len()
        invariant
            k <= spans.len(),
            forall|j: int| 0 <= j < k ==> !((#[trigger] spans@[j]).0 <= at < spans@[j].1),
        decreases spans.len() - k,
    {
        if spans[k].0 <= at && at < spans[k].1 {
            return true;
        }
        k += 1;
    }
    false
}

/// Tells whether the text holds a percent sign that lies in none of the spans.
pub fn stray_percent(format_str: &str, spans: &Vec<(usize, usize)>) -> (stray: bool)
    ensures
        stray == has_stray_percent(format_str@, spans@),
{
    let bytes = format_str.as_bytes();
    let mut i: usize = 0;
    while i < bytes.len()
        invariant
            i <= bytes.len(),
            bytes@ == encode_utf8(format_str@),
            forall|j: int|
                0 <= j < i && #[trigger] encode_utf8(format_str@)[j] == 0x25u8 ==> in_some_span(
                    spans@,
                    j,
                ),
        decreases bytes.len() - i,
    {
        if bytes[i] == 0x25 && !covers(spans, i) {
            return true;
        }
        i += 1;
    }
    false
}

/// Formats `format_str` with the given values as the `%` operator does: each conversion
/// specifier is replaced by the text of its value, `%%` by a percent sign. Gives nothing
/// if one of the specifiers cannot be filled, or if a percent sign of the text belongs
/// to no specifier.
pub fn format_python_string(
    format_str: &str,
    args: &[FinderType],
    kwargs: &[(String, FinderType)],
) -> (text: Option<String>)
    ensures
        opt_text(text) == percent_format(format_str@, args@, kwargs@),
{
    match find_matches(specifier_pattern(), format_str) {
        Some(spans) => if stray_percent(format_str, &spans) {
            None
        } else {
            format_with_spans(format_str, &spans, args, kwargs)
        },
        None => None,
    }
}

} // verus!
