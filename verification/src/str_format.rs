//! Filling the replacement fields of a `str.format` template.

use vstd::prelude::*;
use crate::numeral::all_digits;
use crate::numeral::digits_value;
use crate::numeral::is_all_digits;
use crate::numeral::parse_magnitude;
use crate::text::first_index_of;
use crate::text::lemma_first_index_of;
use crate::text::push_all;
use crate::text::slice_chars;

verus! {

/// The token that stands for a part of a string that is only known when the program runs.
pub open spec fn placeholder_text() -> Seq<char> {
    "PLACEHOLDER"@
}

/// The placeholder token.
pub fn placeholder() -> (token: Vec<char>)
    ensures
        token@ == placeholder_text(),
{
    crate::text::chars_of("PLACEHOLDER")
}

/// The views of a list of texts.
pub open spec fn texts(vs: Seq<Vec<char>>) -> Seq<Seq<char>> {
    vs.map_values(|v: Vec<char>| v@)
}

/// The views of a list of named texts.
pub open spec fn named_texts(vs: Seq<(Vec<char>, Vec<char>)>) -> Seq<(Seq<char>, Seq<char>)> {
    vs.map_values(|p: (Vec<char>, Vec<char>)| (p.0@, p.1@))
}

/// The text given under the name `key`: that of the first entry with this name.
pub open spec fn lookup(named: Seq<(Seq<char>, Seq<char>)>, key: Seq<char>) -> Option<Seq<char>>
    decreases named.len(),
{
    if named.len() == 0 {
        None
    } else if named[0].0 == key {
        Some(named[0].1)
    } else {
        lookup(named.drop_first(), key)
    }
}

/// What a replacement field stands for. An empty field takes the next positional text in
/// turn, a field of digits the positional text of that index, any other field the text
/// given under that name. Where there is no such text, the placeholder stands.
pub open spec fn field_text(
    field: Seq<char>,
    auto: nat,
    positional: Seq<Seq<char>>,
    named: Seq<(Seq<char>, Seq<char>)>,
) -> Seq<char> {
    if field.len() == 0 {
        if auto < positional.len() {
            positional[auto as int]
        } else {
            placeholder_text()
        }
    } else if all_digits(field) {
        if digits_value(field) < positional.len() {
            positional[digits_value(field) as int]
        } else {
            placeholder_text()
        }
    } else {
        match lookup(named, field) {
            Some(t) => t,
            None => placeholder_text(),
        }
    }
}

/// The index of the first `}` at or after `from`, or the length of `t` if there is none.
pub open spec fn closing_brace(t: Seq<char>, from: int) -> int {
    from + first_index_of(t.skip(from), '}')
}

/// The template from index `i` on with its replacement fields filled in, where `auto`
/// empty fields have been met before. `{{` and `}}` stand for one brace each; a `{` that
/// is never closed stands as it is, with all that follows it.
pub open spec fn fill_fields(
    t: Seq<char>,
    i: int,
    auto: nat,
    positional: Seq<Seq<char>>,
    named: Seq<(Seq<char>, Seq<char>)>,
) -> Seq<char>
    decreases t.len() - i,
{
    if i < 0 || i >= t.len() {
        seq![]
    } else if t[i] == '{' {
        if i + 1 < t.len() && t[i + 1] == '{' {
            seq!['{'] + fill_fields(t, i + 2, auto, positional, named)
        } else {
            let close = closing_brace(t, i + 1);
            if close >= t.len() {
                t.skip(i)
            } else {
                proof {
                    lemma_first_index_of(t.skip(i + 1), '}');
                }
                let field = t.subrange(i + 1, close);
                let next = if field.len() == 0 {
                    auto + 1
                } else {
                    auto
                };
                field_text(field, auto, positional, named) + fill_fields(
                    t,
                    close + 1,
                    next,
                    positional,
                    named,
                )
            }
        }
    } else if t[i] == '}' && i + 1 < t.len() && t[i + 1] == '}' {
        seq!['}'] + fill_fields(t, i + 2, auto, positional, named)
    } else {
        seq![t[i]] + fill_fields(t, i + 1, auto, positional, named)
    }
}

/// The template with its replacement fields filled in.
pub open spec fn format_fields_spec(
    t: Seq<char>,
    positional: Seq<Seq<char>>,
    named: Seq<(Seq<char>, Seq<char>)>,
) -> Seq<char> {
    fill_fields(t, 0, 0, positional, named)
}

fn find_named(named: &Vec<(Vec<char>, Vec<char>)>, key: &Vec<char>) -> (at: Option<usize>)
    ensures
        match at {
            Some(k) => k < named.len() && lookup(named_texts(named@), key@) == Some(named@[k as int].1@),
            None => lookup(named_texts(named@), key@) is None,
        },
{
    let ghost all = named_texts(named@);
    assert(all.skip(0) =~= all);
    let mut i: usize = 0;
    while i < named.len()
        invariant
            i <= named.len(),
            all == named_texts(named@),
            lookup(all, key@) == lookup(all.skip(i as int), key@),
        decreases named.len() - i,
    {
        let ghost rest = all.skip(i as int);
        assert(rest[0] == all[i as int]);
        assert(rest.drop_first() =~= all.skip(i + 1));
        if same_chars(&named[i].0, key) {
            return Some(i);
        }
        i += 1;
    }
    assert(all.skip(i as int).len() == 0);
    None
}

/// Whether two runs of characters are the same.
pub fn same_chars(a: &Vec<char>, b: &Vec<char>) -> (same: bool)
    ensures
        same == (a@ == b@),
{
    if a.len() != b.len() {
        return false;
    }
    let mut i: usize = 0;
    while i < a.len()
        invariant
            i <= a.len(),
            a.len() == b.len(),
            forall|j: int| 0 <= j < i ==> a@[j] == b@[j],
        decreases a.len() - i,
    {
        if a[i] != b[i] {
            return false;
        }
        i += 1;
    }
    assert(a@ =~= b@);
    true
}

fn append_field(
    out: &mut Vec<char>,
    field: &Vec<char>,
    auto: usize,
    positional: &Vec<Vec<char>>,
    named: &Vec<(Vec<char>, Vec<char>)>,
)
    ensures
        final(out)@ == old(out)@ + field_text(
            field@,
            auto as nat,
            texts(positional@),
            named_texts(named@),
        ),
{
    let count: usize = positional.len();
    if field.len() == 0 {
        if auto < count {
            assert(texts(positional@)[auto as int] == positional@[auto as int]@);
            push_all(out, &positional[auto]);
        } else {
            push_all(out, &placeholder());
        }
    } else if is_all_digits(field) {
        assert(field@.skip(0) =~= field@);
        match parse_magnitude(field, 0, u64::MAX) {
            Some(n) => {
                if n < count as u64 {
                    assert(texts(positional@)[n as int] == positional@[n as int]@);
                    push_all(out, &positional[n as usize]);
                } else {
                    push_all(out, &placeholder());
                }
            },
            None => {
                assert(digits_value(field@) > u64::MAX >= count);
                push_all(out, &placeholder());
            },
        }
    } else {
        match find_named(named, field) {
            Some(k) => {
                push_all(out, &named[k].1);
            },
            None => {
                push_all(out, &placeholder());
            },
        }
    }
}

/// Fills the replacement fields of a template with the texts given by position and by name.
pub fn format_fields(
    template: &Vec<char>,
    positional: &Vec<Vec<char>>,
    named: &Vec<(Vec<char>, Vec<char>)>,
) -> (filled: Vec<char>)
    ensures
        filled@ == format_fields_spec(template@, texts(positional@), named_texts(named@)),
{
    let ghost t = template@;
    let ghost ps = texts(positional@);
    let ghost ns = named_texts(named@);
    let mut out: Vec<char> = Vec::new();
    let mut i: usize = 0;
    let mut auto: usize = 0;
    while i < template.len()
        invariant
            i <= template.len(),
            auto <= i,
            t == template@,
            ps == texts(positional@),
            ns == named_texts(named@),
            fill_fields(t, 0, 0, ps, ns) == out@ + fill_fields(t, i as int, auto as nat, ps, ns),
        decreases template.len() - i,
    {
        let ghost so_far = out@;
        let c = template[i];
        if c == '{' {
            if i + 1 < template.len() && template[i + 1] == '{' {
                out.push('{');
                assert(so_far + (seq!['{'] + fill_fields(t, i + 2, auto as nat, ps, ns)) =~= out@
                    + fill_fields(t, i + 2, auto as nat, ps, ns));
                i += 2;
            } else {
                let close: usize = crate::text::find_char_from(template, '}', i + 1);
                if close >= template.len() {
                    let rest = slice_chars(template, i, template.len());
                    assert(rest@ =~= t.skip(i as int));
                    push_all(&mut out, &rest);
                    return out;
                }
                let field = slice_chars(template, i + 1, close);
                append_field(&mut out, &field, auto, positional, named);
                let ghost next = if field@.len() == 0 {
                    (auto + 1) as nat
                } else {
                    auto as nat
                };
                assert(so_far + (field_text(field@, auto as nat, ps, ns) + fill_fields(
                    t,
                    close + 1,
                    next,
                    ps,
                    ns,
                )) =~= out@ + fill_fields(t, close + 1, next, ps, ns));
                if field.len() == 0 {
                    auto += 1;
                }
                i = close + 1;
            }
        } else if c == '}' && i + 1 < template.len() && template[i + 1] == '}' {
            out.push('}');
            assert(so_far + (seq!['}'] + fill_fields(t, i + 2, auto as nat, ps, ns)) =~= out@
                + fill_fields(t, i + 2, auto as nat, ps, ns));
            i += 2;
        } else {
            out.push(c);
            assert(so_far + (seq![c] + fill_fields(t, i + 1, auto as nat, ps, ns)) =~= out@
                + fill_fields(t, i + 1, auto as nat, ps, ns));
            i += 1;
        }
    }
    assert(out@ + fill_fields(t, i as int, auto as nat, ps, ns) =~= out@);
    out
}

} // verus!
