//! Working out the string that an expression gives, as far as the program text tells.

use vstd::prelude::*;
use crate::ast::DictItem;
use crate::ast::Expr;
use crate::ast::FStringPart;
use crate::ast::Keyword;
use crate::config::FinderConfig;
use crate::finder_types::FinderType;
use crate::format::format_python_string;
use crate::format::opt_text;
use crate::format::percent_format;
use crate::str_format::format_fields;
use crate::str_format::format_fields_spec;
use crate::str_format::named_texts;
use crate::str_format::placeholder;
use crate::str_format::placeholder_text;
use crate::str_format::texts;
use crate::text::chars_of;
use crate::text::same_text;
use crate::text::string_of;

verus! {

/// The text of one part of a formatted string literal: literal text as it is, the
/// placeholder for a replacement field, whatever is written in the field.
pub open spec fn part_text(part: FStringPart) -> Seq<char> {
    match part {
        FStringPart::Literal(t) => t@,
        FStringPart::Interpolation(_) => placeholder_text(),
    }
}

/// The text of a formatted string literal: the texts of its parts, one after the other.
pub open spec fn joined_text(parts: Seq<FStringPart>) -> Seq<char>
    decreases parts.len(),
{
    if parts.len() == 0 {
        seq![]
    } else {
        joined_text(parts.drop_last()) + part_text(parts.last())
    }
}

/// The literal value that an expression is, if it is one.
pub open spec fn constant_of(e: Expr) -> Option<FinderType> {
    match e {
        Expr::Constant(c) => Some(c),
        _ => None,
    }
}

/// The values of the expressions, if each of them is a literal value.
pub open spec fn literal_values(es: Seq<Expr>) -> Option<Seq<FinderType>> {
    if forall|i: int| 0 <= i < es.len() ==> (#[trigger] constant_of(es[i])) is Some {
        Some(Seq::new(es.len(), |i: int| constant_of(es[i])->0))
    } else {
        None
    }
}

/// The name and value of a dictionary entry, if its key is a literal string and its
/// value a literal value.
pub open spec fn literal_entry(item: DictItem) -> Option<(String, FinderType)> {
    match item.key {
        Some(Expr::Constant(FinderType::Str(k))) => match item.value {
            Expr::Constant(v) => Some((k, v)),
            _ => None,
        },
        _ => None,
    }
}

/// The names and values of the entries, if each of them has a literal string as its key
/// and a literal value.
pub open spec fn literal_entries(items: Seq<DictItem>) -> Option<Seq<(String, FinderType)>> {
    if forall|i: int| 0 <= i < items.len() ==> (#[trigger] literal_entry(items[i])) is Some {
        Some(Seq::new(items.len(), |i: int| literal_entry(items[i])->0))
    } else {
        None
    }
}

/// The values that the right side of `%` gives: those of a tuple of literal values by
/// position, those of a dictionary of literal values by name. Any other right side
/// gives none.
pub open spec fn percent_operands(right: Expr) -> Option<
    (Seq<FinderType>, Seq<(String, FinderType)>),
> {
    match right {
        Expr::Tuple(es) => match literal_values(es@) {
            Some(values) => Some((values, seq![])),
            None => None,
        },
        Expr::Dict(items) => match literal_entries(items@) {
            Some(entries) => Some((seq![], entries)),
            None => None,
        },
        _ => None,
    }
}

/// The dotted path of a callee that is a name or a chain of attributes of a name.
pub open spec fn callee_path(func: Expr) -> Option<Seq<char>>
    decreases func,
{
    match func {
        Expr::Name(n) => Some(n@),
        Expr::Attribute { value, attr } => match callee_path(*value) {
            Some(path) => Some(path + seq!['.'] + attr@),
            None => None,
        },
        _ => None,
    }
}

/// The last name of a callee.
pub open spec fn callee_name(func: Expr) -> Option<Seq<char>> {
    match func {
        Expr::Name(n) => Some(n@),
        Expr::Attribute { value, attr } => Some(attr@),
        _ => None,
    }
}

/// The name under which a call is reported: the dotted path of its callee, where the
/// policy lists that path or the last name of it as a function.
pub open spec fn qualifying_name(cfg: FinderConfig, func: Expr) -> Option<Seq<char>> {
    match callee_path(func) {
        Some(path) => if cfg.names_function(callee_name(func)->0) || cfg.names_function(path) {
            Some(path)
        } else {
            None
        },
        None => None,
    }
}

/// Whether an argument with this keyword is taken for SQL.
pub open spec fn is_sql_keyword(cfg: FinderConfig, keyword: Keyword) -> bool {
    match keyword.name {
        Some(n) => cfg.names_variable(n@),
        None => false,
    }
}

/// The index of the first keyword argument that is taken for SQL, or the number of
/// keyword arguments if there is none.
pub open spec fn sql_keyword(cfg: FinderConfig, keywords: Seq<Keyword>) -> int
    decreases keywords.len(),
{
    if keywords.len() == 0 {
        0
    } else if is_sql_keyword(cfg, keywords[0]) {
        0
    } else {
        1 + sql_keyword(cfg, keywords.drop_first())
    }
}

/// Whether a callee is the method `format` of some receiver.
pub open spec fn is_format_method(func: Expr) -> bool {
    match func {
        Expr::Attribute { value, attr } => attr@ == "format"@,
        _ => false,
    }
}

/// The string that an expression is known to give when the program runs, if it is known.
///
/// A literal string gives its text. A formatted string literal gives its literal text
/// with the placeholder for each field. A sum gives the two texts joined, if both are
/// known. `template % values` gives the template formatted, if the template is known and
/// the values are literal. `template.format(..)` gives the template with its fields
/// filled, if the template is known. A call of a function that the policy lists gives
/// what its SQL argument gives: the first keyword argument whose name the policy lists
/// as a variable, else the first positional argument. Nothing else is known.
pub open spec fn resolve_text(e: Expr, cfg: FinderConfig) -> Option<Seq<char>>
    decreases e, 0nat,
{
    match e {
        Expr::Constant(FinderType::Str(t)) => Some(t@),
        Expr::JoinedStr(parts) => Some(joined_text(parts@)),
        Expr::BinaryAdd(left, right) => match resolve_text(*left, cfg) {
            Some(a) => match resolve_text(*right, cfg) {
                Some(b) => Some(a + b),
                None => None,
            },
            None => None,
        },
        Expr::BinaryMod(left, right) => match resolve_text(*left, cfg) {
            Some(template) => match percent_operands(*right) {
                Some(values) => percent_format(template, values.0, values.1),
                None => None,
            },
            None => None,
        },
        Expr::Call { func, args, keywords } => {
            if is_format_method(*func) {
                match *func {
                    Expr::Attribute { value, attr } => match resolve_text(*value, cfg) {
                        Some(template) => Some(
                            format_fields_spec(
                                template,
                                argument_texts(args@, cfg, 0),
                                keyword_texts(keywords@, cfg, 0),
                            ),
                        ),
                        None => None,
                    },
                    _ => None,
                }
            } else if qualifying_name(cfg, *func) is Some {
                let k = sql_keyword(cfg, keywords@);
                if 0 <= k < keywords@.len() {
                    resolve_text(keywords@[k].value, cfg)
                } else if args@.len() > 0 {
                    resolve_text(args@[0], cfg)
                } else {
                    None
                }
            } else {
                None
            }
        },
        _ => None,
    }
}

/// The text that an argument of `format` puts into the template: a literal number as it
/// is written, any other expression what it is known to give, and the placeholder where
/// that is not known.
pub open spec fn argument_text(e: Expr, cfg: FinderConfig) -> Seq<char>
    decreases e, 1nat,
{
    match e {
        Expr::Constant(FinderType::Int(t)) => t@,
        Expr::Constant(FinderType::Float(f)) => f.text(),
        _ => match resolve_text(e, cfg) {
            Some(t) => t,
            None => placeholder_text(),
        },
    }
}

/// The texts of the positional arguments from index `i` on.
pub open spec fn argument_texts(args: Seq<Expr>, cfg: FinderConfig, i: int) -> Seq<Seq<char>>
    decreases args, args.len() - i,
{
    if 0 <= i < args.len() {
        seq![argument_text(args[i], cfg)] + argument_texts(args, cfg, i + 1)
    } else {
        seq![]
    }
}

/// The names and texts of the keyword arguments from index `i` on that have a name.
pub open spec fn keyword_texts(keywords: Seq<Keyword>, cfg: FinderConfig, i: int) -> Seq<
    (Seq<char>, Seq<char>),
>
    decreases keywords, keywords.len() - i,
{
    if 0 <= i < keywords.len() {
        let here = match keywords[i].name {
            Some(n) => seq![(n@, argument_text(keywords[i].value, cfg))],
            None => seq![],
        };
        here + keyword_texts(keywords, cfg, i + 1)
    } else {
        seq![]
    }
}

/// The text that is known, as a list of one or none.
pub open spec fn known(t: Option<Seq<char>>) -> Seq<Seq<char>> {
    match t {
        Some(t) => seq![t],
        None => seq![],
    }
}

/// What the elements up to index `n` are known to give, in order.
pub open spec fn element_texts(es: Seq<Expr>, cfg: FinderConfig, n: int) -> Seq<Seq<char>>
    decreases n,
{
    if n <= 0 || n > es.len() {
        seq![]
    } else {
        element_texts(es, cfg, n - 1) + known(resolve_text(es[n - 1], cfg))
    }
}

/// What the values of the entries up to index `n` are known to give, in order.
pub open spec fn entry_texts(items: Seq<DictItem>, cfg: FinderConfig, n: int) -> Seq<Seq<char>>
    decreases n,
{
    if n <= 0 || n > items.len() {
        seq![]
    } else {
        entry_texts(items, cfg, n - 1) + known(resolve_text(items[n - 1].value, cfg))
    }
}

/// The strings that a value gives to the name that it is bound to. A list, tuple or
/// dictionary display gives what each of its elements is known to give; any other value
/// gives what it is known to give itself.
pub open spec fn resolve_values(e: Expr, cfg: FinderConfig) -> Seq<Seq<char>> {
    match e {
        Expr::List(es) => element_texts(es@, cfg, es@.len() as int),
        Expr::Tuple(es) => element_texts(es@, cfg, es@.len() as int),
        Expr::Dict(items) => entry_texts(items@, cfg, items@.len() as int),
        _ => known(resolve_text(e, cfg)),
    }
}

fn join_parts(parts: &Vec<FStringPart>) -> (text: String)
    ensures
        text@ == joined_text(parts@),
{
    let mut text = String::new();
    let mut i: usize = 0;
    assert(parts@.take(0) =~= Seq::<FStringPart>::empty());
    while i < parts.len()
        invariant
            i <= parts.len(),
            text@ == joined_text(parts@.take(i as int)),
        decreases parts.len() - i,
    {
        proof {
            assert(parts@.take(i + 1).drop_last() =~= parts@.take(i as int));
            assert(parts@.take(i + 1).last() == parts@[i as int]);
        }
        match &parts[i] {
            FStringPart::Literal(t) => {
                text.append(t.as_str());
            },
            FStringPart::Interpolation(_) => {
                text.append("PLACEHOLDER");
            },
        }
        i += 1;
    }
    assert(parts@.take(i as int) =~= parts@);
    text
}

fn tuple_values(es: &Vec<Expr>) -> (values: Option<Vec<FinderType>>)
    ensures
        match values {
            Some(vs) => literal_values(es@) == Some(vs@),
            None => literal_values(es@) is None,
        },
{
    let mut values: Vec<FinderType> = Vec::new();
    let mut i: usize = 0;
    while i < es.len()
        invariant
            i <= es.len(),
            values@.len() == i,
            forall|j: int| 0 <= j < i ==> (#[trigger] constant_of(es@[j])) == Some(values@[j]),
        decreases es.len() - i,
    {
        match &es[i] {
            Expr::Constant(c) => {
                values.push(c.clone());
            },
            _ => {
                assert(constant_of(es@[i as int]) is None);
                return None;
            },
        }
        i += 1;
    }
    assert(values@ =~= Seq::new(es@.len(), |i: int| constant_of(es@[i])->0));
    Some(values)
}

fn entry_of(item: &DictItem) -> (entry: Option<(String, FinderType)>)
    ensures
        entry == literal_entry(*item),
{
    match &item.key {
        Some(Expr::Constant(FinderType::Str(k))) => match &item.value {
            Expr::Constant(v) => Some((k.clone(), v.clone())),
            _ => None,
        },
        _ => None,
    }
}

fn dict_entries(items: &Vec<DictItem>) -> (entries: Option<Vec<(String, FinderType)>>)
    ensures
        match entries {
            Some(kv) => literal_entries(items@) == Some(kv@),
            None => literal_entries(items@) is None,
        },
{
    let mut entries: Vec<(String, FinderType)> = Vec::new();
    let mut i: usize = 0;
    while i < items.len()
        invariant
            i <= items.len(),
            entries@.len() == i,
            forall|j: int| 0 <= j < i ==> (#[trigger] literal_entry(items@[j])) == Some(entries@[j]),
        decreases items.len() - i,
    {
        match entry_of(&items[i]) {
            Some(entry) => {
                entries.push(entry);
            },
            None => {
                assert(literal_entry(items@[i as int]) is None);
                return None;
            },
        }
        i += 1;
    }
    assert(entries@ =~= Seq::new(items@.len(), |i: int| literal_entry(items@[i])->0));
    Some(entries)
}

/// Formats a known template with the values on the right of `%`.
fn format_percent(template: &String, right: &Expr) -> (text: Option<String>)
    ensures
        opt_text(text) == match percent_operands(*right) {
            Some(values) => percent_format(template@, values.0, values.1),
            None => None,
        },
{
    match right {
        Expr::Tuple(es) => match tuple_values(es) {
            Some(values) => {
                let none: Vec<(String, FinderType)> = Vec::new();
                assert(none@ =~= Seq::<(String, FinderType)>::empty());
                format_python_string(template.as_str(), values.as_slice(), none.as_slice())
            },
            None => None,
        },
        Expr::Dict(items) => match dict_entries(items) {
            Some(entries) => {
                let none: Vec<FinderType> = Vec::new();
                assert(none@ =~= Seq::<FinderType>::empty());
                format_python_string(template.as_str(), none.as_slice(), entries.as_slice())
            },
            None => None,
        },
        _ => None,
    }
}

/// Gives the dotted path of a callee.
pub fn path_of_callee(func: &Expr) -> (path: Option<String>)
    ensures
        opt_text(path) == callee_path(*func),
    decreases func,
{
    match func {
        Expr::Name(n) => Some(n.clone()),
        Expr::Attribute { value, attr } => match path_of_callee(value) {
            Some(base) => {
                let mut path = base;
                proof {
                    reveal_strlit(".");
                    assert("."@ =~= seq!['.']);
                }
                path.append(".");
                path.append(attr.as_str());
                Some(path)
            },
            None => None,
        },
        _ => None,
    }
}

/// Gives the name under which a call of `func` is reported, if the policy lists it.
pub fn name_of_call(cfg: &FinderConfig, func: &Expr) -> (name: Option<String>)
    ensures
        opt_text(name) == qualifying_name(*cfg, *func),
{
    match path_of_callee(func) {
        Some(path) => {
            let listed = match func {
                Expr::Name(n) => cfg.is_function(n),
                Expr::Attribute { value: _, attr } => cfg.is_function(attr),
                _ => false,
            };
            if listed || cfg.is_function(&path) {
                Some(path)
            } else {
                None
            }
        },
        None => None,
    }
}

fn find_sql_keyword(cfg: &FinderConfig, keywords: &Vec<Keyword>) -> (at: usize)
    ensures
        at == sql_keyword(*cfg, keywords@),
        at <= keywords.len(),
{
    assert(keywords@.skip(0) =~= keywords@);
    let mut i: usize = 0;
    while i < keywords.len()
        invariant
            i <= keywords.len(),
            sql_keyword(*cfg, keywords@) == i + sql_keyword(*cfg, keywords@.skip(i as int)),
        decreases keywords.len() - i,
    {
        let ghost rest = keywords@.skip(i as int);
        assert(rest[0] == keywords@[i as int]);
        assert(rest.drop_first() =~= keywords@.skip(i + 1));
        let found = match &keywords[i].name {
            Some(n) => cfg.is_variable(n),
            None => false,
        };
        if found {
            return i;
        }
        i += 1;
    }
    i
}

fn is_format(func: &Expr) -> (yes: bool)
    ensures
        yes == is_format_method(*func),
{
    match func {
        Expr::Attribute { value: _, attr } => same_text(attr, "format"),
        _ => false,
    }
}

/// Gives the string that an expression is known to give when the program runs.
pub fn resolve(e: &Expr, cfg: &FinderConfig) -> (text: Option<String>)
    ensures
        opt_text(text) == resolve_text(*e, *cfg),
    decreases e, 0nat,
{
    match e {
        Expr::Constant(FinderType::Str(t)) => Some(t.clone()),
        Expr::JoinedStr(parts) => Some(join_parts(parts)),
        Expr::BinaryAdd(left, right) => match resolve(left, cfg) {
            Some(a) => match resolve(right, cfg) {
                Some(b) => {
                    let mut sum = a;
                    sum.append(b.as_str());
                    Some(sum)
                },
                None => None,
            },
            None => None,
        },
        Expr::BinaryMod(left, right) => match resolve(left, cfg) {
            Some(template) => format_percent(&template, right),
            None => None,
        },
        Expr::Call { func, args, keywords } => {
            if is_format(func) {
                match &**func {
                    Expr::Attribute { value, attr: _ } => match resolve(value, cfg) {
                        Some(template) => {
                            let positional = resolve_arguments(args, cfg);
                            let named = resolve_keywords(keywords, cfg);
                            let filled = format_fields(
                                &chars_of(template.as_str()),
                                &positional,
                                &named,
                            );
                            Some(string_of(&filled))
                        },
                        None => None,
                    },
                    _ => None,
                }
            } else if name_of_call(cfg, func).is_some() {
                let k = find_sql_keyword(cfg, keywords);
                if k < keywords.len() {
                    resolve(&keywords[k].value, cfg)
                } else if args.len() > 0 {
                    resolve(&args[0], cfg)
                } else {
                    None
                }
            } else {
                None
            }
        },
        _ => None,
    }
}

fn resolve_argument(e: &Expr, cfg: &FinderConfig) -> (text: Vec<char>)
    ensures
        text@ == argument_text(*e, *cfg),
    decreases e, 1nat,
{
    match e {
        Expr::Constant(FinderType::Int(t)) => chars_of(t.as_str()),
        Expr::Constant(FinderType::Float(f)) => chars_of(f.shown().as_str()),
        _ => match resolve(e, cfg) {
            Some(t) => chars_of(t.as_str()),
            None => placeholder(),
        },
    }
}

fn resolve_arguments(args: &Vec<Expr>, cfg: &FinderConfig) -> (found: Vec<Vec<char>>)
    ensures
        texts(found@) == argument_texts(args@, *cfg, 0),
    decreases args, args.len() + 1,
{
    let mut found: Vec<Vec<char>> = Vec::new();
    let mut i: usize = 0;
    assert(texts(found@) =~= Seq::<Seq<char>>::empty());
    while i < args.len()
        invariant
            i <= args.len(),
            argument_texts(args@, *cfg, 0) == texts(found@) + argument_texts(
                args@,
                *cfg,
                i as int,
            ),
        decreases args.len() - i,
    {
        let ghost before = texts(found@);
        let t = resolve_argument(&args[i], cfg);
        found.push(t);
        proof {
            assert(texts(found@) =~= before + seq![argument_text(args@[i as int], *cfg)]);
            assert(before + (seq![argument_text(args@[i as int], *cfg)] + argument_texts(
                args@,
                *cfg,
                i + 1,
            )) =~= texts(found@) + argument_texts(args@, *cfg, i + 1));
        }
        i += 1;
    }
    assert(texts(found@) + argument_texts(args@, *cfg, i as int) =~= texts(found@));
    found
}

fn resolve_keywords(keywords: &Vec<Keyword>, cfg: &FinderConfig) -> (found: Vec<
    (Vec<char>, Vec<char>),
>)
    ensures
        named_texts(found@) == keyword_texts(keywords@, *cfg, 0),
    decreases keywords, keywords.len() + 1,
{
    let mut found: Vec<(Vec<char>, Vec<char>)> = Vec::new();
    let mut i: usize = 0;
    assert(named_texts(found@) =~= Seq::<(Seq<char>, Seq<char>)>::empty());
    while i < keywords.len()
        invariant
            i <= keywords.len(),
            keyword_texts(keywords@, *cfg, 0) == named_texts(found@) + keyword_texts(
                keywords@,
                *cfg,
                i as int,
            ),
        decreases keywords.len() - i,
    {
        let ghost before = named_texts(found@);
        match &keywords[i].name {
            Some(n) => {
                let t = resolve_argument(&keywords[i].value, cfg);
                found.push((chars_of(n.as_str()), t));
                proof {
                    let here = seq![(n@, argument_text(keywords@[i as int].value, *cfg))];
                    assert(named_texts(found@) =~= before + here);
                    assert(before + (here + keyword_texts(keywords@, *cfg, i + 1))
                        =~= named_texts(found@) + keyword_texts(keywords@, *cfg, i + 1));
                }
            },
            None => {
                assert(before + (Seq::<(Seq<char>, Seq<char>)>::empty() + keyword_texts(
                    keywords@,
                    *cfg,
                    i + 1,
                )) =~= named_texts(found@) + keyword_texts(keywords@, *cfg, i + 1));
            },
        }
        i += 1;
    }
    assert(named_texts(found@) + keyword_texts(keywords@, *cfg, i as int) =~= named_texts(
        found@,
    ));
    found
}

/// The views of a list of strings.
pub open spec fn string_views(ss: Seq<String>) -> Seq<Seq<char>> {
    ss.map_values(|s: String| s@)
}

fn push_known(found: &mut Vec<String>, text: Option<String>)
    ensures
        string_views(final(found)@) == string_views(old(found)@) + known(opt_text(text)),
{
    match text {
        Some(t) => {
            found.push(t);
            assert(string_views(found@) =~= string_views(old(found)@) + seq![t@]);
        },
        None => {
            assert(string_views(found@) =~= string_views(old(found)@) + Seq::<
                Seq<char>,
            >::empty());
        },
    }
}

/// Gives the strings that a value gives to the name that it is bound to.
pub fn resolve_all(e: &Expr, cfg: &FinderConfig) -> (found: Vec<String>)
    ensures
        string_views(found@) == resolve_values(*e, *cfg),
{
    let mut found: Vec<String> = Vec::new();
    assert(string_views(found@) =~= Seq::<Seq<char>>::empty());
    match e {
        Expr::List(es) => {
            resolve_elements(es, cfg, &mut found);
        },
        Expr::Tuple(es) => {
            resolve_elements(es, cfg, &mut found);
        },
        Expr::Dict(items) => {
            let mut i: usize = 0;
            while i < items.len()
                invariant
                    i <= items.len(),
                    string_views(found@) == entry_texts(items@, *cfg, i as int),
                decreases items.len() - i,
            {
                let t = resolve(&items[i].value, cfg);
                push_known(&mut found, t);
                i += 1;
            }
        },
        _ => {
            let t = resolve(e, cfg);
            push_known(&mut found, t);
            assert(Seq::<Seq<char>>::empty() + known(opt_text(t)) =~= known(opt_text(t)));
        },
    }
    found
}

fn resolve_elements(es: &Vec<Expr>, cfg: &FinderConfig, found: &mut Vec<String>)
    requires
        old(found)@.len() == 0,
    ensures
        string_views(final(found)@) == element_texts(es@, *cfg, es@.len() as int),
{
    assert(string_views(found@) =~= Seq::<Seq<char>>::empty());
    let mut i: usize = 0;
    while i < es.len()
        invariant
            i <= es.len(),
            string_views(found@) == element_texts(es@, *cfg, i as int),
        decreases es.len() - i,
    {
        let t = resolve(&es[i], cfg);
        push_known(found, t);
        i += 1;
    }
}

} // verus!
