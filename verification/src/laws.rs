//! What holds of the analysis as a whole, stated and proved over its definitions.

use vstd::prelude::*;
use crate::ast::Expr;
use crate::ast::Stmt;
use crate::config::FinderConfig;
use crate::decimal::Numeral;
use crate::decimal::exponent_part;
use crate::decimal::general_exponent;
use crate::decimal::fixed_text;
use crate::decimal::general_text;
use crate::decimal::short_scientific_text;
use crate::decimal::trimmed;
use crate::finder::SqlContext;
use crate::finder::binding_contexts;
use crate::finder::bindings_contexts;
use crate::finder::block_contexts;
use crate::finder::blocks_contexts;
use crate::finder::context_views;
use crate::finder::named_contexts;
use crate::finder::program_contexts;
use crate::finder::stmt_contexts;
use crate::finder::target_contexts;
use crate::finder::targets_contexts;
use crate::finder_types::FinderType;
use crate::flatten::AssignmentTarget;
use crate::flatten::arity_fits;
use crate::flatten::first_star;
use crate::flatten::flatten;
use crate::flatten::flatten_from;
use crate::flatten::lemma_targets_of;
use crate::flatten::star_count;
use crate::flatten::target_of;
use crate::flatten::targets_of;
use crate::flatten::value_position;
use crate::format::substitution;
use crate::preanalysis::ignores;
use crate::resolve::is_format_method;
use crate::resolve::known;
use crate::resolve::qualifying_name;
use crate::resolve::resolve_text;
use crate::resolve::resolve_values;
use crate::resolve::sql_keyword;
use crate::numeral::radix_text;
use crate::text::has_char;

verus! {

/// The name that a target binds, where the target is a bare name or an attribute.
pub open spec fn single_name(target: Expr) -> Option<Seq<char>> {
    match target {
        Expr::Name(n) => Some(n@),
        Expr::Attribute { value, attr } => Some(attr@),
        _ => None,
    }
}

/// One context with the text `t` for each of the first `n` targets whose name the policy
/// lists, in the order of the targets; none where `t` is too short.
pub open spec fn chained_contexts(targets: Seq<Expr>, t: Seq<char>, cfg: FinderConfig, n: int) -> Seq<
    (Seq<char>, Seq<char>),
>
    decreases n,
{
    if n <= 0 || n > targets.len() {
        seq![]
    } else {
        chained_contexts(targets, t, cfg, n - 1) + if cfg.names_variable(
            single_name(targets[n - 1])->0,
        ) && cfg.long_enough(t.len()) {
            seq![(single_name(targets[n - 1])->0, t)]
        } else {
            seq![]
        }
    }
}

proof fn lemma_literal_binding(name: Seq<char>, value: Expr, t: Seq<char>, cfg: FinderConfig)
    requires
        resolve_values(value, cfg) == seq![t],
    ensures
        binding_contexts(name, value, cfg) == if cfg.names_variable(name) && cfg.long_enough(
            t.len(),
        ) {
            seq![(name, t)]
        } else {
            seq![]
        },
{
    let found = resolve_values(value, cfg);
    assert(named_contexts(name, found, cfg, 0) =~= seq![]);
    assert(named_contexts(name, found, cfg, 1) =~= named_contexts(name, found, cfg, 0) + if cfg.long_enough(
        found[0].len(),
    ) {
        seq![(name, found[0])]
    } else {
        seq![]
    });
}

proof fn lemma_single_target(target: Expr, value: Expr, cfg: FinderConfig)
    requires
        single_name(target) is Some,
    ensures
        target_contexts(target, value, cfg) == binding_contexts(
            single_name(target)->0,
            value,
            cfg,
        ),
{
    let bs = flatten(target_of(target), value);
    assert(bs =~= seq![(single_name(target)->0, value)]);
    assert(bindings_contexts(bs, cfg, 0) =~= seq![]);
    assert(bindings_contexts(bs, cfg, 1) =~= bindings_contexts(bs, cfg, 0) + binding_contexts(
        bs[0].0,
        bs[0].1,
        cfg,
    ));
}

proof fn lemma_chained_targets(
    targets: Seq<Expr>,
    value: Expr,
    t: Seq<char>,
    cfg: FinderConfig,
    n: int,
)
    requires
        0 <= n <= targets.len(),
        resolve_values(value, cfg) == seq![t],
        forall|i: int| 0 <= i < targets.len() ==> single_name(#[trigger] targets[i]) is Some,
    ensures
        targets_contexts(targets, value, cfg, n) == chained_contexts(targets, t, cfg, n),
    decreases n,
{
    if n > 0 {
        lemma_chained_targets(targets, value, t, cfg, n - 1);
        lemma_single_target(targets[n - 1], value, cfg);
        lemma_literal_binding(single_name(targets[n - 1])->0, value, t, cfg);
    }
}

/// A chained assignment of a literal string, `a = b = "..."`, gives one context for each
/// target whose name the policy lists, in the order of the targets, and each of them
/// holds the text of the literal.
pub proof fn lemma_chained_assignment(
    targets: Vec<Expr>,
    text: String,
    last_line: usize,
    cfg: FinderConfig,
    marked: Seq<bool>,
)
    requires
        forall|i: int| 0 <= i < targets@.len() ==> single_name(#[trigger] targets@[i]) is Some,
        !ignores(marked, last_line),
    ensures
        stmt_contexts(
            Stmt::Assign { targets, value: Expr::Constant(FinderType::Str(text)), last_line },
            cfg,
            marked,
        ) == chained_contexts(targets@, text@, cfg, targets@.len() as int),
        forall|k: int|
            0 <= k < chained_contexts(targets@, text@, cfg, targets@.len() as int).len()
                ==> (#[trigger] chained_contexts(
                targets@,
                text@,
                cfg,
                targets@.len() as int,
            )[k]).1 == text@,
{
    let value = Expr::Constant(FinderType::Str(text));
    assert(resolve_values(value, cfg) =~= seq![text@]);
    lemma_chained_targets(targets@, value, text@, cfg, targets@.len() as int);
    lemma_chained_share_text(targets@, text@, cfg, targets@.len() as int);
}

proof fn lemma_chained_share_text(targets: Seq<Expr>, t: Seq<char>, cfg: FinderConfig, n: int)
    ensures
        forall|k: int|
            0 <= k < chained_contexts(targets, t, cfg, n).len() ==> (#[trigger] chained_contexts(
                targets,
                t,
                cfg,
                n,
            )[k]).1 == t,
    decreases n,
{
    if n <= 0 || n > targets.len() {
    } else {
        lemma_chained_share_text(targets, t, cfg, n - 1);
        let before = chained_contexts(targets, t, cfg, n - 1);
        assert forall|k: int| 0 <= k < chained_contexts(targets, t, cfg, n).len() implies (
        #[trigger] chained_contexts(targets, t, cfg, n)[k]).1 == t by {
            if k < before.len() {
                assert(chained_contexts(targets, t, cfg, n)[k] == before[k]);
            }
        }
    }
}

/// Unpacking `x, *mid, y = [v1, .., vn]` binds `x` to the first value and `y` to the
/// last one, and binds nothing to the starred name.
pub proof fn lemma_starred_unpacking(
    x: String,
    mid: String,
    y: String,
    targets: Vec<Expr>,
    values: Vec<Expr>,
)
    requires
        targets@ == seq![
            Expr::Name(x),
            Expr::Starred(Box::new(Expr::Name(mid))),
            Expr::Name(y),
        ],
        values@.len() >= 2,
    ensures
        flatten(target_of(Expr::Tuple(targets)), Expr::List(values)) == seq![
            (x@, values@[0]),
            (y@, values@[values@.len() - 1]),
        ],
        flatten(target_of(Expr::List(targets)), Expr::Tuple(values)) == seq![
            (x@, values@[0]),
            (y@, values@[values@.len() - 1]),
        ],
{
    let ts = targets_of(targets@, 0);
    lemma_targets_of(targets@, 0);
    assert(ts =~= seq![
        AssignmentTarget::Simple(x@),
        AssignmentTarget::Starred,
        AssignmentTarget::Simple(y@),
    ]);
    let n = values@.len() as int;
    assert(star_count(ts) == 1) by {
        reveal_with_fuel(star_count, 4);
        assert(ts.drop_last() =~= seq![AssignmentTarget::Simple(x@), AssignmentTarget::Starred]);
        assert(ts.drop_last().drop_last() =~= seq![AssignmentTarget::Simple(x@)]);
        assert(ts.drop_last().drop_last().drop_last() =~= Seq::<AssignmentTarget>::empty());
    }
    assert(first_star(ts) == 1) by {
        reveal_with_fuel(first_star, 3);
        assert(ts.drop_first()[0] == ts[1]);
    }
    assert(arity_fits(ts, n));
    assert(value_position(ts, n, 0) == 0);
    assert(value_position(ts, n, 2) == n - 1);
    assert(flatten_from(ts, values@, 0) =~= seq![(x@, values@[0]), (y@, values@[n - 1])]) by {
        reveal_with_fuel(flatten_from, 5);
    }
}

/// The statement `x, *mid, y = [v1, .., vn]` gives the contexts of `x` with the first
/// value and of `y` with the last one, and none under the starred name.
pub proof fn lemma_starred_assignment(
    x: String,
    mid: String,
    y: String,
    targets: Vec<Expr>,
    values: Vec<Expr>,
    outer: Vec<Expr>,
    last_line: usize,
    cfg: FinderConfig,
    marked: Seq<bool>,
)
    requires
        targets@ == seq![
            Expr::Name(x),
            Expr::Starred(Box::new(Expr::Name(mid))),
            Expr::Name(y),
        ],
        values@.len() >= 2,
        outer@ == seq![Expr::Tuple(targets)],
        !ignores(marked, last_line),
    ensures
        stmt_contexts(
            Stmt::Assign { targets: outer, value: Expr::List(values), last_line },
            cfg,
            marked,
        ) == binding_contexts(x@, values@[0], cfg) + binding_contexts(
            y@,
            values@[values@.len() - 1],
            cfg,
        ),
{
    lemma_starred_unpacking(x, mid, y, targets, values);
    let value = Expr::List(values);
    let bs = flatten(target_of(Expr::Tuple(targets)), value);
    assert(bindings_contexts(bs, cfg, 2) == binding_contexts(x@, values@[0], cfg)
        + binding_contexts(y@, values@[values@.len() - 1], cfg)) by {
        reveal_with_fuel(bindings_contexts, 3);
        assert(bindings_contexts(bs, cfg, 0) + binding_contexts(x@, values@[0], cfg)
            =~= binding_contexts(x@, values@[0], cfg));
    }
    assert(targets_contexts(outer@, value, cfg, 1) =~= target_contexts(outer@[0], value, cfg))
        by {
        reveal_with_fuel(targets_contexts, 2);
    }
}

/// Two runs of the analysis on the same program, policy and marks give the same names
/// and texts in the same order.
pub proof fn lemma_analysis_repeats(
    stmts: Seq<Stmt>,
    cfg: FinderConfig,
    marked: Seq<bool>,
    first: Seq<SqlContext>,
    second: Seq<SqlContext>,
)
    requires
        context_views(first) == program_contexts(stmts, cfg, marked),
        context_views(second) == program_contexts(stmts, cfg, marked),
    ensures
        context_views(first) == context_views(second),
        first.len() == second.len(),
        forall|i: int|
            0 <= i < first.len() ==> first[i].variable_name@ == second[i].variable_name@
                && first[i].sql_content@ == second[i].sql_content@,
{
    assert(context_views(first).len() == first.len());
    assert(context_views(second).len() == second.len());
    assert forall|i: int| 0 <= i < first.len() implies first[i].variable_name@
        == second[i].variable_name@ && first[i].sql_content@ == second[i].sql_content@ by {
        assert(context_views(first)[i] == first[i]@);
        assert(context_views(second)[i] == second[i]@);
    }
}

proof fn lemma_no_text_no_contexts(bs: Seq<(Seq<char>, Expr)>, cfg: FinderConfig, n: int)
    requires
        forall|i: int| 0 <= i < bs.len() ==> resolve_values((#[trigger] bs[i]).1, cfg).len() == 0,
    ensures
        bindings_contexts(bs, cfg, n) == Seq::<(Seq<char>, Seq<char>)>::empty(),
    decreases n,
{
    if n <= 0 || n > bs.len() {
    } else {
        lemma_no_text_no_contexts(bs, cfg, n - 1);
        let found = resolve_values(bs[n - 1].1, cfg);
        assert(named_contexts(bs[n - 1].0, found, cfg, 0) =~= seq![]);
    }
}

proof fn lemma_name_value_targets(targets: Seq<Expr>, name: String, cfg: FinderConfig, n: int)
    ensures
        targets_contexts(targets, Expr::Name(name), cfg, n) == Seq::<
            (Seq<char>, Seq<char>),
        >::empty(),
    decreases n,
{
    if n <= 0 || n > targets.len() {
    } else {
        lemma_name_value_targets(targets, name, cfg, n - 1);
        lemma_name_value_target(targets[n - 1], name, cfg);
    }
}

proof fn lemma_name_value_target(target: Expr, name: String, cfg: FinderConfig)
    ensures
        target_contexts(target, Expr::Name(name), cfg) == Seq::<(Seq<char>, Seq<char>)>::empty(),
{
    let value = Expr::Name(name);
    let bs = flatten(target_of(target), value);
    assert(resolve_values(value, cfg) =~= seq![]);
    assert forall|i: int| 0 <= i < bs.len() implies resolve_values((#[trigger] bs[i]).1, cfg).len()
        == 0 by {
        assert(bs[i].1 == value);
    }
    lemma_no_text_no_contexts(bs, cfg, bs.len() as int);
}

/// A value that is a bare name gives no context, whatever was assigned to that name
/// before: `query = s` gives nothing.
pub proof fn lemma_name_is_never_resolved(
    targets: Vec<Expr>,
    name: String,
    last_line: usize,
    cfg: FinderConfig,
    marked: Seq<bool>,
)
    ensures
        resolve_text(Expr::Name(name), cfg) is None,
        stmt_contexts(Stmt::Assign { targets, value: Expr::Name(name), last_line }, cfg, marked)
            == Seq::<(Seq<char>, Seq<char>)>::empty(),
{
    lemma_name_value_targets(targets@, name, cfg, targets@.len() as int);
}

/// A call of a listed function whose SQL argument is itself a call of a listed function
/// on a literal string gives exactly one context: the text of the literal, under the
/// name of the outer call.
pub proof fn lemma_nested_call(
    outer: Expr,
    inner: Expr,
    text: String,
    last_line: usize,
    cfg: FinderConfig,
    marked: Seq<bool>,
)
    requires
        outer matches Expr::Call { func, args, keywords } && !is_format_method(*func)
            && qualifying_name(cfg, *func) is Some && sql_keyword(cfg, keywords@)
            == keywords@.len() && args@.len() > 0 && args@[0] == inner,
        inner matches Expr::Call { func, args, keywords } && !is_format_method(*func)
            && qualifying_name(cfg, *func) is Some && sql_keyword(cfg, keywords@)
            == keywords@.len() && args@.len() > 0 && args@[0] == Expr::Constant(
            FinderType::Str(text),
        ),
        !ignores(marked, last_line),
        cfg.long_enough(text@.len()),
    ensures
        stmt_contexts(Stmt::Expr { value: outer, last_line }, cfg, marked) == seq![
            (qualifying_name(cfg, *outer->func)->0, text@),
        ],
{
    assert(resolve_text(Expr::Constant(FinderType::Str(text)), cfg) == Some(text@));
    assert(resolve_text(inner, cfg) == Some(text@));
    assert(resolve_text(outer, cfg) == Some(text@));
    let found = known(resolve_text(outer, cfg));
    let name = qualifying_name(cfg, *outer->func)->0;
    assert(named_contexts(name, found, cfg, 1) =~= seq![(name, text@)]) by {
        reveal_with_fuel(named_contexts, 2);
    }
}

/// Whether each of the contexts holds a text that is long enough for the policy.
pub open spec fn all_long_enough(cs: Seq<(Seq<char>, Seq<char>)>, cfg: FinderConfig) -> bool {
    forall|k: int| 0 <= k < cs.len() ==> cfg.long_enough((#[trigger] cs[k]).1.len())
}

proof fn lemma_long_enough_joined(
    a: Seq<(Seq<char>, Seq<char>)>,
    b: Seq<(Seq<char>, Seq<char>)>,
    cfg: FinderConfig,
)
    requires
        all_long_enough(a, cfg),
        all_long_enough(b, cfg),
    ensures
        all_long_enough(a + b, cfg),
{
    assert forall|k: int| 0 <= k < (a + b).len() implies cfg.long_enough(
        (#[trigger] (a + b)[k]).1.len(),
    ) by {
        if k < a.len() {
            assert((a + b)[k] == a[k]);
        } else {
            assert((a + b)[k] == b[k - a.len()]);
        }
    }
}

proof fn lemma_named_long_enough(name: Seq<char>, found: Seq<Seq<char>>, cfg: FinderConfig, n: int)
    ensures
        all_long_enough(named_contexts(name, found, cfg, n), cfg),
    decreases n,
{
    if n <= 0 || n > found.len() {
    } else {
        lemma_named_long_enough(name, found, cfg, n - 1);
        let here = if cfg.long_enough(found[n - 1].len()) {
            seq![(name, found[n - 1])]
        } else {
            seq![]
        };
        lemma_long_enough_joined(named_contexts(name, found, cfg, n - 1), here, cfg);
    }
}

proof fn lemma_bindings_long_enough(bs: Seq<(Seq<char>, Expr)>, cfg: FinderConfig, n: int)
    ensures
        all_long_enough(bindings_contexts(bs, cfg, n), cfg),
    decreases n,
{
    if n <= 0 || n > bs.len() {
    } else {
        lemma_bindings_long_enough(bs, cfg, n - 1);
        let found = resolve_values(bs[n - 1].1, cfg);
        lemma_named_long_enough(bs[n - 1].0, found, cfg, found.len() as int);
        lemma_long_enough_joined(
            bindings_contexts(bs, cfg, n - 1),
            binding_contexts(bs[n - 1].0, bs[n - 1].1, cfg),
            cfg,
        );
    }
}

proof fn lemma_targets_long_enough(targets: Seq<Expr>, value: Expr, cfg: FinderConfig, n: int)
    ensures
        all_long_enough(targets_contexts(targets, value, cfg, n), cfg),
    decreases n,
{
    if n <= 0 || n > targets.len() {
    } else {
        lemma_targets_long_enough(targets, value, cfg, n - 1);
        let bs = flatten(target_of(targets[n - 1]), value);
        lemma_bindings_long_enough(bs, cfg, bs.len() as int);
        lemma_long_enough_joined(
            targets_contexts(targets, value, cfg, n - 1),
            target_contexts(targets[n - 1], value, cfg),
            cfg,
        );
    }
}

/// Every context of a statement holds a text that is long enough for the policy.
pub proof fn lemma_stmt_texts_are_long_enough(s: Stmt, cfg: FinderConfig, marked: Seq<bool>)
    ensures
        all_long_enough(stmt_contexts(s, cfg, marked), cfg),
    decreases s, 0nat,
{
    match s {
        Stmt::Assign { targets, value, last_line } => {
            lemma_targets_long_enough(targets@, value, cfg, targets@.len() as int);
        },
        Stmt::AnnAssign { target, value, last_line } => {
            if value is Some {
                let bs = flatten(target_of(target), value->0);
                lemma_bindings_long_enough(bs, cfg, bs.len() as int);
            }
        },
        Stmt::Expr { value, last_line } => {
            match value {
                Expr::Call { func, args, keywords } => {
                    if qualifying_name(cfg, *func) is Some {
                        let found = known(resolve_text(value, cfg));
                        lemma_named_long_enough(
                            qualifying_name(cfg, *func)->0,
                            found,
                            cfg,
                            found.len() as int,
                        );
                    }
                },
                _ => {},
            }
        },
        Stmt::If { body, orelse } => {
            lemma_block_texts_are_long_enough(body@, cfg, marked, 0);
            lemma_block_texts_are_long_enough(orelse@, cfg, marked, 0);
            lemma_long_enough_joined(
                block_contexts(body@, cfg, marked, 0),
                block_contexts(orelse@, cfg, marked, 0),
                cfg,
            );
        },
        Stmt::For { body, orelse } => {
            lemma_block_texts_are_long_enough(body@, cfg, marked, 0);
            lemma_block_texts_are_long_enough(orelse@, cfg, marked, 0);
            lemma_long_enough_joined(
                block_contexts(body@, cfg, marked, 0),
                block_contexts(orelse@, cfg, marked, 0),
                cfg,
            );
        },
        Stmt::While { body, orelse } => {
            lemma_block_texts_are_long_enough(body@, cfg, marked, 0);
            lemma_block_texts_are_long_enough(orelse@, cfg, marked, 0);
            lemma_long_enough_joined(
                block_contexts(body@, cfg, marked, 0),
                block_contexts(orelse@, cfg, marked, 0),
                cfg,
            );
        },
        Stmt::Try { body, handlers, orelse, finalbody } => {
            lemma_block_texts_are_long_enough(body@, cfg, marked, 0);
            lemma_blocks_texts_are_long_enough(handlers@, cfg, marked, 0);
            lemma_block_texts_are_long_enough(orelse@, cfg, marked, 0);
            lemma_block_texts_are_long_enough(finalbody@, cfg, marked, 0);
            let a = block_contexts(body@, cfg, marked, 0);
            let b = blocks_contexts(handlers@, cfg, marked, 0);
            let c = block_contexts(orelse@, cfg, marked, 0);
            let d = block_contexts(finalbody@, cfg, marked, 0);
            lemma_long_enough_joined(a, b, cfg);
            lemma_long_enough_joined(a + b, c, cfg);
            lemma_long_enough_joined(a + b + c, d, cfg);
        },
        Stmt::With { body } => {
            lemma_block_texts_are_long_enough(body@, cfg, marked, 0);
        },
        Stmt::Match { cases } => {
            lemma_blocks_texts_are_long_enough(cases@, cfg, marked, 0);
        },
        Stmt::FunctionDef { body } => {
            lemma_block_texts_are_long_enough(body@, cfg, marked, 0);
        },
        Stmt::ClassDef { body } => {
            lemma_block_texts_are_long_enough(body@, cfg, marked, 0);
        },
        Stmt::Other => {},
    }
}

/// Every context of a block holds a text that is long enough for the policy.
pub proof fn lemma_block_texts_are_long_enough(
    block: Seq<Stmt>,
    cfg: FinderConfig,
    marked: Seq<bool>,
    i: int,
)
    ensures
        all_long_enough(block_contexts(block, cfg, marked, i), cfg),
    decreases block, block.len() - i,
{
    if 0 <= i < block.len() {
        lemma_stmt_texts_are_long_enough(block[i], cfg, marked);
        lemma_block_texts_are_long_enough(block, cfg, marked, i + 1);
        lemma_long_enough_joined(
            stmt_contexts(block[i], cfg, marked),
            block_contexts(block, cfg, marked, i + 1),
            cfg,
        );
    }
}

proof fn lemma_blocks_texts_are_long_enough(
    blocks: Seq<Vec<Stmt>>,
    cfg: FinderConfig,
    marked: Seq<bool>,
    i: int,
)
    ensures
        all_long_enough(blocks_contexts(blocks, cfg, marked, i), cfg),
    decreases blocks, blocks.len() - i,
{
    if 0 <= i < blocks.len() {
        lemma_block_texts_are_long_enough(blocks[i]@, cfg, marked, 0);
        lemma_blocks_texts_are_long_enough(blocks, cfg, marked, i + 1);
        lemma_long_enough_joined(
            block_contexts(blocks[i]@, cfg, marked, 0),
            blocks_contexts(blocks, cfg, marked, i + 1),
            cfg,
        );
    }
}

proof fn lemma_block_of_two(
    first: Seq<Stmt>,
    second: Seq<Stmt>,
    cfg: FinderConfig,
    marked: Seq<bool>,
    i: int,
)
    requires
        0 <= i <= first.len(),
    ensures
        block_contexts(first + second, cfg, marked, i) == block_contexts(first, cfg, marked, i)
            + block_contexts(second, cfg, marked, 0),
    decreases first.len() + second.len() - i,
{
    let both = first + second;
    if i < first.len() {
        lemma_block_of_two(first, second, cfg, marked, i + 1);
        assert(both[i] == first[i]);
        assert(stmt_contexts(first[i], cfg, marked) + (block_contexts(first, cfg, marked, i + 1)
            + block_contexts(second, cfg, marked, 0)) =~= stmt_contexts(first[i], cfg, marked)
            + block_contexts(first, cfg, marked, i + 1) + block_contexts(second, cfg, marked, 0));
    } else {
        lemma_block_shifted(first, second, cfg, marked, 0);
        assert(block_contexts(first, cfg, marked, i) + block_contexts(second, cfg, marked, 0)
            =~= block_contexts(second, cfg, marked, 0));
    }
}

proof fn lemma_block_shifted(
    first: Seq<Stmt>,
    second: Seq<Stmt>,
    cfg: FinderConfig,
    marked: Seq<bool>,
    j: int,
)
    requires
        0 <= j <= second.len(),
    ensures
        block_contexts(first + second, cfg, marked, first.len() + j) == block_contexts(
            second,
            cfg,
            marked,
            j,
        ),
    decreases second.len() - j,
{
    let both = first + second;
    if j < second.len() {
        lemma_block_shifted(first, second, cfg, marked, j + 1);
        assert(both[first.len() + j] == second[j]);
    }
}

/// The contexts of a program are those of its first part followed by those of the rest:
/// no statement changes what another statement gives.
pub proof fn lemma_statements_are_independent(
    first: Seq<Stmt>,
    second: Seq<Stmt>,
    cfg: FinderConfig,
    marked: Seq<bool>,
)
    ensures
        program_contexts(first + second, cfg, marked) == program_contexts(first, cfg, marked)
            + program_contexts(second, cfg, marked),
{
    lemma_block_of_two(first, second, cfg, marked, 0);
}

/// An assignment or call whose value ends on a marked line gives no context, however
/// many names it would bind.
pub proof fn lemma_marked_line_suppresses(
    targets: Vec<Expr>,
    target: Expr,
    value: Expr,
    last_line: usize,
    cfg: FinderConfig,
    marked: Seq<bool>,
)
    requires
        ignores(marked, last_line),
    ensures
        stmt_contexts(Stmt::Assign { targets, value, last_line }, cfg, marked) == Seq::<
            (Seq<char>, Seq<char>),
        >::empty(),
        stmt_contexts(
            Stmt::AnnAssign { target, value: Some(value), last_line },
            cfg,
            marked,
        ) == Seq::<(Seq<char>, Seq<char>)>::empty(),
        stmt_contexts(Stmt::Expr { value, last_line }, cfg, marked) == Seq::<
            (Seq<char>, Seq<char>),
        >::empty(),
{
}

/// How many names a target can bind: one for a name or an attribute, none for a starred
/// element, and for a sequence as many as its elements together.
pub open spec fn leaves(t: AssignmentTarget) -> nat
    decreases t, 0nat,
{
    match t {
        AssignmentTarget::Simple(_) => 1,
        AssignmentTarget::Attribute(_) => 1,
        AssignmentTarget::Sequence(ts) => leaves_from(ts, 0),
        AssignmentTarget::Starred => 0,
        AssignmentTarget::Unsupported => 0,
    }
}

/// How many names the targets from index `i` on can bind.
pub open spec fn leaves_from(ts: Seq<AssignmentTarget>, i: int) -> nat
    decreases ts, ts.len() - i,
{
    if 0 <= i < ts.len() {
        leaves(ts[i]) + leaves_from(ts, i + 1)
    } else {
        0
    }
}

/// Unpacking binds each name of the target at most once.
pub proof fn lemma_binds_each_name_once(t: AssignmentTarget, v: Expr)
    ensures
        flatten(t, v).len() <= leaves(t),
    decreases t, 0nat,
{
    match t {
        AssignmentTarget::Sequence(ts) => {
            match crate::ast::sequence_elements(v) {
                Some(vs) => {
                    lemma_binds_each_name_once_from(ts, vs, 0);
                },
                None => {},
            }
        },
        _ => {},
    }
}

proof fn lemma_binds_each_name_once_from(ts: Seq<AssignmentTarget>, vs: Seq<Expr>, i: int)
    ensures
        flatten_from(ts, vs, i).len() <= leaves_from(ts, i),
    decreases ts, ts.len() - i,
{
    if 0 <= i < ts.len() {
        lemma_binds_each_name_once_from(ts, vs, i + 1);
        if !(ts[i] is Starred) {
            lemma_binds_each_name_once(ts[i], vs[value_position(ts, vs.len() as int, i)]);
        }
    }
}

/// How many of the specifiers before the span `k` take a positional value.
pub open spec fn positional_before(text: Seq<char>, spans: Seq<(usize, usize)>, k: int) -> nat
    decreases k,
{
    if k <= 0 || k > spans.len() {
        0
    } else {
        positional_before(text, spans, k - 1) + if crate::format::takes_positional(
            crate::format::piece(text, spans[k - 1].0 as int, spans[k - 1].1 as int),
        ) {
            1nat
        } else {
            0nat
        }
    }
}

/// The text that takes the place of the specifier in the span `k`: its substitution,
/// where it takes the positional value whose index is the number of specifiers before
/// it that take one.
pub open spec fn replacement(
    text: Seq<char>,
    spans: Seq<(usize, usize)>,
    k: int,
    args: Seq<FinderType>,
    kwargs: Seq<(String, FinderType)>,
) -> Option<Seq<char>> {
    substitution(
        crate::format::piece(text, spans[k].0 as int, spans[k].1 as int),
        positional_before(text, spans, k),
        args,
        kwargs,
    )
}

/// The text from byte offset `from` on, with each specifier from the span `k` on
/// replaced in its place and all that stands between them kept.
pub open spec fn replaced_from(
    text: Seq<char>,
    spans: Seq<(usize, usize)>,
    k: int,
    from: int,
    args: Seq<FinderType>,
    kwargs: Seq<(String, FinderType)>,
) -> Seq<char>
    decreases spans.len() - k,
{
    if k < 0 || k >= spans.len() {
        crate::format::piece(text, from, vstd::utf8::encode_utf8(text).len() as int)
    } else {
        crate::format::piece(text, from, spans[k].0 as int) + replacement(
            text,
            spans,
            k,
            args,
            kwargs,
        )->0 + replaced_from(text, spans, k + 1, spans[k].1 as int, args, kwargs)
    }
}

proof fn lemma_filled_from(
    text: Seq<char>,
    spans: Seq<(usize, usize)>,
    k: int,
    from: int,
    args: Seq<FinderType>,
    kwargs: Seq<(String, FinderType)>,
)
    requires
        0 <= k <= spans.len(),
        forall|j: int| k <= j < spans.len() ==> replacement(text, spans, j, args, kwargs) is Some,
    ensures
        crate::format::format_tail(
            text,
            spans,
            k,
            from,
            positional_before(text, spans, k),
            args,
            kwargs,
        ) == Some(replaced_from(text, spans, k, from, args, kwargs)),
    decreases spans.len() - k,
{
    if k < spans.len() {
        lemma_filled_from(text, spans, k + 1, spans[k].1 as int, args, kwargs);
        assert(replacement(text, spans, k, args, kwargs) is Some);
        let lit = crate::format::piece(text, from, spans[k].0 as int);
        let here = replacement(text, spans, k, args, kwargs)->0;
        let later = replaced_from(text, spans, k + 1, spans[k].1 as int, args, kwargs);
        assert(lit + here + later =~= (lit + here) + later);
    }
}

proof fn lemma_unfilled_from(
    text: Seq<char>,
    spans: Seq<(usize, usize)>,
    k: int,
    from: int,
    at: int,
    args: Seq<FinderType>,
    kwargs: Seq<(String, FinderType)>,
)
    requires
        0 <= k <= at < spans.len(),
        replacement(text, spans, at, args, kwargs) is None,
    ensures
        crate::format::format_tail(
            text,
            spans,
            k,
            from,
            positional_before(text, spans, k),
            args,
            kwargs,
        ) is None,
    decreases at - k,
{
    if k < at {
        lemma_unfilled_from(text, spans, k + 1, spans[k].1 as int, at, args, kwargs);
    }
}

/// Where every specifier of a template can be filled, formatting gives the template
/// with each specifier replaced in its place by the text of its own value: the
/// positional specifiers take the values from left to right, and everything between
/// the specifiers is kept in its order.
pub proof fn lemma_all_specifiers_filled(
    text: Seq<char>,
    spans: Seq<(usize, usize)>,
    args: Seq<FinderType>,
    kwargs: Seq<(String, FinderType)>,
)
    requires
        forall|k: int| 0 <= k < spans.len() ==> replacement(text, spans, k, args, kwargs) is Some,
    ensures
        crate::format::format_spans(text, spans, args, kwargs) == Some(
            replaced_from(text, spans, 0, 0, args, kwargs),
        ),
        crate::format::regex_matches(crate::format::specifier_pattern_text(), text) == Some(spans)
            && !crate::format::has_stray_percent(text, spans) ==> crate::format::percent_format(
            text,
            args,
            kwargs,
        ) == Some(replaced_from(text, spans, 0, 0, args, kwargs)),
{
    lemma_filled_from(text, spans, 0, 0, args, kwargs);
}

/// Where one specifier of a template cannot be filled, formatting gives no text at all.
pub proof fn lemma_one_specifier_unfilled(
    text: Seq<char>,
    spans: Seq<(usize, usize)>,
    at: int,
    args: Seq<FinderType>,
    kwargs: Seq<(String, FinderType)>,
)
    requires
        0 <= at < spans.len(),
        replacement(text, spans, at, args, kwargs) is None,
    ensures
        crate::format::format_spans(text, spans, args, kwargs) is None,
        crate::format::regex_matches(crate::format::specifier_pattern_text(), text) == Some(spans)
            ==> crate::format::percent_format(text, args, kwargs) is None,
{
    lemma_unfilled_from(text, spans, 0, 0, at, args, kwargs);
}

/// The conversion `%s` takes a value of every kind.
pub proof fn lemma_text_conversion_takes_every_value(d: crate::directive::Directive, v: FinderType)
    requires
        d.conv == 's',
    ensures
        crate::format::formatted(d, v) is Some,
{
}

proof fn lemma_leading_zeros_bound(s: Seq<char>)
    ensures
        crate::decimal::leading_zeros(s) <= s.len(),
    decreases s.len(),
{
    if s.len() > 0 && s[0] == '0' {
        lemma_leading_zeros_bound(s.drop_first());
    }
}

/// The two letters of a conversion for real numbers give the same text but for the
/// letters in it: the same digits stand in both.
pub proof fn lemma_capital_conversion_keeps_the_digits(d: Numeral, p: nat)
    requires
        crate::numeral::all_digits(d.whole),
        crate::numeral::all_digits(d.fraction),
    ensures
        crate::decimal::scientific_text(d, p, true) == crate::decimal::sign_text(d.negative)
            + crate::decimal::mantissa_text(d, p) + exponent_part(
            crate::decimal::scientific_exponent(d, p),
            true,
        ),
        crate::decimal::scientific_text(d, p, false) == crate::decimal::sign_text(d.negative)
            + crate::decimal::mantissa_text(d, p) + exponent_part(
            crate::decimal::scientific_exponent(d, p),
            false,
        ),
        exponent_part(crate::decimal::scientific_exponent(d, p), true).skip(1) == exponent_part(
            crate::decimal::scientific_exponent(d, p),
            false,
        ).skip(1),
        crate::decimal::mantissa_text(d, p).len() == if p > 0 {
            p + 2
        } else {
            1
        },
{
    let power = crate::decimal::scientific_exponent(d, p);
    assert(exponent_part(power, true).skip(1) =~= exponent_part(power, false).skip(1));
    let kept = crate::decimal::take_padded(crate::decimal::significant(d), p + 1);
    assert(kept.len() == p + 1);
    let all = d.digits();
    let sig = crate::decimal::significant(d);
    lemma_leading_zeros_bound(all);
    assert forall|i: int| 0 <= i < all.len() implies crate::numeral::is_digit(#[trigger] all[i]) by {
        if i < d.whole.len() {
            assert(all[i] == d.whole[i]);
        } else {
            assert(all[i] == d.fraction[i - d.whole.len()]);
        }
    }
    assert forall|i: int| 0 <= i < kept.len() implies crate::numeral::is_digit(
        #[trigger] kept[i],
    ) by {
        if i < sig.len() {
            assert(kept[i] == sig[i]);
            assert(sig[i] == all[i + crate::decimal::leading_zeros(all)]);
        } else {
            assert(kept[i] == '0');
        }
    }
    crate::decimal::lemma_increment(kept);
}

/// Scientific notation of a value that stands for a finite number is given in small
/// letters and in capitals alike, and the two texts differ in the exponent letter only.
pub proof fn lemma_scientific_in_both_letters(v: FinderType, d: Numeral, p: nat)
    requires
        crate::format::value_numeral(v) == Some(crate::number::Real::Finite(d)),
    ensures
        crate::format::scientific_conversion(v, p, false) == Some(
            crate::decimal::sign_text(d.negative) + crate::decimal::mantissa_text(d, p)
                + exponent_part(crate::decimal::scientific_exponent(d, p), false),
        ),
        crate::format::scientific_conversion(v, p, true) == Some(
            crate::decimal::sign_text(d.negative) + crate::decimal::mantissa_text(d, p)
                + exponent_part(crate::decimal::scientific_exponent(d, p), true),
        ),
        exponent_part(crate::decimal::scientific_exponent(d, p), true) == seq!['E']
            + exponent_part(crate::decimal::scientific_exponent(d, p), false).skip(1),
{
    let power = crate::decimal::scientific_exponent(d, p);
    assert(exponent_part(power, true) =~= seq!['E'] + exponent_part(power, false).skip(1));
}

/// A value gives no text under a conversion for real numbers exactly where it stands
/// for no number; a floating-point value and a truth value always stand for one.
pub proof fn lemma_real_conversions_fail_together(v: FinderType, p: nat, upper: bool)
    ensures
        crate::format::float_conversion(v, p, upper) is None <==> crate::format::value_numeral(v)
            is None,
        crate::format::scientific_conversion(v, p, upper) is None
            <==> crate::format::value_numeral(v) is None,
        crate::format::general_conversion(v, p, upper) is None <==> crate::format::value_numeral(
            v,
        ) is None,
        v is Bool ==> crate::format::value_numeral(v) is Some,
{
}

/// A text that the standard reading of floating-point numbers takes is written by each
/// of the conversions for real numbers: the words `inf`, `infinity` and `nan`, and
/// digits with an exponent part of any size.
pub proof fn lemma_words_and_exponents_are_read(digits: Seq<char>, exponent: Seq<char>)
    requires
        crate::decimal::numeral_of(digits) is Some,
        crate::number::exponent_mark(digits) >= digits.len(),
        crate::numeral::signed_numeral(exponent) is Some,
    ensures
        crate::number::real_of("inf"@) == Some(crate::number::Real::Infinite(false)),
        crate::number::real_of("-inf"@) == Some(crate::number::Real::Infinite(true)),
        crate::number::real_of("Infinity"@) == Some(crate::number::Real::Infinite(false)),
        crate::number::real_of("nan"@) == Some(crate::number::Real::NotANumber),
        crate::number::real_of("NaN"@) == Some(crate::number::Real::NotANumber),
        crate::number::real_of(digits + seq!['e'] + exponent) is Some,
        crate::number::real_of(digits + seq!['E'] + exponent) is Some,
{
    reveal_strlit("inf");
    reveal_strlit("INF");
    reveal_strlit("-inf");
    reveal_strlit("Infinity");
    reveal_strlit("infinity");
    reveal_strlit("INFINITY");
    reveal_strlit("nan");
    reveal_strlit("NAN");
    reveal_strlit("NaN");
    assert(crate::number::unsigned_text("-inf"@) =~= "inf"@);
    lemma_marked_text(digits, 'e', exponent);
    lemma_marked_text(digits, 'E', exponent);
}

proof fn lemma_mark_of_joined(digits: Seq<char>, rest: Seq<char>)
    requires
        crate::number::exponent_mark(digits) >= digits.len(),
        rest.len() > 0,
        rest[0] == 'e' || rest[0] == 'E',
    ensures
        crate::number::exponent_mark(digits + rest) == digits.len(),
    decreases digits.len(),
{
    if digits.len() == 0 {
        assert(digits + rest =~= rest);
    } else {
        assert((digits + rest).drop_first() =~= digits.drop_first() + rest);
        lemma_mark_of_joined(digits.drop_first(), rest);
    }
}

proof fn lemma_marked_text(digits: Seq<char>, mark: char, exponent: Seq<char>)
    requires
        crate::decimal::numeral_of(digits) is Some,
        crate::number::exponent_mark(digits) >= digits.len(),
        crate::numeral::signed_numeral(exponent) is Some,
        mark == 'e' || mark == 'E',
    ensures
        crate::number::real_of(digits + seq![mark] + exponent) is Some,
{
    let t = digits + seq![mark] + exponent;
    assert(t =~= digits + (seq![mark] + exponent));
    lemma_mark_of_joined(digits, seq![mark] + exponent);
    assert(t.take(digits.len() as int) =~= digits);
    assert(t.skip(digits.len() as int + 1) =~= exponent);
    // A numeral is no word: it holds a digit, and the words hold none.
    lemma_numeral_holds_a_digit(digits);
    lemma_mark_is_no_word(t, digits.len() as int);
}

/// A text that writes a number in digits is neither `inf` nor `nan`.
proof fn lemma_numeral_holds_a_digit(digits: Seq<char>)
    requires
        crate::decimal::numeral_of(digits) is Some,
    ensures
        digits.len() > 0,
{
}

proof fn lemma_mark_is_no_word(t: Seq<char>, at: int)
    requires
        0 < at < t.len(),
        crate::decimal::numeral_of(t.take(at)) is Some,
    ensures
        !crate::number::names_infinity(t),
        !crate::number::names_no_number(t),
{
    reveal_strlit("inf");
    reveal_strlit("INF");
    reveal_strlit("infinity");
    reveal_strlit("INFINITY");
    reveal_strlit("nan");
    reveal_strlit("NAN");
    let head = t.take(at);
    let body = crate::number::unsigned_text(t);
    let signed = head.len() > 0 && (head[0] == '-' || head[0] == '+');
    // The first character behind the sign of a numeral is a digit or a point.
    if signed {
        assert(head.len() >= 2) by {
            let b = head.skip(1);
            if b.len() == 0 {
                assert(b.take(crate::text::first_index_of(b, '.')) =~= b);
            }
        }
        let b = head.skip(1);
        crate::text::lemma_first_index_of(b, '.');
        assert(body[0] == t[1]);
        assert(t[1] == b[0]);
        if crate::text::first_index_of(b, '.') > 0 {
            assert(b.take(crate::text::first_index_of(b, '.'))[0] == b[0]);
        }
    } else {
        crate::text::lemma_first_index_of(head, '.');
        assert(body =~= t);
        assert(t[0] == head[0]);
        if crate::text::first_index_of(head, '.') > 0 {
            assert(head.take(crate::text::first_index_of(head, '.'))[0] == head[0]);
        }
    }
}

/// A specifier whose conversion character is not known gives no text, whatever the
/// value.
pub proof fn lemma_unknown_conversion(d: crate::directive::Directive, v: FinderType)
    requires
        !crate::directive::is_numeric_conversion(d.conv),
        d.conv != 's' && d.conv != 'c' && d.conv != 'p',
    ensures
        crate::format::formatted(d, v) is None,
{
}

/// A template with a percent sign that belongs to no specifier has no text.
pub proof fn lemma_stray_percent_gives_nothing(
    template: Seq<char>,
    args: Seq<FinderType>,
    kwargs: Seq<(String, FinderType)>,
)
    requires
        crate::format::regex_matches(crate::format::specifier_pattern_text(), template) matches Some(
            spans,
        ) && crate::format::has_stray_percent(template, spans),
    ensures
        crate::format::percent_format(template, args, kwargs) is None,
{
}

/// Every number is written by each of the conversions for real numbers.
pub proof fn lemma_numbers_are_always_formatted(v: FinderType, p: nat, upper: bool)
    requires
        crate::format::value_numeral(v) is Some,
    ensures
        crate::format::float_conversion(v, p, upper) is Some,
        crate::format::scientific_conversion(v, p, upper) is Some,
        crate::format::general_conversion(v, p, upper) is Some,
{
}

/// The specifier `%%` stands for a percent sign and takes no value.
pub proof fn lemma_percent_sign(
    next_arg: nat,
    args: Seq<FinderType>,
    kwargs: Seq<(String, FinderType)>,
)
    ensures
        substitution(seq!['%', '%'], next_arg, args, kwargs) == Some(seq!['%']),
        !crate::format::takes_positional(seq!['%', '%']),
{
}

/// A text in which no conversion specifier is found is formatted to itself.
pub proof fn lemma_text_without_specifiers(
    text: Seq<char>,
    args: Seq<FinderType>,
    kwargs: Seq<(String, FinderType)>,
)
    ensures
        crate::format::format_spans(text, seq![], args, kwargs) == Some(text),
{
    let bytes = vstd::utf8::encode_utf8(text);
    vstd::utf8::encode_utf8_decode_utf8(text);
    assert(bytes.subrange(0, bytes.len() as int) =~= bytes);
}

/// General notation turns to scientific notation exactly where the power of ten of the
/// rounded number is below -4 or not below the precision; the boundaries themselves are
/// -4, which is written in fixed-point notation, and the precision, which is not.
pub proof fn lemma_general_notation_bounds(d: Numeral, p: nat, upper: bool)
    requires
        p >= 1,
    ensures
        general_exponent(d, p) == p ==> general_text(d, p, upper) == short_scientific_text(
            d,
            (p - 1) as nat,
            upper,
        ),
        general_exponent(d, p) == -5 ==> general_text(d, p, upper) == short_scientific_text(
            d,
            (p - 1) as nat,
            upper,
        ),
        general_exponent(d, p) == -4 ==> general_text(d, p, upper) == if has_char(
            fixed_text(d, (p + 3) as nat),
            '.',
        ) {
            trimmed(fixed_text(d, (p + 3) as nat))
        } else {
            fixed_text(d, (p + 3) as nat)
        },
        general_exponent(d, p) == p - 1 ==> general_text(d, p, upper) == if has_char(
            fixed_text(d, 0),
            '.',
        ) {
            trimmed(fixed_text(d, 0))
        } else {
            fixed_text(d, 0)
        },
{
}

/// The exponent part always has its letter, a sign and at least two digits.
pub proof fn lemma_exponent_part_shape(power: int, upper: bool)
    ensures
        exponent_part(power, upper).len() >= 4,
        exponent_part(power, upper)[0] == if upper {
            'E'
        } else {
            'e'
        },
        exponent_part(power, upper)[1] == if power < 0 {
            '-'
        } else {
            '+'
        },
        -10 < power < 10 ==> exponent_part(power, upper).len() == 4 && exponent_part(
            power,
            upper,
        )[2] == '0',
{
    let magnitude = if power < 0 {
        (-power) as nat
    } else {
        power as nat
    };
    lemma_radix_text_len(magnitude);
}

proof fn lemma_radix_text_len(n: nat)
    ensures
        radix_text(n, 10, false).len() >= 1,
        n >= 10 ==> radix_text(n, 10, false).len() >= 2,
        n < 10 ==> radix_text(n, 10, false).len() == 1,
{
    reveal_with_fuel(crate::numeral::radix_digits, 3);
    if n >= 10 {
        assert(n / 10 >= 1);
    }
}

} // verus!
