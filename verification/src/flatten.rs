//! Unpacking: which names an assignment binds, and to which part of the value.

use vstd::prelude::*;
use crate::ast::Expr;
use crate::ast::sequence_elements;

verus! {

/// The left side of an assignment, as far as names are bound by it.
pub enum AssignmentTarget {
    /// A bare name.
    Simple(Seq<char>),
    /// An attribute; the name is its last field.
    Attribute(Seq<char>),
    /// A tuple or list of targets.
    Sequence(Seq<AssignmentTarget>),
    /// A starred element of a sequence. It takes what the others leave and binds no name here.
    Starred,
    /// A subscript, or anything else that is no target to this analysis.
    Unsupported,
}

/// A name with the expression that an assignment gives it.
#[derive(Debug)]
pub struct Binding<'a> {
    pub name: String,
    pub value: &'a Expr,
}

impl<'a> View for Binding<'a> {
    type V = (Seq<char>, Expr);

    open spec fn view(&self) -> (Seq<char>, Expr) {
        (self.name@, *self.value)
    }
}

/// The target that an expression on the left of `=` is.
pub open spec fn target_of(e: Expr) -> AssignmentTarget
    decreases e, 0nat,
{
    match e {
        Expr::Name(n) => AssignmentTarget::Simple(n@),
        Expr::Attribute { value, attr } => AssignmentTarget::Attribute(attr@),
        Expr::List(es) => AssignmentTarget::Sequence(targets_of(es@, 0)),
        Expr::Tuple(es) => AssignmentTarget::Sequence(targets_of(es@, 0)),
        Expr::Starred(_) => AssignmentTarget::Starred,
        _ => AssignmentTarget::Unsupported,
    }
}

/// The targets that the expressions from index `i` on are.
pub open spec fn targets_of(es: Seq<Expr>, i: int) -> Seq<AssignmentTarget>
    decreases es, es.len() - i,
{
    if 0 <= i < es.len() {
        seq![target_of(es[i])] + targets_of(es, i + 1)
    } else {
        seq![]
    }
}

/// There is one target for each expression, in the same order.
pub proof fn lemma_targets_of(es: Seq<Expr>, i: int)
    requires
        0 <= i <= es.len(),
    ensures
        targets_of(es, i).len() == es.len() - i,
        forall|k: int| 0 <= k < es.len() - i ==> targets_of(es, i)[k] == target_of(es[i + k]),
    decreases es.len() - i,
{
    if i < es.len() {
        lemma_targets_of(es, i + 1);
    }
}

/// How many of the targets are starred.
pub open spec fn star_count(ts: Seq<AssignmentTarget>) -> nat
    decreases ts.len(),
{
    if ts.len() == 0 {
        0
    } else {
        star_count(ts.drop_last()) + if ts.last() is Starred {
            1nat
        } else {
            0nat
        }
    }
}

/// The index of the first starred target, or the number of targets if none is starred.
pub open spec fn first_star(ts: Seq<AssignmentTarget>) -> int
    decreases ts.len(),
{
    if ts.len() == 0 {
        0
    } else if ts[0] is Starred {
        0
    } else {
        1 + first_star(ts.drop_first())
    }
}

/// Whether `n` values can be unpacked into the targets: as many values as targets, or,
/// with one starred target, at least as many as the other targets.
pub open spec fn arity_fits(ts: Seq<AssignmentTarget>, n: int) -> bool {
    if star_count(ts) == 0 {
        n == ts.len()
    } else {
        star_count(ts) == 1 && n >= ts.len() - 1
    }
}

/// The index of the value that target `i` of `ts` takes out of `n` values: counted from
/// the left before the star, from the right after it.
pub open spec fn value_position(ts: Seq<AssignmentTarget>, n: int, i: int) -> int {
    if i < first_star(ts) {
        i
    } else {
        n - (ts.len() - i)
    }
}

/// The names that assigning `v` to `t` binds, each with its value, from left to right.
/// A sequence of targets takes the elements of a list or tuple display of fitting
/// length; any other pairing binds nothing.
pub open spec fn flatten(t: AssignmentTarget, v: Expr) -> Seq<(Seq<char>, Expr)>
    decreases t, 0nat,
{
    match t {
        AssignmentTarget::Simple(n) => seq![(n, v)],
        AssignmentTarget::Attribute(n) => seq![(n, v)],
        AssignmentTarget::Sequence(ts) => match sequence_elements(v) {
            Some(vs) => if arity_fits(ts, vs.len() as int) {
                flatten_from(ts, vs, 0)
            } else {
                seq![]
            },
            None => seq![],
        },
        AssignmentTarget::Starred => seq![],
        AssignmentTarget::Unsupported => seq![],
    }
}

/// What the targets from index `i` on bind, where they take their values out of `vs`.
pub open spec fn flatten_from(ts: Seq<AssignmentTarget>, vs: Seq<Expr>, i: int) -> Seq<
    (Seq<char>, Expr),
>
    decreases ts, ts.len() - i,
{
    if 0 <= i < ts.len() {
        let here = if ts[i] is Starred {
            seq![]
        } else {
            flatten(ts[i], vs[value_position(ts, vs.len() as int, i)])
        };
        here + flatten_from(ts, vs, i + 1)
    } else {
        seq![]
    }
}

/// The names and values of a list of bindings.
pub open spec fn binding_views(bs: Seq<Binding>) -> Seq<(Seq<char>, Expr)> {
    bs.map_values(|b: Binding| b@)
}

proof fn lemma_star_count_bounds(ts: Seq<AssignmentTarget>, k: int)
    requires
        0 <= k <= ts.len(),
    ensures
        star_count(ts.take(k)) <= star_count(ts),
        first_star(ts) >= k <==> star_count(ts.take(k)) == 0,
        0 <= first_star(ts) <= ts.len(),
    decreases ts.len() - k,
{
    lemma_first_star(ts);
    if k == ts.len() {
        assert(ts.take(k) =~= ts);
        lemma_no_star_before(ts, k);
    } else {
        lemma_star_count_bounds(ts, k + 1);
        assert(ts.take(k + 1).drop_last() =~= ts.take(k));
        lemma_no_star_before(ts, k);
    }
}

proof fn lemma_first_star(ts: Seq<AssignmentTarget>)
    ensures
        0 <= first_star(ts) <= ts.len(),
        forall|j: int| 0 <= j < first_star(ts) ==> !(ts[j] is Starred),
        first_star(ts) < ts.len() ==> ts[first_star(ts)] is Starred,
    decreases ts.len(),
{
    if ts.len() == 0 {
    } else if ts[0] is Starred {
    } else {
        let rest = ts.drop_first();
        lemma_first_star(rest);
        assert forall|j: int| 0 <= j < first_star(ts) implies !(ts[j] is Starred) by {
            if j > 0 {
                assert(ts[j] == rest[j - 1]);
            }
        }
    }
}

proof fn lemma_no_star_before(ts: Seq<AssignmentTarget>, k: int)
    requires
        0 <= k <= ts.len(),
    ensures
        star_count(ts.take(k)) == 0 <==> (forall|j: int| 0 <= j < k ==> !(ts[j] is Starred)),
        first_star(ts) >= k <==> star_count(ts.take(k)) == 0,
    decreases k,
{
    lemma_first_star(ts);
    if k > 0 {
        lemma_no_star_before(ts, k - 1);
        assert(ts.take(k).drop_last() =~= ts.take(k - 1));
        assert(ts.take(k).last() == ts[k - 1]);
        if star_count(ts.take(k)) == 0 {
            assert forall|j: int| 0 <= j < k implies !(ts[j] is Starred) by {
                if j < k - 1 {
                }
            }
        }
    }
}

proof fn lemma_star_counted(ts: Seq<AssignmentTarget>, a: int)
    requires
        0 <= a < ts.len(),
        ts[a] is Starred,
    ensures
        star_count(ts) >= 1,
    decreases ts.len(),
{
    if a < ts.len() - 1 {
        lemma_star_counted(ts.drop_last(), a);
    }
}

proof fn lemma_two_stars_counted(ts: Seq<AssignmentTarget>, a: int, b: int)
    requires
        0 <= a < b < ts.len(),
        ts[a] is Starred,
        ts[b] is Starred,
    ensures
        star_count(ts) >= 2,
    decreases ts.len(),
{
    if b < ts.len() - 1 {
        lemma_two_stars_counted(ts.drop_last(), a, b);
    } else {
        lemma_star_counted(ts.drop_last(), a);
    }
}

fn is_starred(e: &Expr) -> (b: bool)
    ensures
        b == (target_of(*e) is Starred),
{
    match e {
        Expr::Starred(_) => true,
        _ => false,
    }
}

/// Pairs the names that `target` binds with the parts of `value` that they take, and
/// appends the pairs to `out` from left to right.
pub fn flatten_target<'a>(target: &Expr, value: &'a Expr, out: &mut Vec<Binding<'a>>)
    ensures
        binding_views(final(out)@) == binding_views(old(out)@) + flatten(
            target_of(*target),
            *value,
        ),
    decreases target,
{
    let ghost before = binding_views(out@);
    match target {
        Expr::Name(n) => {
            out.push(Binding { name: n.clone(), value });
            assert(binding_views(out@) =~= before + seq![(n@, *value)]);
        },
        Expr::Attribute { value: _, attr } => {
            out.push(Binding { name: attr.clone(), value });
            assert(binding_views(out@) =~= before + seq![(attr@, *value)]);
        },
        Expr::List(es) => {
            flatten_sequence(target, es, value, out);
        },
        Expr::Tuple(es) => {
            flatten_sequence(target, es, value, out);
        },
        _ => {
            assert(binding_views(out@) =~= before + Seq::<(Seq<char>, Expr)>::empty());
        },
    }
}

fn flatten_sequence<'a>(
    target: &Expr,
    es: &Vec<Expr>,
    value: &'a Expr,
    out: &mut Vec<Binding<'a>>,
)
    requires
        sequence_elements(*target) == Some(es@),
    ensures
        binding_views(final(out)@) == binding_views(old(out)@) + flatten(
            target_of(*target),
            *value,
        ),
    decreases target, 0nat,
{
    let ghost before = binding_views(out@);
    let ghost ts = targets_of(es@, 0);
    proof {
        lemma_targets_of(es@, 0);
        assert(target_of(*target) == AssignmentTarget::Sequence(ts));
        assert(before + Seq::<(Seq<char>, Expr)>::empty() =~= before);
    }
    let vs: &'a Vec<Expr> = match value {
        Expr::List(vs) => vs,
        Expr::Tuple(vs) => vs,
        _ => {
            return ;
        },
    };
    let mut stars: usize = 0;
    let mut star_at: usize = es.len();
    let mut k: usize = 0;
    while k < es.len()
        invariant
            k <= es.len(),
            ts.len() == es.len(),
            forall|j: int| 0 <= j < es.len() ==> ts[j] == target_of(es@[j]),
            stars == star_count(ts.take(k as int)),
            stars <= k,
            stars == 0 ==> star_at == es.len(),
            stars > 0 ==> star_at == first_star(ts),
        decreases es.len() - k,
    {
        proof {
            assert(ts.take(k + 1).drop_last() =~= ts.take(k as int));
            lemma_star_count_bounds(ts, k as int);
            lemma_star_count_bounds(ts, k + 1);
            lemma_first_star(ts);
        }
        if is_starred(&es[k]) {
            if stars == 0 {
                star_at = k;
            }
            stars += 1;
        }
        k += 1;
    }
    proof {
        assert(ts.take(k as int) =~= ts);
        lemma_star_count_bounds(ts, ts.len() as int);
    }
    if stars == 0 {
        if vs.len() != es.len() {
            return ;
        }
    } else {
        if stars != 1 || vs.len() < es.len() - 1 {
            return ;
        }
    }
    let mut i: usize = 0;
    while i < es.len()
        invariant
            i <= es.len(),
            ts.len() == es.len(),
            forall|j: int| 0 <= j < es.len() ==> ts[j] == target_of(es@[j]),
            sequence_elements(*target) == Some(es@),
            arity_fits(ts, vs.len() as int),
            stars == star_count(ts),
            stars == 0 ==> star_at == es.len(),
            stars > 0 ==> star_at == first_star(ts),
            0 <= first_star(ts) <= ts.len(),
            stars > 0 ==> first_star(ts) < ts.len(),
            before + flatten_from(ts, vs@, 0) == binding_views(out@) + flatten_from(
                ts,
                vs@,
                i as int,
            ),
        decreases es.len() - i,
    {
        let ghost so_far = binding_views(out@);
        if i == star_at && stars > 0 {
            proof {
                lemma_first_star(ts);
                assert(so_far + flatten_from(ts, vs@, i as int) =~= so_far + flatten_from(
                    ts,
                    vs@,
                    i + 1,
                ));
            }
        } else {
            let at: usize = if i < star_at {
                i
            } else {
                vs.len() - (es.len() - i)
            };
            proof {
                lemma_first_star(ts);
                assert(at == value_position(ts, vs.len() as int, i as int));
                if ts[i as int] is Starred {
                    lemma_star_counted(ts, i as int);
                    if i < first_star(ts) {
                    } else {
                        lemma_two_stars_counted(ts, first_star(ts), i as int);
                    }
                }
            }
            flatten_target(&es[i], &vs[at], out);
            proof {
                assert(so_far + flatten_from(ts, vs@, i as int) =~= binding_views(out@)
                    + flatten_from(ts, vs@, i + 1));
            }
        }
        i += 1;
    }
    proof {
        assert(binding_views(out@) + flatten_from(ts, vs@, es.len() as int) =~= binding_views(
            out@,
        ));
    }
}

} // verus!
