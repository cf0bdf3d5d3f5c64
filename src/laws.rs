//! Properties that relate several operations of the language.
use crate::ast::{bin, BinaryOperator, Expr, UnaryOperator};
use crate::exec::{eval, reads, Outcome, MAX_BINDING_DEPTH};
use vstd::prelude::*;

verus! {

/// Late binding: once `v = e` has evaluated without failing, `v` stands for
/// the unevaluated `e`, and evaluating `v` evaluates `e` under the bindings of
/// that moment, so a later reassignment of a variable `e` reads changes what
/// `v` evaluates to.
pub proof fn lemma_late_binding(ctx: Map<u32, Expr>, v: char, e: Expr, depth: nat)
    requires
        depth > 0,
        eval(ctx, Expr::Assignment(v, Box::new(e)), Seq::empty(), depth) matches Some((_, o)) && !(o is Failed),
    ensures
        ({
            let c = eval(ctx, Expr::Assignment(v, Box::new(e)), Seq::empty(), depth)->Some_0.0;
            &&& c.contains_key(v as u32)
            &&& c[v as u32] == e
            &&& eval(c, Expr::Variable(v), Seq::empty(), depth) == eval(c, e, seq![v as u32], (depth - 1) as nat)
        }),
{
    let c = eval(ctx, Expr::Assignment(v, Box::new(e)), Seq::empty(), depth)->Some_0.0;
    assert(!Seq::<u32>::empty().contains(v as u32));
    assert(Seq::<u32>::empty().push(v as u32) =~= seq![v as u32]);
}

/// The tree of `3*x + 5`.
pub open spec fn three_x_plus_five() -> Expr {
    bin(BinaryOperator::Add, bin(BinaryOperator::Multiply, Expr::Integer(3), Expr::Variable('x')), Expr::Integer(5))
}

/// The tree of `cos(y)`.
pub open spec fn cos_of_y() -> Expr {
    Expr::UnaryOp { op: UnaryOperator::Cos, node: Box::new(Expr::Variable('y')) }
}

/// A literal: an integer, a real or a boolean.
pub open spec fn is_literal(e: Expr) -> bool {
    e is Integer || e is Real || e is Bool
}

/// With `y` bound to `3*x + 5` and `x` to any literal, `cos(y)` depends on
/// `x`, and not on an unbound `f`.
pub proof fn lemma_dependency_through_binding(ctx: Map<u32, Expr>, value: Expr)
    requires
        ctx.contains_key('y' as u32),
        ctx['y' as u32] == three_x_plus_five(),
        ctx.contains_key('x' as u32),
        ctx['x' as u32] == value,
        is_literal(value),
        !ctx.contains_key('f' as u32),
    ensures
        reads(ctx, cos_of_y(), 'x', Seq::empty(), MAX_BINDING_DEPTH as nat),
        !reads(ctx, cos_of_y(), 'f', Seq::empty(), MAX_BINDING_DEPTH as nat),
{
    let d = MAX_BINDING_DEPTH as nat;
    let after_y = Seq::<u32>::empty().push('y' as u32);
    assert(!Seq::<u32>::empty().contains('y' as u32));
    assert(reads(ctx, Expr::Variable('x'), 'x', after_y, (d - 1) as nat));
    let times = bin(BinaryOperator::Multiply, Expr::Integer(3), Expr::Variable('x'));
    assert(reads(ctx, times, 'x', after_y, (d - 1) as nat));
    assert(reads(ctx, three_x_plus_five(), 'x', after_y, (d - 1) as nat));
    assert(reads(ctx, Expr::Variable('y'), 'x', Seq::empty(), d));
    let after_y_x = after_y.push('x' as u32);
    assert(!after_y.contains('x' as u32)) by {
        assert(after_y[0] == 'y' as u32);
    }
    assert(!reads(ctx, value, 'f', after_y_x, (d - 2) as nat));
    assert(!reads(ctx, Expr::Variable('x'), 'f', after_y, (d - 1) as nat));
    assert(!reads(ctx, Expr::Integer(3), 'f', after_y, (d - 1) as nat));
    assert(!reads(ctx, Expr::Integer(5), 'f', after_y, (d - 1) as nat));
    assert(!reads(ctx, times, 'f', after_y, (d - 1) as nat));
    assert(!reads(ctx, three_x_plus_five(), 'f', after_y, (d - 1) as nat));
    assert(!reads(ctx, Expr::Variable('y'), 'f', Seq::empty(), d));
}

} // verus!
