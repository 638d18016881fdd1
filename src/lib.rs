//! Bang notation: rewrites an expression in which sub-expressions are
//! marked for lifting into a chain of monadic binds.
use vstd::prelude::*;

pub mod chain;
pub mod expr;
pub mod laws;
pub mod lift;

pub use crate::chain::{build_chain, chain};
pub use crate::expr::{Expr, Tree};
pub use crate::lift::{bindings_model, lift, lift_args, LiftMonadic};

verus! {

/// The whole rewrite: lift the marked sub-expressions out of `t`, numbering
/// the placeholders from zero, then wrap the result in their bind chain.
pub open spec fn transform(t: Tree) -> Tree {
    let (body, bindings) = lift(t, Seq::empty());
    chain(body, bindings)
}

/// Applies bang notation to `ast`: each sub-expression marked with `!` is
/// lifted to the top, left to right and inside out, bound with a bind call,
/// and the placeholder of the bind stands where the sub-expression was.
pub fn bang(ast: Expr) -> (r: Expr)
    ensures
        r@ == transform(ast@),
{
    let mut ast = ast;
    let mut collector = LiftMonadic::new();
    collector.visit_expr_mut(&mut ast);
    build_chain(ast, collector.into_lifted())
}

} // verus!
