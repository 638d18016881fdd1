use vstd::prelude::*;

use crate::expr::{Expr, Tree};
use crate::lift::bindings_model;

verus! {

/// The bind chain around `body`: the first binding is the outermost bind,
/// and each placeholder is the parameter of the callback that holds the
/// later bindings and `body`.
pub open spec fn chain(body: Tree, bindings: Seq<(Tree, nat)>) -> Tree
    decreases bindings.len(),
{
    if bindings.len() == 0 {
        body
    } else {
        Tree::Bind {
            value: Box::new(bindings[0].0),
            param: bindings[0].1,
            body: Box::new(chain(body, bindings.drop_first())),
        }
    }
}

/// Folds `lifted` from the last binding to the first around `ast`, so that
/// the first binding ends up outermost.
pub fn build_chain(ast: Expr, lifted: Vec<(Expr, usize)>) -> (r: Expr)
    ensures
        r@ == chain(ast@, bindings_model(lifted@)),
{
    let ghost orig = bindings_model(lifted@);
    let ghost n = lifted@.len() as int;
    let mut acc = ast;
    let mut rest = lifted;
    assert(orig.subrange(n, n) =~= Seq::<(Tree, nat)>::empty());
    while rest.len() > 0
        invariant
            rest@.len() <= n,
            bindings_model(rest@) =~= orig.take(rest@.len() as int),
            orig.len() == n,
            acc@ == chain(ast@, orig.subrange(rest@.len() as int, n)),
        decreases rest.len(),
    {
        let ghost j = rest@.len() as int;
        let ghost before = rest@;
        match rest.pop() {
            Some((value, param)) => {
                proof {
                    assert(before[j - 1] == (value, param));
                    assert(bindings_model(before)[j - 1] == orig.take(j)[j - 1]);
                    assert(orig[j - 1] == (value@, param as nat));
                    assert(orig.subrange(j - 1, n).drop_first() =~= orig.subrange(j, n));
                    assert(bindings_model(rest@) =~= orig.take(j - 1));
                }
                acc = Expr::Bind { value: Box::new(value), param, body: Box::new(acc) };
            },
            None => {},
        }
    }
    assert(orig.subrange(0, n) =~= orig);
    acc
}

} // verus!
