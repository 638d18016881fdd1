use vstd::prelude::*;

use crate::expr::{Expr, Tree};

verus! {

/// The model of a list of bindings: each extracted expression with the
/// placeholder that now stands in its place.
pub open spec fn bindings_model(s: Seq<(Expr, usize)>) -> Seq<(Tree, nat)> {
    Seq::new(s.len(), |k: int| (s[k].0@, s[k].1 as nat))
}

/// The model of a list of expressions.
pub open spec fn models(s: Seq<Expr>) -> Seq<Tree> {
    Seq::new(s.len(), |k: int| s[k]@)
}

/// Lifting `t` after the bindings `done` were recorded: the tree with every
/// marked sub-expression replaced by a placeholder, and `done` extended by
/// the extracted expressions. Children are visited left to right; a marked
/// expression first has its own marks lifted, then is extracted as a whole
/// under the next placeholder number.
pub open spec fn lift(t: Tree, done: Seq<(Tree, nat)>) -> (Tree, Seq<(Tree, nat)>)
    decreases t,
{
    match t {
        Tree::Node { shape, args } => {
            let (a, d) = lift_args(args, done);
            (Tree::Node { shape, args: a }, d)
        },
        Tree::Mark { inner } => {
            let (i, d) = lift(*inner, done);
            (Tree::Fresh { id: d.len() }, d.push((i, d.len())))
        },
        Tree::Fresh { .. } => (t, done),
        Tree::Bind { value, param, body } => {
            let (v, d1) = lift(*value, done);
            let (b, d2) = lift(*body, d1);
            (Tree::Bind { value: Box::new(v), param, body: Box::new(b) }, d2)
        },
    }
}

/// Lifting a list of sibling expressions, left to right.
pub open spec fn lift_args(args: Seq<Tree>, done: Seq<(Tree, nat)>) -> (
    Seq<Tree>,
    Seq<(Tree, nat)>,
)
    decreases args,
{
    if args.len() == 0 {
        (args, done)
    } else {
        let (front, d1) = lift_args(args.drop_last(), done);
        let (last, d2) = lift(args.last(), d1);
        (front.push(last), d2)
    }
}

/// The traversal that moves marked sub-expressions out of a tree.
pub struct LiftMonadic {
    lifted: Vec<(Expr, usize)>,
}

impl View for LiftMonadic {
    type V = Seq<(Tree, nat)>;

    closed spec fn view(&self) -> Seq<(Tree, nat)> {
        bindings_model(self.lifted@)
    }
}

impl LiftMonadic {
    /// A traversal that has lifted nothing yet.
    pub fn new() -> (r: LiftMonadic)
        ensures
            r@ == Seq::<(Tree, nat)>::empty(),
    {
        let r = LiftMonadic { lifted: Vec::new() };
        assert(r@ =~= Seq::<(Tree, nat)>::empty());
        r
    }

    /// The bindings recorded so far, in the order they were found.
    pub fn into_lifted(self) -> (r: Vec<(Expr, usize)>)
        ensures
            bindings_model(r@) == self@,
    {
        self.lifted
    }

    /// Replaces every marked sub-expression of `*i` by a fresh placeholder
    /// and records what it replaced.
    pub fn visit_expr_mut(&mut self, i: &mut Expr)
        ensures
            (final(i)@, final(self)@) == lift(old(i)@, old(self)@),
    {
        let mut e = Expr::Fresh { id: 0 };
        std::mem::swap(i, &mut e);
        let r = self.lift_expr(e);
        *i = r;
    }

    fn lift_expr(&mut self, e: Expr) -> (r: Expr)
        ensures
            (r@, final(self)@) == lift(e@, old(self)@),
        decreases e,
    {
        let ghost e0 = e;
        match e {
            Expr::Node { shape, args } => {
                let ghost orig = args@;
                let mut rest = args;
                let mut out: Vec<Expr> = Vec::new();
                assert(models(orig).take(0) =~= Seq::<Tree>::empty());
                while rest.len() > 0
                    invariant
                        out@.len() + rest@.len() == orig.len(),
                        rest@ == orig.subrange(out@.len() as int, orig.len() as int),
                        e0 == (Expr::Node { shape, args }),
                        e == e0,
                        orig == args@,
                        (models(out@), self@) == lift_args(
                            models(orig).take(out@.len() as int),
                            old(self)@,
                        ),
                    decreases rest.len(),
                {
                    let ghost k = out@.len() as int;
                    let c = rest.remove(0);
                    assert(c == orig[k]);
                    assert(decreases_to!(e0 => c)) by {
                        assert(decreases_to!(e0 => e0->Node_args));
                        assert(decreases_to!(args => args@));
                        assert(decreases_to!(args@ => args@[k]));
                    }
                    let c2 = self.lift_expr(c);
                    out.push(c2);
                    proof {
                        let pre = models(orig).take(k + 1);
                        assert(pre.drop_last() =~= models(orig).take(k));
                        assert(pre.last() == c@);
                        assert(models(out@) =~= models(out@).drop_last().push(c2@));
                        assert(models(out@).drop_last() =~= models(out@.drop_last()));
                    }
                }
                assert(models(orig).take(orig.len() as int) =~= models(orig));
                assert(models(orig) =~= e0@->Node_args);
                let r = Expr::Node { shape, args: out };
                assert(r@->Node_args =~= models(out@));
                r
            },
            Expr::Mark { inner } => {
                let i = self.lift_expr(*inner);
                let id = self.lifted.len();
                let ghost before = self.lifted@;
                self.lifted.push((i, id));
                assert(self@ =~= bindings_model(before).push((i@, id as nat)));
                Expr::Fresh { id }
            },
            Expr::Fresh { id } => Expr::Fresh { id },
            Expr::Bind { value, param, body } => {
                let v = self.lift_expr(*value);
                let b = self.lift_expr(*body);
                Expr::Bind { value: Box::new(v), param, body: Box::new(b) }
            },
        }
    }
}

} // verus!
