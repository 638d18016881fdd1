use vstd::prelude::*;

verus! {

/// An expression tree. Only the lift marker, the placeholders and the bind
/// chain are interpreted; every other form is a `Node` whose `shape` is an
/// opaque label chosen by whoever built the tree and whose `args` are its
/// sub-expressions in evaluation order.
#[derive(Debug, PartialEq, Eq)]
pub enum Expr {
    /// Any other form, with its sub-expressions.
    Node { shape: u64, args: Vec<Expr> },
    /// `!inner`: extract `inner` and bind its value.
    Mark { inner: Box<Expr> },
    /// A reference to the placeholder numbered `id`.
    Fresh { id: usize },
    /// `(value).and_then(|param| body)`.
    Bind { value: Box<Expr>, param: usize, body: Box<Expr> },
}

/// The mathematical model of an [`Expr`].
pub enum Tree {
    Node { shape: u64, args: Seq<Tree> },
    Mark { inner: Box<Tree> },
    Fresh { id: nat },
    Bind { value: Box<Tree>, param: nat, body: Box<Tree> },
}

impl Expr {
    /// The tree this expression stands for, its children modelled in order.
    pub open spec fn model(self) -> Tree
        decreases self,
    {
        match self {
            Expr::Node { shape, args } => Tree::Node {
                shape,
                args: Seq::new(
                    args@.len(),
                    |k: int|
                        if 0 <= k < args@.len() {
                            args@[k].model()
                        } else {
                            Tree::Fresh { id: 0 }
                        },
                ),
            },
            Expr::Mark { inner } => Tree::Mark { inner: Box::new((*inner).model()) },
            Expr::Fresh { id } => Tree::Fresh { id: id as nat },
            Expr::Bind { value, param, body } => Tree::Bind {
                value: Box::new((*value).model()),
                param: param as nat,
                body: Box::new((*body).model()),
            },
        }
    }
}

impl View for Expr {
    type V = Tree;

    open spec fn view(&self) -> Tree {
        self.model()
    }
}

} // verus!
