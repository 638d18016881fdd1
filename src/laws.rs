use vstd::prelude::*;

use crate::chain::chain;
use crate::expr::Tree;
use crate::lift::{lift, lift_args};
use crate::transform;

verus! {

/// Whether `t` holds a lift marker anywhere.
pub open spec fn marked(t: Tree) -> bool
    decreases t,
{
    match t {
        Tree::Node { args, .. } => marked_args(args),
        Tree::Mark { .. } => true,
        Tree::Fresh { .. } => false,
        Tree::Bind { value, body, .. } => marked(*value) || marked(*body),
    }
}

pub open spec fn marked_args(args: Seq<Tree>) -> bool
    decreases args,
{
    if args.len() == 0 {
        false
    } else {
        marked_args(args.drop_last()) || marked(args.last())
    }
}

/// Whether `t` is written as source: it holds neither placeholders nor bind
/// calls, only ordinary forms and markers.
pub open spec fn is_source(t: Tree) -> bool
    decreases t,
{
    match t {
        Tree::Node { args, .. } => source_args(args),
        Tree::Mark { inner } => is_source(*inner),
        Tree::Fresh { .. } => false,
        Tree::Bind { .. } => false,
    }
}

pub open spec fn source_args(args: Seq<Tree>) -> bool
    decreases args,
{
    if args.len() == 0 {
        true
    } else {
        source_args(args.drop_last()) && is_source(args.last())
    }
}

/// The bind parameters of `t`, outermost first.
pub open spec fn binders(t: Tree) -> Seq<nat>
    decreases t,
{
    match t {
        Tree::Node { args, .. } => binders_args(args),
        Tree::Mark { inner } => binders(*inner),
        Tree::Fresh { .. } => Seq::empty(),
        Tree::Bind { value, param, body } => seq![param] + binders(*value) + binders(*body),
    }
}

pub open spec fn binders_args(args: Seq<Tree>) -> Seq<nat>
    decreases args,
{
    if args.len() == 0 {
        Seq::empty()
    } else {
        binders_args(args.drop_last()) + binders(args.last())
    }
}

/// Whether every placeholder that `t` refers to is in `bound` or bound by a
/// bind of `t` around the reference, and no bind of `t` rebinds a name that
/// is already in scope.
pub open spec fn scoped(t: Tree, bound: Set<nat>) -> bool
    decreases t,
{
    match t {
        Tree::Node { args, .. } => scoped_args(args, bound),
        Tree::Mark { inner } => scoped(*inner, bound),
        Tree::Fresh { id } => bound.contains(id),
        Tree::Bind { value, param, body } => scoped(*value, bound) && !bound.contains(param)
            && scoped(*body, bound.insert(param)),
    }
}

pub open spec fn scoped_args(args: Seq<Tree>, bound: Set<nat>) -> bool
    decreases args,
{
    if args.len() == 0 {
        true
    } else {
        scoped_args(args.drop_last(), bound) && scoped(args.last(), bound)
    }
}

/// Lifting a tree without markers changes neither the tree nor the bindings.
proof fn lemma_lift_unmarked(t: Tree, done: Seq<(Tree, nat)>)
    requires
        !marked(t),
    ensures
        lift(t, done) == (t, done),
    decreases t,
{
    match t {
        Tree::Node { args, .. } => lemma_lift_args_unmarked(args, done),
        Tree::Bind { value, body, .. } => {
            lemma_lift_unmarked(*value, done);
            lemma_lift_unmarked(*body, done);
        },
        _ => {},
    }
}

proof fn lemma_lift_args_unmarked(args: Seq<Tree>, done: Seq<(Tree, nat)>)
    requires
        !marked_args(args),
    ensures
        lift_args(args, done) == (args, done),
    decreases args,
{
    if args.len() > 0 {
        lemma_lift_args_unmarked(args.drop_last(), done);
        lemma_lift_unmarked(args.last(), done);
        assert(args.drop_last().push(args.last()) =~= args);
    }
}

/// A tree without lift markers is its own rewrite, and nothing is lifted
/// out of it.
pub proof fn law_unmarked_unchanged(t: Tree)
    requires
        !marked(t),
    ensures
        lift(t, Seq::empty()).1 == Seq::<(Tree, nat)>::empty(),
        transform(t) == t,
{
    lemma_lift_unmarked(t, Seq::empty());
}

/// Folding an empty list of bindings introduces no bind call: the chain is
/// the body itself.
pub proof fn law_empty_fold(body: Tree)
    ensures
        chain(body, Seq::empty()) == body,
{
}

/// A single marked argument `f(!x)` becomes `x.and_then(|p0| f(p0))`.
pub proof fn law_single_marker(f: u64, x: Tree)
    requires
        !marked(x),
    ensures
        transform(Tree::Node { shape: f, args: seq![Tree::Mark { inner: Box::new(x) }] }) == (
        Tree::Bind {
            value: Box::new(x),
            param: 0,
            body: Box::new(Tree::Node { shape: f, args: seq![Tree::Fresh { id: 0 }] }),
        }),
{
    let args = seq![Tree::Mark { inner: Box::new(x) }];
    lemma_lift_unmarked(x, Seq::empty());
    assert(args.drop_last() =~= Seq::<Tree>::empty());
    assert(Seq::<Tree>::empty().push(Tree::Fresh { id: 0 }) =~= seq![Tree::Fresh { id: 0 }]);
    let d = seq![(x, 0nat)];
    assert(Seq::<(Tree, nat)>::empty().push((x, 0nat)) =~= d);
    assert(d.drop_first() =~= Seq::<(Tree, nat)>::empty());
    let e = Seq::<(Tree, nat)>::empty();
    assert(lift(args[0], e) == (Tree::Fresh { id: 0 }, d));
    assert(lift_args(args.drop_last(), e) == (Seq::<Tree>::empty(), e));
    assert(lift_args(args, e) == (seq![Tree::Fresh { id: 0 }], d));
    let body = Tree::Node { shape: f, args: seq![Tree::Fresh { id: 0 }] };
    assert(chain(body, d.drop_first()) == body);
}

/// Sibling markers `f(!x, !y)` are bound left to right: `x` outermost.
pub proof fn law_sibling_markers(f: u64, x: Tree, y: Tree)
    requires
        !marked(x),
        !marked(y),
    ensures
        transform(
            Tree::Node {
                shape: f,
                args: seq![Tree::Mark { inner: Box::new(x) }, Tree::Mark { inner: Box::new(y) }],
            },
        ) == (Tree::Bind {
            value: Box::new(x),
            param: 0,
            body: Box::new(
                Tree::Bind {
                    value: Box::new(y),
                    param: 1,
                    body: Box::new(
                        Tree::Node {
                            shape: f,
                            args: seq![Tree::Fresh { id: 0 }, Tree::Fresh { id: 1 }],
                        },
                    ),
                },
            ),
        }),
{
    let mx = Tree::Mark { inner: Box::new(x) };
    let my = Tree::Mark { inner: Box::new(y) };
    let args = seq![mx, my];
    let d1 = seq![(x, 0nat)];
    let d2 = seq![(x, 0nat), (y, 1nat)];
    lemma_lift_unmarked(x, Seq::empty());
    lemma_lift_unmarked(y, d1);
    assert(args.drop_last() =~= seq![mx]);
    assert(seq![mx].drop_last() =~= Seq::<Tree>::empty());
    assert(Seq::<(Tree, nat)>::empty().push((x, 0nat)) =~= d1);
    assert(d1.push((y, 1nat)) =~= d2);
    assert(Seq::<Tree>::empty().push(Tree::Fresh { id: 0 }) =~= seq![Tree::Fresh { id: 0 }]);
    assert(seq![Tree::Fresh { id: 0 }].push(Tree::Fresh { id: 1 }) =~= seq![
        Tree::Fresh { id: 0 },
        Tree::Fresh { id: 1 },
    ]);
    assert(d2.drop_first() =~= seq![(y, 1nat)]);
    assert(seq![(y, 1nat)].drop_first() =~= Seq::<(Tree, nat)>::empty());
    let e = Seq::<(Tree, nat)>::empty();
    let f0 = Tree::Fresh { id: 0 };
    let f1 = Tree::Fresh { id: 1 };
    assert(lift(mx, e) == (f0, d1));
    assert(lift(my, d1) == (f1, d2));
    assert(lift_args(Seq::<Tree>::empty(), e) == (Seq::<Tree>::empty(), e));
    assert(lift_args(seq![mx], e) == (seq![f0], d1));
    assert(lift_args(args, e) == (seq![f0, f1], d2));
    let body = Tree::Node { shape: f, args: seq![f0, f1] };
    assert(chain(body, seq![(y, 1nat)].drop_first()) == body);
    assert(chain(body, d2.drop_first()) == Tree::Bind {
        value: Box::new(y),
        param: 1,
        body: Box::new(body),
    });
}

/// Marks nested in a marked expression are lifted before it:
/// `f(!x, !g(!y, !z))` binds `x`, `y`, `z`, then `g(p1, p2)`, then
/// evaluates `f(p0, p3)`.
pub proof fn law_nested_markers(f: u64, g: u64, x: Tree, y: Tree, z: Tree)
    requires
        !marked(x),
        !marked(y),
        !marked(z),
    ensures
        ({
            let mark = |t: Tree| Tree::Mark { inner: Box::new(t) };
            let inner = Tree::Node { shape: g, args: seq![mark(y), mark(z)] };
            transform(Tree::Node { shape: f, args: seq![mark(x), mark(inner)] })
        }) == (Tree::Bind {
            value: Box::new(x),
            param: 0,
            body: Box::new(
                Tree::Bind {
                    value: Box::new(y),
                    param: 1,
                    body: Box::new(
                        Tree::Bind {
                            value: Box::new(z),
                            param: 2,
                            body: Box::new(
                                Tree::Bind {
                                    value: Box::new(
                                        Tree::Node {
                                            shape: g,
                                            args: seq![Tree::Fresh { id: 1 }, Tree::Fresh { id: 2 }],
                                        },
                                    ),
                                    param: 3,
                                    body: Box::new(
                                        Tree::Node {
                                            shape: f,
                                            args: seq![
                                                Tree::Fresh { id: 0 },
                                                Tree::Fresh { id: 3 },
                                            ],
                                        },
                                    ),
                                },
                            ),
                        },
                    ),
                },
            ),
        }),
{
    let mark = |t: Tree| Tree::Mark { inner: Box::new(t) };
    let inner = Tree::Node { shape: g, args: seq![mark(y), mark(z)] };
    let e = Seq::<(Tree, nat)>::empty();
    let f0 = Tree::Fresh { id: 0 };
    let f1 = Tree::Fresh { id: 1 };
    let f2 = Tree::Fresh { id: 2 };
    let f3 = Tree::Fresh { id: 3 };
    let g2 = Tree::Node { shape: g, args: seq![f1, f2] };
    let d1 = seq![(x, 0nat)];
    let d2 = seq![(x, 0nat), (y, 1nat)];
    let d3 = seq![(x, 0nat), (y, 1nat), (z, 2nat)];
    let d4 = seq![(x, 0nat), (y, 1nat), (z, 2nat), (g2, 3nat)];
    lemma_lift_unmarked(x, e);
    lemma_lift_unmarked(y, d1);
    lemma_lift_unmarked(z, d2);
    assert(e.push((x, 0nat)) =~= d1);
    assert(d1.push((y, 1nat)) =~= d2);
    assert(d2.push((z, 2nat)) =~= d3);
    assert(d3.push((g2, 3nat)) =~= d4);
    assert(lift(mark(x), e) == (f0, d1));
    assert(lift(mark(y), d1) == (f1, d2));
    assert(lift(mark(z), d2) == (f2, d3));
    assert(seq![mark(y), mark(z)].drop_last() =~= seq![mark(y)]);
    assert(seq![mark(y)].drop_last() =~= Seq::<Tree>::empty());
    assert(Seq::<Tree>::empty().push(f1) =~= seq![f1]);
    assert(seq![f1].push(f2) =~= seq![f1, f2]);
    assert(lift_args(Seq::<Tree>::empty(), d1) == (Seq::<Tree>::empty(), d1));
    assert(lift_args(seq![mark(y)], d1) == (seq![f1], d2));
    assert(lift_args(seq![mark(y), mark(z)], d1) == (seq![f1, f2], d3));
    assert(lift(inner, d1) == (g2, d3));
    assert(lift(mark(inner), d1) == (f3, d4));
    let outer = seq![mark(x), mark(inner)];
    assert(outer.drop_last() =~= seq![mark(x)]);
    assert(seq![mark(x)].drop_last() =~= Seq::<Tree>::empty());
    assert(Seq::<Tree>::empty().push(f0) =~= seq![f0]);
    assert(seq![f0].push(f3) =~= seq![f0, f3]);
    assert(lift_args(Seq::<Tree>::empty(), e) == (Seq::<Tree>::empty(), e));
    assert(lift_args(seq![mark(x)], e) == (seq![f0], d1));
    assert(lift_args(outer, e) == (seq![f0, f3], d4));
    let body = Tree::Node { shape: f, args: seq![f0, f3] };
    let b3 = Tree::Bind { value: Box::new(g2), param: 3, body: Box::new(body) };
    let b2 = Tree::Bind { value: Box::new(z), param: 2, body: Box::new(b3) };
    let b1 = Tree::Bind { value: Box::new(y), param: 1, body: Box::new(b2) };
    assert(d4.drop_first() =~= seq![(y, 1nat), (z, 2nat), (g2, 3nat)]);
    assert(d4.drop_first().drop_first() =~= seq![(z, 2nat), (g2, 3nat)]);
    assert(d4.drop_first().drop_first().drop_first() =~= seq![(g2, 3nat)]);
    assert(seq![(g2, 3nat)].drop_first() =~= e);
    assert(chain(body, e) == body);
    assert(chain(body, seq![(g2, 3nat)]) == b3);
    assert(chain(body, seq![(z, 2nat), (g2, 3nat)]) == b2);
    assert(chain(body, seq![(y, 1nat), (z, 2nat), (g2, 3nat)]) == b1);
}

/// Whether `t` is a lifted tree: no markers, no bind calls, and only
/// placeholders numbered below `m`.
pub open spec fn flat_below(t: Tree, m: nat) -> bool
    decreases t,
{
    match t {
        Tree::Node { args, .. } => flat_args_below(args, m),
        Tree::Mark { .. } => false,
        Tree::Fresh { id } => id < m,
        Tree::Bind { .. } => false,
    }
}

pub open spec fn flat_args_below(args: Seq<Tree>, m: nat) -> bool
    decreases args,
{
    if args.len() == 0 {
        true
    } else {
        flat_args_below(args.drop_last(), m) && flat_below(args.last(), m)
    }
}

/// Bindings as the traversal records them: the `k`-th binds placeholder `k`
/// and refers only to placeholders bound before it.
pub open spec fn wf_bindings(d: Seq<(Tree, nat)>) -> bool {
    forall|k: int| 0 <= k < d.len() ==> #[trigger] d[k].1 == k && flat_below(d[k].0, k as nat)
}

/// The placeholders numbered below `m`.
pub open spec fn below(m: nat) -> Set<nat> {
    Set::new(|i: nat| i < m)
}

proof fn lemma_flat_mono(t: Tree, m: nat, n: nat)
    requires
        flat_below(t, m),
        m <= n,
    ensures
        flat_below(t, n),
    decreases t,
{
    if let Tree::Node { args, .. } = t {
        lemma_flat_args_mono(args, m, n);
    }
}

proof fn lemma_flat_args_mono(args: Seq<Tree>, m: nat, n: nat)
    requires
        flat_args_below(args, m),
        m <= n,
    ensures
        flat_args_below(args, n),
    decreases args,
{
    if args.len() > 0 {
        lemma_flat_args_mono(args.drop_last(), m, n);
        lemma_flat_mono(args.last(), m, n);
    }
}

proof fn lemma_lift_flat(t: Tree, d: Seq<(Tree, nat)>)
    requires
        is_source(t),
        wf_bindings(d),
    ensures
        wf_bindings(lift(t, d).1),
        flat_below(lift(t, d).0, lift(t, d).1.len()),
        d.len() <= lift(t, d).1.len(),
    decreases t,
{
    match t {
        Tree::Node { args, .. } => lemma_lift_args_flat(args, d),
        Tree::Mark { inner } => {
            lemma_lift_flat(*inner, d);
            let (i, d1) = lift(*inner, d);
            let d2 = d1.push((i, d1.len()));
            assert forall|k: int| 0 <= k < d2.len() implies #[trigger] d2[k].1 == k && flat_below(
                d2[k].0,
                k as nat,
            ) by {
                if k < d1.len() {
                    assert(d2[k] == d1[k]);
                }
            }
        },
        _ => {},
    }
}

proof fn lemma_lift_args_flat(args: Seq<Tree>, d: Seq<(Tree, nat)>)
    requires
        source_args(args),
        wf_bindings(d),
    ensures
        wf_bindings(lift_args(args, d).1),
        flat_args_below(lift_args(args, d).0, lift_args(args, d).1.len()),
        d.len() <= lift_args(args, d).1.len(),
    decreases args,
{
    if args.len() > 0 {
        lemma_lift_args_flat(args.drop_last(), d);
        let (front, d1) = lift_args(args.drop_last(), d);
        lemma_lift_flat(args.last(), d1);
        let (last, d2) = lift(args.last(), d1);
        lemma_flat_args_mono(front, d1.len(), d2.len());
        assert(front.push(last).drop_last() =~= front);
    }
}

proof fn lemma_flat_scoped(t: Tree, m: nat, bound: Set<nat>)
    requires
        flat_below(t, m),
        forall|i: nat| i < m ==> #[trigger] bound.contains(i),
    ensures
        scoped(t, bound),
        binders(t) == Seq::<nat>::empty(),
    decreases t,
{
    if let Tree::Node { args, .. } = t {
        lemma_flat_args_scoped(args, m, bound);
    }
}

proof fn lemma_flat_args_scoped(args: Seq<Tree>, m: nat, bound: Set<nat>)
    requires
        flat_args_below(args, m),
        forall|i: nat| i < m ==> #[trigger] bound.contains(i),
    ensures
        scoped_args(args, bound),
        binders_args(args) == Seq::<nat>::empty(),
    decreases args,
{
    if args.len() > 0 {
        lemma_flat_args_scoped(args.drop_last(), m, bound);
        lemma_flat_scoped(args.last(), m, bound);
        assert(Seq::<nat>::empty() + Seq::<nat>::empty() =~= Seq::<nat>::empty());
    }
}

proof fn lemma_chain_scoped(body: Tree, d: Seq<(Tree, nat)>, j: nat)
    requires
        wf_bindings(d),
        flat_below(body, d.len()),
        j <= d.len(),
    ensures
        scoped(chain(body, d.subrange(j as int, d.len() as int)), below(j)),
        binders(chain(body, d.subrange(j as int, d.len() as int))) == Seq::new(
            (d.len() - j) as nat,
            |i: int| (j + i) as nat,
        ),
    decreases d.len() - j,
{
    let n = d.len() as int;
    let s = d.subrange(j as int, n);
    if j == d.len() {
        lemma_flat_scoped(body, d.len(), below(j));
        assert(s =~= Seq::<(Tree, nat)>::empty());
        assert(Seq::new(0, |i: int| (j + i) as nat) =~= Seq::<nat>::empty());
    } else {
        lemma_chain_scoped(body, d, j + 1);
        assert(d[j as int].1 == j);
        assert(s[0] == d[j as int]);
        assert(s.drop_first() =~= d.subrange(j + 1 as int, n));
        lemma_flat_scoped(d[j as int].0, j, below(j));
        assert(below(j).insert(j) =~= below(j + 1));
        let rest = Seq::new((d.len() - j - 1) as nat, |i: int| (j + 1 + i) as nat);
        assert(seq![j] + Seq::<nat>::empty() + rest =~= Seq::new(
            (d.len() - j) as nat,
            |i: int| (j + i) as nat,
        ));
    }
}

/// In the rewrite of a source tree every placeholder is referred to only
/// inside the callback of the bind that introduces it, and the binds
/// introduce the placeholders `0, 1, ..., n - 1` once each, outermost
/// first, where `n` is the number of lifted sub-expressions.
pub proof fn law_placeholders_scoped(t: Tree)
    requires
        is_source(t),
    ensures
        scoped(transform(t), Set::empty()),
        binders(transform(t)) == Seq::new(
            lift(t, Seq::empty()).1.len(),
            |i: int| i as nat,
        ),
        binders(transform(t)).no_duplicates(),
{
    let e = Seq::<(Tree, nat)>::empty();
    lemma_lift_flat(t, e);
    let (r, d) = lift(t, e);
    lemma_chain_scoped(r, d, 0);
    assert(d.subrange(0, d.len() as int) =~= d);
    assert(below(0) =~= Set::<nat>::empty());
    assert(Seq::new(d.len(), |i: int| (0 + i) as nat) =~= Seq::new(d.len(), |i: int| i as nat));
}

} // verus!
