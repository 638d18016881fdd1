use bang_notation::{bang, build_chain, Expr, LiftMonadic};

const F: u64 = 10;
const G: u64 = 11;
const NEG: u64 = 12;
const X: u64 = 20;
const Y: u64 = 21;
const Z: u64 = 22;

fn node(shape: u64, args: Vec<Expr>) -> Expr {
    Expr::Node { shape, args }
}

fn leaf(shape: u64) -> Expr {
    node(shape, vec![])
}

fn mark(e: Expr) -> Expr {
    Expr::Mark { inner: Box::new(e) }
}

fn fresh(id: usize) -> Expr {
    Expr::Fresh { id }
}

fn bind(value: Expr, param: usize, body: Expr) -> Expr {
    Expr::Bind { value: Box::new(value), param, body: Box::new(body) }
}

#[test]
fn unmarked_tree_is_unchanged() {
    let e = || node(F, vec![node(NEG, vec![leaf(X)]), node(G, vec![leaf(Y), leaf(Z)])]);
    assert_eq!(bang(e()), e());
}

#[test]
fn leaf_without_marker_is_unchanged() {
    assert_eq!(bang(leaf(X)), leaf(X));
}

#[test]
fn single_marker() {
    let out = bang(node(F, vec![mark(leaf(X))]));
    assert_eq!(out, bind(leaf(X), 0, node(F, vec![fresh(0)])));
}

#[test]
fn marked_root() {
    assert_eq!(bang(mark(leaf(X))), bind(leaf(X), 0, fresh(0)));
}

#[test]
fn sibling_markers_bind_left_to_right() {
    let out = bang(node(F, vec![mark(leaf(X)), mark(leaf(Y))]));
    let expected = bind(leaf(X), 0, bind(leaf(Y), 1, node(F, vec![fresh(0), fresh(1)])));
    assert_eq!(out, expected);
}

#[test]
fn nested_markers_resolve_inside_out() {
    let input = node(F, vec![mark(leaf(X)), mark(node(G, vec![mark(leaf(Y)), mark(leaf(Z))]))]);
    let expected = bind(
        leaf(X),
        0,
        bind(
            leaf(Y),
            1,
            bind(leaf(Z), 2, bind(node(G, vec![fresh(1), fresh(2)]), 3, node(F, vec![fresh(0), fresh(3)]))),
        ),
    );
    assert_eq!(bang(input), expected);
}

#[test]
fn marker_under_other_unary_is_lifted() {
    let out = bang(node(NEG, vec![mark(leaf(X))]));
    assert_eq!(out, bind(leaf(X), 0, node(NEG, vec![fresh(0)])));
}

#[test]
fn doubly_marked_expression() {
    // !!x: the inner marker is lifted first, then the placeholder it left.
    let out = bang(mark(mark(leaf(X))));
    assert_eq!(out, bind(leaf(X), 0, bind(fresh(0), 1, fresh(1))));
}

#[test]
fn placeholders_are_numbered_in_discovery_order() {
    let mut e = node(F, vec![mark(node(G, vec![mark(leaf(X))])), mark(leaf(Y))]);
    let mut collector = LiftMonadic::new();
    collector.visit_expr_mut(&mut e);
    assert_eq!(e, node(F, vec![fresh(1), fresh(2)]));
    let lifted = collector.into_lifted();
    assert_eq!(lifted.len(), 3);
    assert_eq!(lifted[0], (leaf(X), 0));
    assert_eq!(lifted[1], (node(G, vec![fresh(0)]), 1));
    assert_eq!(lifted[2], (leaf(Y), 2));
}

#[test]
fn new_collector_has_lifted_nothing() {
    assert!(LiftMonadic::new().into_lifted().is_empty());
}

#[test]
fn empty_fold_is_identity() {
    assert_eq!(build_chain(leaf(X), Vec::new()), leaf(X));
}

#[test]
fn fold_puts_first_binding_outermost() {
    let out = build_chain(node(F, vec![fresh(0), fresh(1)]), vec![(leaf(X), 0), (leaf(Y), 1)]);
    assert_eq!(out, bind(leaf(X), 0, bind(leaf(Y), 1, node(F, vec![fresh(0), fresh(1)]))));
}

fn count_binders(e: &Expr, seen: &mut Vec<usize>) {
    match e {
        Expr::Node { args, .. } => args.iter().for_each(|a| count_binders(a, seen)),
        Expr::Mark { inner } => count_binders(inner, seen),
        Expr::Fresh { .. } => {}
        Expr::Bind { value, param, body } => {
            seen.push(*param);
            count_binders(value, seen);
            count_binders(body, seen);
        }
    }
}

fn refs_in_scope(e: &Expr, scope: &mut Vec<usize>) -> bool {
    match e {
        Expr::Node { args, .. } => args.iter().all(|a| refs_in_scope(a, scope)),
        Expr::Mark { inner } => refs_in_scope(inner, scope),
        Expr::Fresh { id } => scope.contains(id),
        Expr::Bind { value, param, body } => {
            if !refs_in_scope(value, scope) || scope.contains(param) {
                return false;
            }
            scope.push(*param);
            let ok = refs_in_scope(body, scope);
            scope.pop();
            ok
        }
    }
}

#[test]
fn placeholders_bound_once_and_in_scope() {
    let input = node(
        F,
        vec![mark(node(G, vec![mark(leaf(X)), mark(mark(leaf(Y)))])), leaf(Z), mark(leaf(Z))],
    );
    let out = bang(input);
    let mut seen = Vec::new();
    count_binders(&out, &mut seen);
    assert_eq!(seen, vec![0, 1, 2, 3, 4]);
    assert!(refs_in_scope(&out, &mut Vec::new()));
}
