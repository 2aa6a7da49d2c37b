use tensor_graph::{
    Callsite, ConstantBinding, Context, Dimension, FoldError, Node, NodeIdentifier, Operation,
    OperationDiscriminants, ParameterBinding,
};

fn plain(operation: Operation) -> Node {
    Node {
        callsite: Callsite { file: String::from("net.rs"), line: 12, column: 5 },
        dimension: Dimension { sizes: vec![3] },
        operation,
    }
}

fn floats(values: &[f32]) -> Operation {
    Operation::Constant(ConstantBinding {
        value: Some(values.iter().map(|v| v.to_bits()).collect()),
    })
}

fn malformed() -> Operation {
    Operation::Constant(ConstantBinding { value: None })
}

fn named(name: &str) -> Operation {
    Operation::Parameter(ParameterBinding { name: String::from(name) })
}

fn put(ctx: &mut Context, operation: Operation) -> NodeIdentifier {
    ctx.insert(plain(operation)).unwrap()
}

fn op(ctx: &Context, id: NodeIdentifier) -> Operation {
    ctx.get(id).unwrap().operation.clone()
}

fn ordered(mut ids: Vec<NodeIdentifier>) -> Vec<NodeIdentifier> {
    ids.sort_by_key(|id| id.raw);
    ids
}

fn snapshot(ctx: &Context, ids: &[NodeIdentifier]) -> Vec<(Node, Vec<NodeIdentifier>)> {
    ids.iter().map(|id| (ctx.get(*id).unwrap().clone(), ordered(ctx.collect_deps(*id)))).collect()
}

#[test]
fn add_of_zero_on_the_left_folds_to_the_right_operand() {
    let mut ctx = Context::new();
    let zero = put(&mut ctx, floats(&[0.0, 0.0, 0.0]));
    let p = put(&mut ctx, named("p"));
    let add = put(&mut ctx, Operation::Add(zero, p));
    let neg = put(&mut ctx, Operation::Neg(add));
    let twice = put(&mut ctx, Operation::Mul(add, add));
    assert_eq!(ctx.fold_consts(add, 10), Ok(true));
    assert_eq!(op(&ctx, neg), Operation::Neg(p));
    assert_eq!(op(&ctx, twice), Operation::Mul(p, p));
    assert_eq!(ctx.collect_deps(add), vec![]);
    assert_eq!(ordered(ctx.collect_deps(p)), ordered(vec![add, neg, twice]));
    assert_eq!(op(&ctx, add), Operation::Add(zero, p));
    assert!(ctx.contains(add));
}

#[test]
fn add_of_zero_on_the_right_folds_to_the_left_operand() {
    let mut ctx = Context::new();
    let p = put(&mut ctx, named("p"));
    let zero = put(&mut ctx, floats(&[0.0]));
    let add = put(&mut ctx, Operation::Add(p, zero));
    let user = put(&mut ctx, Operation::StopGradient(add));
    assert_eq!(ctx.fold_consts(add, 10), Ok(true));
    assert_eq!(op(&ctx, user), Operation::StopGradient(p));
}

#[test]
fn sub_with_zero_operand_folds_like_add() {
    let mut ctx = Context::new();
    let zero = put(&mut ctx, floats(&[0.0]));
    let p = put(&mut ctx, named("p"));
    let left = put(&mut ctx, Operation::Sub(zero, p));
    let right = put(&mut ctx, Operation::Sub(p, zero));
    let user_left = put(&mut ctx, Operation::Neg(left));
    let user_right = put(&mut ctx, Operation::Neg(right));
    assert_eq!(ctx.fold_consts(left, 10), Ok(true));
    assert_eq!(ctx.fold_consts(right, 10), Ok(true));
    assert_eq!(op(&ctx, user_left), Operation::Neg(p));
    assert_eq!(op(&ctx, user_right), Operation::Neg(p));
}

#[test]
fn add_of_two_zeros_folds_to_the_second() {
    let mut ctx = Context::new();
    let first = put(&mut ctx, floats(&[0.0]));
    let second = put(&mut ctx, floats(&[0.0]));
    let add = put(&mut ctx, Operation::Add(first, second));
    let user = put(&mut ctx, Operation::Neg(add));
    assert_eq!(ctx.fold_consts(add, 10), Ok(true));
    assert_eq!(op(&ctx, user), Operation::Neg(second));
}

#[test]
fn mul_by_zero_folds_to_the_zero_operand_itself() {
    let mut ctx = Context::new();
    let zero = put(&mut ctx, floats(&[0.0, 0.0]));
    let p = put(&mut ctx, named("p"));
    let mul = put(&mut ctx, Operation::Mul(zero, p));
    let user = put(&mut ctx, Operation::Neg(mul));
    let nodes_before = ctx.len();
    assert_eq!(ctx.fold_consts(mul, 10), Ok(true));
    assert_eq!(op(&ctx, user), Operation::Neg(zero));
    assert_eq!(ctx.len(), nodes_before);
    assert_eq!(ordered(ctx.collect_deps(zero)), ordered(vec![mul, user]));
}

#[test]
fn mul_by_zero_on_the_right_folds_to_that_zero() {
    let mut ctx = Context::new();
    let p = put(&mut ctx, named("p"));
    let zero = put(&mut ctx, floats(&[0.0]));
    let mul = put(&mut ctx, Operation::Mul(p, zero));
    let user = put(&mut ctx, Operation::Neg(mul));
    assert_eq!(ctx.fold_consts(mul, 10), Ok(true));
    assert_eq!(op(&ctx, user), Operation::Neg(zero));
}

#[test]
fn mul_by_one_folds_to_the_other_operand() {
    let mut ctx = Context::new();
    let one = put(&mut ctx, floats(&[1.0, 1.0, 1.0]));
    let p = put(&mut ctx, named("p"));
    let left = put(&mut ctx, Operation::Mul(one, p));
    let right = put(&mut ctx, Operation::Mul(p, one));
    let user_left = put(&mut ctx, Operation::Neg(left));
    let user_right = put(&mut ctx, Operation::Neg(right));
    assert_eq!(ctx.fold_consts(left, 10), Ok(true));
    assert_eq!(ctx.fold_consts(right, 10), Ok(true));
    assert_eq!(op(&ctx, user_left), Operation::Neg(p));
    assert_eq!(op(&ctx, user_right), Operation::Neg(p));
}

#[test]
fn mul_by_almost_one_is_not_folded() {
    let mut ctx = Context::new();
    let almost = put(&mut ctx, floats(&[0.999999]));
    let mixed = put(&mut ctx, floats(&[1.0, 1.0, 0.999999]));
    let above = put(&mut ctx, floats(&[1.0000001]));
    let p = put(&mut ctx, named("p"));
    let a = put(&mut ctx, Operation::Mul(almost, p));
    let b = put(&mut ctx, Operation::Mul(mixed, p));
    let c = put(&mut ctx, Operation::Mul(p, above));
    let users =
        [put(&mut ctx, Operation::Neg(a)), put(&mut ctx, Operation::Neg(b)), put(&mut ctx, Operation::Neg(c))];
    assert_eq!(ctx.fold_consts(a, 10), Ok(false));
    assert_eq!(ctx.fold_consts(b, 10), Ok(false));
    assert_eq!(ctx.fold_consts(c, 10), Ok(false));
    assert_eq!(op(&ctx, users[0]), Operation::Neg(a));
    assert_eq!(op(&ctx, users[1]), Operation::Neg(b));
    assert_eq!(op(&ctx, users[2]), Operation::Neg(c));
}

#[test]
fn add_of_almost_zero_is_not_folded() {
    let mut ctx = Context::new();
    let tiny = put(&mut ctx, floats(&[0.0, f32::MIN_POSITIVE]));
    let p = put(&mut ctx, named("p"));
    let add = put(&mut ctx, Operation::Add(tiny, p));
    let user = put(&mut ctx, Operation::Neg(add));
    assert_eq!(ctx.fold_consts(add, 10), Ok(false));
    assert_eq!(op(&ctx, user), Operation::Neg(add));
}

#[test]
fn negative_zero_compares_equal_to_zero() {
    let mut ctx = Context::new();
    let zero = put(&mut ctx, floats(&[-0.0, 0.0]));
    let p = put(&mut ctx, named("p"));
    let add = put(&mut ctx, Operation::Add(zero, p));
    let user = put(&mut ctx, Operation::Neg(add));
    assert_eq!(ctx.get(zero).unwrap().is_zero(), Ok(true));
    assert_eq!(ctx.fold_consts(add, 10), Ok(true));
    assert_eq!(op(&ctx, user), Operation::Neg(p));
}

#[test]
fn not_a_number_is_neither_zero_nor_one() {
    let mut ctx = Context::new();
    let nan = put(&mut ctx, floats(&[f32::NAN]));
    let p = put(&mut ctx, named("p"));
    let mul = put(&mut ctx, Operation::Mul(nan, p));
    let add = put(&mut ctx, Operation::Add(p, nan));
    assert_eq!(ctx.get(nan).unwrap().is_zero(), Ok(false));
    assert_eq!(ctx.get(nan).unwrap().is_one(), Ok(false));
    assert_eq!(ctx.fold_consts(mul, 10), Ok(false));
    assert_eq!(ctx.fold_consts(add, 10), Ok(false));
}

#[test]
fn constant_tests_on_payloads() {
    let zero = ConstantBinding { value: Some(vec![0.0f32.to_bits(), (-0.0f32).to_bits()]) };
    let one = ConstantBinding { value: Some(vec![1.0f32.to_bits()]) };
    let mixed = ConstantBinding { value: Some(vec![0.0f32.to_bits(), 1.0f32.to_bits()]) };
    let empty = ConstantBinding { value: Some(vec![]) };
    let broken = ConstantBinding { value: None };
    assert_eq!(zero.is_zero(), Some(true));
    assert_eq!(zero.is_one(), Some(false));
    assert_eq!(one.is_zero(), Some(false));
    assert_eq!(one.is_one(), Some(true));
    assert_eq!(mixed.is_zero(), Some(false));
    assert_eq!(mixed.is_one(), Some(false));
    assert_eq!(empty.is_zero(), Some(true));
    assert_eq!(empty.is_one(), Some(true));
    assert_eq!(broken.is_zero(), None);
    assert_eq!(broken.is_one(), None);
    assert_eq!(1.0f32.to_bits(), 0x3f80_0000);
    assert_eq!((-0.0f32).to_bits(), 0x8000_0000);
}

#[test]
fn node_tests_on_kinds() {
    let p = plain(named("p"));
    let k = plain(floats(&[1.0]));
    let bad = plain(malformed());
    assert_eq!(p.is_const(), None);
    assert_eq!(p.is_zero(), Ok(false));
    assert_eq!(p.is_one(), Ok(false));
    assert_eq!(k.is_const(), Some(&ConstantBinding { value: Some(vec![0x3f80_0000]) }));
    assert_eq!(k.is_one(), Ok(true));
    assert_eq!(bad.is_zero(), Err(FoldError::NumericConversion));
    assert_eq!(bad.is_one(), Err(FoldError::NumericConversion));
}

#[test]
fn mul_checks_the_first_operand_before_the_second() {
    let mut ctx = Context::new();
    let one = put(&mut ctx, floats(&[1.0]));
    let zero = put(&mut ctx, floats(&[0.0]));
    let two = put(&mut ctx, floats(&[2.0]));
    let one_zero = put(&mut ctx, Operation::Mul(one, zero));
    let zero_one = put(&mut ctx, Operation::Mul(zero, one));
    let two_zero = put(&mut ctx, Operation::Mul(two, zero));
    let two_one = put(&mut ctx, Operation::Mul(two, one));
    assert_eq!(ctx.fold_target(one_zero), Ok(Some(zero)));
    assert_eq!(ctx.fold_target(zero_one), Ok(Some(zero)));
    assert_eq!(ctx.fold_target(two_zero), Ok(Some(zero)));
    assert_eq!(ctx.fold_target(two_one), Ok(Some(two)));
    assert_eq!(ctx.fold_target(two), Ok(None));
}

#[test]
fn fold_target_of_other_kinds_is_none() {
    let mut ctx = Context::new();
    let zero = put(&mut ctx, floats(&[0.0]));
    let p = put(&mut ctx, named("p"));
    let gt = put(&mut ctx, Operation::GreaterThan(zero, p));
    let neg = put(&mut ctx, Operation::Neg(zero));
    let sel = put(&mut ctx, Operation::Select { pred: zero, on_true: zero, on_false: p });
    assert_eq!(ctx.fold_target(gt), Ok(None));
    assert_eq!(ctx.fold_target(neg), Ok(None));
    assert_eq!(ctx.fold_target(sel), Ok(None));
    assert_eq!(ctx.fold_target(p), Ok(None));
    assert_eq!(ctx.fold_target(zero), Ok(None));
}

#[test]
fn budget_of_zero_does_nothing() {
    let mut ctx = Context::new();
    let zero = put(&mut ctx, floats(&[0.0]));
    let p = put(&mut ctx, named("p"));
    let add = put(&mut ctx, Operation::Add(zero, p));
    let user = put(&mut ctx, Operation::Neg(add));
    let all = [zero, p, add, user];
    let before = snapshot(&ctx, &all);
    assert_eq!(ctx.fold_consts(add, 0), Ok(false));
    assert_eq!(snapshot(&ctx, &all), before);
    assert_eq!(ctx.fold_consts(NodeIdentifier { raw: 77 }, 0), Ok(false));
    assert_eq!(snapshot(&ctx, &all), before);
}

#[test]
fn budget_bounds_the_number_of_substitutions() {
    for (limit, folded) in [(1usize, 1usize), (2, 1), (3, 2), (4, 2), (5, 3), (100, 3)] {
        let mut ctx = Context::new();
        let zero = put(&mut ctx, floats(&[0.0]));
        let p = put(&mut ctx, named("p"));
        let inner = put(&mut ctx, Operation::Add(zero, p));
        let middle = put(&mut ctx, Operation::Add(zero, inner));
        let outer = put(&mut ctx, Operation::Add(zero, middle));
        let watch_outer = put(&mut ctx, Operation::Neg(outer));
        let watch_middle = put(&mut ctx, Operation::StopGradient(middle));
        let watch_inner = put(&mut ctx, Operation::ZerosLike(inner));
        assert_eq!(ctx.fold_consts(outer, limit), Ok(true));
        let expected_outer = match folded {
            1 => middle,
            2 => inner,
            _ => p,
        };
        let expected_middle = match folded {
            1 => middle,
            2 => inner,
            _ => p,
        };
        let expected_inner = if folded >= 3 { p } else { inner };
        assert_eq!(op(&ctx, watch_outer), Operation::Neg(expected_outer), "limit {}", limit);
        assert_eq!(
            op(&ctx, watch_middle),
            Operation::StopGradient(expected_middle),
            "limit {}",
            limit
        );
        assert_eq!(op(&ctx, watch_inner), Operation::ZerosLike(expected_inner), "limit {}", limit);
        assert!(folded <= limit);
    }
}

#[test]
fn visiting_arithmetic_without_folding_is_charged() {
    let mut ctx = Context::new();
    let zero = put(&mut ctx, floats(&[0.0]));
    let p = put(&mut ctx, named("p"));
    let q = put(&mut ctx, named("q"));
    let foldable = put(&mut ctx, Operation::Add(zero, p));
    let plain_sum = put(&mut ctx, Operation::Add(q, foldable));
    let user = put(&mut ctx, Operation::Neg(foldable));
    assert_eq!(ctx.fold_consts(plain_sum, 1), Ok(false));
    assert_eq!(op(&ctx, user), Operation::Neg(foldable));
    assert_eq!(ctx.fold_consts(plain_sum, 2), Ok(true));
    assert_eq!(op(&ctx, user), Operation::Neg(p));
    assert_eq!(op(&ctx, plain_sum), Operation::Add(q, p));
}

#[test]
fn comparison_is_kept_and_its_operands_are_explored() {
    let mut ctx = Context::new();
    let zero = put(&mut ctx, floats(&[0.0]));
    let p = put(&mut ctx, named("p"));
    let c = put(&mut ctx, floats(&[4.0]));
    let add = put(&mut ctx, Operation::Add(zero, p));
    let gt = put(&mut ctx, Operation::GreaterThan(add, c));
    assert_eq!(ctx.fold_consts(gt, 10), Ok(true));
    assert_eq!(op(&ctx, gt), Operation::GreaterThan(p, c));
    assert_eq!(op(&ctx, gt).discriminant(), OperationDiscriminants::GreaterThan);
    assert_eq!(ctx.collect_deps(add), vec![]);
    assert_eq!(ordered(ctx.collect_deps(p)), ordered(vec![add, gt]));
    assert_eq!(ctx.fold_consts(gt, 10), Ok(false));
    assert_eq!(op(&ctx, gt), Operation::GreaterThan(p, c));
}

#[test]
fn every_explored_comparison_reaches_nested_sums() {
    let kinds: [fn(NodeIdentifier, NodeIdentifier) -> Operation; 5] = [
        Operation::GreaterThan,
        Operation::GreaterThanEq,
        Operation::LessThan,
        Operation::LessThanEq,
        Operation::Equal,
    ];
    for kind in kinds {
        let mut ctx = Context::new();
        let zero = put(&mut ctx, floats(&[0.0]));
        let p = put(&mut ctx, named("p"));
        let q = put(&mut ctx, named("q"));
        let left = put(&mut ctx, Operation::Add(zero, p));
        let right = put(&mut ctx, Operation::Mul(q, zero));
        let cmp = put(&mut ctx, kind(left, right));
        assert_eq!(ctx.fold_consts(cmp, 10), Ok(true));
        assert_eq!(op(&ctx, cmp), kind(p, zero));
    }
}

#[test]
fn not_equal_and_other_kinds_are_not_explored() {
    let mut ctx = Context::new();
    let zero = put(&mut ctx, floats(&[0.0]));
    let p = put(&mut ctx, named("p"));
    let add = put(&mut ctx, Operation::Add(zero, p));
    let roots = [
        put(&mut ctx, Operation::NotEqual(add, p)),
        put(&mut ctx, Operation::Neg(add)),
        put(&mut ctx, Operation::StopGradient(add)),
        put(&mut ctx, Operation::ZerosLike(add)),
        put(&mut ctx, Operation::Select { pred: add, on_true: add, on_false: p }),
        put(&mut ctx, Operation::ReduceMax { node: add, dim: 0, keepdims: false }),
        put(&mut ctx, Operation::SliceInDim { node: add, start: 0, stop: 1, stride: 1, dim: 0 }),
    ];
    let all = [zero, p, add, roots[0], roots[1], roots[2], roots[3], roots[4], roots[5], roots[6]];
    let before = snapshot(&ctx, &all);
    for root in roots {
        assert_eq!(ctx.fold_consts(root, 10), Ok(false));
    }
    assert_eq!(ctx.fold_consts(p, 10), Ok(false));
    assert_eq!(ctx.fold_consts(zero, 10), Ok(false));
    assert_eq!(snapshot(&ctx, &all), before);
}

#[test]
fn a_node_reached_twice_is_visited_once() {
    let mut ctx = Context::new();
    let zero = put(&mut ctx, floats(&[0.0]));
    let p = put(&mut ctx, named("p"));
    let shared = put(&mut ctx, Operation::Add(zero, p));
    let square = put(&mut ctx, Operation::Mul(shared, shared));
    assert_eq!(ctx.fold_consts(square, 3), Ok(true));
    assert_eq!(op(&ctx, square), Operation::Mul(p, p));
    assert_eq!(ctx.collect_deps(shared), vec![]);
}

#[test]
fn folding_a_node_without_users_still_reports_a_substitution() {
    let mut ctx = Context::new();
    let zero = put(&mut ctx, floats(&[0.0]));
    let p = put(&mut ctx, named("p"));
    let add = put(&mut ctx, Operation::Add(zero, p));
    let all = [zero, p, add];
    let before = snapshot(&ctx, &all);
    assert_eq!(ctx.fold_consts(add, 10), Ok(true));
    assert_eq!(snapshot(&ctx, &all), before);
}

#[test]
fn second_pass_over_a_folded_graph_is_idle() {
    let mut ctx = Context::new();
    let p = put(&mut ctx, named("p"));
    let q = put(&mut ctx, named("q"));
    let two = put(&mut ctx, floats(&[2.0]));
    let sum = put(&mut ctx, Operation::Add(p, q));
    let scaled = put(&mut ctx, Operation::Mul(two, sum));
    let root = put(&mut ctx, Operation::LessThan(scaled, q));
    let all = [p, q, two, sum, scaled, root];
    let before = snapshot(&ctx, &all);
    assert_eq!(ctx.fold_consts(root, 50), Ok(false));
    assert_eq!(ctx.fold_consts(root, 50), Ok(false));
    assert_eq!(snapshot(&ctx, &all), before);
}

#[test]
fn fold_until_nothing_changes_reaches_a_fixed_point() {
    let mut ctx = Context::new();
    let zero = put(&mut ctx, floats(&[0.0]));
    let one = put(&mut ctx, floats(&[1.0]));
    let p = put(&mut ctx, named("p"));
    let a = put(&mut ctx, Operation::Add(zero, p));
    let b = put(&mut ctx, Operation::Mul(one, a));
    let c = put(&mut ctx, Operation::Sub(b, zero));
    let root = put(&mut ctx, Operation::Equal(c, p));
    let mut passes = 0;
    while ctx.fold_consts(root, 2).unwrap() {
        passes += 1;
        assert!(passes < 10);
    }
    assert_eq!(op(&ctx, root), Operation::Equal(p, p));
    assert_eq!(ctx.fold_consts(root, 2), Ok(false));
}

#[test]
fn no_node_references_itself_after_folding() {
    let mut ctx = Context::new();
    let zero = put(&mut ctx, floats(&[0.0]));
    let one = put(&mut ctx, floats(&[1.0]));
    let p = put(&mut ctx, named("p"));
    let a = put(&mut ctx, Operation::Add(zero, p));
    let b = put(&mut ctx, Operation::Mul(a, one));
    let c = put(&mut ctx, Operation::Mul(b, a));
    let d = put(&mut ctx, Operation::Select { pred: c, on_true: b, on_false: a });
    let root = put(&mut ctx, Operation::GreaterThanEq(c, b));
    assert_eq!(ctx.fold_consts(root, 100), Ok(true));
    let in_order = [zero, one, p, a, b, c, d, root];
    for (rank, id) in in_order.iter().enumerate() {
        for user in ctx.collect_deps(*id) {
            let user_rank = in_order.iter().position(|other| *other == user).unwrap();
            assert!(user_rank > rank);
        }
    }
    assert_eq!(op(&ctx, d), Operation::Select { pred: c, on_true: p, on_false: p });
    assert_eq!(op(&ctx, c), Operation::Mul(p, p));
    assert_eq!(op(&ctx, root), Operation::GreaterThanEq(c, p));
}

#[test]
fn fold_keeps_provenance_shape_and_kind() {
    let mut ctx = Context::new();
    let zero = put(&mut ctx, floats(&[0.0]));
    let p = put(&mut ctx, named("p"));
    let add = put(&mut ctx, Operation::Add(zero, p));
    let special = Node {
        callsite: Callsite { file: String::from("loss.rs"), line: 99, column: 1 },
        dimension: Dimension { sizes: vec![7, 7] },
        operation: Operation::LessThanEq(add, p),
    };
    let root = ctx.insert(special.clone()).unwrap();
    assert_eq!(ctx.fold_consts(root, 10), Ok(true));
    let after = ctx.get(root).unwrap();
    assert_eq!(after.callsite, special.callsite);
    assert_eq!(after.dimension, special.dimension);
    assert_eq!(after.operation, Operation::LessThanEq(p, p));
    assert_eq!(ctx.get(zero), Ok(&plain(floats(&[0.0]))));
    assert_eq!(ctx.get(p), Ok(&plain(named("p"))));
    assert_eq!(ctx.len(), 4);
}

#[test]
fn dangling_root_is_reported() {
    let mut ctx = Context::new();
    let p = put(&mut ctx, named("p"));
    let missing = NodeIdentifier { raw: p.raw + 1 };
    assert_eq!(ctx.fold_consts(missing, 1), Err(FoldError::DanglingReference));
    assert_eq!(ctx.fold_consts(NodeIdentifier { raw: 0 }, 5), Err(FoldError::DanglingReference));
    assert_eq!(ctx.get(p), Ok(&plain(named("p"))));
}

#[test]
fn malformed_constant_stops_the_pass() {
    let mut ctx = Context::new();
    let bad = put(&mut ctx, malformed());
    let p = put(&mut ctx, named("p"));
    let two = put(&mut ctx, floats(&[2.0]));
    let left = put(&mut ctx, Operation::Add(bad, p));
    let right = put(&mut ctx, Operation::Sub(p, bad));
    let product = put(&mut ctx, Operation::Mul(two, bad));
    for root in [left, right, product] {
        assert_eq!(ctx.fold_consts(root, 10), Err(FoldError::NumericConversion));
        assert_eq!(ctx.fold_target(root), Err(FoldError::NumericConversion));
    }
    assert_eq!(op(&ctx, left), Operation::Add(bad, p));
    assert_eq!(ctx.fold_consts(bad, 10), Ok(false));
}

#[test]
fn malformed_constant_is_not_reached_behind_a_fold() {
    let mut ctx = Context::new();
    let zero = put(&mut ctx, floats(&[0.0]));
    let one = put(&mut ctx, floats(&[1.0]));
    let bad = put(&mut ctx, malformed());
    let sum = put(&mut ctx, Operation::Add(zero, bad));
    let product = put(&mut ctx, Operation::Mul(one, bad));
    let absorbed = put(&mut ctx, Operation::Mul(zero, bad));
    assert_eq!(ctx.fold_target(sum), Ok(Some(bad)));
    assert_eq!(ctx.fold_target(product), Ok(Some(bad)));
    assert_eq!(ctx.fold_target(absorbed), Ok(Some(zero)));
}

#[test]
fn failure_keeps_the_substitutions_made_before_it() {
    let mut ctx = Context::new();
    let zero = put(&mut ctx, floats(&[0.0]));
    let bad = put(&mut ctx, malformed());
    let p = put(&mut ctx, named("p"));
    let q = put(&mut ctx, named("q"));
    let failing = put(&mut ctx, Operation::Add(bad, q));
    let foldable = put(&mut ctx, Operation::Add(zero, p));
    let root = put(&mut ctx, Operation::GreaterThan(failing, foldable));
    assert_eq!(ctx.fold_consts(root, 10), Err(FoldError::NumericConversion));
    assert_eq!(op(&ctx, root), Operation::GreaterThan(failing, p));
    assert_eq!(ctx.collect_deps(foldable), vec![]);
    assert_eq!(ordered(ctx.collect_deps(p)), ordered(vec![foldable, root]));
}

#[test]
fn failure_before_any_substitution_leaves_the_graph_alone() {
    let mut ctx = Context::new();
    let zero = put(&mut ctx, floats(&[0.0]));
    let bad = put(&mut ctx, malformed());
    let p = put(&mut ctx, named("p"));
    let q = put(&mut ctx, named("q"));
    let foldable = put(&mut ctx, Operation::Add(zero, p));
    let failing = put(&mut ctx, Operation::Add(bad, q));
    let root = put(&mut ctx, Operation::GreaterThan(foldable, failing));
    let all = [zero, bad, p, q, foldable, failing, root];
    let before = snapshot(&ctx, &all);
    assert_eq!(ctx.fold_consts(root, 10), Err(FoldError::NumericConversion));
    assert_eq!(snapshot(&ctx, &all), before);
}

#[test]
fn discriminant_names_the_kind() {
    let id = NodeIdentifier { raw: 1 << 32 };
    assert_eq!(floats(&[1.0]).discriminant(), OperationDiscriminants::Constant);
    assert_eq!(named("x").discriminant(), OperationDiscriminants::Parameter);
    assert_eq!(Operation::Add(id, id).discriminant(), OperationDiscriminants::Add);
    assert_eq!(Operation::Sub(id, id).discriminant(), OperationDiscriminants::Sub);
    assert_eq!(Operation::Mul(id, id).discriminant(), OperationDiscriminants::Mul);
    assert_eq!(Operation::NotEqual(id, id).discriminant(), OperationDiscriminants::NotEqual);
    assert_eq!(Operation::Neg(id).discriminant(), OperationDiscriminants::Neg);
    assert_eq!(
        Operation::Select { pred: id, on_true: id, on_false: id }.discriminant(),
        OperationDiscriminants::Select
    );
}

#[test]
fn operand_list_and_rewritten_agree() {
    let a = NodeIdentifier { raw: (1 << 32) | 1 };
    let b = NodeIdentifier { raw: (1 << 32) | 2 };
    let c = NodeIdentifier { raw: (1 << 32) | 3 };
    assert_eq!(Operation::Add(a, b).operand_list(), vec![a, b]);
    assert_eq!(Operation::Neg(a).operand_list(), vec![a]);
    assert_eq!(
        Operation::Select { pred: a, on_true: b, on_false: a }.operand_list(),
        vec![a, b, a]
    );
    assert_eq!(named("x").operand_list(), vec![]);
    assert_eq!(floats(&[0.0]).operand_list(), vec![]);
    assert_eq!(Operation::Add(a, b).rewritten(c, a), None);
    assert_eq!(Operation::Add(a, b).rewritten(b, c), Some(Operation::Add(a, c)));
    assert_eq!(Operation::Sub(a, a).rewritten(a, c), Some(Operation::Sub(c, c)));
    assert_eq!(named("x").rewritten(a, b), None);
    assert_eq!(floats(&[0.0]).rewritten(a, b), None);
}
