use float_cmp::ApproxEq;
use float_cmp::F64Margin;
use vacore::const_fold::NoConstResolution;
use vacore::derivatives::{partial_derivative, DerivativeError};
use vacore::fold_spec::ConstantOverflow;
use vacore::mir::RealBinaryOperator;
use vacore::osdi::{ConstVal, FlatSet, GeneralOsdiCall, SimpleConstVal};
use vacore::bitset::BitSet;
use vacore::cfg::{BasicBlock, ControlFlowGraph};
use vacore::matrix::{
    BranchKind, CallBackKind, EntryMap, FuncCursor, JacobianMatrix, MatrixEntry, NodeData,
    ParamKind, PlaceKind, ValueDef, F_ZERO,
};
use vacore::mir::{
    BuiltInFunctionCall2p, ComparisonOperator, DerivativeEntry, DisciplineAccess, ExprArenas,
    ExpressionId, IntegerExpression, Mir, RealExpression, Statement, Unknown,
};
use vacore::osdi::{Derivative, GeneralOsdiInput, OsdiTy, ParameterInput, SimParamKind};
use vacore::osdi::{lower_lim_call, LimLowerError};
use vacore::realbits;
use vacore::span::Span;
use vacore::strip::{BlockLocations, InternedLocations, Strip};

fn sp(n: u32) -> Span {
    Span::new(n, n + 1)
}

fn node(name: &str, gnd: bool) -> NodeData {
    NodeData { name: String::from(name), is_gnd: gnd }
}

#[test]
fn real_arithmetic_matches_the_host_double_through_the_folder() {
    let a = 2.5f64;
    let b = -0.75f64;
    let mut mir = Mir {
        exprs: ExprArenas::new(),
        statements: Vec::new(),
        derivatives: Vec::new(),
        branches: Vec::new(),
    };
    let ea = mir.exprs.push_real(RealExpression::Literal(a.to_bits()), sp(0));
    let eb = mir.exprs.push_real(RealExpression::Literal(b.to_bits()), sp(1));
    let mut lints: Vec<ConstantOverflow> = Vec::new();
    let mut eval_binop = |mir: &mut Mir, op, expect: f64| {
        let e = mir.exprs.push_real(RealExpression::BinaryOperator(ea, op, eb), sp(9));
        let mut lints: Vec<ConstantOverflow> = Vec::new();
        let r = mir.constant_eval_real_expr(e, &NoConstResolution, &mut lints);
        assert_eq!(r, Some(expect.to_bits()));
    };
    eval_binop(&mut mir, RealBinaryOperator::Sum, a + b);
    eval_binop(&mut mir, RealBinaryOperator::Subtract, a - b);
    eval_binop(&mut mir, RealBinaryOperator::Multiply, a * b);
    eval_binop(&mut mir, RealBinaryOperator::Divide, a / b);
    eval_binop(&mut mir, RealBinaryOperator::Modulus, a % b);
    let neg = mir.exprs.push_real(RealExpression::Negate(ea), sp(2));
    assert_eq!(
        mir.constant_eval_real_expr(neg, &NoConstResolution, &mut lints),
        Some((-a).to_bits())
    );
    let maxi = mir.exprs.push_real(
        RealExpression::BuiltInFunctionCall2p(BuiltInFunctionCall2p::Max, ea, eb),
        sp(3),
    );
    let mini = mir.exprs.push_real(
        RealExpression::BuiltInFunctionCall2p(BuiltInFunctionCall2p::Min, ea, eb),
        sp(4),
    );
    assert_eq!(
        mir.constant_eval_real_expr(maxi, &NoConstResolution, &mut lints),
        Some(a.max(b).to_bits())
    );
    assert_eq!(
        mir.constant_eval_real_expr(mini, &NoConstResolution, &mut lints),
        Some(a.min(b).to_bits())
    );
    let mut cmp = |mir: &mut Mir, op, expect: bool| {
        let e = mir.exprs.push_int(IntegerExpression::RealComparison(ea, op, eb), sp(9));
        let mut lints: Vec<ConstantOverflow> = Vec::new();
        let r = mir.constant_eval_int_expr(e, &NoConstResolution, &mut lints);
        assert_eq!(r, Some(if expect { 1 } else { 0 }));
    };
    cmp(&mut mir, ComparisonOperator::LessThan, a < b);
    cmp(&mut mir, ComparisonOperator::LessEqual, a <= b);
    cmp(&mut mir, ComparisonOperator::GreaterThan, a > b);
    cmp(&mut mir, ComparisonOperator::GreaterEqual, a >= b);
    assert_eq!(realbits::real_abs(b.to_bits()), b.abs().to_bits());
}

#[test]
fn approximate_equality_matches_the_default_margin() {
    let pairs: [(f64, f64); 6] = [
        (0.1 + 0.2, 0.3),
        (1.0, 1.0 + f64::EPSILON),
        (1.0, 1.1),
        (-0.0, 0.0),
        (1e308, 1e308),
        (1e-320, 2e-320),
    ];
    for (x, y) in pairs {
        let expected = x.approx_eq(y, F64Margin::default());
        let got = realbits::real_approx_eq(x.to_bits(), y.to_bits());
        assert_eq!(got, expected);
    }
}

#[test]
fn conductance_stamps_land_in_the_four_positions_in_order() {
    // output: I_branch(h, l) with derivative g against the voltage (h, l)
    let mut matrix = JacobianMatrix::new();
    let mut func = FuncCursor { num_values: 10, insts: Vec::new() };
    let g = 5u64;
    let rhs = 7u64;
    let nodes = vec![node("gnd", true), node("h", false), node("l", false)];
    let branches = vec![BranchKind::Nodes(1, 2)];
    let outputs = vec![(PlaceKind::BranchCurrent { branch: 0, reactive: false }, rhs)];
    let params = vec![ParamKind::Voltage { hi: 1, lo: Some(2) }];
    let callbacks = vec![CallBackKind::Derivative(0)];
    let derivatives = vec![((rhs, 0u32), g)];
    matrix.populate(
        &mut func,
        &nodes,
        &branches,
        &outputs,
        &params,
        &callbacks,
        &derivatives,
    );
    let entries = &matrix.resistive.entries;
    assert_eq!(entries.len(), 4);
    assert_eq!(entries[0].0, MatrixEntry { row: 1, col: 1 });
    assert_eq!(entries[1].0, MatrixEntry { row: 1, col: 2 });
    assert_eq!(entries[2].0, MatrixEntry { row: 2, col: 1 });
    assert_eq!(entries[3].0, MatrixEntry { row: 2, col: 2 });
    // +g lands directly; the negated stamps go through fresh fneg values
    assert_eq!(entries[0].1, g);
    assert_eq!(entries[3].1, g);
    assert!(func.insts.contains(&(entries[1].1, ValueDef::FNeg(g))));
    assert!(func.insts.contains(&(entries[2].1, ValueDef::FNeg(g))));
    assert!(matrix.reactive.entries.is_empty());
}

#[test]
fn ground_rows_and_columns_are_never_stamped() {
    let mut matrix = JacobianMatrix::new();
    let mut func = FuncCursor { num_values: 10, insts: Vec::new() };
    let nodes = vec![node("gnd", true), node("h", false)];
    let branches = vec![BranchKind::NodeGnd(1)];
    let outputs = vec![(PlaceKind::BranchCurrent { branch: 0, reactive: true }, 3u64)];
    let params = vec![ParamKind::Voltage { hi: 1, lo: Some(0) }];
    let callbacks = vec![CallBackKind::Derivative(0)];
    let derivatives = vec![((3u64, 0u32), 9u64)];
    matrix.populate(
        &mut func,
        &nodes,
        &branches,
        &outputs,
        &params,
        &callbacks,
        &derivatives,
    );
    assert_eq!(matrix.reactive.entries.len(), 1);
    assert_eq!(matrix.reactive.entries[0].0, MatrixEntry { row: 1, col: 1 });
    for (key, _) in matrix
        .resistive
        .entries
        .iter()
        .chain(matrix.reactive.entries.iter())
    {
        assert!(!nodes[key.row as usize].is_gnd);
        assert!(!nodes[key.col as usize].is_gnd);
    }
}

#[test]
fn repeated_stamps_accumulate_through_fresh_instructions() {
    let mut matrix = JacobianMatrix::new();
    let mut func = FuncCursor { num_values: 10, insts: Vec::new() };
    let nodes = vec![node("a", false)];
    matrix.ensure_entry(&mut func, 0, 0, 4, false, false);
    matrix.ensure_entry(&mut func, 0, 0, 6, true, false);
    assert_eq!(matrix.resistive.entries.len(), 1);
    let v = matrix.resistive.entries[0].1;
    assert_eq!(func.insts.last().unwrap(), &(v, ValueDef::FSub(4, 6)));
    let _ = nodes;
}

#[test]
fn sparsify_drops_canonical_zero_entries() {
    let mut matrix = JacobianMatrix::new();
    matrix.resistive = EntryMap {
        entries: vec![
            (MatrixEntry { row: 1, col: 1 }, F_ZERO),
            (MatrixEntry { row: 1, col: 2 }, 8),
        ],
    };
    matrix.reactive = EntryMap { entries: vec![(MatrixEntry { row: 2, col: 2 }, F_ZERO)] };
    matrix.sparsify();
    assert_eq!(matrix.resistive.entries.len(), 1);
    assert_eq!(matrix.resistive.entries[0].0, MatrixEntry { row: 1, col: 2 });
    assert!(matrix.reactive.entries.is_empty());
}

#[test]
fn optimization_barriers_wrap_and_unwrap_every_value() {
    let mut matrix = JacobianMatrix::new();
    let mut func = FuncCursor { num_values: 10, insts: Vec::new() };
    matrix.resistive = EntryMap {
        entries: vec![
            (MatrixEntry { row: 1, col: 1 }, 3),
            (MatrixEntry { row: 1, col: 2 }, 4),
        ],
    };
    let mut observed = BitSet::new();
    matrix.insert_opt_barries(&mut func, &mut observed);
    let wrapped: Vec<u64> = matrix.resistive.entries.iter().map(|e| e.1).collect();
    assert_eq!(wrapped, vec![10, 11]);
    assert!(observed.contains(10));
    assert!(observed.contains(11));
    matrix.strip_opt_barries(&func, &mut observed);
    let unwrapped: Vec<u64> = matrix.resistive.entries.iter().map(|e| e.1).collect();
    assert_eq!(unwrapped, vec![3, 4]);
    assert!(!observed.contains(10));
    assert!(observed.contains(3));
}

#[test]
fn strip_removes_exactly_the_unretained_statements() {
    let mut cfg = ControlFlowGraph {
        blocks: vec![BasicBlock { phi_statements: vec![0, 1], statements: vec![2, 3, 4] }],
    };
    let mut retain = BitSet::new();
    retain.ensure(5);
    retain.insert(1);
    retain.insert(2);
    retain.insert(4);
    let strip = Strip {
        retain,
        locations: InternedLocations {
            blocks: vec![BlockLocations { phi_start: 0, stmnt_start: 2 }],
        },
    };
    strip.run(&mut cfg);
    assert_eq!(cfg.blocks[0].phi_statements, vec![1]);
    assert_eq!(cfg.blocks[0].statements, vec![2, 4]);
}

#[test]
fn branch_potential_assignment_gets_its_unit_derivative() {
    // i := pot(v0, v1), with the derivative against the potential of v0
    // registered to flow into di
    let mut mir = Mir {
        exprs: ExprArenas::new(),
        statements: Vec::new(),
        derivatives: Vec::new(),
        branches: vec![(0, 1)],
    };
    let access = mir.exprs.push_real(
        RealExpression::BranchAccess(DisciplineAccess::Potential, 0, 0),
        sp(0),
    );
    mir.statements.push(Statement::Assignment(0, 5, ExpressionId::Real(access)));
    mir.derivatives.push(DerivativeEntry {
        var: 5,
        targets: vec![(Unknown::NodePotential(0), 9)],
    });
    let mut cfg = ControlFlowGraph {
        blocks: vec![BasicBlock { phi_statements: vec![], statements: vec![0] }],
    };
    let errors = cfg.calculate_all_registered_derivatives(&mut mir);
    assert!(errors.is_empty());
    assert_eq!(cfg.blocks[0].statements.len(), 2);
    assert_eq!(cfg.blocks[0].statements[0], 0);
    let appended = cfg.blocks[0].statements[1];
    match mir.statements[appended as usize] {
        Statement::Assignment(attr, var, ExpressionId::Real(d)) => {
            assert_eq!(attr, 0);
            assert_eq!(var, 9);
            assert_eq!(
                mir.exprs.reals[d as usize].contents,
                RealExpression::Literal(1.0f64.to_bits())
            );
        }
        _ => panic!("the appended statement must assign the derivative"),
    }
}

#[test]
fn product_rule_derivative_evaluates_correctly() {
    // w := pot(v0, v1) * pot(v0, v1): dw/dV(v0) evaluates to 2 * pot when
    // the potential is known
    let mut mir = Mir {
        exprs: ExprArenas::new(),
        statements: Vec::new(),
        derivatives: Vec::new(),
        branches: vec![(0, 1)],
    };
    let a = mir.exprs.push_real(RealExpression::Literal(3.0f64.to_bits()), sp(0));
    let b = mir.exprs.push_real(
        RealExpression::BranchAccess(DisciplineAccess::Potential, 0, 0),
        sp(1),
    );
    let prod = mir.exprs.push_real(
        RealExpression::BinaryOperator(a, RealBinaryOperator::Multiply, b),
        sp(2),
    );
    let d = partial_derivative(
        &mut mir.exprs,
        &mir.branches,
        &mir.derivatives,
        prod,
        Unknown::NodePotential(0),
    )
    .expect("the product rule applies");
    // d = 0 * b + 3 * 1, which folds to 3
    let mut lints: Vec<ConstantOverflow> = Vec::new();
    let v = mir.constant_fold_real_expr(d, &NoConstResolution, &mut lints);
    assert_eq!(v, Some(3.0f64.to_bits()));
}

#[test]
fn osdi_input_derivatives_follow_the_sign_convention() {
    let volt = GeneralOsdiInput::Voltage(4, 7);
    assert_eq!(
        volt.derivative(Unknown::NodePotential(4)),
        Derivative::One
    );
    assert_eq!(
        volt.derivative(Unknown::NodePotential(7)),
        Derivative::Operand(realbits::NEG_ONE_BITS)
    );
    assert_eq!(volt.derivative(Unknown::NodePotential(9)), Derivative::Zero);
    assert_eq!(
        volt.derivative(Unknown::BranchPotential(4, 7)),
        Derivative::One
    );
    assert_eq!(
        volt.derivative(Unknown::BranchPotential(7, 4)),
        Derivative::Operand(realbits::NEG_ONE_BITS)
    );
    let param = GeneralOsdiInput::Parameter(ParameterInput::Value(3));
    assert_eq!(param.derivative(Unknown::Parameter(3)), Derivative::One);
    assert_eq!(param.derivative(Unknown::Parameter(4)), Derivative::Zero);
    let temp = GeneralOsdiInput::Temperature;
    assert_eq!(temp.derivative(Unknown::NodePotential(4)), Derivative::Zero);
    assert_eq!(temp.ty(), OsdiTy::Real);
    assert_eq!(
        GeneralOsdiInput::SimParam(String::from("gmin"), SimParamKind::RealOptionalGiven).ty(),
        OsdiTy::Bool
    );
}

#[test]
fn osdi_call_folding_sends_known_arguments_to_zero() {
    let call = GeneralOsdiCall::TimeDerivative;
    let known = vec![FlatSet::Elem(ConstVal::Scalar(SimpleConstVal::Real(2.0f64.to_bits())))];
    assert_eq!(
        call.const_fold(&known),
        FlatSet::Elem(ConstVal::Scalar(SimpleConstVal::Real(0.0f64.to_bits())))
    );
    let unknown = vec![FlatSet::Top];
    assert_eq!(call.const_fold(&unknown), FlatSet::Top);
    assert_eq!(
        GeneralOsdiCall::Noise.const_fold(&unknown),
        FlatSet::Top
    );
}

#[test]
fn stamp_printing_names_rows_and_columns() {
    let matrix = JacobianMatrix {
        resistive: EntryMap {
            entries: vec![
                (MatrixEntry { row: 0, col: 1 }, 12),
                (MatrixEntry { row: 1, col: 1 }, 7),
            ],
        },
        reactive: EntryMap { entries: Vec::new() },
    };
    let names = vec![String::from("drain"), String::from("gate")];
    let out = matrix.print_resistive_stamps(&names);
    assert_eq!(out, "(drain, gate) = v12\n(gate, gate) = v7\n");
    assert_eq!(matrix.print_reactive_stamps(&names), "");
}

#[test]
fn expressions_without_a_derivative_rule_report_an_error() {
    let mut arenas = ExprArenas::new();
    let a = arenas.push_real(RealExpression::Literal(2.0f64.to_bits()), sp(0));
    let b = arenas.push_real(RealExpression::Literal(3.0f64.to_bits()), sp(1));
    let pow = arenas.push_real(
        RealExpression::BinaryOperator(a, RealBinaryOperator::Exponent, b),
        sp(4),
    );
    let branches: Vec<(u32, u32)> = Vec::new();
    let derivs: Vec<DerivativeEntry> = Vec::new();
    let r = partial_derivative(&mut arenas, &branches, &derivs, pow, Unknown::NodePotential(0));
    match r {
        Err(DerivativeError::NotDifferentiable { span }) => assert_eq!(span, sp(4)),
        _ => panic!("a power has no symbolic derivative rule here"),
    }
    let _ = NoConstResolution;
    let _: Vec<ConstantOverflow> = Vec::new();
}

#[test]
fn higher_order_derivatives_chain_through_the_register() {
    // w := pot(v0, v1); dw flows into var 9, and the derivative of var 9
    // is itself registered into var 12, so two statements are appended
    let mut mir = Mir {
        exprs: ExprArenas::new(),
        statements: Vec::new(),
        derivatives: Vec::new(),
        branches: vec![(0, 1)],
    };
    let access = mir.exprs.push_real(
        RealExpression::BranchAccess(DisciplineAccess::Potential, 0, 0),
        sp(0),
    );
    mir.statements.push(Statement::Assignment(0, 5, ExpressionId::Real(access)));
    mir.derivatives.push(DerivativeEntry {
        var: 5,
        targets: vec![(Unknown::NodePotential(0), 9)],
    });
    mir.derivatives.push(DerivativeEntry {
        var: 9,
        targets: vec![(Unknown::NodePotential(1), 12)],
    });
    let mut cfg = ControlFlowGraph {
        blocks: vec![BasicBlock { phi_statements: vec![], statements: vec![0] }],
    };
    let errors = cfg.calculate_all_registered_derivatives(&mut mir);
    assert!(errors.is_empty());
    assert_eq!(cfg.blocks[0].statements.len(), 3);
    match mir.statements[cfg.blocks[0].statements[1] as usize] {
        Statement::Assignment(_, var, _) => assert_eq!(var, 9),
        _ => panic!("the first-order derivative assigns its target"),
    }
    match mir.statements[cfg.blocks[0].statements[2] as usize] {
        Statement::Assignment(_, var, _) => assert_eq!(var, 12),
        _ => panic!("the second-order derivative assigns its target"),
    }
}

#[test]
fn lim_call_derivatives_follow_the_potential_sign_convention() {
    // d lim(pot(hi, lo), f) / d V(hi) = +1, / d V(lo) = -1.
    assert_eq!(
        GeneralOsdiCall::lim_derivative(4, 7, Unknown::NodePotential(4)),
        Some(Derivative::One)
    );
    assert_eq!(
        GeneralOsdiCall::lim_derivative(4, 7, Unknown::NodePotential(7)),
        Some(Derivative::Operand(realbits::NEG_ONE_BITS))
    );
    assert_eq!(GeneralOsdiCall::lim_derivative(4, 7, Unknown::NodePotential(9)), None);
    assert_eq!(
        GeneralOsdiCall::lim_derivative(4, 7, Unknown::BranchPotential(4, 7)),
        Some(Derivative::One)
    );
    assert_eq!(
        GeneralOsdiCall::lim_derivative(4, 7, Unknown::BranchPotential(7, 4)),
        Some(Derivative::Operand(realbits::NEG_ONE_BITS))
    );
    assert_eq!(GeneralOsdiCall::lim_derivative(4, 7, Unknown::Flow(0)), None);
    assert_eq!(GeneralOsdiCall::lim_derivative(4, 7, Unknown::Parameter(2)), None);
}

#[test]
fn ddt_derivative_wraps_the_operand_in_the_opaque_reactive_call() {
    // d ddt(f) / d u = ddx_ddt(df/du); a zero operand derivative yields no call.
    assert_eq!(
        GeneralOsdiCall::ddt_derivative(Derivative::One),
        Some((GeneralOsdiCall::SymbolicDerivativeOfTimeDerivative, Derivative::One))
    );
    assert_eq!(
        GeneralOsdiCall::ddt_derivative(Derivative::Operand(realbits::NEG_ONE_BITS)),
        Some((
            GeneralOsdiCall::SymbolicDerivativeOfTimeDerivative,
            Derivative::Operand(realbits::NEG_ONE_BITS)
        ))
    );
    assert_eq!(GeneralOsdiCall::ddt_derivative(Derivative::Zero), None);
}

#[test]
fn noise_call_folds_without_arguments() {
    let call = GeneralOsdiCall::Noise;
    let args: Vec<FlatSet> = Vec::new();
    assert_eq!(call.const_fold(&args), FlatSet::Top);
}

#[test]
fn lim_call_lowering_uses_the_branch_endpoints_and_collects_arity_errors() {
    let branches: Vec<(u32, u32)> = vec![(4, 7), (2, 0)];
    let mut errors: Vec<LimLowerError> = Vec::new();
    // well-formed call: the branch endpoints become the node pair
    let r = lower_lim_call(&branches, 0, Some((3, 2)), 2, sp(1), &mut errors);
    assert_eq!(r, Some(GeneralOsdiCall::Lim { hi: 4, lo: 7, fun: 3 }));
    assert!(errors.is_empty());
    // arity mismatch: one error collected, the call still built
    let r = lower_lim_call(&branches, 1, Some((5, 3)), 1, sp(2), &mut errors);
    assert_eq!(r, Some(GeneralOsdiCall::Lim { hi: 2, lo: 0, fun: 5 }));
    assert_eq!(
        errors,
        vec![LimLowerError::WrongFunctionArgCount { expected: 3, found: 1, span: sp(2) }]
    );
    // unknown function: one error, no call
    let r = lower_lim_call(&branches, 0, None, 2, sp(3), &mut errors);
    assert_eq!(r, None);
    assert_eq!(errors.len(), 2);
    assert_eq!(errors[1], LimLowerError::UnknownLimFunction { span: sp(3) });
}
