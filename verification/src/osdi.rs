use vstd::prelude::*;
use crate::mir::{BranchId, NetId, ParameterId, PortId, Unknown};
use crate::realbits::{NEG_ONE_BITS, ONE_BITS, ZERO_BITS};
use crate::span::Span;

verus! {

/// An error of lowering a `$limit` call against the simulator's function
/// table; collected, never fatal.
#[derive(Clone, Copy, PartialEq, Eq, Structural, Debug)]
pub enum LimLowerError {
    /// The call's argument count differs from the simulator's record.
    WrongFunctionArgCount { expected: usize, found: usize, span: Span },
    /// The simulator knows no limiting function of the given name.
    UnknownLimFunction { span: Span },
}

/// Lowers `$limit(pot(branch), fun, ...)` against the simulator's
/// function record, handed in as plain values: the record's handle and
/// declared argument count, or `None` when the name resolved to nothing.
/// The branch's endpoints become the call's node pair. An arity mismatch
/// is collected and the call still built; an unknown function yields no
/// call. Exactly one error is collected in either failing case.
pub fn lower_lim_call(
    branches: &Vec<(NetId, NetId)>,
    branch: BranchId,
    fun: Option<(u32, usize)>,
    found_args: usize,
    span: Span,
    errors: &mut Vec<LimLowerError>,
) -> (r: Option<GeneralOsdiCall>)
    requires
        branch < branches@.len(),
    ensures
        match fun {
            Some(rec) => r == Some(
                GeneralOsdiCall::Lim {
                    hi: branches@[branch as int].0,
                    lo: branches@[branch as int].1,
                    fun: rec.0,
                },
            ) && (rec.1 != found_args ==> final(errors)@ == old(errors)@.push(
                LimLowerError::WrongFunctionArgCount {
                    expected: rec.1,
                    found: found_args,
                    span,
                },
            )) && (rec.1 == found_args ==> final(errors)@ == old(errors)@),
            None => r is None && final(errors)@ == old(errors)@.push(
                LimLowerError::UnknownLimFunction { span },
            ),
        },
{
    match fun {
        Some((f, expected)) => {
            if expected != found_args {
                errors.push(
                    LimLowerError::WrongFunctionArgCount {
                        expected,
                        found: found_args,
                        span,
                    },
                );
            }
            let (hi, lo) = branches[branch as usize];
            Some(GeneralOsdiCall::Lim { hi, lo, fun: f })
        },
        None => {
            errors.push(LimLowerError::UnknownLimFunction { span });
            None
        },
    }
}

/// What a `$stop` or `$finish` task does.
#[derive(Clone, Copy, PartialEq, Eq, Structural, Debug)]
pub enum StopTaskKind {
    Stop,
    Finish,
}

/// How much the simulator prints when a stop task fires.
#[derive(Clone, Copy, PartialEq, Eq, Structural, Debug)]
pub enum PrintOnFinish {
    Nothing,
    Location,
    Expanded,
}

/// The flavor of a `$simparam` read.
#[derive(Copy, Clone, Debug, PartialEq, Eq, Structural)]
pub enum SimParamKind {
    Real,
    RealOptional,
    RealOptionalGiven,
    Str,
}

/// The calls the lowered IR makes back into the simulator. Time
/// derivatives live only in this call layer, not in the expression
/// arenas: `ddt(f)` is the first variant, and its symbolic derivative
/// with respect to a circuit unknown is the second, wrapping the
/// derivative of the operand.
#[derive(PartialEq, Eq, Clone, Copy, Structural, Debug)]
pub enum GeneralOsdiCall {
    Noise,
    TimeDerivative,
    SymbolicDerivativeOfTimeDerivative,
    StopTask(StopTaskKind, PrintOnFinish),
    NodeCollapse(NetId, NetId),
    Lim { hi: NetId, lo: NetId, fun: u32 },
}

/// How a parameter is read: its value, or whether it was given.
#[derive(PartialEq, Eq, Clone, Copy, Structural, Debug)]
pub enum ParameterInput {
    Value(ParameterId),
    Given(ParameterId),
}

/// The values the lowered IR reads from the simulator.
#[derive(Clone, Debug, PartialEq, Eq)]
pub enum GeneralOsdiInput {
    Parameter(ParameterInput),
    PortConnected(PortId),
    SimParam(String, SimParamKind),
    Voltage(NetId, NetId),
    Temperature,
}

/// A scalar constant of the lowered IR.
#[derive(Clone, Copy, PartialEq, Eq, Structural, Debug)]
pub enum SimpleConstVal {
    Real(u64),
    Integer(i64),
    Bool(bool),
}

#[derive(Clone, Copy, PartialEq, Eq, Structural, Debug)]
pub enum ConstVal {
    Scalar(SimpleConstVal),
}

/// The constant lattice the flat constant-propagation pass works over.
#[derive(Clone, Copy, PartialEq, Eq, Structural, Debug)]
pub enum FlatSet {
    Top,
    Elem(ConstVal),
    Bottom,
}

/// The sorts a lowered value can have.
#[derive(Clone, Copy, PartialEq, Eq, Structural, Debug)]
pub enum OsdiTy {
    Real,
    Bool,
    Str,
}

/// A symbolic derivative of an input: known one, known zero, or a
/// constant operand.
#[derive(Clone, Copy, PartialEq, Eq, Structural, Debug)]
pub enum Derivative {
    One,
    Zero,
    Operand(u64),
}

impl GeneralOsdiCall {
    /// The lattice value of the call's result given its folded arguments:
    /// a noise or limiting call is never known, and the derivative of a
    /// known constant is the constant zero.
    pub open spec fn const_fold_spec(self, call: Seq<FlatSet>) -> FlatSet {
        match self {
            GeneralOsdiCall::Noise => FlatSet::Top,
            GeneralOsdiCall::TimeDerivative
            | GeneralOsdiCall::SymbolicDerivativeOfTimeDerivative => match call[0] {
                FlatSet::Elem(_) => FlatSet::Elem(ConstVal::Scalar(SimpleConstVal::Real(ZERO_BITS))),
                FlatSet::Top => FlatSet::Top,
                FlatSet::Bottom => FlatSet::Bottom,
            },
            GeneralOsdiCall::StopTask(_, _) => FlatSet::Top,
            GeneralOsdiCall::NodeCollapse(_, _) => FlatSet::Top,
            GeneralOsdiCall::Lim { .. } => FlatSet::Top,
        }
    }

    /// Stop tasks and collapse hints have no value, so folding one is
    /// outside this function's domain. Only the derivative calls read
    /// their first argument.
    pub fn const_fold(&self, call: &Vec<FlatSet>) -> (r: FlatSet)
        requires
            (self is TimeDerivative || self is SymbolicDerivativeOfTimeDerivative) ==> call@.len()
                >= 1,
            !(self is StopTask),
            !(self is NodeCollapse),
        ensures
            r == self.const_fold_spec(call@),
    {
        match self {
            GeneralOsdiCall::Noise => FlatSet::Top,
            GeneralOsdiCall::TimeDerivative
            | GeneralOsdiCall::SymbolicDerivativeOfTimeDerivative => match call[0] {
                FlatSet::Elem(_) => FlatSet::Elem(ConstVal::Scalar(SimpleConstVal::Real(ZERO_BITS))),
                FlatSet::Top => FlatSet::Top,
                FlatSet::Bottom => FlatSet::Bottom,
            },
            _ => FlatSet::Top,
        }
    }

    /// The derivative of a limiting call with respect to a circuit
    /// unknown, following the lowered potential's sign convention:
    /// one at the high node, minus one at the low node.
    pub open spec fn lim_derivative_spec(hi: NetId, lo: NetId, unknown: Unknown) -> Option<
        Derivative,
    > {
        match unknown {
            Unknown::NodePotential(node) => if node == hi {
                Some(Derivative::One)
            } else if node == lo {
                Some(Derivative::Operand(NEG_ONE_BITS))
            } else {
                None
            },
            Unknown::BranchPotential(h, l) => if h == hi && l == lo {
                Some(Derivative::One)
            } else if h == lo && l == hi {
                Some(Derivative::Operand(NEG_ONE_BITS))
            } else {
                None
            },
            _ => None,
        }
    }

    pub fn lim_derivative(hi: NetId, lo: NetId, unknown: Unknown) -> (r: Option<Derivative>)
        ensures
            r == GeneralOsdiCall::lim_derivative_spec(hi, lo, unknown),
    {
        match unknown {
            Unknown::NodePotential(node) => if node == hi {
                Some(Derivative::One)
            } else if node == lo {
                Some(Derivative::Operand(NEG_ONE_BITS))
            } else {
                None
            },
            Unknown::BranchPotential(h, l) => if h == hi && l == lo {
                Some(Derivative::One)
            } else if h == lo && l == hi {
                Some(Derivative::Operand(NEG_ONE_BITS))
            } else {
                None
            },
            _ => None,
        }
    }

    /// The symbolic derivative of a `ddt` call with respect to a spatial
    /// unknown: the opaque `ddx_ddt` call wrapping the derivative of the
    /// operand, kept distinct so downstream passes can schedule it into
    /// the reactive Jacobian. A zero operand derivative yields no call.
    pub open spec fn ddt_derivative_spec(operand: Derivative) -> Option<
        (GeneralOsdiCall, Derivative),
    > {
        match operand {
            Derivative::Zero => None,
            _ => Some((GeneralOsdiCall::SymbolicDerivativeOfTimeDerivative, operand)),
        }
    }

    pub fn ddt_derivative(operand: Derivative) -> (r: Option<(GeneralOsdiCall, Derivative)>)
        ensures
            r == GeneralOsdiCall::ddt_derivative_spec(operand),
            r matches Some(c) ==> c.0 == GeneralOsdiCall::SymbolicDerivativeOfTimeDerivative
                && c.1 == operand,
    {
        match operand {
            Derivative::Zero => None,
            _ => Some((GeneralOsdiCall::SymbolicDerivativeOfTimeDerivative, operand)),
        }
    }
}

impl GeneralOsdiInput {
    /// The derivative of reading this input with respect to a circuit
    /// unknown: one for the matching parameter or the high node of the
    /// matching potential, minus one across the reversed pair, zero
    /// elsewhere.
    pub open spec fn derivative_spec(self, unknown: Unknown) -> Derivative {
        match self {
            GeneralOsdiInput::Parameter(ParameterInput::Value(x)) => match unknown {
                Unknown::Parameter(y) => if x == y {
                    Derivative::One
                } else {
                    Derivative::Zero
                },
                _ => Derivative::Zero,
            },
            GeneralOsdiInput::Voltage(hi, lo) => match unknown {
                Unknown::NodePotential(node) => if hi == node {
                    Derivative::One
                } else if lo == node {
                    Derivative::Operand(NEG_ONE_BITS)
                } else {
                    Derivative::Zero
                },
                Unknown::BranchPotential(h, l) => if hi == h && lo == l {
                    Derivative::One
                } else if hi == l && lo == h {
                    Derivative::Operand(NEG_ONE_BITS)
                } else {
                    Derivative::Zero
                },
                _ => Derivative::Zero,
            },
            _ => Derivative::Zero,
        }
    }

    pub fn derivative(&self, unknown: Unknown) -> (r: Derivative)
        ensures
            r == self.derivative_spec(unknown),
    {
        match self {
            GeneralOsdiInput::Parameter(ParameterInput::Value(x)) => match unknown {
                Unknown::Parameter(y) => if *x == y {
                    Derivative::One
                } else {
                    Derivative::Zero
                },
                _ => Derivative::Zero,
            },
            GeneralOsdiInput::Voltage(hi, lo) => match unknown {
                Unknown::NodePotential(node) => if *hi == node {
                    Derivative::One
                } else if *lo == node {
                    Derivative::Operand(NEG_ONE_BITS)
                } else {
                    Derivative::Zero
                },
                Unknown::BranchPotential(h, l) => if *hi == h && *lo == l {
                    Derivative::One
                } else if *hi == l && *lo == h {
                    Derivative::Operand(NEG_ONE_BITS)
                } else {
                    Derivative::Zero
                },
                _ => Derivative::Zero,
            },
            _ => Derivative::Zero,
        }
    }

    /// The sort of the value this input reads.
    pub open spec fn ty_spec(self) -> OsdiTy {
        match self {
            GeneralOsdiInput::Parameter(ParameterInput::Value(_)) => OsdiTy::Real,
            GeneralOsdiInput::Parameter(ParameterInput::Given(_)) => OsdiTy::Bool,
            GeneralOsdiInput::PortConnected(_) => OsdiTy::Bool,
            GeneralOsdiInput::SimParam(_, kind) => match kind {
                SimParamKind::Real => OsdiTy::Real,
                SimParamKind::RealOptional => OsdiTy::Real,
                SimParamKind::RealOptionalGiven => OsdiTy::Bool,
                SimParamKind::Str => OsdiTy::Str,
            },
            GeneralOsdiInput::Voltage(_, _) => OsdiTy::Real,
            GeneralOsdiInput::Temperature => OsdiTy::Real,
        }
    }

    pub fn ty(&self) -> (r: OsdiTy)
        ensures
            r == self.ty_spec(),
    {
        match self {
            GeneralOsdiInput::Parameter(ParameterInput::Value(_)) => OsdiTy::Real,
            GeneralOsdiInput::Parameter(ParameterInput::Given(_)) => OsdiTy::Bool,
            GeneralOsdiInput::PortConnected(_) => OsdiTy::Bool,
            GeneralOsdiInput::SimParam(_, kind) => match kind {
                SimParamKind::Real => OsdiTy::Real,
                SimParamKind::RealOptional => OsdiTy::Real,
                SimParamKind::RealOptionalGiven => OsdiTy::Bool,
                SimParamKind::Str => OsdiTy::Str,
            },
            GeneralOsdiInput::Voltage(_, _) => OsdiTy::Real,
            GeneralOsdiInput::Temperature => OsdiTy::Real,
        }
    }
}

} // verus!
