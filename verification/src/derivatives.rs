use vstd::prelude::*;
use crate::span::Span;
use crate::cfg::ControlFlowGraph;
use crate::mir::{
    exprs_wf, real_contents_wf, stmts_wf, BuiltInFunctionCall1p, DerivativeEntry,
    DisciplineAccess, ExprArenas, ExpressionId, ExprView, Mir, NetId, Node, RealBinaryOperator,
    RealExprId, RealExpression, Statement, StatementId, Unknown, VariableId,
};
use crate::realbits::{NEG_ONE_BITS, ONE_BITS, TWO_BITS, ZERO_BITS};

verus! {

/// Errors the differentiation pass collects; differentiation goes on with
/// the remaining registered derivatives.
#[derive(Clone, Copy, PartialEq, Eq, Structural, Debug)]
pub enum DerivativeError {
    /// The expression has no symbolic derivative rule.
    NotDifferentiable { span: Span },
    /// The arenas cannot hand out further handles.
    ExpressionLimit { span: Span },
}

/// The register of demanded derivatives is acyclic: a derivative variable
/// always carries a larger handle than the variable it differentiates, so
/// higher-order differentiation terminates. This is how the register is
/// built: a derivative variable is allocated only after, and so numbered
/// above, the variable whose derivative it holds.
pub open spec fn derivs_wf(d: Seq<DerivativeEntry>) -> bool {
    forall|i: int, j: int|
        0 <= i < d.len() && 0 <= j < d[i].targets@.len() ==> (#[trigger] d[i].targets@[j]).1
            > d[i].var
}

/// A variable that some registered derivative assigns to.
pub open spec fn is_registered_derivative_var(d: Seq<DerivativeEntry>, dv: VariableId) -> bool {
    exists|i: int, j: int|
        0 <= i < d.len() && 0 <= j < d[i].targets@.len() && (#[trigger] d[i].targets@[j]).1 == dv
}

/// The shape every statement the differentiation pass appends must have:
/// an assignment of a real expression to a registered derivative variable.
pub open spec fn p4_shape(stmts: Seq<Statement>, d: Seq<DerivativeEntry>, sid: StatementId) -> bool {
    sid < stmts.len() && match stmts[sid as int] {
        Statement::Assignment(_, dv, e) => is_registered_derivative_var(d, dv) && e is Real,
        Statement::Call(_) => false,
    }
}

/// The position of the first derivative entry registered for `var`,
/// scanning from `i`.
pub open spec fn entry_ix_from(d: Seq<DerivativeEntry>, var: VariableId, i: int) -> Option<int>
    decreases d.len() - i,
{
    if i < 0 || i >= d.len() {
        None
    } else if d[i].var == var {
        Some(i)
    } else {
        entry_ix_from(d, var, i + 1)
    }
}

/// A found entry position lies in the scanned range and names `var`.
proof fn lemma_entry_ix_bounds(d: Seq<DerivativeEntry>, var: VariableId, i: int)
    requires
        entry_ix_from(d, var, i) is Some,
    ensures
        i <= entry_ix_from(d, var, i)->0 < d.len(),
        d[entry_ix_from(d, var, i)->0].var == var,
    decreases d.len() - i,
{
    if !(i < 0 || i >= d.len()) && d[i].var != var {
        lemma_entry_ix_bounds(d, var, i + 1);
    }
}

/// The position of the first pair registered for `unknown` in an entry's
/// target list, scanning from `j`.
pub open spec fn target_ix_from(ts: Seq<(Unknown, VariableId)>, unknown: Unknown, j: int) -> Option<
    int,
>
    decreases ts.len() - j,
{
    if j < 0 || j >= ts.len() {
        None
    } else if ts[j].0 == unknown {
        Some(j)
    } else {
        target_ix_from(ts, unknown, j + 1)
    }
}

/// The derivative variable registered for reading `var` with respect to
/// `unknown`: the first matching pair of the first entry for `var`, or
/// nothing when none is registered.
pub open spec fn var_deriv_of(d: Seq<DerivativeEntry>, var: VariableId, unknown: Unknown) -> Option<
    VariableId,
> {
    match entry_ix_from(d, var, 0) {
        Some(ix) => match target_ix_from(d[ix].targets@, unknown, 0) {
            Some(j) => Some(d[ix].targets@[j].1),
            None => None,
        },
        None => None,
    }
}

/// The arenas can hand out no further expression or statement handles:
/// beside a construct without a derivative rule, the only failure the
/// differentiation pass admits.
pub open spec fn arenas_full(st: ExprView, nstmts: int) -> bool {
    st.reals.len() >= u32::MAX || st.next_ord >= u32::MAX || nstmts >= u32::MAX
}

/// A cause for a collected differentiation error stands in the state:
/// some assignment's real right-hand side has no derivative rule, or the
/// arenas ran out of handles. An error enters the list only under one of
/// these.
pub open spec fn failure_present(
    st: ExprView,
    branches: Seq<(NetId, NetId)>,
    stmts: Seq<Statement>,
) -> bool {
    arenas_full(st, stmts.len() as int) || exists|s: int|
        0 <= s < stmts.len() && match #[trigger] stmts[s] {
            Statement::Assignment(_, _, e) => match e {
                ExpressionId::Real(re) => re < st.reals.len() && !differentiable(
                    st,
                    branches,
                    re as int,
                ),
                _ => false,
            },
            Statement::Call(_) => false,
        }
}

/// The element at position `k` of `list` names a fresh derivative
/// assignment to `dv` under attribute `attr`, at a statement handle at or
/// beyond `fresh_lo`, whose right-hand side is the symbolic partial
/// derivative of `src` with respect to `unknown`.
pub open spec fn produced_at(
    st: ExprView,
    branches: Seq<(NetId, NetId)>,
    derivs: Seq<DerivativeEntry>,
    stmts: Seq<Statement>,
    list: Seq<StatementId>,
    fresh_lo: int,
    attr: u32,
    dv: VariableId,
    src: RealExprId,
    unknown: Unknown,
    k: int,
) -> bool {
    0 <= k < list.len() && fresh_lo <= list[k] && list[k] < stmts.len() && match stmts[list[k] as int] {
        Statement::Assignment(a, v, e) => a == attr && v == dv && match e {
            ExpressionId::Real(dd) => is_pd(st, branches, derivs, src as int, unknown, dd as int),
            _ => false,
        },
        Statement::Call(_) => false,
    }
}

/// The position map `pos` settles every registered pair the filter
/// accepts: an accepted pair is either produced — `pos` names the
/// position in `list` of a fresh assignment of the symbolic partial
/// derivative of `src` with respect to the pair's unknown, to the pair's
/// variable — or it failed (`pos` holds `-1`) because that right-hand
/// side has no derivative rule or the arenas ran out of handles, the only
/// admitted failures. Produced pairs stand in `list` in registration
/// order: the position map is strictly increasing over them.
pub open spec fn settled_positions<F: DerivativeFilter>(
    exprs0: ExprView,
    branches: Seq<(NetId, NetId)>,
    derivs: Seq<DerivativeEntry>,
    filter: &F,
    sid: StatementId,
    var: VariableId,
    attr: u32,
    src: RealExprId,
    ts: Seq<(Unknown, VariableId)>,
    st: ExprView,
    stmts: Seq<Statement>,
    list: Seq<StatementId>,
    fresh_lo: int,
    pos: Seq<int>,
) -> bool {
    &&& pos.len() == ts.len()
    &&& forall|j: int|
        0 <= j < ts.len() && filter.accept_spec(var, sid, (#[trigger] ts[j]).0) ==> produced_at(
            st,
            branches,
            derivs,
            stmts,
            list,
            fresh_lo,
            attr,
            ts[j].1,
            src,
            ts[j].0,
            pos[j],
        ) || (pos[j] == -1 && (!differentiable(exprs0, branches, src as int) || arenas_full(
            st,
            stmts.len() as int,
        )))
    &&& forall|j1: int, j2: int|
        0 <= j1 < j2 < ts.len() && filter.accept_spec(var, sid, (#[trigger] ts[j1]).0)
            && filter.accept_spec(var, sid, (#[trigger] ts[j2]).0) && pos[j1] != -1 && pos[j2]
            != -1 ==> pos[j1] < pos[j2]
}

/// Every `(unknown, derivative variable)` pair registered for the
/// assignment `sid` and accepted by the filter is settled: a fresh
/// assignment of the symbolic partial derivative of the right-hand side
/// with respect to the pair's unknown, to the pair's variable, stands in
/// `list`, the produced pairs in registration order — unless that
/// right-hand side has no derivative rule, or the arenas ran out of
/// handles, the pair's only admitted failures. Statements that are not
/// real assignments, and variables without a registered entry, demand
/// nothing. `exprs0` is the arena state the right-hand side was read in,
/// `st` the state the derivatives stand in.
pub open spec fn pairs_settled<F: DerivativeFilter>(
    stmts0: Seq<Statement>,
    exprs0: ExprView,
    branches: Seq<(NetId, NetId)>,
    derivs: Seq<DerivativeEntry>,
    filter: &F,
    sid: StatementId,
    st: ExprView,
    stmts: Seq<Statement>,
    list: Seq<StatementId>,
    fresh_lo: int,
) -> bool {
    match stmts0[sid as int] {
        Statement::Assignment(attr, var, e) => match e {
            ExpressionId::Real(src) => match entry_ix_from(derivs, var, 0) {
                Some(ix) => exists|pos: Seq<int>|
                    #[trigger] settled_positions(
                        exprs0,
                        branches,
                        derivs,
                        filter,
                        sid,
                        var,
                        attr,
                        src,
                        derivs[ix].targets@,
                        st,
                        stmts,
                        list,
                        fresh_lo,
                        pos,
                    ),
                None => true,
            },
            _ => true,
        },
        Statement::Call(_) => true,
    }
}

/// The unfiltered form of `settled_positions`: every registered pair is
/// produced at its position or failed, the produced pairs in
/// registration order.
pub open spec fn all_settled_positions(
    exprs0: ExprView,
    branches: Seq<(NetId, NetId)>,
    derivs: Seq<DerivativeEntry>,
    attr: u32,
    src: RealExprId,
    ts: Seq<(Unknown, VariableId)>,
    st: ExprView,
    stmts: Seq<Statement>,
    list: Seq<StatementId>,
    fresh_lo: int,
    pos: Seq<int>,
) -> bool {
    &&& pos.len() == ts.len()
    &&& forall|j: int|
        0 <= j < ts.len() ==> produced_at(
            st,
            branches,
            derivs,
            stmts,
            list,
            fresh_lo,
            attr,
            (#[trigger] ts[j]).1,
            src,
            ts[j].0,
            pos[j],
        ) || (pos[j] == -1 && (!differentiable(exprs0, branches, src as int) || arenas_full(
            st,
            stmts.len() as int,
        )))
    &&& forall|j1: int, j2: int|
        0 <= j1 < j2 < ts.len() && (#[trigger] pos[j1]) != -1 && (#[trigger] pos[j2]) != -1
            ==> pos[j1] < pos[j2]
}

/// Every `(unknown, derivative variable)` pair registered for the
/// assignment `sid` is settled, whatever the filter, the produced pairs
/// in registration order: the unfiltered form of `pairs_settled`.
pub open spec fn all_pairs_settled(
    stmts0: Seq<Statement>,
    exprs0: ExprView,
    branches: Seq<(NetId, NetId)>,
    derivs: Seq<DerivativeEntry>,
    sid: StatementId,
    st: ExprView,
    stmts: Seq<Statement>,
    list: Seq<StatementId>,
    fresh_lo: int,
) -> bool {
    match stmts0[sid as int] {
        Statement::Assignment(attr, var, e) => match e {
            ExpressionId::Real(src) => match entry_ix_from(derivs, var, 0) {
                Some(ix) => exists|pos: Seq<int>|
                    #[trigger] all_settled_positions(
                        exprs0,
                        branches,
                        derivs,
                        attr,
                        src,
                        derivs[ix].targets@,
                        st,
                        stmts,
                        list,
                        fresh_lo,
                        pos,
                    ),
                None => true,
            },
            _ => true,
        },
        Statement::Call(_) => true,
    }
}

/// `out` is a derivative statement generated for `src`: both assign real
/// expressions, the attributes agree, `out`'s variable is the derivative
/// variable of a registered pair of `src`'s variable that the filter
/// accepts, and `out`'s right-hand side is the symbolic partial
/// derivative of `src`'s right-hand side with respect to that pair's
/// unknown. Rejected pairs generate nothing: every appended statement
/// satisfies this for some accepted pair.
pub open spec fn derived_from<F: DerivativeFilter>(
    st: ExprView,
    branches: Seq<(NetId, NetId)>,
    derivs: Seq<DerivativeEntry>,
    stmts: Seq<Statement>,
    filter: &F,
    src: StatementId,
    out: StatementId,
) -> bool {
    src < stmts.len() && out < stmts.len() && match (stmts[src as int], stmts[out as int]) {
        (
            Statement::Assignment(a0, var, ExpressionId::Real(e0)),
            Statement::Assignment(a1, dv, ExpressionId::Real(dd)),
        ) => a1 == a0 && exists|ix: int, j: int|
            entry_ix_from(derivs, var, 0) == Some(ix) && 0 <= j < derivs[ix].targets@.len() && (
            #[trigger] derivs[ix].targets@[j]).1 == dv && filter.accept_spec(
                var,
                src,
                derivs[ix].targets@[j].0,
            ) && is_pd(st, branches, derivs, e0 as int, derivs[ix].targets@[j].0, dd as int),
        _ => false,
    }
}

/// The assignment has a registered derivative entry and a real right-hand
/// side: the only statements the differentiation pass acts on.
pub open spec fn demands_derivatives(stmts: Seq<Statement>, d: Seq<DerivativeEntry>, sid: StatementId) -> bool {
    match stmts[sid as int] {
        Statement::Assignment(_, var, e) => e is Real && entry_ix_from(d, var, 0) is Some,
        Statement::Call(_) => false,
    }
}

/// `a` survives inside `b` in order: some strictly increasing position map
/// carries every element of `a` to an equal element of `b`.
pub open spec fn keeps_in_order(a: Seq<StatementId>, b: Seq<StatementId>) -> bool {
    exists|m: Seq<int>|
        #![trigger m.len()]
        m.len() == a.len() && (forall|i: int|
            0 <= i < a.len() ==> 0 <= #[trigger] m[i] < b.len() && b[m[i]] == a[i]) && (forall|
            i: int,
            j: int,
        |
            0 <= i < j < a.len() ==> m[i] < m[j])
}

/// An element of a prefix is the same element of the longer sequence.
pub broadcast proof fn lemma_prefix_index<T>(a: Seq<T>, b: Seq<T>, i: int)
    requires
        #[trigger] a.is_prefix_of(b),
        0 <= i < a.len(),
    ensures
        a[i] == #[trigger] b[i],
{
    assert(a[i] == b.take(a.len() as int)[i]);
}

/// Every sequence is a prefix of itself.
pub broadcast proof fn lemma_prefix_refl<T>(s: Seq<T>)
    ensures
        #[trigger] s.is_prefix_of(s),
{
    assert(s =~= s.take(s.len() as int));
}

/// A prefix of a prefix is a prefix.
pub broadcast proof fn lemma_prefix_trans<T>(a: Seq<T>, b: Seq<T>, c: Seq<T>)
    requires
        #[trigger] a.is_prefix_of(b),
        #[trigger] b.is_prefix_of(c),
    ensures
        a.is_prefix_of(c),
{
    assert(a =~= c.take(a.len() as int));
}

/// A produced derivative assignment survives, at its position, when the
/// arenas and the handle list grow at the end, and under a smaller
/// freshness bound.
proof fn lemma_produced_at_grow(
    st1: ExprView,
    st2: ExprView,
    branches: Seq<(NetId, NetId)>,
    derivs: Seq<DerivativeEntry>,
    stmts1: Seq<Statement>,
    stmts2: Seq<Statement>,
    list1: Seq<StatementId>,
    list2: Seq<StatementId>,
    lo1: int,
    lo2: int,
    attr: u32,
    dv: VariableId,
    src: RealExprId,
    unknown: Unknown,
    k: int,
)
    requires
        produced_at(st1, branches, derivs, stmts1, list1, lo2, attr, dv, src, unknown, k),
        exprs_wf(st1),
        exprs_wf(st2),
        st1.reals.is_prefix_of(st2.reals),
        src < st1.reals.len(),
        stmts1.is_prefix_of(stmts2),
        list1.is_prefix_of(list2),
        lo1 <= lo2,
    ensures
        produced_at(st2, branches, derivs, stmts2, list2, lo1, attr, dv, src, unknown, k),
{
    broadcast use lemma_prefix_index;

    assert(list2[k] == list1[k]);
    assert(stmts2[list1[k] as int] == stmts1[list1[k] as int]);
    match stmts1[list1[k] as int] {
        Statement::Assignment(a, v, e) => match e {
            ExpressionId::Real(dd) => {
                lemma_is_pd_grow(st1, st2, branches, derivs, src as int, unknown, dd as int);
            },
            _ => {},
        },
        Statement::Call(_) => {},
    }
}

/// Settled pairs stay settled when the arenas, the statement list and the
/// handle list grow at the end, the freshness bound weakens, and the
/// baseline arena the right-hand side was read in is exchanged for one
/// agreeing on it.
proof fn lemma_settled_extend<F: DerivativeFilter>(
    stmts0a: Seq<Statement>,
    stmts0b: Seq<Statement>,
    ea: ExprView,
    eb: ExprView,
    branches: Seq<(NetId, NetId)>,
    derivs: Seq<DerivativeEntry>,
    filter: &F,
    sid: StatementId,
    st1: ExprView,
    st2: ExprView,
    stmts1: Seq<Statement>,
    stmts2: Seq<Statement>,
    list1: Seq<StatementId>,
    list2: Seq<StatementId>,
    lo1: int,
    lo2: int,
)
    requires
        pairs_settled(stmts0a, ea, branches, derivs, filter, sid, st1, stmts1, list1, lo2),
        sid < stmts0a.len(),
        sid < stmts0b.len(),
        stmts0b[sid as int] == stmts0a[sid as int],
        exprs_wf(ea),
        exprs_wf(eb),
        ea.reals.is_prefix_of(eb.reals) || eb.reals.is_prefix_of(ea.reals),
        (match stmts0a[sid as int] {
            Statement::Assignment(_, _, e) => match e {
                ExpressionId::Real(src) => src < ea.reals.len() && src < eb.reals.len() && src
                    < st1.reals.len(),
                _ => true,
            },
            Statement::Call(_) => true,
        }),
        exprs_wf(st1),
        exprs_wf(st2),
        st1.reals.is_prefix_of(st2.reals),
        st1.next_ord <= st2.next_ord,
        stmts1.is_prefix_of(stmts2),
        list1.is_prefix_of(list2),
        lo1 <= lo2,
    ensures
        pairs_settled(stmts0b, eb, branches, derivs, filter, sid, st2, stmts2, list2, lo1),
{
    broadcast use lemma_prefix_index;

    match stmts0a[sid as int] {
        Statement::Assignment(attr, var, e) => match e {
            ExpressionId::Real(src) => {
                if ea.reals.is_prefix_of(eb.reals) {
                    lemma_differentiable_grow(ea, eb, branches, src as int);
                } else {
                    lemma_differentiable_grow(eb, ea, branches, src as int);
                }
                match entry_ix_from(derivs, var, 0) {
                    Some(ix) => {
                        let ts = derivs[ix].targets@;
                        let pos = choose|pos: Seq<int>|
                            #[trigger] settled_positions(
                                ea,
                                branches,
                                derivs,
                                filter,
                                sid,
                                var,
                                attr,
                                src,
                                ts,
                                st1,
                                stmts1,
                                list1,
                                lo2,
                                pos,
                            );
                        assert forall|j: int|
                            0 <= j < ts.len() && filter.accept_spec(
                                var,
                                sid,
                                (#[trigger] ts[j]).0,
                            ) implies produced_at(
                            st2,
                            branches,
                            derivs,
                            stmts2,
                            list2,
                            lo1,
                            attr,
                            ts[j].1,
                            src,
                            ts[j].0,
                            pos[j],
                        ) || (pos[j] == -1 && (!differentiable(eb, branches, src as int)
                            || arenas_full(st2, stmts2.len() as int))) by {
                            if produced_at(
                                st1,
                                branches,
                                derivs,
                                stmts1,
                                list1,
                                lo2,
                                attr,
                                ts[j].1,
                                src,
                                ts[j].0,
                                pos[j],
                            ) {
                                lemma_produced_at_grow(
                                    st1,
                                    st2,
                                    branches,
                                    derivs,
                                    stmts1,
                                    stmts2,
                                    list1,
                                    list2,
                                    lo1,
                                    lo2,
                                    attr,
                                    ts[j].1,
                                    src,
                                    ts[j].0,
                                    pos[j],
                                );
                            }
                        }
                        assert(settled_positions(
                            eb,
                            branches,
                            derivs,
                            filter,
                            sid,
                            var,
                            attr,
                            src,
                            ts,
                            st2,
                            stmts2,
                            list2,
                            lo1,
                            pos,
                        ));
                    },
                    None => {},
                }
            },
            _ => {},
        },
        Statement::Call(_) => {},
    }
}

/// A derived-from link survives when the arenas and the statement list
/// grow at the end.
proof fn lemma_derived_grow<F: DerivativeFilter>(
    st1: ExprView,
    st2: ExprView,
    branches: Seq<(NetId, NetId)>,
    derivs: Seq<DerivativeEntry>,
    stmts1: Seq<Statement>,
    stmts2: Seq<Statement>,
    filter: &F,
    src: StatementId,
    out: StatementId,
)
    requires
        derived_from(st1, branches, derivs, stmts1, filter, src, out),
        exprs_wf(st1),
        exprs_wf(st2),
        st1.reals.is_prefix_of(st2.reals),
        stmts_wf(stmts1, st1),
        stmts1.is_prefix_of(stmts2),
    ensures
        derived_from(st2, branches, derivs, stmts2, filter, src, out),
{
    broadcast use lemma_prefix_index;

    assert(stmts2[src as int] == stmts1[src as int]);
    assert(stmts2[out as int] == stmts1[out as int]);
    match (stmts1[src as int], stmts1[out as int]) {
        (
            Statement::Assignment(a0, var, ExpressionId::Real(e0)),
            Statement::Assignment(a1, dv, ExpressionId::Real(dd)),
        ) => {
            let (ix, j) = choose|ix: int, j: int|
                entry_ix_from(derivs, var, 0) == Some(ix) && 0 <= j
                    < derivs[ix].targets@.len() && (#[trigger] derivs[ix].targets@[j]).1 == dv
                    && filter.accept_spec(var, src, derivs[ix].targets@[j].0) && is_pd(
                    st1,
                    branches,
                    derivs,
                    e0 as int,
                    derivs[ix].targets@[j].0,
                    dd as int,
                );
            lemma_is_pd_grow(st1, st2, branches, derivs, e0 as int, derivs[ix].targets@[j].0, dd as int);
        },
        _ => {},
    }
}

/// The element at position `k` of `list` is derived, via an accepted
/// registered pair, from `stmt` or from an element of `list` standing at
/// a position in `[lo, k)`: the provenance every appended derivative
/// statement carries.
pub open spec fn provenance_ok<F: DerivativeFilter>(
    st: ExprView,
    branches: Seq<(NetId, NetId)>,
    derivs: Seq<DerivativeEntry>,
    stmts: Seq<Statement>,
    filter: &F,
    stmt: StatementId,
    lo: int,
    list: Seq<StatementId>,
    k: int,
) -> bool {
    exists|src: StatementId|
        (src == stmt || exists|k2: int| lo <= k2 < k && list[k2] == src) && derived_from(
            st,
            branches,
            derivs,
            stmts,
            filter,
            src,
            list[k],
        )
}

/// Provenance survives when the arenas and the statement list grow at the
/// end and the list grows at the end.
proof fn lemma_provenance_grow<F: DerivativeFilter>(
    st1: ExprView,
    st2: ExprView,
    branches: Seq<(NetId, NetId)>,
    derivs: Seq<DerivativeEntry>,
    stmts1: Seq<Statement>,
    stmts2: Seq<Statement>,
    filter: &F,
    stmt: StatementId,
    lo: int,
    list1: Seq<StatementId>,
    list2: Seq<StatementId>,
    k: int,
)
    requires
        provenance_ok(st1, branches, derivs, stmts1, filter, stmt, lo, list1, k),
        exprs_wf(st1),
        exprs_wf(st2),
        st1.reals.is_prefix_of(st2.reals),
        stmts_wf(stmts1, st1),
        stmts1.is_prefix_of(stmts2),
        list1.is_prefix_of(list2),
        0 <= lo,
        0 <= k < list1.len(),
    ensures
        provenance_ok(st2, branches, derivs, stmts2, filter, stmt, lo, list2, k),
{
    broadcast use lemma_prefix_index;

    let src = choose|src: StatementId|
        (src == stmt || exists|k2: int| lo <= k2 < k && list1[k2] == src) && derived_from(
            st1,
            branches,
            derivs,
            stmts1,
            filter,
            src,
            list1[k],
        );
    lemma_derived_grow(st1, st2, branches, derivs, stmts1, stmts2, filter, src, list1[k]);
    if src != stmt {
        let k2 = choose|k2: int| lo <= k2 < k && list1[k2] == src;
        assert(list2[k2] == src);
    }
    assert((src == stmt || exists|k2: int| lo <= k2 < k && list2[k2] == src) && derived_from(
        st2,
        branches,
        derivs,
        stmts2,
        filter,
        src,
        list2[k],
    ));
}

/// Provenance relative to an appended statement, which itself stands in
/// the list just below the sub-range, widens to provenance relative to
/// the statement that appended it.
proof fn lemma_provenance_widen<F: DerivativeFilter>(
    st: ExprView,
    branches: Seq<(NetId, NetId)>,
    derivs: Seq<DerivativeEntry>,
    stmts: Seq<Statement>,
    filter: &F,
    stmt: StatementId,
    substmt: StatementId,
    lo: int,
    sublo: int,
    list: Seq<StatementId>,
    k: int,
)
    requires
        provenance_ok(st, branches, derivs, stmts, filter, substmt, sublo, list, k),
        0 <= lo <= sublo - 1 < k < list.len(),
        list[sublo - 1] == substmt,
    ensures
        provenance_ok(st, branches, derivs, stmts, filter, stmt, lo, list, k),
{
    let src = choose|src: StatementId|
        (src == substmt || exists|k2: int| sublo <= k2 < k && list[k2] == src) && derived_from(
            st,
            branches,
            derivs,
            stmts,
            filter,
            src,
            list[k],
        );
    if src == substmt {
        assert(lo <= sublo - 1 < k && list[sublo - 1] == src);
    } else {
        let k2 = choose|k2: int| sublo <= k2 < k && list[k2] == src;
        assert(lo <= k2 < k && list[k2] == src);
    }
    assert((src == stmt || exists|k2: int| lo <= k2 < k && list[k2] == src) && derived_from(
        st,
        branches,
        derivs,
        stmts,
        filter,
        src,
        list[k],
    ));
}

/// The element at position `k` of `list` is derived, via an accepted
/// registered pair, from an element standing earlier in the same list:
/// how a block's statement list reads after the pass, each addition
/// placed after the statement it differentiates.
pub open spec fn block_provenance_ok<F: DerivativeFilter>(
    st: ExprView,
    branches: Seq<(NetId, NetId)>,
    derivs: Seq<DerivativeEntry>,
    stmts: Seq<Statement>,
    filter: &F,
    list: Seq<StatementId>,
    k: int,
) -> bool {
    exists|q: int|
        0 <= q < k && derived_from(st, branches, derivs, stmts, filter, list[q], list[k])
}

/// Block provenance survives when the arenas and the statement list grow
/// at the end and the list grows at the end.
proof fn lemma_block_provenance_grow<F: DerivativeFilter>(
    st1: ExprView,
    st2: ExprView,
    branches: Seq<(NetId, NetId)>,
    derivs: Seq<DerivativeEntry>,
    stmts1: Seq<Statement>,
    stmts2: Seq<Statement>,
    filter: &F,
    list1: Seq<StatementId>,
    list2: Seq<StatementId>,
    k: int,
)
    requires
        block_provenance_ok(st1, branches, derivs, stmts1, filter, list1, k),
        exprs_wf(st1),
        exprs_wf(st2),
        st1.reals.is_prefix_of(st2.reals),
        stmts_wf(stmts1, st1),
        stmts1.is_prefix_of(stmts2),
        list1.is_prefix_of(list2),
        0 <= k < list1.len(),
    ensures
        block_provenance_ok(st2, branches, derivs, stmts2, filter, list2, k),
{
    broadcast use lemma_prefix_index;

    let q = choose|q: int|
        0 <= q < k && derived_from(st1, branches, derivs, stmts1, filter, list1[q], list1[k]);
    lemma_derived_grow(st1, st2, branches, derivs, stmts1, stmts2, filter, list1[q], list1[k]);
    assert(0 <= q < k && derived_from(st2, branches, derivs, stmts2, filter, list2[q], list2[k]));
}

/// Provenance within an appended range, whose anchor statement stands in
/// the list just below it, gives block provenance.
proof fn lemma_block_provenance_from_stmt<F: DerivativeFilter>(
    st: ExprView,
    branches: Seq<(NetId, NetId)>,
    derivs: Seq<DerivativeEntry>,
    stmts: Seq<Statement>,
    filter: &F,
    stmt: StatementId,
    lo: int,
    list: Seq<StatementId>,
    k: int,
)
    requires
        provenance_ok(st, branches, derivs, stmts, filter, stmt, lo, list, k),
        0 < lo <= k < list.len(),
        list[lo - 1] == stmt,
    ensures
        block_provenance_ok(st, branches, derivs, stmts, filter, list, k),
{
    let src = choose|src: StatementId|
        (src == stmt || exists|k2: int| lo <= k2 < k && list[k2] == src) && derived_from(
            st,
            branches,
            derivs,
            stmts,
            filter,
            src,
            list[k],
        );
    if src == stmt {
        assert(0 <= lo - 1 < k && derived_from(
            st,
            branches,
            derivs,
            stmts,
            filter,
            list[lo - 1],
            list[k],
        ));
    } else {
        let k2 = choose|k2: int| lo <= k2 < k && list[k2] == src;
        assert(0 <= k2 < k && derived_from(
            st,
            branches,
            derivs,
            stmts,
            filter,
            list[k2],
            list[k],
        ));
    }
}

/// Position `p` is where the map `m` placed some original statement.
pub open spec fn in_positions(m: Seq<int>, p: int) -> bool {
    exists|i: int| 0 <= i < m.len() && #[trigger] m[i] == p
}

/// The element at position `p` of `list` is derived from an element at an
/// earlier position `q`, with no original statement's position strictly
/// between `q` and `p`: the addition stands in the gap that opens
/// immediately after the statement it was generated for.
pub open spec fn gap_derived<F: DerivativeFilter>(
    st: ExprView,
    branches: Seq<(NetId, NetId)>,
    derivs: Seq<DerivativeEntry>,
    stmts: Seq<Statement>,
    filter: &F,
    m: Seq<int>,
    list: Seq<StatementId>,
    p: int,
) -> bool {
    exists|q: int|
        0 <= q < p && (forall|i: int| 0 <= i < m.len() ==> !(q < #[trigger] m[i] && m[i] <= p))
            && derived_from(st, branches, derivs, stmts, filter, list[q], list[p])
}

/// A gap-placed derivation survives when the arenas and the statement
/// list grow, the list grows at the end, and the position map gains only
/// entries beyond `p`.
proof fn lemma_gap_derived_grow<F: DerivativeFilter>(
    st1: ExprView,
    st2: ExprView,
    branches: Seq<(NetId, NetId)>,
    derivs: Seq<DerivativeEntry>,
    stmts1: Seq<Statement>,
    stmts2: Seq<Statement>,
    filter: &F,
    m1: Seq<int>,
    m2: Seq<int>,
    list1: Seq<StatementId>,
    list2: Seq<StatementId>,
    p: int,
)
    requires
        gap_derived(st1, branches, derivs, stmts1, filter, m1, list1, p),
        exprs_wf(st1),
        exprs_wf(st2),
        st1.reals.is_prefix_of(st2.reals),
        stmts_wf(stmts1, st1),
        stmts1.is_prefix_of(stmts2),
        list1.is_prefix_of(list2),
        0 <= p < list1.len(),
        m1.is_prefix_of(m2),
        forall|i: int| m1.len() <= i < m2.len() ==> #[trigger] m2[i] > p,
    ensures
        gap_derived(st2, branches, derivs, stmts2, filter, m2, list2, p),
{
    broadcast use lemma_prefix_index;

    let q = choose|q: int|
        0 <= q < p && (forall|i: int| 0 <= i < m1.len() ==> !(q < #[trigger] m1[i] && m1[i] <= p))
            && derived_from(st1, branches, derivs, stmts1, filter, list1[q], list1[p]);
    lemma_derived_grow(st1, st2, branches, derivs, stmts1, stmts2, filter, list1[q], list1[p]);
    assert forall|i: int| 0 <= i < m2.len() implies !(q < #[trigger] m2[i] && m2[i] <= p) by {
        if i < m1.len() {
            assert(m2[i] == m1[i]);
        }
    }
    assert(0 <= q < p && (forall|i: int| 0 <= i < m2.len() ==> !(q < #[trigger] m2[i] && m2[i]
        <= p)) && derived_from(st2, branches, derivs, stmts2, filter, list2[q], list2[p]));
}

/// Provenance within an appended range, whose anchor stands in the list
/// just below it and at or after every mapped original position, is
/// gap-placed.
proof fn lemma_gap_from_provenance<F: DerivativeFilter>(
    st: ExprView,
    branches: Seq<(NetId, NetId)>,
    derivs: Seq<DerivativeEntry>,
    stmts: Seq<Statement>,
    filter: &F,
    stmt: StatementId,
    lo: int,
    m: Seq<int>,
    list: Seq<StatementId>,
    p: int,
)
    requires
        provenance_ok(st, branches, derivs, stmts, filter, stmt, lo, list, p),
        0 < lo <= p < list.len(),
        list[lo - 1] == stmt,
        forall|i: int| 0 <= i < m.len() ==> #[trigger] m[i] <= lo - 1,
    ensures
        gap_derived(st, branches, derivs, stmts, filter, m, list, p),
{
    let src = choose|src: StatementId|
        (src == stmt || exists|k2: int| lo <= k2 < p && list[k2] == src) && derived_from(
            st,
            branches,
            derivs,
            stmts,
            filter,
            src,
            list[p],
        );
    if src == stmt {
        let q = lo - 1;
        assert(0 <= q < p && (forall|i: int| 0 <= i < m.len() ==> !(q < #[trigger] m[i] && m[i]
            <= p)) && derived_from(st, branches, derivs, stmts, filter, list[q], list[p]));
    } else {
        let q = choose|k2: int| lo <= k2 < p && list[k2] == src;
        assert(0 <= q < p && (forall|i: int| 0 <= i < m.len() ==> !(q < #[trigger] m[i] && m[i]
            <= p)) && derived_from(st, branches, derivs, stmts, filter, list[q], list[p]));
    }
}

/// How a block's statement list reads after the pass: some strictly
/// increasing position map carries every original statement, in order, to
/// an equal element of the new list, and every other element is derived,
/// via an accepted registered pair, from an element in the same gap — it
/// stands after the statement it was generated for and before the next
/// original statement.
pub open spec fn block_layout<F: DerivativeFilter>(
    st: ExprView,
    branches: Seq<(NetId, NetId)>,
    derivs: Seq<DerivativeEntry>,
    stmts: Seq<Statement>,
    filter: &F,
    a: Seq<StatementId>,
    b: Seq<StatementId>,
) -> bool {
    exists|m: Seq<int>|
        #![trigger m.len()]
        m.len() == a.len() && (forall|i: int|
            0 <= i < a.len() ==> 0 <= #[trigger] m[i] < b.len() && b[m[i]] == a[i]) && (forall|
            i: int,
            j: int,
        |
            0 <= i < j < a.len() ==> m[i] < m[j]) && (forall|p: int|
            0 <= p < b.len() && !(#[trigger] in_positions(m, p)) ==> gap_derived(
                st,
                branches,
                derivs,
                stmts,
                filter,
                m,
                b,
                p,
            ))
}

/// A block layout survives when the arenas and the statement list grow at
/// the end.
proof fn lemma_block_layout_grow<F: DerivativeFilter>(
    st1: ExprView,
    st2: ExprView,
    branches: Seq<(NetId, NetId)>,
    derivs: Seq<DerivativeEntry>,
    stmts1: Seq<Statement>,
    stmts2: Seq<Statement>,
    filter: &F,
    a: Seq<StatementId>,
    b: Seq<StatementId>,
)
    requires
        block_layout(st1, branches, derivs, stmts1, filter, a, b),
        exprs_wf(st1),
        exprs_wf(st2),
        st1.reals.is_prefix_of(st2.reals),
        stmts_wf(stmts1, st1),
        stmts1.is_prefix_of(stmts2),
    ensures
        block_layout(st2, branches, derivs, stmts2, filter, a, b),
{
    let m = choose|m: Seq<int>|
        #![trigger m.len()]
        m.len() == a.len() && (forall|i: int|
            0 <= i < a.len() ==> 0 <= #[trigger] m[i] < b.len() && b[m[i]] == a[i]) && (forall|
            i: int,
            j: int,
        |
            0 <= i < j < a.len() ==> m[i] < m[j]) && (forall|p: int|
            0 <= p < b.len() && !(#[trigger] in_positions(m, p)) ==> gap_derived(
                st1,
                branches,
                derivs,
                stmts1,
                filter,
                m,
                b,
                p,
            ));
    assert(b =~= b.take(b.len() as int));
    assert(m =~= m.take(m.len() as int));
    assert forall|p: int| 0 <= p < b.len() && !in_positions(m, p) implies gap_derived(
        st2,
        branches,
        derivs,
        stmts2,
        filter,
        m,
        b,
        p,
    ) by {
        lemma_gap_derived_grow(
            st1,
            st2,
            branches,
            derivs,
            stmts1,
            stmts2,
            filter,
            m,
            m,
            b,
            b,
            p,
        );
    }
}

/// A present failure cause survives when the arenas and the statement
/// list grow at the end.
proof fn lemma_failure_grow(
    st1: ExprView,
    st2: ExprView,
    branches: Seq<(NetId, NetId)>,
    stmts1: Seq<Statement>,
    stmts2: Seq<Statement>,
)
    requires
        failure_present(st1, branches, stmts1),
        exprs_wf(st1),
        exprs_wf(st2),
        st1.reals.is_prefix_of(st2.reals),
        st1.next_ord <= st2.next_ord,
        stmts1.is_prefix_of(stmts2),
    ensures
        failure_present(st2, branches, stmts2),
{
    broadcast use lemma_prefix_index;

    if !arenas_full(st1, stmts1.len() as int) {
        let s = choose|s: int|
            0 <= s < stmts1.len() && match #[trigger] stmts1[s] {
                Statement::Assignment(_, _, e) => match e {
                    ExpressionId::Real(re) => re < st1.reals.len() && !differentiable(
                        st1,
                        branches,
                        re as int,
                    ),
                    _ => false,
                },
                Statement::Call(_) => false,
            };
        assert(stmts2[s] == stmts1[s]);
        match stmts1[s] {
            Statement::Assignment(_, _, e) => match e {
                ExpressionId::Real(re) => {
                    lemma_differentiable_grow(st1, st2, branches, re as int);
                },
                _ => {},
            },
            Statement::Call(_) => {},
        }
    }
}

/// The expression holds only constructs the differentiation pass has a
/// rule for, with every potential access naming a resolved branch.
pub open spec fn differentiable(st: ExprView, branches: Seq<(NetId, NetId)>, e: int) -> bool
    decreases st.reals[e].ord,
    when exprs_wf(st) && 0 <= e < st.reals.len()
    via differentiable_decreases
{
    match st.reals[e].contents {
        RealExpression::Literal(_) => true,
        RealExpression::VariableReference(_) => true,
        RealExpression::ParameterReference(_) => true,
        RealExpression::BranchAccess(access, b, _) => match access {
            DisciplineAccess::Potential => b < branches.len(),
            DisciplineAccess::Flow => true,
        },
        RealExpression::Negate(a) => differentiable(st, branches, a as int),
        RealExpression::BinaryOperator(l, op, rr) => (op == RealBinaryOperator::Sum || op
            == RealBinaryOperator::Subtract || op == RealBinaryOperator::Multiply || op
            == RealBinaryOperator::Divide) && differentiable(st, branches, l as int)
            && differentiable(st, branches, rr as int),
        RealExpression::Condition(_, t, f) => differentiable(st, branches, t as int)
            && differentiable(st, branches, f as int),
        RealExpression::BuiltInFunctionCall1p(call, a) => (call == BuiltInFunctionCall1p::Sin
            || call == BuiltInFunctionCall1p::Cos || call == BuiltInFunctionCall1p::Exp || call
            == BuiltInFunctionCall1p::Ln || call == BuiltInFunctionCall1p::Sqrt)
            && differentiable(st, branches, a as int),
        RealExpression::Temperature => true,
        RealExpression::IntegerConversion(_) => true,
        RealExpression::Noise(_, _) => false,
        RealExpression::SimParam(_, _) => false,
        RealExpression::BuiltInFunctionCall2p(_, _, _) => false,
    }
}

#[via_fn]
proof fn differentiable_decreases(st: ExprView, branches: Seq<(NetId, NetId)>, e: int) {
    assert(real_contents_wf(st, st.reals[e].contents, st.reals[e].ord));
}

/// Appending nodes to the arenas does not change whether an existing node
/// is differentiable.
pub broadcast proof fn lemma_differentiable_grow(
    a: ExprView,
    b: ExprView,
    branches: Seq<(NetId, NetId)>,
    e: int,
)
    requires
        exprs_wf(a),
        exprs_wf(b),
        #[trigger] a.reals.is_prefix_of(b.reals),
        0 <= e < a.reals.len(),
    ensures
        #[trigger] differentiable(b, branches, e) == differentiable(a, branches, e),
    decreases a.reals[e].ord,
{
    broadcast use lemma_prefix_index;

    assert(real_contents_wf(a, a.reals[e].contents, a.reals[e].ord));
    assert(b.reals[e] == a.reals[e]);
    match a.reals[e].contents {
        RealExpression::Negate(x) => {
            lemma_differentiable_grow(a, b, branches, x as int);
        },
        RealExpression::BinaryOperator(l, _, rr) => {
            lemma_differentiable_grow(a, b, branches, l as int);
            lemma_differentiable_grow(a, b, branches, rr as int);
        },
        RealExpression::Condition(_, t, f) => {
            lemma_differentiable_grow(a, b, branches, t as int);
            lemma_differentiable_grow(a, b, branches, f as int);
        },
        RealExpression::BuiltInFunctionCall1p(_, x) => {
            lemma_differentiable_grow(a, b, branches, x as int);
        },
        _ => {},
    }
}

/// `d` is the symbolic partial derivative of `e` with respect to
/// `unknown`, node for node: linearity of sum and difference, the
/// product, quotient and chain rules, the trigonometric, exponential,
/// logarithm and square-root rules, and the leaf rules for literals,
/// variables, parameters, branch accesses and temperature.
pub open spec fn is_pd(
    st: ExprView,
    branches: Seq<(NetId, NetId)>,
    derivs: Seq<DerivativeEntry>,
    e: int,
    unknown: Unknown,
    d: int,
) -> bool
    decreases st.reals[e].ord,
    when exprs_wf(st) && 0 <= e < st.reals.len()
    via is_pd_decreases
{
    0 <= d < st.reals.len() && match st.reals[e].contents {
        RealExpression::Literal(_) => st.reals[d].contents == RealExpression::Literal(ZERO_BITS),
        RealExpression::VariableReference(v) => st.reals[d].contents == (match var_deriv_of(
            derivs,
            v,
            unknown,
        ) {
            Some(dv) => RealExpression::VariableReference(dv),
            None => RealExpression::Literal(ZERO_BITS),
        }),
        RealExpression::ParameterReference(p) => st.reals[d].contents == RealExpression::Literal(
            if unknown == Unknown::Parameter(p) {
                ONE_BITS
            } else {
                ZERO_BITS
            },
        ),
        RealExpression::BranchAccess(access, b, _) => match access {
            DisciplineAccess::Potential => b < branches.len() && st.reals[d].contents
                == RealExpression::Literal(
                access_sign(branches[b as int].0, branches[b as int].1, unknown),
            ),
            DisciplineAccess::Flow => st.reals[d].contents == RealExpression::Literal(
                if unknown == Unknown::Flow(b) {
                    ONE_BITS
                } else {
                    ZERO_BITS
                },
            ),
        },
        RealExpression::Negate(a) => match st.reals[d].contents {
            RealExpression::Negate(da) => is_pd(st, branches, derivs, a as int, unknown, da as int),
            _ => false,
        },
        RealExpression::BinaryOperator(l, op, rr) => match op {
            RealBinaryOperator::Sum | RealBinaryOperator::Subtract => match st.reals[d].contents {
                RealExpression::BinaryOperator(dl, dop, dr) => dop == op && is_pd(
                    st,
                    branches,
                    derivs,
                    l as int,
                    unknown,
                    dl as int,
                ) && is_pd(st, branches, derivs, rr as int, unknown, dr as int),
                _ => false,
            },
            RealBinaryOperator::Multiply => match st.reals[d].contents {
                RealExpression::BinaryOperator(m1, dop, m2) => dop == RealBinaryOperator::Sum && m1
                    < st.reals.len() && m2 < st.reals.len() && match (
                    st.reals[m1 as int].contents,
                    st.reals[m2 as int].contents,
                ) {
                    (
                        RealExpression::BinaryOperator(dl, o1, r1),
                        RealExpression::BinaryOperator(l1, o2, dr),
                    ) => o1 == RealBinaryOperator::Multiply && o2 == RealBinaryOperator::Multiply
                        && r1 == rr && l1 == l && is_pd(
                        st,
                        branches,
                        derivs,
                        l as int,
                        unknown,
                        dl as int,
                    ) && is_pd(st, branches, derivs, rr as int, unknown, dr as int),
                    _ => false,
                },
                _ => false,
            },
            RealBinaryOperator::Divide => match st.reals[d].contents {
                RealExpression::BinaryOperator(num, dop, den) => dop == RealBinaryOperator::Divide
                    && num < st.reals.len() && den < st.reals.len() && match (
                    st.reals[num as int].contents,
                    st.reals[den as int].contents,
                ) {
                    (
                        RealExpression::BinaryOperator(m1, o1, m2),
                        RealExpression::BinaryOperator(r1, o2, r2),
                    ) => o1 == RealBinaryOperator::Subtract && o2 == RealBinaryOperator::Multiply
                        && r1 == rr && r2 == rr && m1 < st.reals.len() && m2 < st.reals.len()
                        && match (st.reals[m1 as int].contents, st.reals[m2 as int].contents) {
                        (
                            RealExpression::BinaryOperator(dl, o3, rr1),
                            RealExpression::BinaryOperator(l1, o4, dr),
                        ) => o3 == RealBinaryOperator::Multiply && o4
                            == RealBinaryOperator::Multiply && rr1 == rr && l1 == l && is_pd(
                            st,
                            branches,
                            derivs,
                            l as int,
                            unknown,
                            dl as int,
                        ) && is_pd(st, branches, derivs, rr as int, unknown, dr as int),
                        _ => false,
                    },
                    _ => false,
                },
                _ => false,
            },
            _ => false,
        },
        RealExpression::Condition(c0, t, f) => match st.reals[d].contents {
            RealExpression::Condition(dc, dt, df) => dc == c0 && is_pd(
                st,
                branches,
                derivs,
                t as int,
                unknown,
                dt as int,
            ) && is_pd(st, branches, derivs, f as int, unknown, df as int),
            _ => false,
        },
        RealExpression::BuiltInFunctionCall1p(call, a) => match call {
            BuiltInFunctionCall1p::Sin => match st.reals[d].contents {
                RealExpression::BinaryOperator(ca, dop, da) => dop == RealBinaryOperator::Multiply
                    && ca < st.reals.len() && st.reals[ca as int].contents
                    == RealExpression::BuiltInFunctionCall1p(BuiltInFunctionCall1p::Cos, a)
                    && is_pd(st, branches, derivs, a as int, unknown, da as int),
                _ => false,
            },
            BuiltInFunctionCall1p::Cos => match st.reals[d].contents {
                RealExpression::Negate(m) => m < st.reals.len() && match st.reals[m as int].contents {
                    RealExpression::BinaryOperator(sa, dop, da) => dop
                        == RealBinaryOperator::Multiply && sa < st.reals.len()
                        && st.reals[sa as int].contents == RealExpression::BuiltInFunctionCall1p(
                        BuiltInFunctionCall1p::Sin,
                        a,
                    ) && is_pd(st, branches, derivs, a as int, unknown, da as int),
                    _ => false,
                },
                _ => false,
            },
            BuiltInFunctionCall1p::Exp => match st.reals[d].contents {
                RealExpression::BinaryOperator(ea, dop, da) => dop == RealBinaryOperator::Multiply
                    && ea < st.reals.len() && st.reals[ea as int].contents
                    == RealExpression::BuiltInFunctionCall1p(BuiltInFunctionCall1p::Exp, a)
                    && is_pd(st, branches, derivs, a as int, unknown, da as int),
                _ => false,
            },
            BuiltInFunctionCall1p::Ln => match st.reals[d].contents {
                RealExpression::BinaryOperator(da, dop, a1) => dop == RealBinaryOperator::Divide
                    && a1 == a && is_pd(st, branches, derivs, a as int, unknown, da as int),
                _ => false,
            },
            BuiltInFunctionCall1p::Sqrt => match st.reals[d].contents {
                RealExpression::BinaryOperator(da, dop, den) => dop == RealBinaryOperator::Divide
                    && den < st.reals.len() && match st.reals[den as int].contents {
                    RealExpression::BinaryOperator(two, o2, sq) => o2
                        == RealBinaryOperator::Multiply && two < st.reals.len() && sq
                        < st.reals.len() && st.reals[two as int].contents
                        == RealExpression::Literal(TWO_BITS) && st.reals[sq as int].contents
                        == RealExpression::BuiltInFunctionCall1p(BuiltInFunctionCall1p::Sqrt, a)
                        && is_pd(st, branches, derivs, a as int, unknown, da as int),
                    _ => false,
                },
                _ => false,
            },
            _ => false,
        },
        RealExpression::Temperature => st.reals[d].contents == RealExpression::Literal(ZERO_BITS),
        RealExpression::IntegerConversion(_) => st.reals[d].contents == RealExpression::Literal(
            ZERO_BITS,
        ),
        RealExpression::Noise(_, _) => false,
        RealExpression::SimParam(_, _) => false,
        RealExpression::BuiltInFunctionCall2p(_, _, _) => false,
    }
}

#[via_fn]
proof fn is_pd_decreases(
    st: ExprView,
    branches: Seq<(NetId, NetId)>,
    derivs: Seq<DerivativeEntry>,
    e: int,
    unknown: Unknown,
    d: int,
) {
    assert(real_contents_wf(st, st.reals[e].contents, st.reals[e].ord));
}

/// A symbolic derivative stays one when the real arena grows at the end.
proof fn lemma_is_pd_grow(
    a: ExprView,
    b: ExprView,
    branches: Seq<(NetId, NetId)>,
    derivs: Seq<DerivativeEntry>,
    e: int,
    unknown: Unknown,
    d: int,
)
    requires
        exprs_wf(a),
        exprs_wf(b),
        a.reals.is_prefix_of(b.reals),
        0 <= e < a.reals.len(),
        is_pd(a, branches, derivs, e, unknown, d),
    ensures
        is_pd(b, branches, derivs, e, unknown, d),
    decreases a.reals[e].ord,
{
    broadcast use lemma_prefix_index;

    assert(real_contents_wf(a, a.reals[e].contents, a.reals[e].ord));
    assert(b.reals[e] == a.reals[e]);
    assert(b.reals[d] == a.reals[d]);
    match a.reals[e].contents {
        RealExpression::Negate(x) => {
            match a.reals[d].contents {
                RealExpression::Negate(da) => {
                    lemma_is_pd_grow(a, b, branches, derivs, x as int, unknown, da as int);
                },
                _ => {},
            }
        },
        RealExpression::BinaryOperator(l, op, rr) => {
            match op {
                RealBinaryOperator::Sum | RealBinaryOperator::Subtract => {
                    match a.reals[d].contents {
                        RealExpression::BinaryOperator(dl, _, dr) => {
                            lemma_is_pd_grow(a, b, branches, derivs, l as int, unknown, dl as int);
                            lemma_is_pd_grow(a, b, branches, derivs, rr as int, unknown, dr as int);
                        },
                        _ => {},
                    }
                },
                RealBinaryOperator::Multiply => {
                    match a.reals[d].contents {
                        RealExpression::BinaryOperator(m1, _, m2) => {
                            if m1 < a.reals.len() && m2 < a.reals.len() {
                                assert(b.reals[m1 as int] == a.reals[m1 as int]);
                                assert(b.reals[m2 as int] == a.reals[m2 as int]);
                                match (a.reals[m1 as int].contents, a.reals[m2 as int].contents) {
                                    (
                                        RealExpression::BinaryOperator(dl, _, _),
                                        RealExpression::BinaryOperator(_, _, dr),
                                    ) => {
                                        lemma_is_pd_grow(a, b, branches, derivs, l as int, unknown, dl as int);
                                        lemma_is_pd_grow(a, b, branches, derivs, rr as int, unknown, dr as int);
                                    },
                                    _ => {},
                                }
                            }
                        },
                        _ => {},
                    }
                },
                RealBinaryOperator::Divide => {
                    match a.reals[d].contents {
                        RealExpression::BinaryOperator(num, _, den) => {
                            if num < a.reals.len() && den < a.reals.len() {
                                assert(b.reals[num as int] == a.reals[num as int]);
                                assert(b.reals[den as int] == a.reals[den as int]);
                                match (a.reals[num as int].contents, a.reals[den as int].contents) {
                                    (
                                        RealExpression::BinaryOperator(m1, _, m2),
                                        RealExpression::BinaryOperator(_, _, _),
                                    ) => {
                                        if m1 < a.reals.len() && m2 < a.reals.len() {
                                            assert(b.reals[m1 as int] == a.reals[m1 as int]);
                                            assert(b.reals[m2 as int] == a.reals[m2 as int]);
                                            match (
                                                a.reals[m1 as int].contents,
                                                a.reals[m2 as int].contents,
                                            ) {
                                                (
                                                    RealExpression::BinaryOperator(dl, _, _),
                                                    RealExpression::BinaryOperator(_, _, dr),
                                                ) => {
                                                    lemma_is_pd_grow(a, b, branches, derivs, l as int, unknown, dl as int);
                                                    lemma_is_pd_grow(a, b, branches, derivs, rr as int, unknown, dr as int);
                                                },
                                                _ => {},
                                            }
                                        }
                                    },
                                    _ => {},
                                }
                            }
                        },
                        _ => {},
                    }
                },
                _ => {},
            }
        },
        RealExpression::Condition(_, t, f) => {
            match a.reals[d].contents {
                RealExpression::Condition(_, dt, df) => {
                    lemma_is_pd_grow(a, b, branches, derivs, t as int, unknown, dt as int);
                    lemma_is_pd_grow(a, b, branches, derivs, f as int, unknown, df as int);
                },
                _ => {},
            }
        },
        RealExpression::BuiltInFunctionCall1p(call, x) => {
            match call {
                BuiltInFunctionCall1p::Sin | BuiltInFunctionCall1p::Exp => {
                    match a.reals[d].contents {
                        RealExpression::BinaryOperator(ca, _, da) => {
                            if ca < a.reals.len() {
                                assert(b.reals[ca as int] == a.reals[ca as int]);
                            }
                            lemma_is_pd_grow(a, b, branches, derivs, x as int, unknown, da as int);
                        },
                        _ => {},
                    }
                },
                BuiltInFunctionCall1p::Cos => {
                    match a.reals[d].contents {
                        RealExpression::Negate(m) => {
                            if m < a.reals.len() {
                                assert(b.reals[m as int] == a.reals[m as int]);
                                match a.reals[m as int].contents {
                                    RealExpression::BinaryOperator(sa, _, da) => {
                                        if sa < a.reals.len() {
                                            assert(b.reals[sa as int] == a.reals[sa as int]);
                                        }
                                        lemma_is_pd_grow(a, b, branches, derivs, x as int, unknown, da as int);
                                    },
                                    _ => {},
                                }
                            }
                        },
                        _ => {},
                    }
                },
                BuiltInFunctionCall1p::Ln => {
                    match a.reals[d].contents {
                        RealExpression::BinaryOperator(da, _, _) => {
                            lemma_is_pd_grow(a, b, branches, derivs, x as int, unknown, da as int);
                        },
                        _ => {},
                    }
                },
                BuiltInFunctionCall1p::Sqrt => {
                    match a.reals[d].contents {
                        RealExpression::BinaryOperator(da, _, den) => {
                            if den < a.reals.len() {
                                assert(b.reals[den as int] == a.reals[den as int]);
                                match a.reals[den as int].contents {
                                    RealExpression::BinaryOperator(two, _, sq) => {
                                        if two < a.reals.len() {
                                            assert(b.reals[two as int] == a.reals[two as int]);
                                        }
                                        if sq < a.reals.len() {
                                            assert(b.reals[sq as int] == a.reals[sq as int]);
                                        }
                                        lemma_is_pd_grow(a, b, branches, derivs, x as int, unknown, da as int);
                                    },
                                    _ => {},
                                }
                            }
                        },
                        _ => {},
                    }
                },
                _ => {},
            }
        },
        _ => {},
    }
}

/// The derivative of reading `var`: the first registered derivative
/// variable for the unknown if there is one, otherwise the read is a
/// constant.
fn var_derivative(d: &Vec<DerivativeEntry>, var: VariableId, unknown: Unknown) -> (r: Option<
    VariableId,
>)
    ensures
        r == var_deriv_of(d@, var, unknown),
{
    let mut i: usize = 0;
    while i < d.len()
        invariant
            i <= d@.len(),
            entry_ix_from(d@, var, 0) == entry_ix_from(d@, var, i as int),
        decreases d@.len() - i,
    {
        if d[i].var == var {
            let ghost ts = d@[i as int].targets@;
            proof {
                assert(entry_ix_from(d@, var, i as int) == Some(i as int));
            }
            let mut j: usize = 0;
            let n = d[i].targets.len();
            while j < n
                invariant
                    j <= n,
                    i < d@.len(),
                    d@[i as int].var == var,
                    entry_ix_from(d@, var, 0) == Some(i as int),
                    ts == d@[i as int].targets@,
                    n == ts.len(),
                    target_ix_from(ts, unknown, 0) == target_ix_from(ts, unknown, j as int),
                decreases n - j,
            {
                if d[i].targets[j].0 == unknown {
                    proof {
                        assert(target_ix_from(ts, unknown, j as int) == Some(j as int));
                        assert(target_ix_from(ts, unknown, 0) == Some(j as int));
                        assert(var_deriv_of(d@, var, unknown) == Some(ts[j as int].1));
                    }
                    return Some(d[i].targets[j].1);
                }
                j += 1;
            }
            return None;
        }
        i += 1;
    }
    None
}

/// The sign of the branch-access derivative: `1` at the high node, `-1` at
/// the low node, `0` elsewhere; a whole branch potential matches the pair
/// in either orientation.
pub open spec fn access_sign(hi: NetId, lo: NetId, unknown: Unknown) -> u64 {
    match unknown {
        Unknown::NodePotential(n) => if n == hi {
            ONE_BITS
        } else if n == lo {
            NEG_ONE_BITS
        } else {
            ZERO_BITS
        },
        Unknown::BranchPotential(h, l) => if h == hi && l == lo {
            ONE_BITS
        } else if h == lo && l == hi {
            NEG_ONE_BITS
        } else {
            ZERO_BITS
        },
        _ => ZERO_BITS,
    }
}

fn exec_access_sign(hi: NetId, lo: NetId, unknown: Unknown) -> (r: u64)
    ensures
        r == access_sign(hi, lo, unknown),
{
    match unknown {
        Unknown::NodePotential(n) => if n == hi {
            ONE_BITS
        } else if n == lo {
            NEG_ONE_BITS
        } else {
            ZERO_BITS
        },
        Unknown::BranchPotential(h, l) => if h == hi && l == lo {
            ONE_BITS
        } else if h == lo && l == hi {
            NEG_ONE_BITS
        } else {
            ZERO_BITS
        },
        _ => ZERO_BITS,
    }
}

/// Builds the symbolic partial derivative of the real expression `e` with
/// respect to `unknown`, appending the derivative's nodes to the real
/// arena. Existing nodes are never touched; the result, on success, is a
/// handle to a freshly appended expression that is the derivative node
/// for node (`is_pd`). Failure is owed only to a construct without a
/// derivative rule or to arena exhaustion, if and only if.
#[verifier::loop_isolation(false)]
#[verifier::rlimit(100)]
pub fn partial_derivative(
    ex: &mut ExprArenas,
    branches: &Vec<(NetId, NetId)>,
    derivs: &Vec<DerivativeEntry>,
    e: RealExprId,
    unknown: Unknown,
) -> (r: Result<RealExprId, DerivativeError>)
    requires
        exprs_wf(old(ex)@),
        e < old(ex)@.reals.len(),
    ensures
        exprs_wf(final(ex)@),
        old(ex)@.reals.is_prefix_of(final(ex)@.reals),
        final(ex)@.ints == old(ex)@.ints,
        final(ex)@.strs == old(ex)@.strs,
        old(ex)@.next_ord <= final(ex)@.next_ord,
        r matches Ok(id) ==> old(ex)@.reals.len() <= id && id < final(ex)@.reals.len(),
        r matches Ok(id) ==> is_pd(final(ex)@, branches@, derivs@, e as int, unknown, id as int),
        r matches Err(err) ==> match err {
            DerivativeError::NotDifferentiable { .. } => !differentiable(
                old(ex)@,
                branches@,
                e as int,
            ),
            DerivativeError::ExpressionLimit { .. } => final(ex)@.reals.len() >= u32::MAX
                || final(ex)@.next_ord >= u32::MAX,
        },
    decreases ex.reals@[e as int].ord,
{
    broadcast use lemma_differentiable_grow, lemma_prefix_index, lemma_prefix_trans;

    let span = ex.reals[e as usize].span;
    let c = ex.reals[e as usize].contents;
    proof {
        assert(real_contents_wf(old(ex)@, c, old(ex)@.reals[e as int].ord));
    }
    match c {
        RealExpression::Literal(_) => {
            let id = push_or_limit(ex, RealExpression::Literal(ZERO_BITS), span)?;
            proof {
                assert(is_pd(ex@, branches@, derivs@, e as int, unknown, id as int));
            }
            Ok(id)
        },
        RealExpression::VariableReference(v) => {
            match var_derivative(derivs, v, unknown) {
                Some(dv) => {
                    let id = push_or_limit(ex, RealExpression::VariableReference(dv), span)?;
                    proof {
                        assert(is_pd(ex@, branches@, derivs@, e as int, unknown, id as int));
                    }
                    Ok(id)
                },
                None => {
                    let id = push_or_limit(ex, RealExpression::Literal(ZERO_BITS), span)?;
                    proof {
                        assert(is_pd(ex@, branches@, derivs@, e as int, unknown, id as int));
                    }
                    Ok(id)
                },
            }
        },
        RealExpression::ParameterReference(p) => {
            let one = match unknown {
                Unknown::Parameter(q) => p == q,
                _ => false,
            };
            let id = if one {
                push_or_limit(ex, RealExpression::Literal(ONE_BITS), span)?
            } else {
                push_or_limit(ex, RealExpression::Literal(ZERO_BITS), span)?
            };
            proof {
                assert(is_pd(ex@, branches@, derivs@, e as int, unknown, id as int));
            }
            Ok(id)
        },
        RealExpression::BranchAccess(access, b, _) => {
            match access {
                DisciplineAccess::Potential => {
                    if (b as usize) < branches.len() {
                        let (hi, lo) = branches[b as usize];
                        let sign = exec_access_sign(hi, lo, unknown);
                        let id = push_or_limit(ex, RealExpression::Literal(sign), span)?;
                        proof {
                            assert(is_pd(ex@, branches@, derivs@, e as int, unknown, id as int));
                        }
                        Ok(id)
                    } else {
                        Err(DerivativeError::NotDifferentiable { span })
                    }
                },
                DisciplineAccess::Flow => {
                    let one = match unknown {
                        Unknown::Flow(b2) => b == b2,
                        _ => false,
                    };
                    let id = if one {
                        push_or_limit(ex, RealExpression::Literal(ONE_BITS), span)?
                    } else {
                        push_or_limit(ex, RealExpression::Literal(ZERO_BITS), span)?
                    };
                    proof {
                        assert(is_pd(ex@, branches@, derivs@, e as int, unknown, id as int));
                    }
                    Ok(id)
                },
            }
        },
        RealExpression::Negate(a) => {
            let da = partial_derivative(ex, branches, derivs, a, unknown)?;
            let ghost st1 = ex@;
            let id = push_or_limit(ex, RealExpression::Negate(da), span)?;
            proof {
                lemma_is_pd_grow(st1, ex@, branches@, derivs@, a as int, unknown, da as int);
                assert(is_pd(ex@, branches@, derivs@, e as int, unknown, id as int));
            }
            Ok(id)
        },
        RealExpression::BinaryOperator(l, op, rr) => {
            match op {
                RealBinaryOperator::Sum | RealBinaryOperator::Subtract => {
                    let dl = partial_derivative(ex, branches, derivs, l, unknown)?;
                    let ghost st1 = ex@;
                    let dr = partial_derivative(ex, branches, derivs, rr, unknown)?;
                    let ghost st2 = ex@;
                    let id = push_or_limit(
                        ex,
                        RealExpression::BinaryOperator(dl, op, dr),
                        span,
                    )?;
                    proof {
                        lemma_is_pd_grow(st1, ex@, branches@, derivs@, l as int, unknown, dl as int);
                        lemma_is_pd_grow(st2, ex@, branches@, derivs@, rr as int, unknown, dr as int);
                        assert(is_pd(ex@, branches@, derivs@, e as int, unknown, id as int));
                    }
                    Ok(id)
                },
                RealBinaryOperator::Multiply => {
                    let dl = partial_derivative(ex, branches, derivs, l, unknown)?;
                    let ghost st1 = ex@;
                    let dr = partial_derivative(ex, branches, derivs, rr, unknown)?;
                    let ghost st2 = ex@;
                    let m1 = push_or_limit(
                        ex,
                        RealExpression::BinaryOperator(dl, RealBinaryOperator::Multiply, rr),
                        span,
                    )?;
                    let ghost st3 = ex@;
                    let m2 = push_or_limit(
                        ex,
                        RealExpression::BinaryOperator(l, RealBinaryOperator::Multiply, dr),
                        span,
                    )?;
                    let ghost st4 = ex@;
                    let id = push_or_limit(
                        ex,
                        RealExpression::BinaryOperator(m1, RealBinaryOperator::Sum, m2),
                        span,
                    )?;
                    proof {
                        lemma_is_pd_grow(st1, ex@, branches@, derivs@, l as int, unknown, dl as int);
                        lemma_is_pd_grow(st2, ex@, branches@, derivs@, rr as int, unknown, dr as int);
                        assert(ex@.reals[m1 as int] == st3.reals[m1 as int]);
                        assert(ex@.reals[m2 as int] == st4.reals[m2 as int]);
                        assert(is_pd(ex@, branches@, derivs@, e as int, unknown, id as int));
                    }
                    Ok(id)
                },
                RealBinaryOperator::Divide => {
                    let dl = partial_derivative(ex, branches, derivs, l, unknown)?;
                    let ghost st1 = ex@;
                    let dr = partial_derivative(ex, branches, derivs, rr, unknown)?;
                    let ghost st2 = ex@;
                    let m1 = push_or_limit(
                        ex,
                        RealExpression::BinaryOperator(dl, RealBinaryOperator::Multiply, rr),
                        span,
                    )?;
                    let ghost st3 = ex@;
                    let m2 = push_or_limit(
                        ex,
                        RealExpression::BinaryOperator(l, RealBinaryOperator::Multiply, dr),
                        span,
                    )?;
                    let ghost st4 = ex@;
                    let num = push_or_limit(
                        ex,
                        RealExpression::BinaryOperator(m1, RealBinaryOperator::Subtract, m2),
                        span,
                    )?;
                    let ghost st5 = ex@;
                    let den = push_or_limit(
                        ex,
                        RealExpression::BinaryOperator(rr, RealBinaryOperator::Multiply, rr),
                        span,
                    )?;
                    let ghost st6 = ex@;
                    let id = push_or_limit(
                        ex,
                        RealExpression::BinaryOperator(num, RealBinaryOperator::Divide, den),
                        span,
                    )?;
                    proof {
                        lemma_is_pd_grow(st1, ex@, branches@, derivs@, l as int, unknown, dl as int);
                        lemma_is_pd_grow(st2, ex@, branches@, derivs@, rr as int, unknown, dr as int);
                        assert(ex@.reals[m1 as int] == st3.reals[m1 as int]);
                        assert(ex@.reals[m2 as int] == st4.reals[m2 as int]);
                        assert(ex@.reals[num as int] == st5.reals[num as int]);
                        assert(ex@.reals[den as int] == st6.reals[den as int]);
                        assert(is_pd(ex@, branches@, derivs@, e as int, unknown, id as int));
                    }
                    Ok(id)
                },
                _ => Err(DerivativeError::NotDifferentiable { span }),
            }
        },
        RealExpression::Condition(c0, t, f) => {
            let dt = partial_derivative(ex, branches, derivs, t, unknown)?;
            let ghost st1 = ex@;
            let df = partial_derivative(ex, branches, derivs, f, unknown)?;
            let ghost st2 = ex@;
            let id = push_or_limit(ex, RealExpression::Condition(c0, dt, df), span)?;
            proof {
                lemma_is_pd_grow(st1, ex@, branches@, derivs@, t as int, unknown, dt as int);
                lemma_is_pd_grow(st2, ex@, branches@, derivs@, f as int, unknown, df as int);
                assert(is_pd(ex@, branches@, derivs@, e as int, unknown, id as int));
            }
            Ok(id)
        },
        RealExpression::BuiltInFunctionCall1p(call, a) => {
            match call {
                BuiltInFunctionCall1p::Sin => {
                    let da = partial_derivative(ex, branches, derivs, a, unknown)?;
                    let ghost st1 = ex@;
                    let ca = push_or_limit(
                        ex,
                        RealExpression::BuiltInFunctionCall1p(BuiltInFunctionCall1p::Cos, a),
                        span,
                    )?;
                    let ghost st2 = ex@;
                    let id = push_or_limit(
                        ex,
                        RealExpression::BinaryOperator(ca, RealBinaryOperator::Multiply, da),
                        span,
                    )?;
                    proof {
                        lemma_is_pd_grow(st1, ex@, branches@, derivs@, a as int, unknown, da as int);
                        assert(ex@.reals[ca as int] == st2.reals[ca as int]);
                        assert(is_pd(ex@, branches@, derivs@, e as int, unknown, id as int));
                    }
                    Ok(id)
                },
                BuiltInFunctionCall1p::Cos => {
                    let da = partial_derivative(ex, branches, derivs, a, unknown)?;
                    let ghost st1 = ex@;
                    let sa = push_or_limit(
                        ex,
                        RealExpression::BuiltInFunctionCall1p(BuiltInFunctionCall1p::Sin, a),
                        span,
                    )?;
                    let ghost st2 = ex@;
                    let m = push_or_limit(
                        ex,
                        RealExpression::BinaryOperator(sa, RealBinaryOperator::Multiply, da),
                        span,
                    )?;
                    let ghost st3 = ex@;
                    let id = push_or_limit(ex, RealExpression::Negate(m), span)?;
                    proof {
                        lemma_is_pd_grow(st1, ex@, branches@, derivs@, a as int, unknown, da as int);
                        assert(ex@.reals[sa as int] == st2.reals[sa as int]);
                        assert(ex@.reals[m as int] == st3.reals[m as int]);
                        assert(is_pd(ex@, branches@, derivs@, e as int, unknown, id as int));
                    }
                    Ok(id)
                },
                BuiltInFunctionCall1p::Exp => {
                    let da = partial_derivative(ex, branches, derivs, a, unknown)?;
                    let ghost st1 = ex@;
                    let ea = push_or_limit(
                        ex,
                        RealExpression::BuiltInFunctionCall1p(BuiltInFunctionCall1p::Exp, a),
                        span,
                    )?;
                    let ghost st2 = ex@;
                    let id = push_or_limit(
                        ex,
                        RealExpression::BinaryOperator(ea, RealBinaryOperator::Multiply, da),
                        span,
                    )?;
                    proof {
                        lemma_is_pd_grow(st1, ex@, branches@, derivs@, a as int, unknown, da as int);
                        assert(ex@.reals[ea as int] == st2.reals[ea as int]);
                        assert(is_pd(ex@, branches@, derivs@, e as int, unknown, id as int));
                    }
                    Ok(id)
                },
                BuiltInFunctionCall1p::Ln => {
                    let da = partial_derivative(ex, branches, derivs, a, unknown)?;
                    let ghost st1 = ex@;
                    let id = push_or_limit(
                        ex,
                        RealExpression::BinaryOperator(da, RealBinaryOperator::Divide, a),
                        span,
                    )?;
                    proof {
                        lemma_is_pd_grow(st1, ex@, branches@, derivs@, a as int, unknown, da as int);
                        assert(is_pd(ex@, branches@, derivs@, e as int, unknown, id as int));
                    }
                    Ok(id)
                },
                BuiltInFunctionCall1p::Sqrt => {
                    let da = partial_derivative(ex, branches, derivs, a, unknown)?;
                    let ghost st1 = ex@;
                    let sq = push_or_limit(
                        ex,
                        RealExpression::BuiltInFunctionCall1p(BuiltInFunctionCall1p::Sqrt, a),
                        span,
                    )?;
                    let ghost st2 = ex@;
                    let two = push_or_limit(ex, RealExpression::Literal(TWO_BITS), span)?;
                    let ghost st3 = ex@;
                    let den = push_or_limit(
                        ex,
                        RealExpression::BinaryOperator(two, RealBinaryOperator::Multiply, sq),
                        span,
                    )?;
                    let ghost st4 = ex@;
                    let id = push_or_limit(
                        ex,
                        RealExpression::BinaryOperator(da, RealBinaryOperator::Divide, den),
                        span,
                    )?;
                    proof {
                        lemma_is_pd_grow(st1, ex@, branches@, derivs@, a as int, unknown, da as int);
                        assert(ex@.reals[sq as int] == st2.reals[sq as int]);
                        assert(ex@.reals[two as int] == st3.reals[two as int]);
                        assert(ex@.reals[den as int] == st4.reals[den as int]);
                        assert(is_pd(ex@, branches@, derivs@, e as int, unknown, id as int));
                    }
                    Ok(id)
                },
                _ => Err(DerivativeError::NotDifferentiable { span }),
            }
        },
        RealExpression::Temperature => {
            let id = push_or_limit(ex, RealExpression::Literal(ZERO_BITS), span)?;
            proof {
                assert(is_pd(ex@, branches@, derivs@, e as int, unknown, id as int));
            }
            Ok(id)
        },
        RealExpression::IntegerConversion(_) => {
            let id = push_or_limit(ex, RealExpression::Literal(ZERO_BITS), span)?;
            proof {
                assert(is_pd(ex@, branches@, derivs@, e as int, unknown, id as int));
            }
            Ok(id)
        },
        RealExpression::Noise(_, _) => Err(DerivativeError::NotDifferentiable { span }),
        RealExpression::SimParam(_, _) => Err(DerivativeError::NotDifferentiable { span }),
        RealExpression::BuiltInFunctionCall2p(_, _, _) => Err(
            DerivativeError::NotDifferentiable { span },
        ),
    }
}

/// Every handle the contents mention points into the arenas.
pub open spec fn real_contents_valid(st: crate::mir::ExprView, c: RealExpression) -> bool {
    match c {
        RealExpression::Literal(_) => true,
        RealExpression::BinaryOperator(l, _, r) => l < st.reals.len() && r < st.reals.len(),
        RealExpression::Negate(a) => a < st.reals.len(),
        RealExpression::Condition(c0, t, f) => c0 < st.ints.len() && t < st.reals.len() && f
            < st.reals.len(),
        RealExpression::VariableReference(_) => true,
        RealExpression::ParameterReference(_) => true,
        RealExpression::BranchAccess(_, _, _) => true,
        RealExpression::Noise(_, _) => false,
        RealExpression::BuiltInFunctionCall1p(_, a) => a < st.reals.len(),
        RealExpression::BuiltInFunctionCall2p(_, a, b) => a < st.reals.len() && b
            < st.reals.len(),
        RealExpression::Temperature => true,
        RealExpression::SimParam(_, _) => false,
        RealExpression::IntegerConversion(a) => a < st.ints.len(),
    }
}

/// Appends a node, turning arena exhaustion into the collected error.
fn push_or_limit(ex: &mut ExprArenas, c: RealExpression, span: Span) -> (r: Result<
    RealExprId,
    DerivativeError,
>)
    requires
        exprs_wf(old(ex)@),
        real_contents_valid(old(ex)@, c),
    ensures
        exprs_wf(final(ex)@),
        old(ex)@.reals.is_prefix_of(final(ex)@.reals),
        final(ex)@.ints == old(ex)@.ints,
        final(ex)@.strs == old(ex)@.strs,
        old(ex)@.next_ord <= final(ex)@.next_ord,
        r matches Ok(id) ==> id < final(ex)@.reals.len(),
        r matches Ok(id) ==> final(ex)@.reals == old(ex)@.reals.push(
            Node { contents: c, span, ord: old(ex)@.next_ord },
        ) && id == old(ex)@.reals.len(),
        r matches Err(err) ==> err is ExpressionLimit && final(ex)@ == old(ex)@ && (old(
            ex,
        )@.reals.len() >= u32::MAX || old(ex)@.next_ord >= u32::MAX),
{
    proof {
        assert forall|i: int| 0 <= i < ex@.reals.len() implies ex@.reals[i].ord
            < ex@.next_ord by {
            assert(real_contents_wf(ex@, ex@.reals[i].contents, ex@.reals[i].ord));
        }
        assert forall|i: int| 0 <= i < ex@.ints.len() implies ex@.ints[i].ord < ex@.next_ord by {
            assert(crate::mir::int_contents_wf(ex@, ex@.ints[i].contents, ex@.ints[i].ord));
        }
        assert(real_contents_wf(ex@, c, ex@.next_ord));
    }
    match ex.try_push_real(c, span) {
        Some(id) => Ok(id),
        None => Err(DerivativeError::ExpressionLimit { span }),
    }
}

/// Chooses which registered derivatives to materialize. The accepting
/// filter is the default; a caller may supply a narrower one.
pub trait DerivativeFilter: Sized {
    spec fn accept_spec(&self, var: VariableId, stmt: StatementId, unknown: Unknown) -> bool;

    fn accept(&self, var: VariableId, stmt: StatementId, unknown: Unknown) -> (r: bool)
        ensures
            r == self.accept_spec(var, stmt, unknown),
    ;
}

/// The default filter: every registered derivative is materialized.
pub struct AllDerivatives;

impl DerivativeFilter for AllDerivatives {
    open spec fn accept_spec(&self, var: VariableId, stmt: StatementId, unknown: Unknown) -> bool {
        true
    }

    fn accept(&self, var: VariableId, stmt: StatementId, unknown: Unknown) -> bool {
        true
    }
}

/// The first derivative entry registered for `var`.
fn find_entry(d: &Vec<DerivativeEntry>, var: VariableId) -> (r: Option<usize>)
    ensures
        match r {
            Some(ix) => ix < d@.len() && d@[ix as int].var == var && entry_ix_from(d@, var, 0)
                == Some(ix as int),
            None => entry_ix_from(d@, var, 0) is None,
        },
{
    let mut i: usize = 0;
    while i < d.len()
        invariant
            i <= d@.len(),
            entry_ix_from(d@, var, 0) == entry_ix_from(d@, var, i as int),
        decreases d@.len() - i,
    {
        if d[i].var == var {
            return Some(i);
        }
        i += 1;
    }
    None
}

/// For the assignment `stmt`, appends one derivative assignment per
/// registered `(unknown, derivative variable)` pair the filter accepts
/// and recurses on each appended statement to produce higher-order
/// derivatives. The handles of all appended statements are pushed onto
/// `dst`; every one of them is derived, via an accepted registered pair,
/// from `stmt` or from an earlier appended statement, so rejected pairs
/// generate nothing. A pair fails only when the right-hand side has no
/// derivative rule or the arenas ran out of handles; an error is
/// collected only when such a cause stands in the final state, and the
/// remaining derivatives are still produced.
#[verifier::loop_isolation(false)]
#[verifier::rlimit(100)]
pub fn stmt_derivatives<F: DerivativeFilter>(
    mir: &mut Mir,
    filter: &F,
    errors: &mut Vec<DerivativeError>,
    dst: &mut Vec<StatementId>,
    stmt: StatementId,
)
    requires
        exprs_wf(old(mir).exprs@),
        stmts_wf(old(mir).statements@, old(mir).exprs@),
        derivs_wf(old(mir).derivatives@),
        stmt < old(mir).statements@.len(),
    ensures
        exprs_wf(final(mir).exprs@),
        stmts_wf(final(mir).statements@, final(mir).exprs@),
        old(mir).exprs@.reals.is_prefix_of(final(mir).exprs@.reals),
        final(mir).exprs@.ints == old(mir).exprs@.ints,
        final(mir).exprs@.strs == old(mir).exprs@.strs,
        old(mir).exprs@.next_ord <= final(mir).exprs@.next_ord,
        old(mir).statements@.is_prefix_of(final(mir).statements@),
        final(mir).derivatives == old(mir).derivatives,
        final(mir).branches == old(mir).branches,
        old(dst)@.is_prefix_of(final(dst)@),
        forall|k: int|
            old(dst)@.len() <= k < final(dst)@.len() ==> p4_shape(
                final(mir).statements@,
                old(mir).derivatives@,
                #[trigger] final(dst)@[k],
            ),
        forall|k: int|
            old(dst)@.len() <= k < final(dst)@.len() ==> provenance_ok(
                final(mir).exprs@,
                old(mir).branches@,
                old(mir).derivatives@,
                final(mir).statements@,
                filter,
                stmt,
                old(dst)@.len() as int,
                final(dst)@,
                k,
            ),
        forall|k: int|
            old(dst)@.len() <= k < final(dst)@.len() ==> pairs_settled(
                final(mir).statements@,
                final(mir).exprs@,
                old(mir).branches@,
                old(mir).derivatives@,
                filter,
                #[trigger] final(dst)@[k],
                final(mir).exprs@,
                final(mir).statements@,
                final(dst)@,
                old(mir).statements@.len() as int,
            ),
        old(errors)@.is_prefix_of(final(errors)@),
        final(errors)@.len() > old(errors)@.len() ==> failure_present(
            final(mir).exprs@,
            old(mir).branches@,
            final(mir).statements@,
        ),
        !demands_derivatives(old(mir).statements@, old(mir).derivatives@, stmt)
            ==> final(mir).statements@ == old(mir).statements@
            && final(mir).exprs@ == old(mir).exprs@
            && final(dst)@ == old(dst)@
            && final(errors)@ == old(errors)@,
        pairs_settled(
            old(mir).statements@,
            old(mir).exprs@,
            old(mir).branches@,
            old(mir).derivatives@,
            filter,
            stmt,
            final(mir).exprs@,
            final(mir).statements@,
            final(dst)@,
            old(mir).statements@.len() as int,
        ),
    decreases (match old(mir).statements@[stmt as int] {
        Statement::Assignment(_, v, _) => (u32::MAX - v) as nat,
        Statement::Call(_) => 0nat,
    }),
{
    broadcast use lemma_prefix_index, lemma_prefix_refl, lemma_prefix_trans;

    let s = mir.statements[stmt as usize];
    match s {
        Statement::Assignment(attr, var, ExpressionId::Real(expr)) => {
            match find_entry(&mir.derivatives, var) {
                Some(ix) => {
                    let n = mir.derivatives[ix].targets.len();
                    let ghost ts = old(mir).derivatives@[ix as int].targets@;
                    let ghost br = old(mir).branches@;
                    let ghost dr = old(mir).derivatives@;
                    let ghost mut pos: Seq<int> = Seq::empty();
                    let mut j: usize = 0;
                    while j < n
                        invariant
                            exprs_wf(mir.exprs@),
                            stmts_wf(mir.statements@, mir.exprs@),
                            old(mir).exprs@.reals.is_prefix_of(mir.exprs@.reals),
                            mir.exprs@.ints == old(mir).exprs@.ints,
                            mir.exprs@.strs == old(mir).exprs@.strs,
                            old(mir).exprs@.next_ord <= mir.exprs@.next_ord,
                            old(mir).statements@.is_prefix_of(mir.statements@),
                            mir.derivatives == old(mir).derivatives,
                            mir.branches == old(mir).branches,
                            old(dst)@.is_prefix_of(dst@),
                            old(errors)@.is_prefix_of(errors@),
                            ix < mir.derivatives@.len(),
                            n == mir.derivatives@[ix as int].targets@.len(),
                            ts == mir.derivatives@[ix as int].targets@,
                            mir.derivatives@[ix as int].var == var,
                            j <= n,
                            expr < old(mir).exprs@.reals.len(),
                            forall|k: int|
                                old(dst)@.len() <= k < dst@.len() ==> p4_shape(
                                    mir.statements@,
                                    old(mir).derivatives@,
                                    #[trigger] dst@[k],
                                ),
                            forall|k: int|
                                old(dst)@.len() <= k < dst@.len() ==> provenance_ok(
                                    mir.exprs@,
                                    br,
                                    dr,
                                    mir.statements@,
                                    filter,
                                    stmt,
                                    old(dst)@.len() as int,
                                    dst@,
                                    k,
                                ),
                            forall|k: int|
                                old(dst)@.len() <= k < dst@.len() ==> pairs_settled(
                                    mir.statements@,
                                    mir.exprs@,
                                    br,
                                    dr,
                                    filter,
                                    #[trigger] dst@[k],
                                    mir.exprs@,
                                    mir.statements@,
                                    dst@,
                                    old(mir).statements@.len() as int,
                                ),
                            errors@.len() > old(errors)@.len() ==> failure_present(
                                mir.exprs@,
                                br,
                                mir.statements@,
                            ),
                            pos.len() == j,
                            forall|j2: int| 0 <= j2 < j ==> #[trigger] pos[j2] < dst@.len(),
                            forall|j2: int|
                                0 <= j2 < j && filter.accept_spec(
                                    var,
                                    stmt,
                                    (#[trigger] ts[j2]).0,
                                ) ==> produced_at(
                                    mir.exprs@,
                                    br,
                                    dr,
                                    mir.statements@,
                                    dst@,
                                    old(mir).statements@.len() as int,
                                    attr,
                                    ts[j2].1,
                                    expr,
                                    ts[j2].0,
                                    pos[j2],
                                ) || (pos[j2] == -1 && (!differentiable(
                                    old(mir).exprs@,
                                    br,
                                    expr as int,
                                ) || arenas_full(mir.exprs@, mir.statements@.len() as int))),
                            forall|j1: int, j2: int|
                                0 <= j1 < j2 < j && filter.accept_spec(
                                    var,
                                    stmt,
                                    (#[trigger] ts[j1]).0,
                                ) && filter.accept_spec(var, stmt, (#[trigger] ts[j2]).0)
                                    && pos[j1] != -1 && pos[j2] != -1 ==> pos[j1] < pos[j2],
                        decreases n - j,
                    {
                        let ghost sb_exprs = mir.exprs@;
                        let ghost sb_stmts = mir.statements@;
                        let ghost sb_dst = dst@;
                        let ghost sb_errs = errors@;
                        let (unknown, dv) = mir.derivatives[ix].targets[j];
                        proof {
                            assert(mir.derivatives@[ix as int].targets@[j as int].1 > var);
                        }
                        if filter.accept(var, stmt, unknown) {
                            match partial_derivative(
                                &mut mir.exprs,
                                &mir.branches,
                                &mir.derivatives,
                                expr,
                                unknown,
                            ) {
                                Ok(d) => {
                                    if mir.statements.len() < 0xFFFFFFFFusize {
                                        let sid = mir.statements.len() as u32;
                                        mir.statements.push(
                                            Statement::Assignment(
                                                attr,
                                                dv,
                                                ExpressionId::Real(d),
                                            ),
                                        );
                                        dst.push(sid);
                                        let ghost mid_exprs = mir.exprs@;
                                        let ghost mid_stmts = mir.statements@;
                                        let ghost mid_dst = dst@;
                                        proof {
                                            pos = pos.push(sb_dst.len() as int);
                                            assert(is_registered_derivative_var(
                                                old(mir).derivatives@,
                                                dv,
                                            ));
                                            assert(p4_shape(
                                                mir.statements@,
                                                old(mir).derivatives@,
                                                sid,
                                            ));
                                            let k = mid_dst.len() - 1;
                                            assert(mid_dst[k] == sid);
                                            assert(old(mir).statements@.len() <= sid);
                                            assert(is_pd(
                                                mid_exprs,
                                                br,
                                                dr,
                                                expr as int,
                                                unknown,
                                                d as int,
                                            ));
                                            assert(produced_at(
                                                mid_exprs,
                                                br,
                                                dr,
                                                mid_stmts,
                                                mid_dst,
                                                old(mir).statements@.len() as int,
                                                attr,
                                                dv,
                                                expr,
                                                unknown,
                                                sb_dst.len() as int,
                                            ));
                                            assert(entry_ix_from(dr, var, 0) == Some(ix as int));
                                            assert((#[trigger] dr[ix as int].targets@[j as int]).1
                                                == dv && filter.accept_spec(
                                                var,
                                                stmt,
                                                dr[ix as int].targets@[j as int].0,
                                            ) && is_pd(
                                                mid_exprs,
                                                br,
                                                dr,
                                                expr as int,
                                                dr[ix as int].targets@[j as int].0,
                                                d as int,
                                            ));
                                            assert(derived_from(
                                                mid_exprs,
                                                br,
                                                dr,
                                                mid_stmts,
                                                filter,
                                                stmt,
                                                sid,
                                            ));
                                        }
                                        stmt_derivatives(mir, filter, errors, dst, sid);
                                        proof {
                                            assert(sb_stmts =~= mir.statements@.take(
                                                sb_stmts.len() as int,
                                            ));
                                            assert(sb_dst =~= dst@.take(sb_dst.len() as int));
                                            assert(sb_errs =~= errors@.take(
                                                sb_errs.len() as int,
                                            ));
                                            lemma_produced_at_grow(
                                                mid_exprs,
                                                mir.exprs@,
                                                br,
                                                dr,
                                                mid_stmts,
                                                mir.statements@,
                                                mid_dst,
                                                dst@,
                                                old(mir).statements@.len() as int,
                                                old(mir).statements@.len() as int,
                                                attr,
                                                dv,
                                                expr,
                                                unknown,
                                                sb_dst.len() as int,
                                            );
                                            // provenance and settledness of the statement
                                            // appended for this pair
                                            lemma_derived_grow(
                                                mid_exprs,
                                                mir.exprs@,
                                                br,
                                                dr,
                                                mid_stmts,
                                                mir.statements@,
                                                filter,
                                                stmt,
                                                sid,
                                            );
                                            lemma_settled_extend(
                                                mid_stmts,
                                                mir.statements@,
                                                mid_exprs,
                                                mir.exprs@,
                                                br,
                                                dr,
                                                filter,
                                                sid,
                                                mir.exprs@,
                                                mir.exprs@,
                                                mir.statements@,
                                                mir.statements@,
                                                dst@,
                                                dst@,
                                                old(mir).statements@.len() as int,
                                                mid_stmts.len() as int,
                                            );
                                            // provenance and settledness of the elements
                                            // this iteration appended, in the invariant's
                                            // form
                                            assert(dst@[sb_dst.len() as int] == sid);
                                            assert forall|k: int|
                                                sb_dst.len() <= k < dst@.len() implies provenance_ok(
                                                mir.exprs@,
                                                br,
                                                dr,
                                                mir.statements@,
                                                filter,
                                                stmt,
                                                old(dst)@.len() as int,
                                                dst@,
                                                k,
                                            ) by {
                                                if k == sb_dst.len() {
                                                    assert((stmt == stmt || exists|k2: int|
                                                        old(dst)@.len() <= k2 < k && dst@[k2]
                                                            == stmt) && derived_from(
                                                        mir.exprs@,
                                                        br,
                                                        dr,
                                                        mir.statements@,
                                                        filter,
                                                        stmt,
                                                        dst@[k],
                                                    ));
                                                } else {
                                                    assert(provenance_ok(
                                                        mir.exprs@,
                                                        br,
                                                        dr,
                                                        mir.statements@,
                                                        filter,
                                                        sid,
                                                        mid_dst.len() as int,
                                                        dst@,
                                                        k,
                                                    ));
                                                    lemma_provenance_widen(
                                                        mir.exprs@,
                                                        br,
                                                        dr,
                                                        mir.statements@,
                                                        filter,
                                                        stmt,
                                                        sid,
                                                        old(dst)@.len() as int,
                                                        mid_dst.len() as int,
                                                        dst@,
                                                        k,
                                                    );
                                                }
                                            }
                                            assert forall|k: int|
                                                sb_dst.len() <= k < dst@.len() implies pairs_settled(
                                                mir.statements@,
                                                mir.exprs@,
                                                br,
                                                dr,
                                                filter,
                                                #[trigger] dst@[k],
                                                mir.exprs@,
                                                mir.statements@,
                                                dst@,
                                                old(mir).statements@.len() as int,
                                            ) by {
                                                if k > sb_dst.len() {
                                                    assert(pairs_settled(
                                                        mir.statements@,
                                                        mir.exprs@,
                                                        br,
                                                        dr,
                                                        filter,
                                                        dst@[k],
                                                        mir.exprs@,
                                                        mir.statements@,
                                                        dst@,
                                                        mid_stmts.len() as int,
                                                    ));
                                                    assert(p4_shape(
                                                        mir.statements@,
                                                        dr,
                                                        dst@[k],
                                                    ));
                                                    lemma_settled_extend(
                                                        mir.statements@,
                                                        mir.statements@,
                                                        mir.exprs@,
                                                        mir.exprs@,
                                                        br,
                                                        dr,
                                                        filter,
                                                        dst@[k],
                                                        mir.exprs@,
                                                        mir.exprs@,
                                                        mir.statements@,
                                                        mir.statements@,
                                                        dst@,
                                                        dst@,
                                                        old(mir).statements@.len() as int,
                                                        mid_stmts.len() as int,
                                                    );
                                                }
                                            }
                                        }
                                    } else {
                                        let span = mir.exprs.reals[expr as usize].span;
                                        errors.push(
                                            DerivativeError::ExpressionLimit { span },
                                        );
                                        proof {
                                            pos = pos.push(-1);
                                            assert(arenas_full(
                                                mir.exprs@,
                                                mir.statements@.len() as int,
                                            ));
                                        }
                                    }
                                },
                                Err(err) => {
                                    errors.push(err);
                                    proof {
                                        pos = pos.push(-1);
                                        match err {
                                            DerivativeError::NotDifferentiable { .. } => {
                                                lemma_differentiable_grow(
                                                    old(mir).exprs@,
                                                    sb_exprs,
                                                    br,
                                                    expr as int,
                                                );
                                                lemma_differentiable_grow(
                                                    sb_exprs,
                                                    mir.exprs@,
                                                    br,
                                                    expr as int,
                                                );
                                                assert(!differentiable(
                                                    old(mir).exprs@,
                                                    br,
                                                    expr as int,
                                                ));
                                                assert(mir.statements@[stmt as int]
                                                    == Statement::Assignment(
                                                    attr,
                                                    var,
                                                    ExpressionId::Real(expr),
                                                ));
                                                assert(!differentiable(
                                                    mir.exprs@,
                                                    br,
                                                    expr as int,
                                                ));
                                                assert(failure_present(
                                                    mir.exprs@,
                                                    br,
                                                    mir.statements@,
                                                ));
                                            },
                                            DerivativeError::ExpressionLimit { .. } => {
                                                assert(arenas_full(
                                                    mir.exprs@,
                                                    mir.statements@.len() as int,
                                                ));
                                            },
                                        }
                                    }
                                },
                            }
                        } else {
                            proof {
                                pos = pos.push(-1);
                            }
                        }
                        proof {
                            // carry the invariants across this iteration's growth
                            assert(sb_stmts =~= mir.statements@.take(sb_stmts.len() as int));
                            assert(sb_dst =~= dst@.take(sb_dst.len() as int));
                            if sb_errs.len() > old(errors)@.len() {
                                lemma_failure_grow(
                                    sb_exprs,
                                    mir.exprs@,
                                    br,
                                    sb_stmts,
                                    mir.statements@,
                                );
                            }
                            assert forall|k: int|
                                old(dst)@.len() <= k < dst@.len() implies provenance_ok(
                                mir.exprs@,
                                br,
                                dr,
                                mir.statements@,
                                filter,
                                stmt,
                                old(dst)@.len() as int,
                                dst@,
                                k,
                            ) by {
                                if k < sb_dst.len() {
                                    assert(provenance_ok(
                                        sb_exprs,
                                        br,
                                        dr,
                                        sb_stmts,
                                        filter,
                                        stmt,
                                        old(dst)@.len() as int,
                                        sb_dst,
                                        k,
                                    ));
                                    lemma_provenance_grow(
                                        sb_exprs,
                                        mir.exprs@,
                                        br,
                                        dr,
                                        sb_stmts,
                                        mir.statements@,
                                        filter,
                                        stmt,
                                        old(dst)@.len() as int,
                                        sb_dst,
                                        dst@,
                                        k,
                                    );
                                }
                            }
                            assert forall|k: int|
                                old(dst)@.len() <= k < dst@.len() implies pairs_settled(
                                mir.statements@,
                                mir.exprs@,
                                br,
                                dr,
                                filter,
                                #[trigger] dst@[k],
                                mir.exprs@,
                                mir.statements@,
                                dst@,
                                old(mir).statements@.len() as int,
                            ) by {
                                if k < sb_dst.len() {
                                    assert(p4_shape(sb_stmts, dr, sb_dst[k]));
                                    lemma_settled_extend(
                                        sb_stmts,
                                        mir.statements@,
                                        sb_exprs,
                                        mir.exprs@,
                                        br,
                                        dr,
                                        filter,
                                        sb_dst[k],
                                        sb_exprs,
                                        mir.exprs@,
                                        sb_stmts,
                                        mir.statements@,
                                        sb_dst,
                                        dst@,
                                        old(mir).statements@.len() as int,
                                        old(mir).statements@.len() as int,
                                    );
                                }
                            }
                            assert forall|j2: int|
                                0 <= j2 < j + 1 && filter.accept_spec(
                                    var,
                                    stmt,
                                    (#[trigger] ts[j2]).0,
                                ) implies produced_at(
                                mir.exprs@,
                                br,
                                dr,
                                mir.statements@,
                                dst@,
                                old(mir).statements@.len() as int,
                                attr,
                                ts[j2].1,
                                expr,
                                ts[j2].0,
                                pos[j2],
                            ) || (pos[j2] == -1 && (!differentiable(old(mir).exprs@, br, expr as int)
                                || arenas_full(mir.exprs@, mir.statements@.len() as int))) by {
                                if j2 < j {
                                    if produced_at(
                                        sb_exprs,
                                        br,
                                        dr,
                                        sb_stmts,
                                        sb_dst,
                                        old(mir).statements@.len() as int,
                                        attr,
                                        ts[j2].1,
                                        expr,
                                        ts[j2].0,
                                        pos[j2],
                                    ) {
                                        lemma_produced_at_grow(
                                            sb_exprs,
                                            mir.exprs@,
                                            br,
                                            dr,
                                            sb_stmts,
                                            mir.statements@,
                                            sb_dst,
                                            dst@,
                                            old(mir).statements@.len() as int,
                                            old(mir).statements@.len() as int,
                                            attr,
                                            ts[j2].1,
                                            expr,
                                            ts[j2].0,
                                            pos[j2],
                                        );
                                    }
                                }
                            }
                        }
                        j += 1;
                    }
                    proof {
                        assert(old(mir).statements@[stmt as int] == Statement::Assignment(
                            attr,
                            var,
                            ExpressionId::Real(expr),
                        ));
                        assert(entry_ix_from(old(mir).derivatives@, var, 0) == Some(ix as int));
                        assert(settled_positions(
                            old(mir).exprs@,
                            br,
                            dr,
                            filter,
                            stmt,
                            var,
                            attr,
                            expr,
                            dr[ix as int].targets@,
                            mir.exprs@,
                            mir.statements@,
                            dst@,
                            old(mir).statements@.len() as int,
                            pos,
                        ));
                        match old(mir).statements@[stmt as int] {
                            Statement::Assignment(attr2, var2, e2) => match e2 {
                                ExpressionId::Real(src2) => match entry_ix_from(dr, var2, 0) {
                                    Some(ix2) => {
                                        assert(settled_positions(
                                            old(mir).exprs@,
                                            br,
                                            dr,
                                            filter,
                                            stmt,
                                            var2,
                                            attr2,
                                            src2,
                                            dr[ix2].targets@,
                                            mir.exprs@,
                                            mir.statements@,
                                            dst@,
                                            old(mir).statements@.len() as int,
                                            pos,
                                        ));
                                    },
                                    None => {},
                                },
                                _ => {},
                            },
                            Statement::Call(_) => {},
                        }
                        assert(pairs_settled(
                            old(mir).statements@,
                            old(mir).exprs@,
                            br,
                            dr,
                            filter,
                            stmt,
                            mir.exprs@,
                            mir.statements@,
                            dst@,
                            old(mir).statements@.len() as int,
                        ));
                    }
                },
                None => {},
            }
        },
        _ => {},
    }
}

impl ControlFlowGraph {
    /// Walks every block and, after each assignment, appends the demanded
    /// derivative assignments the filter accepts, recursing for
    /// higher-order derivatives. Every statement added anywhere is
    /// derived, via an accepted registered pair, from an earlier statement
    /// of its block, so rejected pairs generate nothing. A pair fails only
    /// when its right-hand side has no derivative rule or the arenas ran
    /// out of handles; an error is returned only when such a cause stands
    /// in the final state, and a failing statement does not stop
    /// derivative generation anywhere else: every other registered pair,
    /// of original and of generated statements alike, is still produced.
    #[verifier::loop_isolation(false)]
    #[verifier::rlimit(100)]
    pub fn demand_derivatives<F: DerivativeFilter>(&mut self, mir: &mut Mir, filter: &F) -> (errors:
        Vec<DerivativeError>)
        requires
            exprs_wf(old(mir).exprs@),
            stmts_wf(old(mir).statements@, old(mir).exprs@),
            derivs_wf(old(mir).derivatives@),
            forall|b: int, k: int|
                0 <= b < old(self).blocks@.len() && 0 <= k
                    < old(self).blocks@[b].statements@.len() ==> (
                #[trigger] old(self).blocks@[b].statements@[k]) < old(mir).statements@.len(),
        ensures
            exprs_wf(final(mir).exprs@),
            stmts_wf(final(mir).statements@, final(mir).exprs@),
            final(mir).derivatives == old(mir).derivatives,
            final(mir).branches == old(mir).branches,
            old(mir).exprs@.reals.is_prefix_of(final(mir).exprs@.reals),
            old(mir).statements@.is_prefix_of(final(mir).statements@),
            final(self).blocks@.len() == old(self).blocks@.len(),
            forall|b: int|
                0 <= b < old(self).blocks@.len() ==> (#[trigger] final(self).blocks@[b]).phi_statements@ == old(self).blocks@[b].phi_statements@,
            forall|b: int, k: int|
                0 <= b < old(self).blocks@.len() && 0 <= k < final(self).blocks@[b].statements@.len() ==> old(self).blocks@[b].statements@.contains(
                    (#[trigger] final(self).blocks@[b].statements@[k]),
                ) || p4_shape(
                    final(mir).statements@,
                    old(mir).derivatives@,
                    final(self).blocks@[b].statements@[k],
                ),
            forall|b: int, k: int|
                0 <= b < old(self).blocks@.len() && 0 <= k < final(self).blocks@[b].statements@.len() && !old(self).blocks@[b].statements@.contains(
                    (#[trigger] final(self).blocks@[b].statements@[k]),
                ) ==> block_provenance_ok(
                    final(mir).exprs@,
                    old(mir).branches@,
                    old(mir).derivatives@,
                    final(mir).statements@,
                    filter,
                    final(self).blocks@[b].statements@,
                    k,
                ),
            forall|b: int, k: int|
                0 <= b < old(self).blocks@.len() && 0 <= k < final(self).blocks@[b].statements@.len() && !old(self).blocks@[b].statements@.contains(
                    (#[trigger] final(self).blocks@[b].statements@[k]),
                ) ==> pairs_settled(
                    final(mir).statements@,
                    final(mir).exprs@,
                    old(mir).branches@,
                    old(mir).derivatives@,
                    filter,
                    final(self).blocks@[b].statements@[k],
                    final(mir).exprs@,
                    final(mir).statements@,
                    final(self).blocks@[b].statements@,
                    old(mir).statements@.len() as int,
                ),
            forall|b: int|
                0 <= b < old(self).blocks@.len() ==> keeps_in_order(
                    old(self).blocks@[b].statements@,
                    (#[trigger] final(self).blocks@[b]).statements@,
                ),
            forall|b: int|
                0 <= b < old(self).blocks@.len() ==> block_layout(
                    final(mir).exprs@,
                    old(mir).branches@,
                    old(mir).derivatives@,
                    final(mir).statements@,
                    filter,
                    old(self).blocks@[b].statements@,
                    (#[trigger] final(self).blocks@[b]).statements@,
                ),
            forall|b: int, i: int|
                0 <= b < old(self).blocks@.len() && 0 <= i
                    < old(self).blocks@[b].statements@.len() ==> pairs_settled(
                    old(mir).statements@,
                    old(mir).exprs@,
                    old(mir).branches@,
                    old(mir).derivatives@,
                    filter,
                    (#[trigger] old(self).blocks@[b].statements@[i]),
                    final(mir).exprs@,
                    final(mir).statements@,
                    final(self).blocks@[b].statements@,
                    old(mir).statements@.len() as int,
                ),
            errors@.len() > 0 ==> failure_present(
                final(mir).exprs@,
                old(mir).branches@,
                final(mir).statements@,
            ),
    {
        broadcast use lemma_prefix_index, lemma_prefix_refl, lemma_prefix_trans;

        let ghost br = old(mir).branches@;
        let ghost dr = old(mir).derivatives@;
        let mut errors: Vec<DerivativeError> = Vec::new();
        let nblocks = self.blocks.len();
        let mut b: usize = 0;
        while b < nblocks
            invariant
                exprs_wf(mir.exprs@),
                stmts_wf(mir.statements@, mir.exprs@),
                mir.derivatives == old(mir).derivatives,
                mir.branches == old(mir).branches,
                old(mir).exprs@.reals.is_prefix_of(mir.exprs@.reals),
                old(mir).exprs@.next_ord <= mir.exprs@.next_ord,
                old(mir).statements@.is_prefix_of(mir.statements@),
                b <= nblocks,
                nblocks == self.blocks@.len(),
                self.blocks@.len() == old(self).blocks@.len(),
                forall|bb: int|
                    0 <= bb < old(self).blocks@.len() ==> (#[trigger] self.blocks@[bb]).phi_statements@
                        == old(self).blocks@[bb].phi_statements@,
                forall|bb: int|
                    b <= bb < old(self).blocks@.len() ==> (#[trigger] self.blocks@[bb]).statements@
                        == old(self).blocks@[bb].statements@,
                forall|bb: int, k: int|
                    0 <= bb < b && 0 <= k < self.blocks@[bb].statements@.len() ==> old(self).blocks@[bb].statements@.contains(
                        (#[trigger] self.blocks@[bb].statements@[k]),
                    ) || p4_shape(
                        mir.statements@,
                        old(mir).derivatives@,
                        self.blocks@[bb].statements@[k],
                    ),
                forall|bb: int, k: int|
                    0 <= bb < b && 0 <= k < self.blocks@[bb].statements@.len()
                        && !old(self).blocks@[bb].statements@.contains(
                        (#[trigger] self.blocks@[bb].statements@[k]),
                    ) ==> block_provenance_ok(
                        mir.exprs@,
                        br,
                        dr,
                        mir.statements@,
                        filter,
                        self.blocks@[bb].statements@,
                        k,
                    ),
                forall|bb: int, k: int|
                    0 <= bb < b && 0 <= k < self.blocks@[bb].statements@.len()
                        && !old(self).blocks@[bb].statements@.contains(
                        (#[trigger] self.blocks@[bb].statements@[k]),
                    ) ==> pairs_settled(
                        mir.statements@,
                        mir.exprs@,
                        br,
                        dr,
                        filter,
                        self.blocks@[bb].statements@[k],
                        mir.exprs@,
                        mir.statements@,
                        self.blocks@[bb].statements@,
                        old(mir).statements@.len() as int,
                    ),
                forall|bb: int, k: int|
                    0 <= bb < old(self).blocks@.len() && 0 <= k
                        < old(self).blocks@[bb].statements@.len() ==> (
                    #[trigger] old(self).blocks@[bb].statements@[k]) < mir.statements@.len(),
                forall|bb: int|
                    0 <= bb < b ==> keeps_in_order(
                        old(self).blocks@[bb].statements@,
                        (#[trigger] self.blocks@[bb]).statements@,
                    ),
                forall|bb: int|
                    0 <= bb < b ==> block_layout(
                        mir.exprs@,
                        br,
                        dr,
                        mir.statements@,
                        filter,
                        old(self).blocks@[bb].statements@,
                        (#[trigger] self.blocks@[bb]).statements@,
                    ),
                forall|bb: int, i: int|
                    0 <= bb < b && 0 <= i < old(self).blocks@[bb].statements@.len()
                        ==> pairs_settled(
                        old(mir).statements@,
                        old(mir).exprs@,
                        br,
                        dr,
                        filter,
                        (#[trigger] old(self).blocks@[bb].statements@[i]),
                        mir.exprs@,
                        mir.statements@,
                        self.blocks@[bb].statements@,
                        old(mir).statements@.len() as int,
                    ),
                errors@.len() > 0 ==> failure_present(mir.exprs@, br, mir.statements@),
            decreases nblocks - b,
        {
            let ghost ob_exprs = mir.exprs@;
            let ghost ob_stmts = mir.statements@;
            let ghost ob_errs = errors@;
            let old_list = self.blocks[b].statements.clone();
            proof {
                assert(old_list@ =~= self.blocks@[b as int].statements@);
            }
            let ghost orig_list = old_list@;
            let ghost stmts_b0 = mir.statements@;
            let mut new_list: Vec<StatementId> = Vec::new();
            let ghost mut m: Seq<int> = Seq::empty();
            let mut k: usize = 0;
            proof {
                assert(ob_errs =~= errors@.take(ob_errs.len() as int));
            }
            while k < old_list.len()
                invariant
                    exprs_wf(mir.exprs@),
                    stmts_wf(mir.statements@, mir.exprs@),
                    mir.derivatives == old(mir).derivatives,
                    mir.branches == old(mir).branches,
                    old(mir).exprs@.reals.is_prefix_of(mir.exprs@.reals),
                    old(mir).exprs@.next_ord <= mir.exprs@.next_ord,
                    ob_exprs.reals.is_prefix_of(mir.exprs@.reals),
                    ob_exprs.next_ord <= mir.exprs@.next_ord,
                    old(mir).statements@.is_prefix_of(mir.statements@),
                    ob_stmts.is_prefix_of(mir.statements@),
                    ob_errs.is_prefix_of(errors@),
                    k <= old_list@.len(),
                    old_list@ == orig_list,
                    orig_list == old(self).blocks@[b as int].statements@,
                    stmts_b0.is_prefix_of(mir.statements@),
                    b < self.blocks@.len(),
                    forall|i: int|
                        0 <= i < orig_list.len() ==> (#[trigger] orig_list[i])
                            < old(mir).statements@.len(),
                    forall|i: int|
                        0 <= i < new_list@.len() ==> orig_list.contains(
                            (#[trigger] new_list@[i]),
                        ) || p4_shape(
                            mir.statements@,
                            old(mir).derivatives@,
                            new_list@[i],
                        ),
                    forall|i: int|
                        0 <= i < new_list@.len() && !orig_list.contains(
                            (#[trigger] new_list@[i]),
                        ) ==> block_provenance_ok(
                            mir.exprs@,
                            br,
                            dr,
                            mir.statements@,
                            filter,
                            new_list@,
                            i,
                        ),
                    forall|i: int|
                        0 <= i < new_list@.len() && !orig_list.contains(
                            (#[trigger] new_list@[i]),
                        ) ==> pairs_settled(
                            mir.statements@,
                            mir.exprs@,
                            br,
                            dr,
                            filter,
                            new_list@[i],
                            mir.exprs@,
                            mir.statements@,
                            new_list@,
                            old(mir).statements@.len() as int,
                        ),
                    m.len() == k,
                    forall|i2: int|
                        0 <= i2 < k ==> 0 <= #[trigger] m[i2] < new_list@.len()
                            && new_list@[m[i2]] == orig_list[i2],
                    forall|i2: int, j2: int| 0 <= i2 < j2 < k ==> m[i2] < m[j2],
                    forall|p: int|
                        0 <= p < new_list@.len() && !(#[trigger] in_positions(m, p))
                            ==> gap_derived(
                            mir.exprs@,
                            br,
                            dr,
                            mir.statements@,
                            filter,
                            m,
                            new_list@,
                            p,
                        ),
                    forall|i2: int|
                        0 <= i2 < k ==> pairs_settled(
                            old(mir).statements@,
                            old(mir).exprs@,
                            br,
                            dr,
                            filter,
                            (#[trigger] orig_list[i2]),
                            mir.exprs@,
                            mir.statements@,
                            new_list@,
                            old(mir).statements@.len() as int,
                        ),
                    errors@.len() > 0 ==> failure_present(mir.exprs@, br, mir.statements@),
                decreases old_list@.len() - k,
            {
                let ghost sb_exprs = mir.exprs@;
                let ghost sb_stmts = mir.statements@;
                let ghost sb_list = new_list@;
                let ghost sb_errs = errors@;
                let ghost sb_m = m;
                let sid = old_list[k];
                new_list.push(sid);
                proof {
                    assert(orig_list.contains(sid));
                    m = m.push(sb_list.len() as int);
                }
                let ghost exprs_pre = mir.exprs@;
                let ghost stmts_pre = mir.statements@;
                let ghost list_pre = new_list@;
                let ghost errs_pre = errors@;
                stmt_derivatives(mir, filter, &mut errors, &mut new_list, sid);
                proof {
                    assert(stmts_b0 =~= mir.statements@.take(stmts_b0.len() as int));
                    assert(sb_stmts =~= mir.statements@.take(sb_stmts.len() as int));
                    assert(sb_list =~= new_list@.take(sb_list.len() as int));
                    assert(list_pre =~= new_list@.take(list_pre.len() as int));
                    assert(ob_errs =~= errors@.take(ob_errs.len() as int));
                    assert(sb_errs =~= errors@.take(sb_errs.len() as int));
                    assert(stmts_pre[sid as int] == old(mir).statements@[sid as int]);
                    // the statement just processed is settled against the
                    // pass-entry baseline
                    lemma_settled_extend(
                        stmts_pre,
                        old(mir).statements@,
                        exprs_pre,
                        old(mir).exprs@,
                        br,
                        dr,
                        filter,
                        sid,
                        mir.exprs@,
                        mir.exprs@,
                        mir.statements@,
                        mir.statements@,
                        new_list@,
                        new_list@,
                        old(mir).statements@.len() as int,
                        stmts_pre.len() as int,
                    );
                    // earlier originals of this block stay settled
                    assert forall|i2: int| 0 <= i2 < k + 1 implies pairs_settled(
                        old(mir).statements@,
                        old(mir).exprs@,
                        br,
                        dr,
                        filter,
                        (#[trigger] orig_list[i2]),
                        mir.exprs@,
                        mir.statements@,
                        new_list@,
                        old(mir).statements@.len() as int,
                    ) by {
                        if i2 < k {
                            lemma_settled_extend(
                                old(mir).statements@,
                                old(mir).statements@,
                                old(mir).exprs@,
                                old(mir).exprs@,
                                br,
                                dr,
                                filter,
                                orig_list[i2],
                                sb_exprs,
                                mir.exprs@,
                                sb_stmts,
                                mir.statements@,
                                sb_list,
                                new_list@,
                                old(mir).statements@.len() as int,
                                old(mir).statements@.len() as int,
                            );
                        }
                    }
                    // provenance of this block's additions
                    assert forall|i: int|
                        0 <= i < new_list@.len() && !orig_list.contains(
                            (#[trigger] new_list@[i]),
                        ) implies block_provenance_ok(
                        mir.exprs@,
                        br,
                        dr,
                        mir.statements@,
                        filter,
                        new_list@,
                        i,
                    ) by {
                        if i < sb_list.len() {
                            assert(block_provenance_ok(
                                sb_exprs,
                                br,
                                dr,
                                sb_stmts,
                                filter,
                                sb_list,
                                i,
                            ));
                            lemma_block_provenance_grow(
                                sb_exprs,
                                mir.exprs@,
                                br,
                                dr,
                                sb_stmts,
                                mir.statements@,
                                filter,
                                sb_list,
                                new_list@,
                                i,
                            );
                        } else if i >= list_pre.len() {
                            assert(provenance_ok(
                                mir.exprs@,
                                br,
                                dr,
                                mir.statements@,
                                filter,
                                sid,
                                list_pre.len() as int,
                                new_list@,
                                i,
                            ));
                            assert(new_list@[list_pre.len() - 1] == sid);
                            lemma_block_provenance_from_stmt(
                                mir.exprs@,
                                br,
                                dr,
                                mir.statements@,
                                filter,
                                sid,
                                list_pre.len() as int,
                                new_list@,
                                i,
                            );
                        }
                    }
                    // every addition stands in the gap after the statement
                    // it was generated for
                    assert(sb_m =~= m.take(sb_m.len() as int));
                    assert forall|p: int|
                        0 <= p < new_list@.len() && !(#[trigger] in_positions(m, p))
                            implies gap_derived(
                        mir.exprs@,
                        br,
                        dr,
                        mir.statements@,
                        filter,
                        m,
                        new_list@,
                        p,
                    ) by {
                        if p < sb_list.len() {
                            if in_positions(sb_m, p) {
                                let ii = choose|ii: int|
                                    0 <= ii < sb_m.len() && #[trigger] sb_m[ii] == p;
                                assert(m[ii] == p);
                                assert(in_positions(m, p));
                            }
                            assert(gap_derived(sb_exprs, br, dr, sb_stmts, filter, sb_m, sb_list, p));
                            lemma_gap_derived_grow(
                                sb_exprs,
                                mir.exprs@,
                                br,
                                dr,
                                sb_stmts,
                                mir.statements@,
                                filter,
                                sb_m,
                                m,
                                sb_list,
                                new_list@,
                                p,
                            );
                        } else if p == sb_list.len() {
                            assert(m[m.len() - 1] == p);
                            assert(in_positions(m, p));
                        } else {
                            assert(provenance_ok(
                                mir.exprs@,
                                br,
                                dr,
                                mir.statements@,
                                filter,
                                sid,
                                list_pre.len() as int,
                                new_list@,
                                p,
                            ));
                            assert(new_list@[list_pre.len() - 1] == sid);
                            assert forall|ii: int| 0 <= ii < m.len() implies #[trigger] m[ii]
                                <= list_pre.len() - 1 by {
                                if ii < sb_m.len() {
                                    assert(sb_m[ii] < sb_list.len());
                                }
                            }
                            lemma_gap_from_provenance(
                                mir.exprs@,
                                br,
                                dr,
                                mir.statements@,
                                filter,
                                sid,
                                list_pre.len() as int,
                                m,
                                new_list@,
                                p,
                            );
                        }
                    }
                    // this block's additions stay recursively settled
                    assert forall|i: int|
                        0 <= i < new_list@.len() && !orig_list.contains(
                            (#[trigger] new_list@[i]),
                        ) implies pairs_settled(
                        mir.statements@,
                        mir.exprs@,
                        br,
                        dr,
                        filter,
                        new_list@[i],
                        mir.exprs@,
                        mir.statements@,
                        new_list@,
                        old(mir).statements@.len() as int,
                    ) by {
                        if i < sb_list.len() {
                            assert(p4_shape(sb_stmts, dr, sb_list[i]));
                            lemma_settled_extend(
                                sb_stmts,
                                mir.statements@,
                                sb_exprs,
                                mir.exprs@,
                                br,
                                dr,
                                filter,
                                sb_list[i],
                                sb_exprs,
                                mir.exprs@,
                                sb_stmts,
                                mir.statements@,
                                sb_list,
                                new_list@,
                                old(mir).statements@.len() as int,
                                old(mir).statements@.len() as int,
                            );
                        } else if i >= list_pre.len() {
                            assert(pairs_settled(
                                mir.statements@,
                                mir.exprs@,
                                br,
                                dr,
                                filter,
                                new_list@[i],
                                mir.exprs@,
                                mir.statements@,
                                new_list@,
                                stmts_pre.len() as int,
                            ));
                            assert(p4_shape(mir.statements@, dr, new_list@[i]));
                            lemma_settled_extend(
                                mir.statements@,
                                mir.statements@,
                                mir.exprs@,
                                mir.exprs@,
                                br,
                                dr,
                                filter,
                                new_list@[i],
                                mir.exprs@,
                                mir.exprs@,
                                mir.statements@,
                                mir.statements@,
                                new_list@,
                                new_list@,
                                old(mir).statements@.len() as int,
                                stmts_pre.len() as int,
                            );
                        }
                    }
                    if sb_errs.len() > 0 {
                        lemma_failure_grow(sb_exprs, mir.exprs@, br, sb_stmts, mir.statements@);
                    }
                }
                k += 1;
            }
            self.blocks[b].statements = new_list;
            proof {
                assert(stmts_b0.is_prefix_of(mir.statements@));
                assert(keeps_in_order(orig_list, self.blocks@[b as int].statements@)) by {
                    assert(m.len() == orig_list.len() && (forall|i2: int|
                        0 <= i2 < orig_list.len() ==> 0 <= #[trigger] m[i2]
                            < self.blocks@[b as int].statements@.len()
                            && self.blocks@[b as int].statements@[m[i2]] == orig_list[i2]) && (
                    forall|i2: int, j2: int|
                        0 <= i2 < j2 < orig_list.len() ==> m[i2] < m[j2]));
                }
                assert(block_layout(
                    mir.exprs@,
                    br,
                    dr,
                    mir.statements@,
                    filter,
                    orig_list,
                    self.blocks@[b as int].statements@,
                )) by {
                    let lst = self.blocks@[b as int].statements@;
                    assert(m.len() == orig_list.len() && (forall|i2: int|
                        0 <= i2 < orig_list.len() ==> 0 <= #[trigger] m[i2] < lst.len()
                            && lst[m[i2]] == orig_list[i2]) && (forall|i2: int, j2: int|
                        0 <= i2 < j2 < orig_list.len() ==> m[i2] < m[j2]) && (forall|p: int|
                        0 <= p < lst.len() && !(#[trigger] in_positions(m, p)) ==> gap_derived(
                            mir.exprs@,
                            br,
                            dr,
                            mir.statements@,
                            filter,
                            m,
                            lst,
                            p,
                        )));
                }
                // finished blocks keep their settledness and provenance
                assert forall|bb: int, i: int|
                    0 <= bb < b && 0 <= i < old(self).blocks@[bb].statements@.len()
                        implies pairs_settled(
                    old(mir).statements@,
                    old(mir).exprs@,
                    br,
                    dr,
                    filter,
                    (#[trigger] old(self).blocks@[bb].statements@[i]),
                    mir.exprs@,
                    mir.statements@,
                    self.blocks@[bb].statements@,
                    old(mir).statements@.len() as int,
                ) by {
                    let lst = self.blocks@[bb].statements@;
                    assert(lst =~= lst.take(lst.len() as int));
                    lemma_settled_extend(
                        old(mir).statements@,
                        old(mir).statements@,
                        old(mir).exprs@,
                        old(mir).exprs@,
                        br,
                        dr,
                        filter,
                        old(self).blocks@[bb].statements@[i],
                        ob_exprs,
                        mir.exprs@,
                        ob_stmts,
                        mir.statements@,
                        lst,
                        lst,
                        old(mir).statements@.len() as int,
                        old(mir).statements@.len() as int,
                    );
                }
                assert forall|bb: int, k2: int|
                    0 <= bb < b && 0 <= k2 < self.blocks@[bb].statements@.len()
                        && !old(self).blocks@[bb].statements@.contains(
                        (#[trigger] self.blocks@[bb].statements@[k2]),
                    ) implies block_provenance_ok(
                    mir.exprs@,
                    br,
                    dr,
                    mir.statements@,
                    filter,
                    self.blocks@[bb].statements@,
                    k2,
                ) by {
                    let lst = self.blocks@[bb].statements@;
                    assert(lst =~= lst.take(lst.len() as int));
                    assert(block_provenance_ok(ob_exprs, br, dr, ob_stmts, filter, lst, k2));
                    lemma_block_provenance_grow(
                        ob_exprs,
                        mir.exprs@,
                        br,
                        dr,
                        ob_stmts,
                        mir.statements@,
                        filter,
                        lst,
                        lst,
                        k2,
                    );
                }
                assert forall|bb: int, k2: int|
                    0 <= bb < b && 0 <= k2 < self.blocks@[bb].statements@.len()
                        && !old(self).blocks@[bb].statements@.contains(
                        (#[trigger] self.blocks@[bb].statements@[k2]),
                    ) implies pairs_settled(
                    mir.statements@,
                    mir.exprs@,
                    br,
                    dr,
                    filter,
                    self.blocks@[bb].statements@[k2],
                    mir.exprs@,
                    mir.statements@,
                    self.blocks@[bb].statements@,
                    old(mir).statements@.len() as int,
                ) by {
                    let lst = self.blocks@[bb].statements@;
                    assert(lst =~= lst.take(lst.len() as int));
                    assert(p4_shape(ob_stmts, dr, lst[k2]));
                    lemma_settled_extend(
                        ob_stmts,
                        mir.statements@,
                        ob_exprs,
                        mir.exprs@,
                        br,
                        dr,
                        filter,
                        lst[k2],
                        ob_exprs,
                        mir.exprs@,
                        ob_stmts,
                        mir.statements@,
                        lst,
                        lst,
                        old(mir).statements@.len() as int,
                        old(mir).statements@.len() as int,
                    );
                }
                assert forall|bb: int| 0 <= bb < b implies block_layout(
                    mir.exprs@,
                    br,
                    dr,
                    mir.statements@,
                    filter,
                    old(self).blocks@[bb].statements@,
                    (#[trigger] self.blocks@[bb]).statements@,
                ) by {
                    assert(block_layout(
                        ob_exprs,
                        br,
                        dr,
                        ob_stmts,
                        filter,
                        old(self).blocks@[bb].statements@,
                        self.blocks@[bb].statements@,
                    ));
                    lemma_block_layout_grow(
                        ob_exprs,
                        mir.exprs@,
                        br,
                        dr,
                        ob_stmts,
                        mir.statements@,
                        filter,
                        old(self).blocks@[bb].statements@,
                        self.blocks@[bb].statements@,
                    );
                }
                if ob_errs.len() > 0 {
                    lemma_failure_grow(ob_exprs, mir.exprs@, br, ob_stmts, mir.statements@);
                }
            }
            b += 1;
        }
        errors
    }

    /// Materializes every derivative the register demands, over the whole
    /// graph. Calling this on overlapping graphs would compute derivatives
    /// twice; the driver sequences it once per graph. An error is returned
    /// only when a statement's right-hand side has no derivative rule or
    /// the arenas ran out of handles, and every other registered pair is
    /// still produced.
    pub fn calculate_all_registered_derivatives(&mut self, mir: &mut Mir) -> (errors: Vec<
        DerivativeError,
    >)
        requires
            exprs_wf(old(mir).exprs@),
            stmts_wf(old(mir).statements@, old(mir).exprs@),
            derivs_wf(old(mir).derivatives@),
            forall|b: int, k: int|
                0 <= b < old(self).blocks@.len() && 0 <= k
                    < old(self).blocks@[b].statements@.len() ==> (
                #[trigger] old(self).blocks@[b].statements@[k]) < old(mir).statements@.len(),
        ensures
            exprs_wf(final(mir).exprs@),
            stmts_wf(final(mir).statements@, final(mir).exprs@),
            final(mir).derivatives == old(mir).derivatives,
            old(mir).statements@.is_prefix_of(final(mir).statements@),
            final(self).blocks@.len() == old(self).blocks@.len(),
            forall|b: int, k: int|
                0 <= b < old(self).blocks@.len() && 0 <= k < final(self).blocks@[b].statements@.len() ==> old(self).blocks@[b].statements@.contains(
                    (#[trigger] final(self).blocks@[b].statements@[k]),
                ) || p4_shape(
                    final(mir).statements@,
                    old(mir).derivatives@,
                    final(self).blocks@[b].statements@[k],
                ),
            forall|b: int|
                0 <= b < old(self).blocks@.len() ==> keeps_in_order(
                    old(self).blocks@[b].statements@,
                    (#[trigger] final(self).blocks@[b]).statements@,
                ),
            forall|b: int|
                0 <= b < old(self).blocks@.len() ==> block_layout(
                    final(mir).exprs@,
                    old(mir).branches@,
                    old(mir).derivatives@,
                    final(mir).statements@,
                    &AllDerivatives,
                    old(self).blocks@[b].statements@,
                    (#[trigger] final(self).blocks@[b]).statements@,
                ),
            forall|b: int, i: int|
                0 <= b < old(self).blocks@.len() && 0 <= i
                    < old(self).blocks@[b].statements@.len() ==> all_pairs_settled(
                    old(mir).statements@,
                    old(mir).exprs@,
                    old(mir).branches@,
                    old(mir).derivatives@,
                    (#[trigger] old(self).blocks@[b].statements@[i]),
                    final(mir).exprs@,
                    final(mir).statements@,
                    final(self).blocks@[b].statements@,
                    old(mir).statements@.len() as int,
                ),
            errors@.len() > 0 ==> failure_present(
                final(mir).exprs@,
                old(mir).branches@,
                final(mir).statements@,
            ),
    {
        let f = AllDerivatives;
        let errors = self.demand_derivatives(mir, &f);
        proof {
            assert(f == AllDerivatives);
            assert forall|b: int, i: int|
                0 <= b < old(self).blocks@.len() && 0 <= i
                    < old(self).blocks@[b].statements@.len() implies all_pairs_settled(
                old(mir).statements@,
                old(mir).exprs@,
                old(mir).branches@,
                old(mir).derivatives@,
                (#[trigger] old(self).blocks@[b].statements@[i]),
                mir.exprs@,
                mir.statements@,
                self.blocks@[b].statements@,
                old(mir).statements@.len() as int,
            ) by {
                let sid0 = old(self).blocks@[b].statements@[i];
                assert(pairs_settled(
                    old(mir).statements@,
                    old(mir).exprs@,
                    old(mir).branches@,
                    old(mir).derivatives@,
                    &f,
                    sid0,
                    mir.exprs@,
                    mir.statements@,
                    self.blocks@[b].statements@,
                    old(mir).statements@.len() as int,
                ));
                match old(mir).statements@[sid0 as int] {
                    Statement::Assignment(attr, var, e) => match e {
                        ExpressionId::Real(src) => match entry_ix_from(
                            old(mir).derivatives@,
                            var,
                            0,
                        ) {
                            Some(ix) => {
                                lemma_entry_ix_bounds(old(mir).derivatives@, var, 0);
                                let ts = old(mir).derivatives@[ix].targets@;
                                let pos = choose|pos: Seq<int>|
                                    #[trigger] settled_positions(
                                        old(mir).exprs@,
                                        old(mir).branches@,
                                        old(mir).derivatives@,
                                        &f,
                                        sid0,
                                        var,
                                        attr,
                                        src,
                                        ts,
                                        mir.exprs@,
                                        mir.statements@,
                                        self.blocks@[b].statements@,
                                        old(mir).statements@.len() as int,
                                        pos,
                                    );
                                assert forall|j: int| 0 <= j < ts.len() implies f.accept_spec(
                                    var,
                                    sid0,
                                    (#[trigger] ts[j]).0,
                                ) by {}
                                assert forall|j1: int, j2: int|
                                    0 <= j1 < j2 < ts.len() && (#[trigger] pos[j1]) != -1 && (
                                    #[trigger] pos[j2]) != -1 implies pos[j1] < pos[j2] by {
                                    assert(f.accept_spec(var, sid0, ts[j1].0));
                                    assert(f.accept_spec(var, sid0, ts[j2].0));
                                }
                                assert(all_settled_positions(
                                    old(mir).exprs@,
                                    old(mir).branches@,
                                    old(mir).derivatives@,
                                    attr,
                                    src,
                                    ts,
                                    mir.exprs@,
                                    mir.statements@,
                                    self.blocks@[b].statements@,
                                    old(mir).statements@.len() as int,
                                    pos,
                                ));
                            },
                            None => {},
                        },
                        _ => {},
                    },
                    Statement::Call(_) => {},
                }
            }
        }
        errors
    }
}

} // verus!
