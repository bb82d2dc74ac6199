use vstd::prelude::*;
use vstd::pervasive::VecAdditionalExecFns;
use vstd::string::StringExecFns;
use crate::bitset::BitSet;

verus! {

/// A handle into the backend IR's value table.
pub type Value = u64;

/// The canonical zero value of the backend IR.
pub const F_ZERO: Value = 0;

pub type NodeId = u32;

/// One circuit node of the resolved netlist, as the name resolver reports
/// it.
pub struct NodeData {
    pub name: String,
    pub is_gnd: bool,
}

/// The resolved electrical kind of a branch.
#[derive(Clone, Copy, PartialEq, Eq, Structural, Debug)]
pub enum BranchKind {
    NodeGnd(NodeId),
    Nodes(NodeId, NodeId),
    PortFlow(u32),
}

/// An IR output whose Jacobian contributions are assembled.
#[derive(Clone, Copy, PartialEq, Eq, Structural, Debug)]
pub enum PlaceKind {
    BranchCurrent { branch: u32, reactive: bool },
    ImplicitBranchCurrent { hi: NodeId, lo: Option<NodeId>, reactive: bool },
    Other,
}

/// An interned parameter of the IR.
#[derive(Clone, Copy, PartialEq, Eq, Structural, Debug)]
pub enum ParamKind {
    Voltage { hi: NodeId, lo: Option<NodeId> },
    Other,
}

/// A registered callback of the IR; derivative callbacks number the
/// first-order unknowns in interning order.
#[derive(Clone, Copy, PartialEq, Eq, Structural, Debug)]
pub enum CallBackKind {
    Derivative(u32),
    Other,
}

/// The instructions the assembly step emits into the backend function.
#[derive(Clone, Copy, PartialEq, Eq, Structural, Debug)]
pub enum ValueDef {
    FAdd(Value, Value),
    FSub(Value, Value),
    FNeg(Value),
    OptBarrier(Value),
}

/// A cursor over the backend function: emitted instructions define fresh
/// values in allocation order.
pub struct FuncCursor {
    pub num_values: u64,
    pub insts: Vec<(Value, ValueDef)>,
}

impl FuncCursor {
    fn emit(&mut self, def: ValueDef) -> (r: Value)
        requires
            old(self).num_values < u64::MAX,
        ensures
            r == old(self).num_values,
            final(self).num_values == old(self).num_values + 1,
            final(self).insts@ == old(self).insts@.push((r, def)),
    {
        let r = self.num_values;
        self.num_values = self.num_values + 1;
        self.insts.push((r, def));
        r
    }

    pub fn fadd(&mut self, a: Value, b: Value) -> (r: Value)
        requires
            old(self).num_values < u64::MAX,
        ensures
            r == old(self).num_values,
            final(self).num_values == old(self).num_values + 1,
            final(self).insts@ == old(self).insts@.push((r, ValueDef::FAdd(a, b))),
    {
        self.emit(ValueDef::FAdd(a, b))
    }

    pub fn fsub(&mut self, a: Value, b: Value) -> (r: Value)
        requires
            old(self).num_values < u64::MAX,
        ensures
            r == old(self).num_values,
            final(self).num_values == old(self).num_values + 1,
            final(self).insts@ == old(self).insts@.push((r, ValueDef::FSub(a, b))),
    {
        self.emit(ValueDef::FSub(a, b))
    }

    pub fn fneg(&mut self, a: Value) -> (r: Value)
        requires
            old(self).num_values < u64::MAX,
        ensures
            r == old(self).num_values,
            final(self).num_values == old(self).num_values + 1,
            final(self).insts@ == old(self).insts@.push((r, ValueDef::FNeg(a))),
    {
        self.emit(ValueDef::FNeg(a))
    }

    pub fn optbarrier(&mut self, a: Value) -> (r: Value)
        requires
            old(self).num_values < u64::MAX,
        ensures
            r == old(self).num_values,
            final(self).num_values == old(self).num_values + 1,
            final(self).insts@ == old(self).insts@.push((r, ValueDef::OptBarrier(a))),
    {
        self.emit(ValueDef::OptBarrier(a))
    }
}

/// A matrix position: the row and column circuit nodes.
#[derive(PartialEq, Eq, Clone, Copy, Structural, Debug, Hash)]
pub struct MatrixEntry {
    pub row: NodeId,
    pub col: NodeId,
}

/// The dense handle of a matrix entry: its insertion index, assigned in
/// insertion order and never reused.
#[derive(PartialEq, Eq, PartialOrd, Ord, Clone, Copy, Structural, Debug)]
pub struct MatrixEntryId(pub u32);

/// One half of the Jacobian: an insertion-ordered map from matrix position
/// to the IR value holding the entry's contribution.
pub struct EntryMap {
    pub entries: Vec<(MatrixEntry, Value)>,
}

/// The position of `key` in the map, if present.
pub open spec fn find_key(s: Seq<(MatrixEntry, Value)>, key: MatrixEntry) -> Option<int> {
    if exists|i: int| 0 <= i < s.len() && (#[trigger] s[i]).0 == key {
        Some(choose|i: int| 0 <= i < s.len() && (#[trigger] s[i]).0 == key)
    } else {
        None
    }
}

/// No position occurs twice.
pub open spec fn keys_unique(s: Seq<(MatrixEntry, Value)>) -> bool {
    forall|i: int, j: int|
        0 <= i < j < s.len() ==> (#[trigger] s[i]).0 != (#[trigger] s[j]).0
}

/// Neither side of any entry is the ground node.
pub open spec fn no_ground(s: Seq<(MatrixEntry, Value)>, nodes: Seq<NodeData>) -> bool {
    forall|i: int|
        0 <= i < s.len() ==> (#[trigger] s[i]).0.row < nodes.len() && s[i].0.col < nodes.len()
            && !nodes[s[i].0.row as int].is_gnd && !nodes[s[i].0.col as int].is_gnd
}

impl EntryMap {
    pub fn new() -> (r: EntryMap)
        ensures
            r.entries@.len() == 0,
            keys_unique(r.entries@),
    {
        EntryMap { entries: Vec::new() }
    }

    fn position_of(&self, key: MatrixEntry) -> (r: Option<usize>)
        requires
            keys_unique(self.entries@),
        ensures
            match r {
                Some(i) => i < self.entries@.len() && self.entries@[i as int].0 == key,
                None => forall|i: int|
                    0 <= i < self.entries@.len() ==> (#[trigger] self.entries@[i]).0 != key,
            },
    {
        let mut i: usize = 0;
        while i < self.entries.len()
            invariant
                i <= self.entries@.len(),
                forall|j: int| 0 <= j < i ==> (#[trigger] self.entries@[j]).0 != key,
            decreases self.entries@.len() - i,
        {
            if self.entries[i].0.row == key.row && self.entries[i].0.col == key.col {
                return Some(i);
            }
            i += 1;
        }
        None
    }
}

/// How one signed contribution changes a half of the matrix: an existing
/// entry at the position accumulates through a fresh `fadd` or `fsub`
/// instruction; a new entry is appended, behind an `fneg` when the
/// contribution is negative. Keys at all other positions are untouched.
pub open spec fn stamped(
    dst: Seq<(MatrixEntry, Value)>,
    out: Seq<(MatrixEntry, Value)>,
    row: NodeId,
    col: NodeId,
    val: Value,
    neg: bool,
    old_nv: u64,
    old_insts: Seq<(Value, ValueDef)>,
    new_insts: Seq<(Value, ValueDef)>,
) -> bool {
    &&& out.len() >= dst.len() && out.len() <= dst.len() + 1
    &&& forall|j: int|
        0 <= j < out.len() ==> (#[trigger] out[j]).0 == (if j < dst.len() {
            dst[j].0
        } else {
            MatrixEntry { row, col }
        })
    &&& match find_key(dst, MatrixEntry { row, col }) {
        Some(i) => out.len() == dst.len() && out[i].0 == dst[i].0 && out[i].1 == old_nv && (
        forall|j: int| 0 <= j < dst.len() && j != i ==> out[j] == dst[j]) && new_insts
            == old_insts.push(
            (
                old_nv,
                if neg {
                    ValueDef::FSub(dst[i].1, val)
                } else {
                    ValueDef::FAdd(dst[i].1, val)
                },
            ),
        ),
        None => out == dst.push(
            (
                MatrixEntry { row, col },
                if neg {
                    old_nv
                } else {
                    val
                },
            ),
        ) && (neg ==> new_insts == old_insts.push((old_nv, ValueDef::FNeg(val)))) && (!neg
            ==> new_insts == old_insts),
    }
}

/// The assembly state the population pass threads: the two halves of the
/// matrix and the backend cursor.
#[verifier::ext_equal]
pub ghost struct AsmState {
    pub resistive: Seq<(MatrixEntry, Value)>,
    pub reactive: Seq<(MatrixEntry, Value)>,
    pub num_values: u64,
    pub insts: Seq<(Value, ValueDef)>,
}

pub open spec fn asm_of(m: JacobianMatrix, f: FuncCursor) -> AsmState {
    AsmState {
        resistive: m.resistive.entries@,
        reactive: m.reactive.entries@,
        num_values: f.num_values,
        insts: f.insts@,
    }
}

/// One signed deposit into a half, exactly as `ensure_entry` performs it:
/// the entries, the allocation counter and the instruction tape after the
/// deposit.
pub open spec fn stamp_upd(
    dst: Seq<(MatrixEntry, Value)>,
    row: NodeId,
    col: NodeId,
    val: Value,
    neg: bool,
    nv: u64,
    insts: Seq<(Value, ValueDef)>,
) -> (Seq<(MatrixEntry, Value)>, u64, Seq<(Value, ValueDef)>) {
    let key = MatrixEntry { row, col };
    match find_key(dst, key) {
        Some(i) => (
            dst.update(i, (dst[i].0, nv)),
            (nv + 1) as u64,
            insts.push(
                (
                    nv,
                    if neg {
                        ValueDef::FSub(dst[i].1, val)
                    } else {
                        ValueDef::FAdd(dst[i].1, val)
                    },
                ),
            ),
        ),
        None => if neg {
            (dst.push((key, nv)), (nv + 1) as u64, insts.push((nv, ValueDef::FNeg(val))))
        } else {
            (dst.push((key, val)), nv, insts)
        },
    }
}

/// `stamp_upd` applied to the chosen half of the assembly state.
pub open spec fn stamp_step(
    st: AsmState,
    row: NodeId,
    col: NodeId,
    val: Value,
    neg: bool,
    reactive: bool,
) -> AsmState {
    if reactive {
        let u = stamp_upd(st.reactive, row, col, val, neg, st.num_values, st.insts);
        AsmState { resistive: st.resistive, reactive: u.0, num_values: u.1, insts: u.2 }
    } else {
        let u = stamp_upd(st.resistive, row, col, val, neg, st.num_values, st.insts);
        AsmState { resistive: u.0, reactive: st.reactive, num_values: u.1, insts: u.2 }
    }
}

/// A stamp at a non-ground position keeps the half free of ground nodes.
proof fn lemma_stamped_no_ground(
    dst: Seq<(MatrixEntry, Value)>,
    out: Seq<(MatrixEntry, Value)>,
    nodes: Seq<NodeData>,
    row: NodeId,
    col: NodeId,
    val: Value,
    neg: bool,
    old_nv: u64,
    old_insts: Seq<(Value, ValueDef)>,
    new_insts: Seq<(Value, ValueDef)>,
)
    requires
        stamped(dst, out, row, col, val, neg, old_nv, old_insts, new_insts),
        no_ground(dst, nodes),
        row < nodes.len(),
        col < nodes.len(),
        !nodes[row as int].is_gnd,
        !nodes[col as int].is_gnd,
    ensures
        no_ground(out, nodes),
{
    assert forall|i: int| 0 <= i < out.len() implies (#[trigger] out[i]).0.row < nodes.len()
        && out[i].0.col < nodes.len() && !nodes[out[i].0.row as int].is_gnd
        && !nodes[out[i].0.col as int].is_gnd by {
        if i < dst.len() {
            assert(out[i].0 == dst[i].0);
            assert((#[trigger] dst[i]).0.row < nodes.len());
        } else {
            assert(out[i].0 == MatrixEntry { row, col });
        }
    }
}
pub struct JacobianMatrix {
    pub resistive: EntryMap,
    pub reactive: EntryMap,
}

impl JacobianMatrix {
    pub fn new() -> (r: JacobianMatrix)
        ensures
            r.resistive.entries@.len() == 0,
            r.reactive.entries@.len() == 0,
            keys_unique(r.resistive.entries@),
            keys_unique(r.reactive.entries@),
    {
        JacobianMatrix { resistive: EntryMap::new(), reactive: EntryMap::new() }
    }

    /// Deposits one signed contribution at `(row, col)` of the chosen
    /// half. An existing entry accumulates through a fresh `fadd` or
    /// `fsub` instruction; a new entry is inserted at the end, behind an
    /// `fneg` when the contribution is negative.
    pub fn ensure_entry(
        &mut self,
        func: &mut FuncCursor,
        row: NodeId,
        col: NodeId,
        val: Value,
        neg: bool,
        reactive: bool,
    )
        requires
            old(func).num_values < u64::MAX,
            keys_unique(old(self).resistive.entries@),
            keys_unique(old(self).reactive.entries@),
        ensures
            keys_unique(final(self).resistive.entries@),
            keys_unique(final(self).reactive.entries@),
            final(func).num_values >= old(func).num_values,
            final(func).num_values <= old(func).num_values + 1,
            reactive ==> final(self).resistive.entries@ == old(self).resistive.entries@
                && stamped(
                old(self).reactive.entries@,
                final(self).reactive.entries@,
                row,
                col,
                val,
                neg,
                old(func).num_values,
                old(func).insts@,
                final(func).insts@,
            ),
            !reactive ==> final(self).reactive.entries@ == old(self).reactive.entries@
                && stamped(
                old(self).resistive.entries@,
                final(self).resistive.entries@,
                row,
                col,
                val,
                neg,
                old(func).num_values,
                old(func).insts@,
                final(func).insts@,
            ),
            asm_of(*final(self), *final(func)) == stamp_step(
                asm_of(*old(self), *old(func)),
                row,
                col,
                val,
                neg,
                reactive,
            ),
    {
        let key = MatrixEntry { row, col };
        let dst = if reactive {
            &mut self.reactive
        } else {
            &mut self.resistive
        };
        match dst.position_of(key) {
            Some(i) => {
                let existing = dst.entries[i].1;
                let combined = if neg {
                    func.fsub(existing, val)
                } else {
                    func.fadd(existing, val)
                };
                dst.entries.set(i, (key, combined));
                proof {
                    let ghost pre = if reactive {
                        old(self).reactive.entries@
                    } else {
                        old(self).resistive.entries@
                    };
                    assert(pre[i as int].0 == key);
                    assert(find_key(pre, key) is Some);
                    let ghost fi = find_key(pre, key)->Some_0;
                    assert(pre[fi].0 == key);
                    assert(fi == i);
                    if reactive {
                        assert(self.reactive.entries@ =~= pre.update(
                            i as int,
                            (pre[i as int].0, old(func).num_values),
                        ));
                    } else {
                        assert(self.resistive.entries@ =~= pre.update(
                            i as int,
                            (pre[i as int].0, old(func).num_values),
                        ));
                    }
                    assert(asm_of(*self, *func) =~= stamp_step(
                        asm_of(*old(self), *old(func)),
                        row,
                        col,
                        val,
                        neg,
                        reactive,
                    ));
                }
            },
            None => {
                let v = if neg {
                    func.fneg(val)
                } else {
                    val
                };
                dst.entries.push((key, v));
                proof {
                    let ghost pre = if reactive {
                        old(self).reactive.entries@
                    } else {
                        old(self).resistive.entries@
                    };
                    assert(find_key(pre, key) is None);
                    assert(asm_of(*self, *func) =~= stamp_step(
                        asm_of(*old(self), *old(func)),
                        row,
                        col,
                        val,
                        neg,
                        reactive,
                    ));
                }
            },
        }
    }

    /// Removes the entries whose value is the canonical zero.
    pub fn sparsify(&mut self)
        requires
            keys_unique(old(self).resistive.entries@),
            keys_unique(old(self).reactive.entries@),
        ensures
            final(self).resistive.entries@ == old(self).resistive.entries@.filter(
                |e: (MatrixEntry, Value)| e.1 != F_ZERO,
            ),
            final(self).reactive.entries@ == old(self).reactive.entries@.filter(
                |e: (MatrixEntry, Value)| e.1 != F_ZERO,
            ),
            keys_unique(final(self).resistive.entries@),
            keys_unique(final(self).reactive.entries@),
    {
        let r1 = filter_nonzero(&self.resistive.entries);
        let r2 = filter_nonzero(&self.reactive.entries);
        proof {
            lemma_filter_keys_unique(self.resistive.entries@);
            lemma_filter_keys_unique(self.reactive.entries@);
        }
        self.resistive.entries = r1;
        self.reactive.entries = r2;
    }
}

fn filter_nonzero(v: &Vec<(MatrixEntry, Value)>) -> (r: Vec<(MatrixEntry, Value)>)
    ensures
        r@ == v@.filter(|e: (MatrixEntry, Value)| e.1 != F_ZERO),
{
    let mut out: Vec<(MatrixEntry, Value)> = Vec::new();
    let mut i: usize = 0;
    proof {
        assert(v@.take(0).filter(|e: (MatrixEntry, Value)| e.1 != F_ZERO) =~= Seq::<
            (MatrixEntry, Value),
        >::empty());
    }
    while i < v.len()
        invariant
            i <= v@.len(),
            out@ == v@.take(i as int).filter(|e: (MatrixEntry, Value)| e.1 != F_ZERO),
        decreases v@.len() - i,
    {
        proof {
            assert(v@.take(i + 1).drop_last() =~= v@.take(i as int));
            assert(v@.take(i + 1).last() == v@[i as int]);
            reveal(Seq::filter);
        }
        if v[i].1 != F_ZERO {
            out.push(v[i]);
        }
        i += 1;
    }
    proof {
        assert(v@.take(v@.len() as int) =~= v@);
    }
    out
}

proof fn lemma_filter_keys_unique(s: Seq<(MatrixEntry, Value)>)
    requires
        keys_unique(s),
    ensures
        keys_unique(s.filter(|e: (MatrixEntry, Value)| e.1 != F_ZERO)),
    decreases s.len(),
{
    reveal(Seq::filter);
    if s.len() > 0 {
        let prefix = s.drop_last();
        lemma_filter_drop_last_subrange(s);
        assert(keys_unique(prefix));
        lemma_filter_keys_unique(prefix);
        let f = |e: (MatrixEntry, Value)| e.1 != F_ZERO;
        if s.last().1 != F_ZERO {
            let out = s.filter(f);
            assert(out == prefix.filter(f).push(s.last()));
            assert forall|i: int, j: int| 0 <= i < j < out.len() implies (#[trigger] out[i]).0 != (
            #[trigger] out[j]).0 by {
                if j < out.len() - 1 {
                    assert(out[i] == prefix.filter(f)[i]);
                    assert(out[j] == prefix.filter(f)[j]);
                } else {
                    assert(out[j] == s.last());
                    assert(out[i] == prefix.filter(f)[i]);
                    lemma_filter_elem(prefix, f, i);
                    let wi = choose|w: int|
                        0 <= w < prefix.len() && prefix[w] == #[trigger] prefix.filter(f)[i];
                    assert(s[wi] == prefix[wi]);
                    assert(s[wi].0 != s[s.len() - 1].0);
                }
            }
        }
    }
}

proof fn lemma_filter_drop_last_subrange(s: Seq<(MatrixEntry, Value)>)
    requires
        keys_unique(s),
        s.len() > 0,
    ensures
        keys_unique(s.drop_last()),
{
}

/// An element of a filtered sequence occurs in the sequence.
proof fn lemma_filter_elem(
    s: Seq<(MatrixEntry, Value)>,
    pred: spec_fn((MatrixEntry, Value)) -> bool,
    i: int,
)
    requires
        0 <= i < s.filter(pred).len(),
    ensures
        exists|w: int| 0 <= w < s.len() && s[w] == #[trigger] s.filter(pred)[i],
    decreases s.len(),
{
    reveal(Seq::filter);
    if s.len() > 0 {
        let prefix = s.drop_last();
        if pred(s.last()) && i == s.filter(pred).len() - 1 {
            assert(s[s.len() - 1] == s.filter(pred)[i]);
        } else {
            lemma_filter_elem(prefix, pred, i);
            let w = choose|w: int| 0 <= w < prefix.len() && prefix[w] == prefix.filter(pred)[i];
            assert(s[w] == s.filter(pred)[i]);
        }
    }
}

/// The first derivative callback registered for `param`, scanning from
/// position `i`.
pub open spec fn cb_index_from(callbacks: Seq<CallBackKind>, param: u32, i: int) -> Option<u32>
    decreases callbacks.len() - i,
{
    if i < 0 || i >= callbacks.len() {
        None
    } else if callbacks[i] == CallBackKind::Derivative(param) {
        Some(i as u32)
    } else {
        cb_index_from(callbacks, param, i + 1)
    }
}

/// The first registered derivative of `rhs` with respect to `unknown`,
/// scanning from position `i`.
pub open spec fn deriv_from(
    derivatives: Seq<((Value, u32), Value)>,
    rhs: Value,
    unknown: u32,
    i: int,
) -> Option<Value>
    decreases derivatives.len() - i,
{
    if i < 0 || i >= derivatives.len() {
        None
    } else if derivatives[i].0.0 == rhs && derivatives[i].0.1 == unknown {
        Some(derivatives[i].1)
    } else {
        deriv_from(derivatives, rhs, unknown, i + 1)
    }
}

/// The row pair an output contributes to: the high node, the optional low
/// node, and the reactive flag; `None` for outputs that stamp nothing.
pub open spec fn decode_output(kind: PlaceKind, branches: Seq<BranchKind>) -> Option<
    (NodeId, Option<NodeId>, bool),
> {
    match kind {
        PlaceKind::BranchCurrent { branch, reactive } => match branches[branch as int] {
            BranchKind::NodeGnd(node) => Some((node, None, reactive)),
            BranchKind::Nodes(hi, lo) => Some((hi, Some(lo), reactive)),
            BranchKind::PortFlow(_) => None,
        },
        PlaceKind::ImplicitBranchCurrent { hi, lo, reactive } => Some((hi, lo, reactive)),
        PlaceKind::Other => None,
    }
}

/// The four-position sign pattern of one (output row pair, voltage column
/// pair) contribution: `+g` at (hi, hi) and (lo, lo), `-g` at (hi, lo) and
/// (lo, hi), eliding every position that names the ground node.
pub open spec fn pair_step(
    st: AsmState,
    nodes: Seq<NodeData>,
    row_hi: NodeId,
    row_lo: Option<NodeId>,
    reactive: bool,
    col_hi: NodeId,
    col_lo: Option<NodeId>,
    ddx: Value,
) -> AsmState {
    let hi_gnd = nodes[row_hi as int].is_gnd;
    let lo_gnd = match row_lo {
        Some(n) => nodes[n as int].is_gnd,
        None => true,
    };
    let col_hi_gnd = nodes[col_hi as int].is_gnd;
    let col_lo_ok = match col_lo {
        Some(cl) => !nodes[cl as int].is_gnd,
        None => false,
    };
    let st1 = if !hi_gnd && !col_hi_gnd {
        stamp_step(st, row_hi, col_hi, ddx, false, reactive)
    } else {
        st
    };
    let st2 = if !hi_gnd && col_lo is Some && col_lo_ok {
        stamp_step(st1, row_hi, col_lo->0, ddx, true, reactive)
    } else {
        st1
    };
    let st3 = if row_lo is Some && !lo_gnd && !col_hi_gnd {
        stamp_step(st2, row_lo->0, col_hi, ddx, true, reactive)
    } else {
        st2
    };
    if row_lo is Some && !lo_gnd && col_lo is Some && col_lo_ok {
        stamp_step(st3, row_lo->0, col_lo->0, ddx, false, reactive)
    } else {
        st3
    }
}

/// The contribution of one interned parameter to one output row pair: the
/// sign pattern when the parameter is a voltage probe with a registered,
/// non-zero derivative of the output's value, and no change otherwise.
pub open spec fn param_step(
    st: AsmState,
    nodes: Seq<NodeData>,
    callbacks: Seq<CallBackKind>,
    derivatives: Seq<((Value, u32), Value)>,
    rhs: Value,
    row_hi: NodeId,
    row_lo: Option<NodeId>,
    reactive: bool,
    params: Seq<ParamKind>,
    p: int,
) -> AsmState {
    match params[p] {
        ParamKind::Voltage { hi, lo } => match cb_index_from(callbacks, p as u32, 0) {
            Some(u) => match deriv_from(derivatives, rhs, u, 0) {
                Some(ddx) => if ddx == F_ZERO {
                    st
                } else {
                    pair_step(st, nodes, row_hi, row_lo, reactive, hi, lo, ddx)
                },
                None => st,
            },
            None => st,
        },
        ParamKind::Other => st,
    }
}

/// The contributions of the first `p` interned parameters, in order.
pub open spec fn params_fold(
    st: AsmState,
    nodes: Seq<NodeData>,
    callbacks: Seq<CallBackKind>,
    derivatives: Seq<((Value, u32), Value)>,
    rhs: Value,
    row_hi: NodeId,
    row_lo: Option<NodeId>,
    reactive: bool,
    params: Seq<ParamKind>,
    p: int,
) -> AsmState
    decreases p,
{
    if p <= 0 {
        st
    } else {
        param_step(
            params_fold(
                st,
                nodes,
                callbacks,
                derivatives,
                rhs,
                row_hi,
                row_lo,
                reactive,
                params,
                p - 1,
            ),
            nodes,
            callbacks,
            derivatives,
            rhs,
            row_hi,
            row_lo,
            reactive,
            params,
            p - 1,
        )
    }
}

/// The contributions of one output: every parameter's, against the
/// output's decoded row pair.
pub open spec fn output_step(
    st: AsmState,
    nodes: Seq<NodeData>,
    branches: Seq<BranchKind>,
    callbacks: Seq<CallBackKind>,
    derivatives: Seq<((Value, u32), Value)>,
    params: Seq<ParamKind>,
    output: (PlaceKind, Value),
) -> AsmState {
    match decode_output(output.0, branches) {
        Some(d) => params_fold(
            st,
            nodes,
            callbacks,
            derivatives,
            output.1,
            d.0,
            d.1,
            d.2,
            params,
            params.len() as int,
        ),
        None => st,
    }
}

/// The contributions of the first `o` outputs, in order: the reference
/// semantics of Jacobian population.
pub open spec fn outputs_fold(
    st: AsmState,
    nodes: Seq<NodeData>,
    branches: Seq<BranchKind>,
    outputs: Seq<(PlaceKind, Value)>,
    params: Seq<ParamKind>,
    callbacks: Seq<CallBackKind>,
    derivatives: Seq<((Value, u32), Value)>,
    o: int,
) -> AsmState
    decreases o,
{
    if o <= 0 {
        st
    } else {
        output_step(
            outputs_fold(st, nodes, branches, outputs, params, callbacks, derivatives, o - 1),
            nodes,
            branches,
            callbacks,
            derivatives,
            params,
            outputs[o - 1],
        )
    }
}

impl JacobianMatrix {
    /// One signed stamp into a half of the matrix, at a position whose
    /// nodes were checked to be valid and non-ground: both halves keep
    /// their keys unique and free of ground nodes.
    fn stamp(
        &mut self,
        func: &mut FuncCursor,
        nodes: &Vec<NodeData>,
        row: NodeId,
        col: NodeId,
        val: Value,
        neg: bool,
        reactive: bool,
    )
        requires
            old(func).num_values < u64::MAX,
            keys_unique(old(self).resistive.entries@),
            keys_unique(old(self).reactive.entries@),
            no_ground(old(self).resistive.entries@, nodes@),
            no_ground(old(self).reactive.entries@, nodes@),
            row < nodes@.len(),
            col < nodes@.len(),
            !nodes@[row as int].is_gnd,
            !nodes@[col as int].is_gnd,
        ensures
            keys_unique(final(self).resistive.entries@),
            keys_unique(final(self).reactive.entries@),
            no_ground(final(self).resistive.entries@, nodes@),
            no_ground(final(self).reactive.entries@, nodes@),
            final(func).num_values >= old(func).num_values,
            final(func).num_values <= old(func).num_values + 1,
            asm_of(*final(self), *final(func)) == stamp_step(
                asm_of(*old(self), *old(func)),
                row,
                col,
                val,
                neg,
                reactive,
            ),
    {
        self.ensure_entry(func, row, col, val, neg, reactive);
        proof {
            if reactive {
                lemma_stamped_no_ground(
                    old(self).reactive.entries@,
                    self.reactive.entries@,
                    nodes@,
                    row,
                    col,
                    val,
                    neg,
                    old(func).num_values,
                    old(func).insts@,
                    func.insts@,
                );
            } else {
                lemma_stamped_no_ground(
                    old(self).resistive.entries@,
                    self.resistive.entries@,
                    nodes@,
                    row,
                    col,
                    val,
                    neg,
                    old(func).num_values,
                    old(func).insts@,
                    func.insts@,
                );
            }
        }
    }

    /// Walks every current-like output and every interned voltage
    /// parameter; where a derivative is registered and not the canonical
    /// zero, the four-position sign pattern is deposited, skipping ground
    /// rows and ground-referenced columns. The matrix keys stay unique and
    /// never name the ground node.
    #[verifier::loop_isolation(false)]
    #[verifier::rlimit(60)]
    pub fn populate(
        &mut self,
        func: &mut FuncCursor,
        nodes: &Vec<NodeData>,
        branches: &Vec<BranchKind>,
        outputs: &Vec<(PlaceKind, Value)>,
        params: &Vec<ParamKind>,
        callbacks: &Vec<CallBackKind>,
        derivatives: &Vec<((Value, u32), Value)>,
    )
        requires
            keys_unique(old(self).resistive.entries@),
            keys_unique(old(self).reactive.entries@),
            no_ground(old(self).resistive.entries@, nodes@),
            no_ground(old(self).reactive.entries@, nodes@),
            old(func).num_values + 4 * outputs@.len() * params@.len() <= u64::MAX,
            callbacks@.len() <= u32::MAX,
            params@.len() <= u32::MAX,
            forall|i: int|
                0 <= i < outputs@.len() ==> match (#[trigger] outputs@[i]).0 {
                    PlaceKind::BranchCurrent { branch, .. } => branch < branches@.len(),
                    PlaceKind::ImplicitBranchCurrent { hi, lo, .. } => hi < nodes@.len() && match lo {
                        Some(n) => n < nodes@.len(),
                        None => true,
                    },
                    PlaceKind::Other => true,
                },
            forall|i: int|
                0 <= i < branches@.len() ==> match #[trigger] branches@[i] {
                    BranchKind::NodeGnd(n) => n < nodes@.len(),
                    BranchKind::Nodes(h, l) => h < nodes@.len() && l < nodes@.len(),
                    BranchKind::PortFlow(_) => true,
                },
            forall|i: int|
                0 <= i < params@.len() ==> match #[trigger] params@[i] {
                    ParamKind::Voltage { hi, lo } => hi < nodes@.len() && match lo {
                        Some(n) => n < nodes@.len(),
                        None => true,
                    },
                    ParamKind::Other => true,
                },
        ensures
            keys_unique(final(self).resistive.entries@),
            keys_unique(final(self).reactive.entries@),
            no_ground(final(self).resistive.entries@, nodes@),
            no_ground(final(self).reactive.entries@, nodes@),
            asm_of(*final(self), *final(func)) == outputs_fold(
                asm_of(*old(self), *old(func)),
                nodes@,
                branches@,
                outputs@,
                params@,
                callbacks@,
                derivatives@,
                outputs@.len() as int,
            ),
    {
        let ghost st0 = asm_of(*old(self), *old(func));
        let n_out = outputs.len();
        let n_par = params.len();
        let mut o: usize = 0;
        while o < n_out
            invariant
                keys_unique(self.resistive.entries@),
                keys_unique(self.reactive.entries@),
                no_ground(self.resistive.entries@, nodes@),
                no_ground(self.reactive.entries@, nodes@),
                o <= n_out,
                func.num_values <= old(func).num_values + 4 * o * n_par,
                asm_of(*self, *func) == outputs_fold(
                    st0,
                    nodes@,
                    branches@,
                    outputs@,
                    params@,
                    callbacks@,
                    derivatives@,
                    o as int,
                ),
            decreases n_out - o,
        {
            proof {
                assert(4 * o * n_par + 4 * n_par <= 4 * n_out * n_par) by (nonlinear_arith)
                    requires
                        o < n_out,
                        n_par >= 0,
                        o >= 0,
                ;
            }
            let (out_kind, rhs) = outputs[o];
            let decoded: Option<(NodeId, Option<NodeId>, bool)> = match out_kind {
                PlaceKind::BranchCurrent { branch, reactive } => {
                    match branches[branch as usize] {
                        BranchKind::NodeGnd(node) => Some((node, None, reactive)),
                        BranchKind::Nodes(hi, lo) => Some((hi, Some(lo), reactive)),
                        BranchKind::PortFlow(_) => None,
                    }
                },
                PlaceKind::ImplicitBranchCurrent { hi, lo, reactive } => Some((hi, lo, reactive)),
                PlaceKind::Other => None,
            };
            proof {
                assert(decoded == decode_output(outputs@[o as int].0, branches@));
            }
            let ghost st_o = asm_of(*self, *func);
            match decoded {
                Some((row_hi, row_lo, reactive)) => {
                    let hi_gnd = nodes[row_hi as usize].is_gnd;
                    let lo_gnd = match row_lo {
                        Some(lo) => nodes[lo as usize].is_gnd,
                        None => true,
                    };
                    let mut p: usize = 0;
                    while p < n_par
                        invariant
                            keys_unique(self.resistive.entries@),
                            keys_unique(self.reactive.entries@),
                            no_ground(self.resistive.entries@, nodes@),
                            no_ground(self.reactive.entries@, nodes@),
                            p <= n_par,
                            o < n_out,
                            row_hi < nodes@.len(),
                            match row_lo {
                                Some(n) => n < nodes@.len(),
                                None => true,
                            },
                            hi_gnd == nodes@[row_hi as int].is_gnd,
                            (match row_lo {
                                Some(n) => lo_gnd == nodes@[n as int].is_gnd,
                                None => lo_gnd,
                            }),
                            func.num_values <= old(func).num_values + 4 * o * n_par + 4 * p,
                            decoded == Some((row_hi, row_lo, reactive)),
                            rhs == outputs@[o as int].1,
                            asm_of(*self, *func) == params_fold(
                                st_o,
                                nodes@,
                                callbacks@,
                                derivatives@,
                                rhs,
                                row_hi,
                                row_lo,
                                reactive,
                                params@,
                                p as int,
                            ),
                        decreases n_par - p,
                    {
                        let ghost sp = asm_of(*self, *func);
                        let ghost pnext = params_fold(
                            st_o,
                            nodes@,
                            callbacks@,
                            derivatives@,
                            rhs,
                            row_hi,
                            row_lo,
                            reactive,
                            params@,
                            p as int + 1,
                        );
                        let (col_hi, col_lo) = match params[p] {
                            ParamKind::Voltage { hi, lo } => (hi, lo),
                            ParamKind::Other => {
                                proof {
                                    assert(pnext == sp);
                                }
                                p += 1;
                                continue ;
                            },
                        };
                        let unknown = match find_derivative_callback(callbacks, p as u32) {
                            Some(u) => u,
                            None => {
                                proof {
                                    assert(pnext == sp);
                                }
                                p += 1;
                                continue ;
                            },
                        };
                        let ddx = match find_derivative(derivatives, rhs, unknown) {
                            Some(d) => d,
                            None => {
                                proof {
                                    assert(pnext == sp);
                                }
                                p += 1;
                                continue ;
                            },
                        };
                        if ddx == F_ZERO {
                            proof {
                                assert(pnext == sp);
                            }
                            p += 1;
                            continue ;
                        }
                        let col_hi_gnd = nodes[col_hi as usize].is_gnd;
                        let col_lo_ok = match col_lo {
                            Some(cl) => !nodes[cl as usize].is_gnd,
                            None => false,
                        };
                        let ghost s1 = if !hi_gnd && !col_hi_gnd {
                            stamp_step(sp, row_hi, col_hi, ddx, false, reactive)
                        } else {
                            sp
                        };
                        let ghost s2 = if !hi_gnd && col_lo is Some && col_lo_ok {
                            stamp_step(s1, row_hi, col_lo->0, ddx, true, reactive)
                        } else {
                            s1
                        };
                        let ghost s3 = if row_lo is Some && !lo_gnd && !col_hi_gnd {
                            stamp_step(s2, row_lo->0, col_hi, ddx, true, reactive)
                        } else {
                            s2
                        };
                        let ghost s4 = if row_lo is Some && !lo_gnd && col_lo is Some
                            && col_lo_ok {
                            stamp_step(s3, row_lo->0, col_lo->0, ddx, false, reactive)
                        } else {
                            s3
                        };
                        if !hi_gnd {
                            if !col_hi_gnd {
                                self.stamp(func, nodes, row_hi, col_hi, ddx, false, reactive);
                            }
                            proof {
                                assert(asm_of(*self, *func) == s1);
                            }
                            match col_lo {
                                Some(cl) => if col_lo_ok {
                                    self.stamp(func, nodes, row_hi, cl, ddx, true, reactive);
                                },
                                None => {},
                            }
                        }
                        proof {
                            assert(asm_of(*self, *func) == s2);
                        }
                        match row_lo {
                            Some(rl) => {
                                if !lo_gnd {
                                    if !col_hi_gnd {
                                        self.stamp(func, nodes, rl, col_hi, ddx, true, reactive);
                                    }
                                    proof {
                                        assert(asm_of(*self, *func) == s3);
                                    }
                                    match col_lo {
                                        Some(cl) => if col_lo_ok {
                                            self.stamp(func, nodes, rl, cl, ddx, false, reactive);
                                        },
                                        None => {},
                                    }
                                }
                            },
                            None => {},
                        }
                        proof {
                            assert(asm_of(*self, *func) == s4);
                            assert(pair_step(
                                sp,
                                nodes@,
                                row_hi,
                                row_lo,
                                reactive,
                                col_hi,
                                col_lo,
                                ddx,
                            ) == s4);
                            assert(pnext == s4);
                        }
                        p += 1;
                    }
                    proof {
                        assert(asm_of(*self, *func) == output_step(
                            st_o,
                            nodes@,
                            branches@,
                            callbacks@,
                            derivatives@,
                            params@,
                            outputs@[o as int],
                        ));
                    }
                },
                None => {
                    proof {
                        assert(asm_of(*self, *func) == output_step(
                            st_o,
                            nodes@,
                            branches@,
                            callbacks@,
                            derivatives@,
                            params@,
                            outputs@[o as int],
                        ));
                    }
                },
            }
            proof {
                assert(4 * o * n_par + 4 * n_par == 4 * (o + 1) * n_par) by (nonlinear_arith);
                assert(asm_of(*self, *func) == outputs_fold(
                    st0,
                    nodes@,
                    branches@,
                    outputs@,
                    params@,
                    callbacks@,
                    derivatives@,
                    o as int + 1,
                ));
            }
            o += 1;
        }
    }

    /// Wraps every matrix value in an `optbarrier` pseudo-instruction and
    /// records the barrier values as externally observed, so optimization
    /// cannot delete the entries' computations.
    #[verifier::loop_isolation(false)]
    pub fn insert_opt_barries(&mut self, func: &mut FuncCursor, output_values: &mut BitSet)
        requires
            keys_unique(old(self).resistive.entries@),
            keys_unique(old(self).reactive.entries@),
            old(func).num_values + old(self).resistive.entries@.len() + old(self).reactive.entries@.len() <= u64::MAX,
            old(func).num_values + old(self).resistive.entries@.len() + old(self).reactive.entries@.len() <= usize::MAX,
        ensures
            keys_unique(final(self).resistive.entries@),
            keys_unique(final(self).reactive.entries@),
            final(self).resistive.entries@.len() == old(self).resistive.entries@.len(),
            final(self).reactive.entries@.len() == old(self).reactive.entries@.len(),
            forall|i: int|
                0 <= i < old(self).resistive.entries@.len() ==> (#[trigger] final(self).resistive.entries@[i]).0 == old(self).resistive.entries@[i].0 && final(func).insts@.contains(
                    (
                        final(self).resistive.entries@[i].1,
                        ValueDef::OptBarrier(old(self).resistive.entries@[i].1),
                    ),
                ) && output_values_has(final(output_values), final(self).resistive.entries@[i].1),
            forall|i: int|
                0 <= i < old(self).reactive.entries@.len() ==> (#[trigger] final(self).reactive.entries@[i]).0 == old(self).reactive.entries@[i].0 && final(func).insts@.contains(
                    (
                        final(self).reactive.entries@[i].1,
                        ValueDef::OptBarrier(old(self).reactive.entries@[i].1),
                    ),
                ) && output_values_has(final(output_values), final(self).reactive.entries@[i].1),
            (forall|i: int|
                0 <= i < old(func).insts@.len() ==> (#[trigger] old(func).insts@[i]).0 < old(
                    func,
                ).num_values) ==> final(self).resistive.entries@.map_values(
                |e: (MatrixEntry, Value)| unbarriered(e, final(func).insts@),
            ) == old(self).resistive.entries@ && final(self).reactive.entries@.map_values(
                |e: (MatrixEntry, Value)| unbarriered(e, final(func).insts@),
            ) == old(self).reactive.entries@,
    {
        let ghost nv0 = func.num_values;
        let ghost base0 = func.insts@.len() as int;
        barrier_map(&mut self.resistive, func, output_values);
        let ghost nv1 = func.num_values;
        let ghost base1 = func.insts@.len() as int;
        barrier_map(&mut self.reactive, func, output_values);
        proof {
            if forall|i: int|
                0 <= i < old(func).insts@.len() ==> (#[trigger] old(func).insts@[i]).0 < old(
                    func,
                ).num_values {
                assert forall|i: int| 0 <= i < base0 implies (#[trigger] func.insts@[i]).0
                    < nv0 by {
                    assert(func.insts@[i] == old(func).insts@[i]);
                }
                assert forall|i: int| 0 <= i < old(self).resistive.entries@.len() implies (
                #[trigger] func.insts@[base0 + i]) == (
                    (nv0 + i) as u64,
                    ValueDef::OptBarrier(old(self).resistive.entries@[i].1),
                ) by {
                    assert((#[trigger] self.resistive.entries@[i]).0
                        == old(self).resistive.entries@[i].0);
                }
                lemma_barrier_round_trip(
                    old(self).resistive.entries@,
                    self.resistive.entries@,
                    nv0,
                    base0,
                    func.insts@,
                );
                assert forall|i: int| 0 <= i < base1 implies (#[trigger] func.insts@[i]).0
                    < nv1 by {
                    if i < base0 {
                        assert(func.insts@[i] == old(func).insts@[i]);
                    } else {
                        let k = i - base0;
                        assert(func.insts@[base0 + k] == ((nv0 + k) as u64,
                            ValueDef::OptBarrier(old(self).resistive.entries@[k].1)));
                    }
                }
                assert forall|i: int| 0 <= i < old(self).reactive.entries@.len() implies (
                #[trigger] func.insts@[base1 + i]) == (
                    (nv1 + i) as u64,
                    ValueDef::OptBarrier(old(self).reactive.entries@[i].1),
                ) by {
                    assert((#[trigger] self.reactive.entries@[i]).0
                        == old(self).reactive.entries@[i].0);
                }
                lemma_barrier_round_trip(
                    old(self).reactive.entries@,
                    self.reactive.entries@,
                    nv1,
                    base1,
                    func.insts@,
                );
                assert(self.resistive.entries@.map_values(
                    |e: (MatrixEntry, Value)| unbarriered(e, func.insts@),
                ) =~= old(self).resistive.entries@);
                assert(self.reactive.entries@.map_values(
                    |e: (MatrixEntry, Value)| unbarriered(e, func.insts@),
                ) =~= old(self).reactive.entries@);
            }
        }
    }
}

pub open spec fn output_values_has(b: &BitSet, v: Value) -> bool {
    b.spec_contains(v as int)
}

#[verifier::loop_isolation(false)]
fn barrier_map(map: &mut EntryMap, func: &mut FuncCursor, output_values: &mut BitSet)
    requires
        keys_unique(old(map).entries@),
        old(func).num_values + old(map).entries@.len() <= u64::MAX,
        old(func).num_values + old(map).entries@.len() <= usize::MAX,
    ensures
        keys_unique(final(map).entries@),
        final(map).entries@.len() == old(map).entries@.len(),
        final(func).num_values == old(func).num_values + old(map).entries@.len(),
        old(func).insts@.is_prefix_of(final(func).insts@),
        final(func).insts@.len() == old(func).insts@.len() + old(map).entries@.len(),
        forall|i: int|
            0 <= i < old(map).entries@.len() ==> (#[trigger] final(map).entries@[i]).0 == old(map).entries@[i].0 && final(map).entries@[i].1 == (old(func).num_values + i) as u64
                && final(func).insts@[old(func).insts@.len() + i] == (
                (old(func).num_values + i) as u64,
                ValueDef::OptBarrier(old(map).entries@[i].1),
            ) && output_values_has(final(output_values), final(map).entries@[i].1),
        forall|i: int|
            0 <= i < old(map).entries@.len() ==> final(func).insts@.contains(
                ((#[trigger] final(map).entries@[i]).1, ValueDef::OptBarrier(old(map).entries@[i].1)),
            ),
        forall|v: int|
            old(output_values).spec_contains(v) ==> final(output_values).spec_contains(v),
{
    let n = map.entries.len();
    let mut i: usize = 0;
    while i < n
        invariant
            n == map.entries@.len(),
            map.entries@.len() == old(map).entries@.len(),
            i <= n,
            keys_unique(map.entries@),
            func.num_values == old(func).num_values + i,
            func.insts@.len() == old(func).insts@.len() + i,
            old(func).num_values + old(map).entries@.len() <= u64::MAX,
            old(func).insts@.is_prefix_of(func.insts@),
            forall|j: int| i <= j < n ==> (#[trigger] map.entries@[j]) == old(map).entries@[j],
            forall|j: int|
                0 <= j < i ==> (#[trigger] map.entries@[j]).0 == old(map).entries@[j].0
                    && map.entries@[j].1 == (old(func).num_values + j) as u64
                    && func.insts@[old(func).insts@.len() + j] == (
                    (old(func).num_values + j) as u64,
                    ValueDef::OptBarrier(old(map).entries@[j].1),
                ) && func.insts@.contains(
                    (map.entries@[j].1, ValueDef::OptBarrier(old(map).entries@[j].1)),
                ) && output_values.spec_contains(map.entries@[j].1 as int),
            forall|v: int|
                old(output_values).spec_contains(v) ==> output_values.spec_contains(v),
        decreases n - i,
    {
        let ghost pre_insts = func.insts@;
        let old_val = map.entries[i].1;
        let key = map.entries[i].0;
        let barrier = func.optbarrier(old_val);
        map.entries.set(i, (key, barrier));
        output_values.ensure((barrier + 1) as usize);
        output_values.insert(barrier as usize);
        proof {
            assert(func.insts@ == pre_insts.push((barrier, ValueDef::OptBarrier(old_val))));
            assert(func.insts@[func.insts@.len() - 1] == (
                barrier,
                ValueDef::OptBarrier(old_val),
            ));
            assert(func.insts@.contains((barrier, ValueDef::OptBarrier(old_val))));
            assert(pre_insts =~= func.insts@.take(pre_insts.len() as int));
            assert forall|j: int|
                0 <= j < i + 1 implies (#[trigger] map.entries@[j]).0 == old(map).entries@[j].0
                && func.insts@.contains(
                (map.entries@[j].1, ValueDef::OptBarrier(old(map).entries@[j].1)),
            ) && output_values.spec_contains(map.entries@[j].1 as int) by {
                if j < i {
                    assert(pre_insts.contains(
                        (map.entries@[j].1, ValueDef::OptBarrier(old(map).entries@[j].1)),
                    ));
                    let w = choose|w: int|
                        0 <= w < pre_insts.len() && pre_insts[w] == (
                        map.entries@[j].1,
                        ValueDef::OptBarrier(old(map).entries@[j].1),
                        );
                    assert(func.insts@[w] == pre_insts[w]);
                }
            }
        }
        i += 1;
    }
}

/// The position of the derivative callback for `param` among the
/// registered callbacks: it numbers the first-order unknown.
fn find_derivative_callback(callbacks: &Vec<CallBackKind>, param: u32) -> (r: Option<u32>)
    requires
        callbacks@.len() <= u32::MAX,
    ensures
        r == cb_index_from(callbacks@, param, 0),
        r matches Some(u) ==> u < callbacks@.len() && callbacks@[u as int]
            == CallBackKind::Derivative(param),
{
    let mut i: usize = 0;
    while i < callbacks.len()
        invariant
            i <= callbacks@.len(),
            callbacks@.len() <= u32::MAX,
            cb_index_from(callbacks@, param, 0) == cb_index_from(callbacks@, param, i as int),
        decreases callbacks@.len() - i,
    {
        match callbacks[i] {
            CallBackKind::Derivative(q) => if q == param {
                return Some(i as u32);
            },
            CallBackKind::Other => {},
        }
        i += 1;
    }
    None
}

/// The registered derivative of `rhs` with respect to the unknown, if any.
fn find_derivative(derivatives: &Vec<((Value, u32), Value)>, rhs: Value, unknown: u32) -> (r:
    Option<Value>)
    ensures
        r == deriv_from(derivatives@, rhs, unknown, 0),
        r matches Some(v) ==> exists|i: int|
            0 <= i < derivatives@.len() && (#[trigger] derivatives@[i]) == ((rhs, unknown), v),
{
    let mut i: usize = 0;
    while i < derivatives.len()
        invariant
            i <= derivatives@.len(),
            deriv_from(derivatives@, rhs, unknown, 0) == deriv_from(
                derivatives@,
                rhs,
                unknown,
                i as int,
            ),
        decreases derivatives@.len() - i,
    {
        if derivatives[i].0.0 == rhs && derivatives[i].0.1 == unknown {
            return Some(derivatives[i].1);
        }
        i += 1;
    }
    None
}

impl JacobianMatrix {
    /// Undoes `insert_opt_barries` after optimization: each matrix value
    /// whose first recorded definition is an `optbarrier` is patched to the
    /// barrier's operand, and in the externally-observed set the operand
    /// replaces the barrier value, resistive half first. Matrix keys are
    /// untouched. The cursor's tape is append-only, so the barrier
    /// instruction itself stays recorded; the backend drops instructions
    /// whose values are no longer observed. Stripping restores the
    /// observed set that insertion started from exactly where the matrix
    /// values were already observed before insertion; values observed for
    /// other reasons stay observed.
    #[verifier::loop_isolation(false)]
    pub fn strip_opt_barries(&mut self, func: &FuncCursor, output_values: &mut BitSet)
        requires
            keys_unique(old(self).resistive.entries@),
            keys_unique(old(self).reactive.entries@),
        ensures
            keys_unique(final(self).resistive.entries@),
            keys_unique(final(self).reactive.entries@),
            final(self).resistive.entries@ == old(self).resistive.entries@.map_values(
                |e: (MatrixEntry, Value)| unbarriered(e, func.insts@),
            ),
            final(self).reactive.entries@ == old(self).reactive.entries@.map_values(
                |e: (MatrixEntry, Value)| unbarriered(e, func.insts@),
            ),
            ov_view(*final(output_values)) == ov_strip_fold(
                ov_strip_fold(
                    ov_view(*old(output_values)),
                    func.insts@,
                    old(self).resistive.entries@,
                    old(self).resistive.entries@.len() as int,
                ),
                func.insts@,
                old(self).reactive.entries@,
                old(self).reactive.entries@.len() as int,
            ),
    {
        unbarrier_map(&mut self.resistive, func, output_values);
        unbarrier_map(&mut self.reactive, func, output_values);
    }
}

/// The first recorded definition of `v`, scanning from position `i`.
pub open spec fn first_def_from(insts: Seq<(Value, ValueDef)>, v: Value, i: int) -> Option<
    ValueDef,
>
    decreases insts.len() - i,
{
    if i < 0 || i >= insts.len() {
        None
    } else if insts[i].0 == v {
        Some(insts[i].1)
    } else {
        first_def_from(insts, v, i + 1)
    }
}

/// What stripping does to one matrix entry: a value whose first recorded
/// definition is an `optbarrier` is replaced by the barrier's operand;
/// every other value stays. The key is untouched either way.
pub open spec fn unbarriered(e: (MatrixEntry, Value), insts: Seq<(Value, ValueDef)>) -> (
    MatrixEntry,
    Value,
) {
    match first_def_from(insts, e.1, 0) {
        Some(ValueDef::OptBarrier(arg)) => (e.0, arg),
        _ => e,
    }
}

/// The set of positions a bit set holds.
pub open spec fn ov_view(b: BitSet) -> Set<int> {
    Set::new(|v: int| b.spec_contains(v))
}

/// What stripping one entry does to the externally-observed set: the
/// barrier value leaves and its operand enters, within the addressable
/// range; an entry without a barrier definition changes nothing.
pub open spec fn ov_strip_step(ov: Set<int>, insts: Seq<(Value, ValueDef)>, val: Value) -> Set<
    int,
> {
    match first_def_from(insts, val, 0) {
        Some(ValueDef::OptBarrier(arg)) => {
            let ov1 = if val <= usize::MAX as u64 {
                ov.remove(val as int)
            } else {
                ov
            };
            if arg < usize::MAX as u64 {
                ov1.insert(arg as int)
            } else {
                ov1
            }
        },
        _ => ov,
    }
}

/// The externally-observed set after stripping the first `i` entries, in
/// order.
pub open spec fn ov_strip_fold(
    ov: Set<int>,
    insts: Seq<(Value, ValueDef)>,
    entries: Seq<(MatrixEntry, Value)>,
    i: int,
) -> Set<int>
    decreases i,
{
    if i <= 0 {
        ov
    } else {
        ov_strip_step(ov_strip_fold(ov, insts, entries, i - 1), insts, entries[i - 1].1)
    }
}

/// Scanning past positions that do not define `v` does not change the
/// first definition found.
proof fn lemma_first_def_scan(insts: Seq<(Value, ValueDef)>, v: Value, lo: int, hi: int)
    requires
        0 <= lo <= hi <= insts.len(),
        forall|j: int| lo <= j < hi ==> (#[trigger] insts[j]).0 != v,
    ensures
        first_def_from(insts, v, lo) == first_def_from(insts, v, hi),
    decreases hi - lo,
{
    if lo < hi {
        lemma_first_def_scan(insts, v, lo + 1, hi);
    }
}

/// Stripping the optimization barriers right after inserting them
/// restores every matrix value of a half. `entries0` are the entries
/// before insertion against a cursor whose tape defines only values below
/// `nv0`; `entries1` the barrier-wrapped entries, whose fresh values
/// `nv0 + i` are defined exactly once, from position `base` of the final
/// tape `insts1`.
pub proof fn lemma_barrier_round_trip(
    entries0: Seq<(MatrixEntry, Value)>,
    entries1: Seq<(MatrixEntry, Value)>,
    nv0: u64,
    base: int,
    insts1: Seq<(Value, ValueDef)>,
)
    requires
        forall|i: int| 0 <= i < base ==> (#[trigger] insts1[i]).0 < nv0,
        nv0 + entries0.len() <= u64::MAX,
        0 <= base,
        base + entries0.len() <= insts1.len(),
        entries1.len() == entries0.len(),
        forall|i: int|
            0 <= i < entries0.len() ==> (#[trigger] entries1[i]).0 == entries0[i].0
                && entries1[i].1 == (nv0 + i) as u64,
        forall|i: int|
            0 <= i < entries0.len() ==> (#[trigger] insts1[base + i]) == (
                (nv0 + i) as u64,
                ValueDef::OptBarrier(entries0[i].1),
            ),
    ensures
        entries1.map_values(|e: (MatrixEntry, Value)| unbarriered(e, insts1)) =~= entries0,
{
    assert forall|i: int| 0 <= i < entries0.len() implies unbarriered(entries1[i], insts1)
        == entries0[i] by {
        let v = (nv0 + i) as u64;
        assert forall|j: int| 0 <= j < base + i implies (#[trigger] insts1[j]).0 != v by {
            if j < base {
                assert(insts1[j].0 < nv0);
            } else {
                let k = j - base;
                assert(insts1[base + k] == ((nv0 + k) as u64, ValueDef::OptBarrier(
                    entries0[k].1,
                )));
            }
        }
        lemma_first_def_scan(insts1, v, 0, base + i);
        assert(first_def_from(insts1, v, base + i) == Some(
            ValueDef::OptBarrier(entries0[i].1),
        ));
    }
}

/// The defining instruction of `v`, if one was recorded: the first one on
/// the tape.
fn find_def(func: &FuncCursor, v: Value) -> (r: Option<ValueDef>)
    ensures
        r == first_def_from(func.insts@, v, 0),
        r matches Some(d) ==> func.insts@.contains((v, d)),
{
    let mut i: usize = 0;
    while i < func.insts.len()
        invariant
            i <= func.insts@.len(),
            first_def_from(func.insts@, v, 0) == first_def_from(func.insts@, v, i as int),
        decreases func.insts@.len() - i,
    {
        if func.insts[i].0 == v {
            return Some(func.insts[i].1);
        }
        i += 1;
    }
    None
}

#[verifier::loop_isolation(false)]
fn unbarrier_map(map: &mut EntryMap, func: &FuncCursor, output_values: &mut BitSet)
    requires
        keys_unique(old(map).entries@),
    ensures
        keys_unique(final(map).entries@),
        final(map).entries@ == old(map).entries@.map_values(
            |e: (MatrixEntry, Value)| unbarriered(e, func.insts@),
        ),
        ov_view(*final(output_values)) == ov_strip_fold(
            ov_view(*old(output_values)),
            func.insts@,
            old(map).entries@,
            old(map).entries@.len() as int,
        ),
{
    let n = map.entries.len();
    let mut i: usize = 0;
    while i < n
        invariant
            n == map.entries@.len(),
            map.entries@.len() == old(map).entries@.len(),
            i <= n,
            keys_unique(map.entries@),
            forall|j: int| i <= j < n ==> (#[trigger] map.entries@[j]) == old(map).entries@[j],
            forall|j: int|
                0 <= j < i ==> (#[trigger] map.entries@[j]) == unbarriered(
                    old(map).entries@[j],
                    func.insts@,
                ),
            ov_view(*output_values) == ov_strip_fold(
                ov_view(*old(output_values)),
                func.insts@,
                old(map).entries@,
                i as int,
            ),
        decreases n - i,
    {
        let ghost ov_pre = ov_view(*output_values);
        let key = map.entries[i].0;
        let val = map.entries[i].1;
        match find_def(func, val) {
            Some(ValueDef::OptBarrier(arg)) => {
                map.entries.set(i, (key, arg));
                if val <= usize::MAX as u64 {
                    output_values.remove(val as usize);
                }
                proof {
                    let ghost ov1 = if val <= usize::MAX as u64 {
                        ov_pre.remove(val as int)
                    } else {
                        ov_pre
                    };
                    assert(ov_view(*output_values) =~= ov1);
                }
                let ghost ov1 = ov_view(*output_values);
                if arg < usize::MAX as u64 {
                    output_values.ensure((arg + 1) as usize);
                    output_values.insert(arg as usize);
                    proof {
                        assert(ov_view(*output_values) =~= ov1.insert(arg as int));
                    }
                }
            },
            _ => {},
        }
        proof {
            assert(ov_view(*output_values) =~= ov_strip_step(
                ov_pre,
                func.insts@,
                old(map).entries@[i as int].1,
            ));
        }
        i += 1;
    }
    proof {
        assert(map.entries@ =~= old(map).entries@.map_values(
            |e: (MatrixEntry, Value)| unbarriered(e, func.insts@),
        ));
    }
}

/// The character of a single decimal digit.
pub open spec fn digit_char(d: int) -> char {
    if d == 0 {
        '0'
    } else if d == 1 {
        '1'
    } else if d == 2 {
        '2'
    } else if d == 3 {
        '3'
    } else if d == 4 {
        '4'
    } else if d == 5 {
        '5'
    } else if d == 6 {
        '6'
    } else if d == 7 {
        '7'
    } else if d == 8 {
        '8'
    } else {
        '9'
    }
}

/// The decimal digits of a non-negative number, most significant first.
pub open spec fn dec_digits(v: int) -> Seq<char>
    decreases v,
{
    if v < 10 {
        seq![digit_char(v)]
    } else {
        dec_digits(v / 10).push(digit_char(v % 10))
    }
}

fn digit_str(d: u64) -> (r: &'static str)
    requires
        d < 10,
    ensures
        r@ == seq![digit_char(d as int)],
{
    proof {
        reveal_strlit("0");
        reveal_strlit("1");
        reveal_strlit("2");
        reveal_strlit("3");
        reveal_strlit("4");
        reveal_strlit("5");
        reveal_strlit("6");
        reveal_strlit("7");
        reveal_strlit("8");
        reveal_strlit("9");
    }
    let r = if d == 0 {
        "0"
    } else if d == 1 {
        "1"
    } else if d == 2 {
        "2"
    } else if d == 3 {
        "3"
    } else if d == 4 {
        "4"
    } else if d == 5 {
        "5"
    } else if d == 6 {
        "6"
    } else if d == 7 {
        "7"
    } else if d == 8 {
        "8"
    } else {
        "9"
    };
    proof {
        assert(r@ =~= seq![digit_char(d as int)]);
    }
    r
}

/// Appends the decimal rendering of `v`.
fn append_u64(s: &mut String, v: u64)
    ensures
        final(s)@ == old(s)@ + dec_digits(v as int),
    decreases v,
{
    if v < 10 {
        s.append(digit_str(v));
    } else {
        append_u64(s, v / 10);
        s.append(digit_str(v % 10));
        proof {
            assert(s@ =~= old(s)@ + dec_digits(v as int));
        }
    }
}

/// One printed row of the debugging surface:
/// `(row_name, col_name) = vN`.
pub open spec fn stamp_row(e: (MatrixEntry, Value), names: Seq<String>) -> Seq<char> {
    seq!['('] + names[e.0.row as int]@ + seq![',', ' '] + names[e.0.col as int]@ + seq![
        ')',
        ' ',
        '=',
        ' ',
        'v',
    ] + dec_digits(e.1 as int) + seq!['\n']
}

/// The printed rows of one half of the matrix, in insertion order.
pub open spec fn stamp_rows(s: Seq<(MatrixEntry, Value)>, names: Seq<String>) -> Seq<char>
    decreases s.len(),
{
    if s.len() == 0 {
        Seq::empty()
    } else {
        stamp_rows(s.drop_last(), names) + stamp_row(s.last(), names)
    }
}

#[verifier::loop_isolation(false)]
fn render_rows(entries: &Vec<(MatrixEntry, Value)>, names: &Vec<String>) -> (r: String)
    requires
        forall|i: int|
            0 <= i < entries@.len() ==> (#[trigger] entries@[i]).0.row < names@.len()
                && entries@[i].0.col < names@.len(),
    ensures
        r@ == stamp_rows(entries@, names@),
{
    proof {
        reveal_strlit("(");
        reveal_strlit(", ");
        reveal_strlit(") = v");
        reveal_strlit("\n");
    }
    let mut out = String::new();
    let mut i: usize = 0;
    proof {
        assert(out@ =~= stamp_rows(entries@.take(0), names@));
    }
    while i < entries.len()
        invariant
            i <= entries@.len(),
            out@ == stamp_rows(entries@.take(i as int), names@),
        decreases entries@.len() - i,
    {
        let row = entries[i].0.row;
        let col = entries[i].0.col;
        let val = entries[i].1;
        out.append("(");
        out.append(names[row as usize].as_str());
        out.append(", ");
        out.append(names[col as usize].as_str());
        out.append(") = v");
        append_u64(&mut out, val);
        out.append("\n");
        proof {
            assert(entries@.take(i + 1).drop_last() =~= entries@.take(i as int));
            assert(entries@.take(i + 1).last() == entries@[i as int]);
            assert(out@ =~= stamp_rows(entries@.take(i + 1), names@));
        }
        i += 1;
    }
    proof {
        assert(entries@.take(entries@.len() as int) =~= entries@);
    }
    out
}

impl JacobianMatrix {
    /// Renders the resistive half for debugging: one row per entry, as
    /// `(row_name, col_name) = vN`, in insertion order. The node names
    /// come from the name resolver's node table.
    pub fn print_resistive_stamps(&self, node_names: &Vec<String>) -> (r: String)
        requires
            forall|i: int|
                0 <= i < self.resistive.entries@.len() ==> (
                #[trigger] self.resistive.entries@[i]).0.row < node_names@.len()
                    && self.resistive.entries@[i].0.col < node_names@.len(),
        ensures
            r@ == stamp_rows(self.resistive.entries@, node_names@),
    {
        render_rows(&self.resistive.entries, node_names)
    }

    /// Renders the reactive half for debugging.
    pub fn print_reactive_stamps(&self, node_names: &Vec<String>) -> (r: String)
        requires
            forall|i: int|
                0 <= i < self.reactive.entries@.len() ==> (
                #[trigger] self.reactive.entries@[i]).0.row < node_names@.len()
                    && self.reactive.entries@[i].0.col < node_names@.len(),
        ensures
            r@ == stamp_rows(self.reactive.entries@, node_names@),
    {
        render_rows(&self.reactive.entries, node_names)
    }
}

} // verus!
