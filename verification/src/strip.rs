use vstd::prelude::*;
use crate::bitset::BitSet;
use crate::cfg::ControlFlowGraph;
use crate::mir::StatementId;

verus! {

/// The dense location of every statement slot of a block: phi slots first,
/// then straight-line slots, numbered consecutively across the graph.
pub struct BlockLocations {
    pub phi_start: usize,
    pub stmnt_start: usize,
}

/// Assigns a dense location to every (block, position) pair so bitsets can
/// address individual statements.
pub struct InternedLocations {
    pub blocks: Vec<BlockLocations>,
}

/// The retain-set driven strip pass: statements whose location is not
/// retained are removed, in linear time and without renumbering survivors.
///
/// The retain set must already be closed under data-flow dependency; this
/// pass does not check that.
pub struct Strip {
    pub retain: BitSet,
    pub locations: InternedLocations,
}

/// The sublist of `list` whose locations, counted from `start`, are in the
/// retain set.
pub open spec fn filter_retained(list: Seq<StatementId>, start: int, retain: BitSet) -> Seq<
    StatementId,
>
    decreases list.len(),
{
    if list.len() == 0 {
        Seq::empty()
    } else if retain.spec_contains(start) {
        seq![list[0]] + filter_retained(list.drop_first(), start + 1, retain)
    } else {
        filter_retained(list.drop_first(), start + 1, retain)
    }
}

fn retain_list(list: &Vec<StatementId>, start: usize, retain: &BitSet) -> (r: Vec<StatementId>)
    requires
        start + list@.len() <= usize::MAX,
    ensures
        r@ == filter_retained(list@, start as int, *retain),
{
    let mut out: Vec<StatementId> = Vec::new();
    let mut k: usize = 0;
    proof {
        assert(list@.skip(0) =~= list@);
    }
    while k < list.len()
        invariant
            k <= list@.len(),
            start + list@.len() <= usize::MAX,
            filter_retained(list@, start as int, *retain) == out@ + filter_retained(
                list@.skip(k as int),
                start + k,
                *retain,
            ),
        decreases list@.len() - k,
    {
        proof {
            assert(list@.skip(k as int).drop_first() =~= list@.skip(k + 1 as int));
            assert(list@.skip(k as int)[0] == list@[k as int]);
        }
        if retain.contains(start + k) {
            out.push(list[k]);
            proof {
                assert(filter_retained(list@.skip(k as int), start + k, *retain) =~= seq![
                    list@[k as int],
                ] + filter_retained(list@.skip(k + 1 as int), start + k + 1, *retain));
            }
        }
        k += 1;
    }
    proof {
        assert(list@.skip(list@.len() as int).len() == 0);
        assert(out@ + filter_retained(list@.skip(list@.len() as int), start + list@.len(), *retain)
            =~= out@);
    }
    out
}

impl Strip {
    /// Removes every phi and straight-line statement whose interned
    /// location is not in the retain set; surviving statements keep their
    /// order and their handles.
    #[verifier::loop_isolation(false)]
    pub fn run(&self, cfg: &mut ControlFlowGraph)
        requires
            old(cfg).blocks@.len() <= self.locations.blocks@.len(),
            forall|b: int|
                0 <= b < old(cfg).blocks@.len() ==> (#[trigger] self.locations.blocks@[b]).phi_start
                    + old(cfg).blocks@[b].phi_statements@.len() <= usize::MAX
                    && self.locations.blocks@[b].stmnt_start
                    + old(cfg).blocks@[b].statements@.len() <= usize::MAX,
        ensures
            final(cfg).blocks@.len() == old(cfg).blocks@.len(),
            forall|b: int|
                0 <= b < old(cfg).blocks@.len() ==> (#[trigger] final(cfg).blocks@[b]).phi_statements@
                    == filter_retained(
                    old(cfg).blocks@[b].phi_statements@,
                    self.locations.blocks@[b].phi_start as int,
                    self.retain,
                ) && final(cfg).blocks@[b].statements@ == filter_retained(
                    old(cfg).blocks@[b].statements@,
                    self.locations.blocks@[b].stmnt_start as int,
                    self.retain,
                ),
    {
        let n = cfg.blocks.len();
        let mut b: usize = 0;
        while b < n
            invariant
                b <= n,
                n == cfg.blocks@.len(),
                cfg.blocks@.len() == old(cfg).blocks@.len(),
                forall|i: int|
                    b <= i < old(cfg).blocks@.len() ==> (#[trigger] cfg.blocks@[i]).phi_statements@
                        == old(cfg).blocks@[i].phi_statements@ && cfg.blocks@[i].statements@
                        == old(cfg).blocks@[i].statements@,
                forall|i: int|
                    0 <= i < b ==> (#[trigger] cfg.blocks@[i]).phi_statements@ == filter_retained(
                        old(cfg).blocks@[i].phi_statements@,
                        self.locations.blocks@[i].phi_start as int,
                        self.retain,
                    ) && cfg.blocks@[i].statements@ == filter_retained(
                        old(cfg).blocks@[i].statements@,
                        self.locations.blocks@[i].stmnt_start as int,
                        self.retain,
                    ),
            decreases n - b,
        {
            let phi_start = self.locations.blocks[b].phi_start;
            let stmnt_start = self.locations.blocks[b].stmnt_start;
            let new_phi = retain_list(&cfg.blocks[b].phi_statements, phi_start, &self.retain);
            let new_stmts = retain_list(&cfg.blocks[b].statements, stmnt_start, &self.retain);
            cfg.blocks[b].phi_statements = new_phi;
            cfg.blocks[b].statements = new_stmts;
            b += 1;
        }
    }
}

} // verus!
