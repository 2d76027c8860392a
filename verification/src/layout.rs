//! The layout: the order of blocks within a unit and of instructions within
//! each block, plus the insertion cursor the builder drives.
//!
//! The layout records each placed instruction's containing block, so cursor
//! queries are direct lookups. Well-formedness keeps the block order free of
//! duplicates and every placement consistent with the per-block rows.

use vstd::prelude::*;
use vstd::pervasive::VecAdditionalExecFns;
use crate::handles::{Block, Inst, MAX_HANDLES};
use crate::dfg::{copy_insts, lemma_seq_remove_set, lemma_seq_push_set};

verus! {

/// Where the builder inserts the next instruction.
#[derive(Clone, Copy, PartialEq, Eq, Debug, Structural)]
pub enum InsertPos {
    /// No position set; insertions are a programmer error.
    Unset,
    /// After the last instruction of the block.
    Append(Block),
    /// Before the first instruction of the block.
    Prepend(Block),
    /// After the anchor instruction; advances with each insertion so a run
    /// of insertions lands in source order.
    After(Inst),
    /// Before the anchor instruction.
    Before(Inst),
}

/// The ordering overlay of a unit: block order and per-block instruction
/// order.
#[derive(Debug)]
pub struct Layout {
    /// The unit's blocks in layout order.
    pub block_order: Vec<Block>,
    /// The instructions of each block in layout order, indexed by block;
    /// rows of blocks not in the order are empty.
    pub block_insts: Vec<Vec<Inst>>,
    /// The containing block of each placed instruction, indexed by
    /// instruction.
    pub inst_block: Vec<Option<Block>>,
}

impl Layout {
    /// The blocks of the unit in layout order.
    pub open spec fn blocks_seq(&self) -> Seq<Block> {
        self.block_order@
    }

    /// Whether `bb` is in the layout.
    pub open spec fn block_placed(&self, bb: Block) -> bool {
        self.block_order@.contains(bb)
    }

    /// The instructions of `bb` in layout order.
    pub open spec fn insts_of(&self, bb: Block) -> Seq<Inst> {
        if 0 <= bb.0 < self.block_insts@.len() {
            self.block_insts@[bb.0 as int]@
        } else {
            Seq::empty()
        }
    }

    /// The block an instruction is placed in, if any.
    pub open spec fn placed_in(&self, i: Inst) -> Option<Block> {
        if 0 <= i.0 < self.inst_block@.len() {
            self.inst_block@[i.0 as int]
        } else {
            None
        }
    }

    /// Whether an instruction is placed in some block.
    pub open spec fn inst_placed(&self, i: Inst) -> bool {
        self.placed_in(i) is Some
    }

    /// The block order holds no duplicates, and every listed block has a row
    /// and a handle below the bound.
    pub open spec fn order_ok(&self) -> bool {
        &&& self.block_order@.no_duplicates()
        &&& forall|k: int|
            0 <= k < self.block_order@.len() ==> (#[trigger] self.block_order@[k]).0
                < self.block_insts@.len()
    }

    /// One per-block row is consistent: empty when the block is not in the
    /// order, and every entry is an instruction placed in this block, listed
    /// once.
    pub open spec fn row_ok(&self, bi: int) -> bool {
        let row = self.block_insts@[bi]@;
        &&& (!self.block_order@.contains(Block(bi as usize)) ==> row.len() == 0)
        &&& (forall|k: int|
            0 <= k < row.len() ==> (#[trigger] row[k]).0 < self.inst_block@.len()
                && self.inst_block@[row[k].0 as int] == Some(Block(bi as usize)))
        &&& row.no_duplicates()
    }

    /// Every placement points back into its block's row.
    pub open spec fn placement_ok(&self) -> bool {
        forall|ii: int|
            0 <= ii < self.inst_block@.len() ==> match #[trigger] self.inst_block@[ii] {
                Some(b) => self.block_order@.contains(b) && 0 <= b.0 < self.block_insts@.len()
                    && self.block_insts@[b.0 as int]@.contains(Inst(ii as usize)),
                None => true,
            }
    }

    /// Well-formedness of the layout.
    pub open spec fn wf(&self) -> bool {
        &&& self.order_ok()
        &&& (forall|bi: int| 0 <= bi < self.block_insts@.len() ==> #[trigger] self.row_ok(bi))
        &&& self.placement_ok()
        &&& self.block_order@.len() <= MAX_HANDLES
        &&& self.block_insts@.len() <= MAX_HANDLES
        &&& self.inst_block@.len() <= MAX_HANDLES
    }

    /// Create an empty layout.
    pub fn new() -> (r: Self)
        ensures
            r.wf(),
            r.blocks_seq().len() == 0,
            r.inst_block@.len() == 0,
            r.block_insts@.len() == 0,
    {
        Layout { block_order: Vec::new(), block_insts: Vec::new(), inst_block: Vec::new() }
    }

    /// The blocks of the unit in layout order.
    pub fn blocks(&self) -> (r: &Vec<Block>)
        ensures
            r@ == self.blocks_seq(),
    {
        &self.block_order
    }

    /// Number of blocks in the layout.
    pub fn num_blocks(&self) -> (r: usize)
        ensures
            r == self.blocks_seq().len(),
    {
        self.block_order.len()
    }

    /// Whether `bb` is in the layout.
    pub fn is_block_placed(&self, bb: Block) -> (r: bool)
        ensures
            r == self.block_placed(bb),
    {
        let n = self.block_order.len();
        let mut k: usize = 0;
        while k < n
            invariant
                k <= n,
                n == self.block_order@.len(),
                forall|m: int| 0 <= m < k ==> self.block_order@[m] != bb,
            decreases n - k,
        {
            if self.block_order[k] == bb {
                return true;
            }
            k = k + 1;
        }
        proof {
            if self.block_order@.contains(bb) {
                let m = choose|m: int|
                    0 <= m < self.block_order@.len() && self.block_order@[m] == bb;
                assert(false);
            }
        }
        false
    }

    /// The position of `bb` in the block order, if listed.
    fn block_pos(&self, bb: Block) -> (r: Option<usize>)
        ensures
            match r {
                Some(p) => p < self.block_order@.len() && self.block_order@[p as int] == bb,
                None => !self.block_order@.contains(bb),
            },
    {
        let n = self.block_order.len();
        let mut k: usize = 0;
        while k < n
            invariant
                k <= n,
                n == self.block_order@.len(),
                forall|m: int| 0 <= m < k ==> self.block_order@[m] != bb,
            decreases n - k,
        {
            if self.block_order[k] == bb {
                return Some(k);
            }
            k = k + 1;
        }
        proof {
            if self.block_order@.contains(bb) {
                let m = choose|m: int|
                    0 <= m < self.block_order@.len() && self.block_order@[m] == bb;
                assert(false);
            }
        }
        None
    }

    /// The entry block: the first block of the layout. Panics are excluded
    /// by requiring the layout to be non-empty.
    pub fn entry(&self) -> (r: Block)
        requires
            self.blocks_seq().len() > 0,
        ensures
            r == self.blocks_seq()[0],
    {
        self.block_order[0]
    }

    /// The instructions of a block in layout order.
    pub fn insts(&self, bb: Block) -> (r: &Vec<Inst>)
        requires
            self.wf(),
            self.block_placed(bb),
        ensures
            r@ == self.insts_of(bb),
    {
        proof {
            let k = choose|k: int|
                0 <= k < self.block_order@.len() && self.block_order@[k] == bb;
            assert(self.block_order@[k].0 < self.block_insts@.len());
        }
        &self.block_insts[bb.0]
    }

    /// The containing block of an instruction, if placed.
    pub fn inst_block_of(&self, i: Inst) -> (r: Option<Block>)
        ensures
            r == self.placed_in(i),
    {
        if i.0 < self.inst_block.len() {
            self.inst_block[i.0]
        } else {
            None
        }
    }

    /// Whether an instruction is placed in some block.
    pub fn is_inst_placed(&self, i: Inst) -> (r: bool)
        ensures
            r == self.inst_placed(i),
    {
        i.0 < self.inst_block.len() && self.inst_block[i.0].is_some()
    }

    /// Grow the per-block rows so block `bb` has one.
    #[verifier::loop_isolation(false)]
    fn grow_rows(&mut self, bb: Block)
        requires
            old(self).wf(),
            bb.0 < MAX_HANDLES,
        ensures
            final(self).wf(),
            final(self).block_order == old(self).block_order,
            final(self).inst_block == old(self).inst_block,
            final(self).block_insts@.len() > bb.0,
            final(self).block_insts@.len() <= MAX_HANDLES,
            forall|bi: int|
                0 <= bi < old(self).block_insts@.len() ==> final(self).block_insts@[bi] == old(
                    self,
                ).block_insts@[bi],
            forall|bi: int|
                old(self).block_insts@.len() <= bi < final(self).block_insts@.len() ==> (
                #[trigger] final(self).block_insts@[bi])@.len() == 0,
            forall|b2: Block| final(self).insts_of(b2) == old(self).insts_of(b2),
    {
        while self.block_insts.len() <= bb.0
            invariant
                self.block_order == old(self).block_order,
                self.inst_block == old(self).inst_block,
                self.block_insts@.len() >= old(self).block_insts@.len(),
                self.block_insts@.len() <= bb.0 + 1 || self.block_insts@.len() == old(
                    self,
                ).block_insts@.len(),
                forall|bi: int|
                    0 <= bi < old(self).block_insts@.len() ==> self.block_insts@[bi] == old(
                        self,
                    ).block_insts@[bi],
                forall|bi: int|
                    old(self).block_insts@.len() <= bi < self.block_insts@.len() ==> (
                    #[trigger] self.block_insts@[bi])@.len() == 0,
            decreases bb.0 + 1 - self.block_insts@.len(),
        {
            self.block_insts.push(Vec::new());
        }
        proof {
            assert forall|bi: int| 0 <= bi < self.block_insts@.len() implies #[trigger] self.row_ok(
                bi,
            ) by {
                if bi < old(self).block_insts@.len() {
                    assert(old(self).row_ok(bi));
                }
            }
            assert forall|b2: Block| self.insts_of(b2) == old(self).insts_of(b2) by {
                if 0 <= b2.0 < old(self).block_insts@.len() {
                } else if 0 <= b2.0 < self.block_insts@.len() {
                    assert(self.insts_of(b2) =~= Seq::<Inst>::empty());
                }
            }
        }
    }

    /// Append a block to the end of the unit.
    pub fn append_block(&mut self, bb: Block)
        requires
            old(self).wf(),
            !old(self).block_placed(bb),
            bb.0 < MAX_HANDLES,
            old(self).blocks_seq().len() < MAX_HANDLES,
        ensures
            final(self).wf(),
            final(self).blocks_seq() == old(self).blocks_seq().push(bb),
            final(self).block_placed(bb),
            forall|b2: Block| final(self).insts_of(b2) == old(self).insts_of(b2),
            final(self).insts_of(bb).len() == 0,
            final(self).inst_block == old(self).inst_block,
            forall|i: Inst| final(self).placed_in(i) == old(self).placed_in(i),
    {
        self.grow_rows(bb);
        let ghost mid = *self;
        self.block_order.push(bb);
        proof {
            lemma_seq_push_set(mid.block_order@, bb);
            assert forall|bi: int| 0 <= bi < self.block_insts@.len() implies #[trigger] self.row_ok(
                bi,
            ) by {
                assert(mid.row_ok(bi));
                if Block(bi as usize) != bb {
                    assert(self.block_order@.contains(Block(bi as usize)) == mid.block_order@.contains(
                        Block(bi as usize),
                    ));
                }
            }
            assert(self.insts_of(bb).len() == 0) by {
                assert(mid.row_ok(bb.0 as int));
            }
        }
    }

    /// Insert a block at a given position of the unit's block order.
    #[verifier::rlimit(30)]
    fn insert_block_at(&mut self, bb: Block, pos: usize)
        requires
            old(self).wf(),
            !old(self).block_placed(bb),
            bb.0 < MAX_HANDLES,
            old(self).blocks_seq().len() < MAX_HANDLES,
            pos <= old(self).blocks_seq().len(),
        ensures
            final(self).wf(),
            final(self).blocks_seq() == old(self).blocks_seq().insert(pos as int, bb),
            final(self).block_placed(bb),
            forall|b2: Block| final(self).insts_of(b2) == old(self).insts_of(b2),
            final(self).insts_of(bb).len() == 0,
            final(self).inst_block == old(self).inst_block,
            forall|i: Inst| final(self).placed_in(i) == old(self).placed_in(i),
    {
        self.grow_rows(bb);
        let ghost mid = *self;
        self.block_order.insert(pos, bb);
        proof {
            mid.block_order@.insert_ensures(pos as int, bb);
            let newo = self.block_order@;
            assert forall|b2: Block| newo.contains(b2) implies (b2 == bb
                || mid.block_order@.contains(b2)) by {
                let k = choose|k: int| 0 <= k < newo.len() && newo[k] == b2;
                if k < pos {
                    assert(mid.block_order@[k] == b2);
                } else if k > pos {
                    assert(mid.block_order@[k - 1] == b2);
                }
            }
            assert forall|b2: Block| mid.block_order@.contains(b2) implies newo.contains(b2) by {
                let k = choose|k: int|
                    0 <= k < mid.block_order@.len() && mid.block_order@[k] == b2;
                if k < pos {
                    assert(newo[k] == b2);
                } else {
                    assert(newo[k + 1] == b2);
                }
            }
            assert(newo.contains(bb)) by {
                assert(newo[pos as int] == bb);
            }
            assert(newo.no_duplicates()) by {
                assert forall|i: int, j: int| 0 <= i < j < newo.len() implies newo[i] != newo[
                j] by {
                    let oi: int = if i < pos {
                        i
                    } else {
                        i - 1
                    };
                    let oj: int = if j < pos {
                        j
                    } else {
                        j - 1
                    };
                    if i == pos {
                        assert(newo[i] == bb);
                        assert(newo[j] == mid.block_order@[oj]);
                        assert(mid.block_order@.contains(mid.block_order@[oj]));
                    } else if j == pos {
                        assert(newo[j] == bb);
                        assert(newo[i] == mid.block_order@[oi]);
                        assert(mid.block_order@.contains(mid.block_order@[oi]));
                    } else {
                        assert(newo[i] == mid.block_order@[oi]);
                        assert(newo[j] == mid.block_order@[oj]);
                    }
                }
            }
            assert forall|bi: int| 0 <= bi < self.block_insts@.len() implies #[trigger] self.row_ok(
                bi,
            ) by {
                assert(mid.row_ok(bi));
                if Block(bi as usize) != bb {
                    assert(self.block_order@.contains(Block(bi as usize)) == mid.block_order@.contains(
                        Block(bi as usize),
                    ));
                }
            }
            assert(self.insts_of(bb).len() == 0) by {
                assert(mid.row_ok(bb.0 as int));
            }
        }
    }

    /// Prepend a block at the beginning of the unit.
    pub fn prepend_block(&mut self, bb: Block)
        requires
            old(self).wf(),
            !old(self).block_placed(bb),
            bb.0 < MAX_HANDLES,
            old(self).blocks_seq().len() < MAX_HANDLES,
        ensures
            final(self).wf(),
            final(self).blocks_seq() == old(self).blocks_seq().insert(0, bb),
            final(self).block_placed(bb),
            forall|b2: Block| final(self).insts_of(b2) == old(self).insts_of(b2),
            final(self).insts_of(bb).len() == 0,
            final(self).inst_block == old(self).inst_block,
            forall|i: Inst| final(self).placed_in(i) == old(self).placed_in(i),
    {
        self.insert_block_at(bb, 0);
    }

    /// Insert a block right after `after` in the unit's block order. Panics
    /// are excluded by requiring `after` to be in the layout.
    pub fn insert_block_after(&mut self, bb: Block, after: Block)
        requires
            old(self).wf(),
            !old(self).block_placed(bb),
            old(self).block_placed(after),
            bb.0 < MAX_HANDLES,
            old(self).blocks_seq().len() < MAX_HANDLES,
        ensures
            final(self).wf(),
            final(self).block_placed(bb),
            exists|k: int|
                0 <= k < old(self).blocks_seq().len() && old(self).blocks_seq()[k] == after
                    && final(self).blocks_seq() == old(self).blocks_seq().insert(k + 1, bb),
            forall|b2: Block| final(self).insts_of(b2) == old(self).insts_of(b2),
            final(self).insts_of(bb).len() == 0,
            forall|i: Inst| final(self).placed_in(i) == old(self).placed_in(i),
    {
        let pos = self.block_pos(after);
        match pos {
            Some(p) => {
                self.insert_block_at(bb, p + 1);
            },
            None => {
                proof {
                    assert(false);
                }
            },
        }
    }

    /// Insert a block right before `before` in the unit's block order.
    /// Panics are excluded by requiring `before` to be in the layout.
    pub fn insert_block_before(&mut self, bb: Block, before: Block)
        requires
            old(self).wf(),
            !old(self).block_placed(bb),
            old(self).block_placed(before),
            bb.0 < MAX_HANDLES,
            old(self).blocks_seq().len() < MAX_HANDLES,
        ensures
            final(self).wf(),
            final(self).block_placed(bb),
            exists|k: int|
                0 <= k < old(self).blocks_seq().len() && old(self).blocks_seq()[k] == before
                    && final(self).blocks_seq() == old(self).blocks_seq().insert(k, bb),
            forall|b2: Block| final(self).insts_of(b2) == old(self).insts_of(b2),
            final(self).insts_of(bb).len() == 0,
            forall|i: Inst| final(self).placed_in(i) == old(self).placed_in(i),
    {
        let pos = self.block_pos(before);
        match pos {
            Some(p) => {
                self.insert_block_at(bb, p);
            },
            None => {
                proof {
                    assert(false);
                }
            },
        }
    }

    /// Remove a block from the layout, unplacing all of its instructions.
    /// Panics are excluded by requiring the block to be in the layout.
    #[verifier::loop_isolation(false)]
    #[verifier::rlimit(30)]
    pub fn remove_block(&mut self, bb: Block)
        requires
            old(self).wf(),
            old(self).block_placed(bb),
        ensures
            final(self).wf(),
            !final(self).block_placed(bb),
            forall|b2: Block| b2 != bb ==> final(self).block_placed(b2) == old(self).block_placed(
                b2,
            ),
            final(self).blocks_seq() == old(self).blocks_seq().remove_value(bb),
            forall|b2: Block| b2 != bb ==> final(self).insts_of(b2) == old(self).insts_of(b2),
            final(self).insts_of(bb).len() == 0,
            forall|i: Inst|
                final(self).placed_in(i) == (if old(self).placed_in(i) == Some(bb) {
                    None
                } else {
                    old(self).placed_in(i)
                }),
    {
        let pos = self.block_pos(bb);
        let p = match pos {
            Some(p) => p,
            None => {
                proof {
                    assert(false);
                }
                0
            },
        };
        let ghost oldorder = self.block_order@;
        self.block_order.remove(p);
        proof {
            lemma_seq_remove_set(oldorder, p as int);
            oldorder.index_of_first_ensures(bb);
            let fi = oldorder.index_of_first(bb);
            match fi {
                Some(q) => {
                    assert(oldorder[q] == bb);
                    if q < p {
                        assert(false);
                    }
                    if q > p {
                        assert(oldorder[p as int] == bb);
                        assert(false);
                    }
                },
                None => {
                    assert(oldorder.contains(bb));
                    assert(false);
                },
            }
            assert(self.block_order@ == oldorder.remove_value(bb));
        }
        // Unplace the block's instructions.
        proof {
            assert(old(self).row_ok(bb.0 as int));
        }
        let row = copy_insts(&self.block_insts[bb.0]);
        let ghost oldrow = row@;
        let n = row.len();
        let mut k: usize = 0;
        while k < n
            invariant
                k <= n,
                n == oldrow.len(),
                row@ == oldrow,
                self.block_order@ == oldorder.remove_value(bb),
                self.block_insts == old(self).block_insts,
                self.inst_block@.len() == old(self).inst_block@.len(),
                forall|ii: int|
                    0 <= ii < self.inst_block@.len() ==> #[trigger] self.inst_block@[ii] == (
                    if oldrow.take(k as int).contains(Inst(ii as usize)) {
                        None
                    } else {
                        old(self).inst_block@[ii]
                    }),
            decreases n - k,
        {
            let i = row[k];
            proof {
                assert(oldrow[k as int].0 < old(self).inst_block@.len());
            }
            self.inst_block.set(i.0, None);
            proof {
                assert forall|ii: int| 0 <= ii < self.inst_block@.len() implies
                    #[trigger] self.inst_block@[ii] == (if oldrow.take(k + 1int).contains(
                    Inst(ii as usize),
                ) {
                    None
                } else {
                    old(self).inst_block@[ii]
                }) by {
                    assert(oldrow.take(k + 1int) =~= oldrow.take(k as int).push(i));
                    crate::dfg::lemma_push_contains(
                        oldrow.take(k as int),
                        i,
                        Inst(ii as usize),
                    );
                }
            }
            k = k + 1;
        }
        self.block_insts.set(bb.0, Vec::new());
        proof {
            assert(oldrow.take(n as int) =~= oldrow);
            let fin = self;
            // Placements: exactly the removed block's instructions are
            // unplaced.
            assert forall|i: Inst| fin.placed_in(i) == (if old(self).placed_in(i) == Some(bb) {
                None
            } else {
                old(self).placed_in(i)
            }) by {
                if 0 <= i.0 < fin.inst_block@.len() {
                    if oldrow.contains(i) {
                        assert(old(self).inst_block@[i.0 as int] == Some(bb));
                    } else {
                        if old(self).inst_block@[i.0 as int] == Some(bb) {
                            assert(old(self).placement_ok());
                            assert(old(self).block_insts@[bb.0 as int]@.contains(i));
                            assert(false);
                        }
                    }
                }
            }
            // Rows.
            assert forall|bi: int| 0 <= bi < fin.block_insts@.len() implies #[trigger] fin.row_ok(
                bi,
            ) by {
                assert(old(self).row_ok(bi));
                if bi == bb.0 as int {
                    assert(fin.block_insts@[bi]@.len() == 0);
                } else {
                    let rowb = fin.block_insts@[bi]@;
                    assert(rowb == old(self).block_insts@[bi]@);
                    assert forall|m: int| 0 <= m < rowb.len() implies (#[trigger] rowb[m]).0
                        < fin.inst_block@.len() && fin.inst_block@[rowb[m].0 as int] == Some(
                        Block(bi as usize),
                    ) by {
                        assert(old(self).inst_block@[rowb[m].0 as int] == Some(Block(bi as usize)));
                        if oldrow.contains(rowb[m]) {
                            assert(old(self).inst_block@[rowb[m].0 as int] == Some(bb));
                            assert(false);
                        }
                    }
                    if !fin.block_order@.contains(Block(bi as usize)) {
                        if old(self).block_order@.contains(Block(bi as usize)) {
                            assert(Block(bi as usize) == bb);
                            assert(false);
                        }
                    }
                }
            }
            // Placement consistency.
            assert(fin.placement_ok()) by {
                assert forall|ii: int|
                    0 <= ii < fin.inst_block@.len() implies match #[trigger] fin.inst_block@[ii] {
                    Some(b) => fin.block_order@.contains(b) && 0 <= b.0 < fin.block_insts@.len()
                        && fin.block_insts@[b.0 as int]@.contains(Inst(ii as usize)),
                    None => true,
                } by {
                    match fin.inst_block@[ii] {
                        Some(b) => {
                            assert(old(self).inst_block@[ii] == Some(b));
                            assert(b != bb);
                            assert(old(self).block_order@.contains(b));
                            assert(old(self).block_insts@[b.0 as int]@.contains(Inst(ii as usize)));
                            assert(fin.block_insts@[b.0 as int] == old(self).block_insts@[
                                b.0 as int]);
                        },
                        None => {},
                    }
                }
            }
            assert(fin.insts_of(bb).len() == 0);
        }
    }
}

impl Layout {
    /// Grow the placement table so instruction `i` has a slot.
    #[verifier::loop_isolation(false)]
    fn grow_placements(&mut self, i: Inst)
        requires
            old(self).wf(),
            i.0 < MAX_HANDLES,
        ensures
            final(self).wf(),
            final(self).block_order == old(self).block_order,
            final(self).block_insts == old(self).block_insts,
            final(self).inst_block@.len() > i.0,
            final(self).inst_block@.len() <= MAX_HANDLES,
            forall|ii: int|
                0 <= ii < old(self).inst_block@.len() ==> final(self).inst_block@[ii] == old(
                    self,
                ).inst_block@[ii],
            forall|ii: int|
                old(self).inst_block@.len() <= ii < final(self).inst_block@.len() ==> (
                #[trigger] final(self).inst_block@[ii]) is None,
            forall|x: Inst| final(self).placed_in(x) == old(self).placed_in(x),
    {
        while self.inst_block.len() <= i.0
            invariant
                self.block_order == old(self).block_order,
                self.block_insts == old(self).block_insts,
                self.inst_block@.len() >= old(self).inst_block@.len(),
                self.inst_block@.len() <= i.0 + 1 || self.inst_block@.len() == old(
                    self,
                ).inst_block@.len(),
                forall|ii: int|
                    0 <= ii < old(self).inst_block@.len() ==> self.inst_block@[ii] == old(
                        self,
                    ).inst_block@[ii],
                forall|ii: int|
                    old(self).inst_block@.len() <= ii < self.inst_block@.len() ==> (
                    #[trigger] self.inst_block@[ii]) is None,
            decreases i.0 + 1 - self.inst_block@.len(),
        {
            self.inst_block.push(None);
        }
        proof {
            assert forall|bi: int| 0 <= bi < self.block_insts@.len() implies #[trigger] self.row_ok(
                bi,
            ) by {
                assert(old(self).row_ok(bi));
                let row = self.block_insts@[bi]@;
                assert forall|m: int| 0 <= m < row.len() implies (#[trigger] row[m]).0
                    < self.inst_block@.len() && self.inst_block@[row[m].0 as int] == Some(
                    Block(bi as usize),
                ) by {
                    assert(old(self).inst_block@[row[m].0 as int] == Some(Block(bi as usize)));
                }
            }
        }
    }

    /// Place an unplaced instruction at position `pos` within block `bb`.
    #[verifier::rlimit(40)]
    fn place_inst_at(&mut self, inst: Inst, bb: Block, pos: usize)
        requires
            old(self).wf(),
            old(self).block_placed(bb),
            !old(self).inst_placed(inst),
            inst.0 < MAX_HANDLES,
            pos <= old(self).insts_of(bb).len(),
        ensures
            final(self).wf(),
            final(self).block_order == old(self).block_order,
            final(self).insts_of(bb) == old(self).insts_of(bb).insert(pos as int, inst),
            forall|b2: Block| b2 != bb ==> final(self).insts_of(b2) == old(self).insts_of(b2),
            final(self).placed_in(inst) == Some(bb),
            forall|x: Inst| x != inst ==> final(self).placed_in(x) == old(self).placed_in(x),
    {
        self.grow_placements(inst);
        let ghost mid = *self;
        proof {
            let k = choose|k: int|
                0 <= k < self.block_order@.len() && self.block_order@[k] == bb;
            assert(self.block_order@[k].0 < self.block_insts@.len());
        }
        self.inst_block.set(inst.0, Some(bb));
        let row = &mut self.block_insts[bb.0];
        row.insert(pos, inst);
        proof {
            let fin = self;
            let oldrow = mid.block_insts@[bb.0 as int]@;
            let newrow = fin.block_insts@[bb.0 as int]@;
            oldrow.insert_ensures(pos as int, inst);
            assert(newrow == oldrow.insert(pos as int, inst));
            // The new row lists exactly the old entries plus `inst`.
            assert forall|x: Inst| newrow.contains(x) implies (x == inst || oldrow.contains(
                x,
            )) by {
                let k = choose|k: int| 0 <= k < newrow.len() && newrow[k] == x;
                if k < pos {
                    assert(oldrow[k] == x);
                } else if k > pos {
                    assert(oldrow[k - 1] == x);
                }
            }
            assert forall|x: Inst| oldrow.contains(x) implies newrow.contains(x) by {
                let k = choose|k: int| 0 <= k < oldrow.len() && oldrow[k] == x;
                if k < pos {
                    assert(newrow[k] == x);
                } else {
                    assert(newrow[k + 1] == x);
                }
            }
            assert(newrow.contains(inst)) by {
                assert(newrow[pos as int] == inst);
            }
            assert(newrow.no_duplicates()) by {
                assert forall|i1: int, j1: int| 0 <= i1 < j1 < newrow.len() implies newrow[i1]
                    != newrow[j1] by {
                    assert(mid.row_ok(bb.0 as int));
                    let o1: int = if i1 < pos {
                        i1
                    } else {
                        i1 - 1
                    };
                    let o2: int = if j1 < pos {
                        j1
                    } else {
                        j1 - 1
                    };
                    if i1 == pos {
                        assert(newrow[i1] == inst);
                        assert(newrow[j1] == oldrow[o2]);
                        if oldrow[o2] == inst {
                            assert(oldrow.contains(inst));
                            assert(mid.inst_block@[inst.0 as int] == Some(bb));
                            assert(false);
                        }
                    } else if j1 == pos {
                        assert(newrow[j1] == inst);
                        assert(newrow[i1] == oldrow[o1]);
                        if oldrow[o1] == inst {
                            assert(oldrow.contains(inst));
                            assert(mid.inst_block@[inst.0 as int] == Some(bb));
                            assert(false);
                        }
                    } else {
                        assert(newrow[i1] == oldrow[o1]);
                        assert(newrow[j1] == oldrow[o2]);
                    }
                }
            }
            assert forall|bi: int| 0 <= bi < fin.block_insts@.len() implies #[trigger] fin.row_ok(
                bi,
            ) by {
                assert(mid.row_ok(bi));
                if bi == bb.0 as int {
                    assert forall|m: int| 0 <= m < newrow.len() implies (#[trigger] newrow[m]).0
                        < fin.inst_block@.len() && fin.inst_block@[newrow[m].0 as int] == Some(
                        bb,
                    ) by {
                        let x = newrow[m];
                        assert(newrow.contains(x));
                        if x == inst {
                        } else {
                            assert(oldrow.contains(x));
                            let k = choose|k: int| 0 <= k < oldrow.len() && oldrow[k] == x;
                            assert(mid.inst_block@[x.0 as int] == Some(bb));
                            assert(x != inst);
                        }
                    }
                } else {
                    let rowb = fin.block_insts@[bi]@;
                    assert(rowb == mid.block_insts@[bi]@);
                    assert forall|m: int| 0 <= m < rowb.len() implies (#[trigger] rowb[m]).0
                        < fin.inst_block@.len() && fin.inst_block@[rowb[m].0 as int] == Some(
                        Block(bi as usize),
                    ) by {
                        assert(mid.inst_block@[rowb[m].0 as int] == Some(Block(bi as usize)));
                        if rowb[m] == inst {
                            assert(mid.inst_block@[inst.0 as int] is None);
                            assert(false);
                        }
                    }
                }
            }
            assert(fin.placement_ok()) by {
                assert forall|ii: int|
                    0 <= ii < fin.inst_block@.len() implies match #[trigger] fin.inst_block@[ii] {
                    Some(b) => fin.block_order@.contains(b) && 0 <= b.0 < fin.block_insts@.len()
                        && fin.block_insts@[b.0 as int]@.contains(Inst(ii as usize)),
                    None => true,
                } by {
                    if ii == inst.0 as int {
                        assert(fin.inst_block@[ii] == Some(bb));
                        assert(newrow.contains(inst));
                    } else {
                        match fin.inst_block@[ii] {
                            Some(b) => {
                                assert(mid.inst_block@[ii] == Some(b));
                                assert(mid.block_insts@[b.0 as int]@.contains(Inst(ii as usize)));
                                if b == bb {
                                    assert(newrow.contains(Inst(ii as usize)));
                                } else {
                                    assert(fin.block_insts@[b.0 as int] == mid.block_insts@[
                                        b.0 as int]);
                                }
                            },
                            None => {},
                        }
                    }
                }
            }
        }
    }

    /// Append an instruction to the end of a block.
    pub fn append_inst(&mut self, inst: Inst, bb: Block)
        requires
            old(self).wf(),
            old(self).block_placed(bb),
            !old(self).inst_placed(inst),
            inst.0 < MAX_HANDLES,
        ensures
            final(self).wf(),
            final(self).block_order == old(self).block_order,
            final(self).insts_of(bb) == old(self).insts_of(bb).push(inst),
            forall|b2: Block| b2 != bb ==> final(self).insts_of(b2) == old(self).insts_of(b2),
            final(self).placed_in(inst) == Some(bb),
            forall|x: Inst| x != inst ==> final(self).placed_in(x) == old(self).placed_in(x),
    {
        proof {
            let k = choose|k: int|
                0 <= k < self.block_order@.len() && self.block_order@[k] == bb;
            assert(self.block_order@[k].0 < self.block_insts@.len());
        }
        let n = self.block_insts[bb.0].len();
        self.place_inst_at(inst, bb, n);
        proof {
            assert(old(self).insts_of(bb).insert(n as int, inst) =~= old(self).insts_of(bb).push(
                inst,
            ));
        }
    }

    /// Prepend an instruction at the beginning of a block.
    pub fn prepend_inst(&mut self, inst: Inst, bb: Block)
        requires
            old(self).wf(),
            old(self).block_placed(bb),
            !old(self).inst_placed(inst),
            inst.0 < MAX_HANDLES,
        ensures
            final(self).wf(),
            final(self).block_order == old(self).block_order,
            final(self).insts_of(bb) == old(self).insts_of(bb).insert(0, inst),
            forall|b2: Block| b2 != bb ==> final(self).insts_of(b2) == old(self).insts_of(b2),
            final(self).placed_in(inst) == Some(bb),
            forall|x: Inst| x != inst ==> final(self).placed_in(x) == old(self).placed_in(x),
    {
        self.place_inst_at(inst, bb, 0);
    }

    /// Insert an instruction right after `after` within its block. Panics
    /// are excluded by requiring `after` to be placed.
    pub fn insert_inst_after(&mut self, inst: Inst, after: Inst)
        requires
            old(self).wf(),
            !old(self).inst_placed(inst),
            old(self).inst_placed(after),
            inst.0 < MAX_HANDLES,
        ensures
            final(self).wf(),
            final(self).block_order == old(self).block_order,
            old(self).placed_in(after) matches Some(bb) ==> final(self).placed_in(inst) == Some(
                bb,
            ) && (exists|k: int|
                0 <= k < old(self).insts_of(bb).len() && old(self).insts_of(bb)[k] == after
                    && final(self).insts_of(bb) == old(self).insts_of(bb).insert(k + 1, inst))
                && (forall|b2: Block|
                b2 != bb ==> final(self).insts_of(b2) == old(self).insts_of(b2)),
            forall|x: Inst| x != inst ==> final(self).placed_in(x) == old(self).placed_in(x),
    {
        let bbo = self.inst_block_of(after);
        let bb = match bbo {
            Some(b) => b,
            None => {
                proof {
                    assert(false);
                }
                Block(0)
            },
        };
        proof {
            assert(self.placement_ok());
            assert(self.block_insts@[bb.0 as int]@.contains(after));
        }
        let n = self.block_insts[bb.0].len();
        let pos = crate::dfg::inst_pos(&self.block_insts[bb.0], after);
        match pos {
            Some(p) => {
                proof {
                    assert(p < n);
                }
                self.place_inst_at(inst, bb, p + 1);
            },
            None => {
                proof {
                    assert(false);
                }
            },
        }
    }

    /// Insert an instruction right before `before` within its block. Panics
    /// are excluded by requiring `before` to be placed.
    pub fn insert_inst_before(&mut self, inst: Inst, before: Inst)
        requires
            old(self).wf(),
            !old(self).inst_placed(inst),
            old(self).inst_placed(before),
            inst.0 < MAX_HANDLES,
        ensures
            final(self).wf(),
            final(self).block_order == old(self).block_order,
            old(self).placed_in(before) matches Some(bb) ==> final(self).placed_in(inst) == Some(
                bb,
            ) && (exists|k: int|
                0 <= k < old(self).insts_of(bb).len() && old(self).insts_of(bb)[k] == before
                    && final(self).insts_of(bb) == old(self).insts_of(bb).insert(k, inst)) && (
            forall|b2: Block| b2 != bb ==> final(self).insts_of(b2) == old(self).insts_of(b2)),
            forall|x: Inst| x != inst ==> final(self).placed_in(x) == old(self).placed_in(x),
    {
        let bbo = self.inst_block_of(before);
        let bb = match bbo {
            Some(b) => b,
            None => {
                proof {
                    assert(false);
                }
                Block(0)
            },
        };
        proof {
            assert(self.placement_ok());
            assert(self.block_insts@[bb.0 as int]@.contains(before));
        }
        let pos = crate::dfg::inst_pos(&self.block_insts[bb.0], before);
        match pos {
            Some(p) => {
                self.place_inst_at(inst, bb, p);
            },
            None => {
                proof {
                    assert(false);
                }
            },
        }
    }

    /// Remove a placed instruction from its block. Panics are excluded by
    /// requiring the instruction to be placed.
    #[verifier::rlimit(40)]
    pub fn remove_inst(&mut self, inst: Inst)
        requires
            old(self).wf(),
            old(self).inst_placed(inst),
        ensures
            final(self).wf(),
            final(self).block_order == old(self).block_order,
            !final(self).inst_placed(inst),
            forall|x: Inst| x != inst ==> final(self).placed_in(x) == old(self).placed_in(x),
            old(self).placed_in(inst) matches Some(bb) ==> final(self).insts_of(bb) == old(
                self,
            ).insts_of(bb).remove_value(inst) && (forall|b2: Block|
                b2 != bb ==> final(self).insts_of(b2) == old(self).insts_of(b2)),
    {
        let bbo = self.inst_block_of(inst);
        let bb = match bbo {
            Some(b) => b,
            None => {
                proof {
                    assert(false);
                }
                Block(0)
            },
        };
        proof {
            assert(self.placement_ok());
            assert(self.block_insts@[bb.0 as int]@.contains(inst));
        }
        let pos = crate::dfg::inst_pos(&self.block_insts[bb.0], inst);
        let p = match pos {
            Some(p) => p,
            None => {
                proof {
                    assert(false);
                }
                0
            },
        };
        let ghost mid = *self;
        let ghost oldrow = self.block_insts@[bb.0 as int]@;
        self.inst_block.set(inst.0, None);
        let row = &mut self.block_insts[bb.0];
        let _removed = row.remove(p);
        proof {
            let fin = self;
            assert(mid.row_ok(bb.0 as int));
            lemma_seq_remove_set(oldrow, p as int);
            oldrow.index_of_first_ensures(inst);
            match oldrow.index_of_first(inst) {
                Some(q) => {
                    assert(oldrow[q] == inst);
                    if q < p {
                        assert(false);
                    }
                    if q > p {
                        assert(oldrow[p as int] == inst);
                        assert(false);
                    }
                },
                None => {
                    assert(oldrow.contains(inst));
                    assert(false);
                },
            }
            let newrow = fin.block_insts@[bb.0 as int]@;
            assert(newrow == oldrow.remove_value(inst));
            assert forall|bi: int| 0 <= bi < fin.block_insts@.len() implies #[trigger] fin.row_ok(
                bi,
            ) by {
                assert(mid.row_ok(bi));
                if bi == bb.0 as int {
                    assert forall|m: int| 0 <= m < newrow.len() implies (#[trigger] newrow[m]).0
                        < fin.inst_block@.len() && fin.inst_block@[newrow[m].0 as int] == Some(
                        bb,
                    ) by {
                        let x = newrow[m];
                        assert(newrow.contains(x));
                        assert(x != inst);
                        assert(oldrow.contains(x));
                        assert(mid.inst_block@[x.0 as int] == Some(bb));
                    }
                } else {
                    let rowb = fin.block_insts@[bi]@;
                    assert(rowb == mid.block_insts@[bi]@);
                    assert forall|m: int| 0 <= m < rowb.len() implies (#[trigger] rowb[m]).0
                        < fin.inst_block@.len() && fin.inst_block@[rowb[m].0 as int] == Some(
                        Block(bi as usize),
                    ) by {
                        assert(mid.inst_block@[rowb[m].0 as int] == Some(Block(bi as usize)));
                        assert(rowb[m] != inst);
                    }
                }
            }
            assert(fin.placement_ok()) by {
                assert forall|ii: int|
                    0 <= ii < fin.inst_block@.len() implies match #[trigger] fin.inst_block@[ii] {
                    Some(b) => fin.block_order@.contains(b) && 0 <= b.0 < fin.block_insts@.len()
                        && fin.block_insts@[b.0 as int]@.contains(Inst(ii as usize)),
                    None => true,
                } by {
                    if ii != inst.0 as int {
                        match fin.inst_block@[ii] {
                            Some(b) => {
                                assert(mid.inst_block@[ii] == Some(b));
                                assert(mid.block_insts@[b.0 as int]@.contains(Inst(ii as usize)));
                                if b == bb {
                                    assert(Inst(ii as usize) != inst);
                                    assert(newrow.contains(Inst(ii as usize)));
                                } else {
                                    assert(fin.block_insts@[b.0 as int] == mid.block_insts@[
                                        b.0 as int]);
                                }
                            },
                            None => {},
                        }
                    }
                }
            }
        }
    }

    /// The instruction before `i` in its block, if any. Panics are excluded
    /// by requiring `i` to be placed.
    pub fn prev_inst(&self, i: Inst) -> (r: Option<Inst>)
        requires
            self.wf(),
            self.inst_placed(i),
        ensures
            r matches Some(x) ==> self.inst_placed(x) && self.placed_in(x) == self.placed_in(i)
                && x != i,
    {
        let bbo = self.inst_block_of(i);
        let bb = match bbo {
            Some(b) => b,
            None => {
                proof {
                    assert(false);
                }
                Block(0)
            },
        };
        proof {
            assert(self.placement_ok());
            assert(self.block_insts@[bb.0 as int]@.contains(i));
            assert(self.row_ok(bb.0 as int));
        }
        let pos = crate::dfg::inst_pos(&self.block_insts[bb.0], i);
        match pos {
            Some(p) => {
                if p > 0 {
                    let x = self.block_insts[bb.0][p - 1];
                    proof {
                        assert(self.block_insts@[bb.0 as int]@[p - 1int].0
                            < self.inst_block@.len());
                        if x == i {
                            assert(self.block_insts@[bb.0 as int]@.no_duplicates());
                            assert(false);
                        }
                    }
                    Some(x)
                } else {
                    None
                }
            },
            None => {
                proof {
                    assert(false);
                }
                None
            },
        }
    }

    /// The instruction after `i` in its block, if any. Panics are excluded
    /// by requiring `i` to be placed.
    pub fn next_inst(&self, i: Inst) -> (r: Option<Inst>)
        requires
            self.wf(),
            self.inst_placed(i),
        ensures
            r matches Some(x) ==> self.inst_placed(x) && self.placed_in(x) == self.placed_in(i)
                && x != i,
    {
        let bbo = self.inst_block_of(i);
        let bb = match bbo {
            Some(b) => b,
            None => {
                proof {
                    assert(false);
                }
                Block(0)
            },
        };
        proof {
            assert(self.placement_ok());
            assert(self.block_insts@[bb.0 as int]@.contains(i));
            assert(self.row_ok(bb.0 as int));
        }
        let n = self.block_insts[bb.0].len();
        let pos = crate::dfg::inst_pos(&self.block_insts[bb.0], i);
        match pos {
            Some(p) => {
                proof {
                    assert(p < n);
                }
                if p + 1 < self.block_insts[bb.0].len() {
                    let x = self.block_insts[bb.0][p + 1];
                    proof {
                        assert(self.block_insts@[bb.0 as int]@[p + 1int].0
                            < self.inst_block@.len());
                        if x == i {
                            assert(self.block_insts@[bb.0 as int]@.no_duplicates());
                            assert(false);
                        }
                    }
                    Some(x)
                } else {
                    None
                }
            },
            None => {
                proof {
                    assert(false);
                }
                None
            },
        }
    }
}

} // verus!
