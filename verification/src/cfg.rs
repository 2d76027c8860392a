//! The control-flow graph: an arena of basic blocks with optional names and
//! anonymous-name hints.
//!
//! Block order and block contents live in the layout; edges live in the
//! instructions' block-reference lists. Removed blocks leave dead slots whose
//! handles are never reused.

use vstd::prelude::*;
use vstd::pervasive::VecAdditionalExecFns;
use crate::handles::{Block, MAX_HANDLES};

verus! {

/// The control-flow graph of a unit.
#[derive(Debug)]
pub struct ControlFlowGraph {
    /// Whether each block slot is live.
    pub block_live: Vec<bool>,
    /// Optional textual name of each block.
    pub block_name: Vec<Option<String>>,
    /// Optional anonymous-name hint of each block.
    pub block_hint: Vec<Option<u32>>,
}

impl ControlFlowGraph {
    /// Number of block slots ever allocated.
    pub open spec fn n_blocks(&self) -> int {
        self.block_live@.len() as int
    }

    /// Whether `bb` is a live block.
    pub open spec fn block_in_range(&self, bb: Block) -> bool {
        0 <= bb.0 < self.n_blocks()
    }

    /// Whether `bb` is a live block.
    pub open spec fn spec_block_live(&self, bb: Block) -> bool {
        self.block_in_range(bb) && self.block_live@[bb.0 as int]
    }

    /// Well-formedness: the parallel arenas agree in length and stay below
    /// the handle bound, and dead slots carry no name or hint.
    pub open spec fn wf(&self) -> bool {
        &&& self.block_name@.len() == self.block_live@.len()
        &&& self.block_hint@.len() == self.block_live@.len()
        &&& self.n_blocks() <= MAX_HANDLES
        &&& forall|k: int|
            0 <= k < self.n_blocks() && !self.block_live@[k] ==> self.block_name@[k] is None
                && self.block_hint@[k] is None
    }

    /// Create an empty control-flow graph.
    pub fn new() -> (r: Self)
        ensures
            r.wf(),
            r.n_blocks() == 0,
    {
        ControlFlowGraph { block_live: Vec::new(), block_name: Vec::new(), block_hint: Vec::new() }
    }

    /// Whether `bb` is a live block.
    pub fn is_block_live(&self, bb: Block) -> (r: bool)
        ensures
            r == self.spec_block_live(bb),
    {
        bb.0 < self.block_live.len() && self.block_live[bb.0]
    }

    /// Allocate a fresh block.
    pub fn add_block(&mut self) -> (bb: Block)
        requires
            old(self).wf(),
            old(self).n_blocks() < MAX_HANDLES,
        ensures
            final(self).wf(),
            bb.0 == old(self).n_blocks(),
            final(self).n_blocks() == old(self).n_blocks() + 1,
            final(self).spec_block_live(bb),
            forall|b: Block| b != bb ==> final(self).spec_block_live(b) == old(self).spec_block_live(b),
            forall|k: int|
                0 <= k < old(self).n_blocks() ==> final(self).block_name@[k] == old(self).block_name@[k] && final(self).block_hint@[k] == old(self).block_hint@[k],
            final(self).block_name@[bb.0 as int] is None,
            final(self).block_hint@[bb.0 as int] is None,
    {
        let bb = Block(self.block_live.len());
        self.block_live.push(true);
        self.block_name.push(None);
        self.block_hint.push(None);
        bb
    }

    /// Destroy a block node. Callers must first scrub references to it in the
    /// data-flow graph.
    pub fn remove_block(&mut self, bb: Block)
        requires
            old(self).wf(),
            old(self).spec_block_live(bb),
        ensures
            final(self).wf(),
            final(self).n_blocks() == old(self).n_blocks(),
            !final(self).spec_block_live(bb),
            forall|b: Block| b != bb ==> final(self).spec_block_live(b) == old(self).spec_block_live(b),
            forall|k: int|
                0 <= k < old(self).n_blocks() && k != bb.0 ==> final(self).block_name@[k] == old(self).block_name@[k] && final(self).block_hint@[k] == old(self).block_hint@[k],
    {
        self.block_live.set(bb.0, false);
        self.block_name.set(bb.0, None);
        self.block_hint.set(bb.0, None);
    }

    /// Set the name of a block.
    pub fn set_name(&mut self, bb: Block, name: String)
        requires
            old(self).wf(),
            old(self).spec_block_live(bb),
        ensures
            final(self).wf(),
            final(self).block_name@ == old(self).block_name@.update(bb.0 as int, Some(name)),
            final(self).block_live@ == old(self).block_live@,
            final(self).block_hint@ == old(self).block_hint@,
    {
        self.block_name.set(bb.0, Some(name));
    }

    /// Clear and return the name of a block.
    pub fn clear_name(&mut self, bb: Block) -> (r: Option<String>)
        requires
            old(self).wf(),
            old(self).spec_block_live(bb),
        ensures
            final(self).wf(),
            r == old(self).block_name@[bb.0 as int],
            final(self).block_name@ == old(self).block_name@.update(bb.0 as int, None::<String>),
            final(self).block_live@ == old(self).block_live@,
            final(self).block_hint@ == old(self).block_hint@,
    {
        let mut taken: Option<String> = None;
        self.block_name.set_and_swap(bb.0, &mut taken);
        taken
    }

    /// Look up the name of a block.
    pub fn get_name(&self, bb: Block) -> (r: Option<&str>)
        requires
            self.wf(),
            self.spec_block_live(bb),
        ensures
            match r {
                Some(s) => self.block_name@[bb.0 as int] matches Some(n) && n@ == s@,
                None => self.block_name@[bb.0 as int] is None,
            },
    {
        match &self.block_name[bb.0] {
            Some(n) => Some(n.as_str()),
            None => None,
        }
    }

    /// Set the anonymous-name hint of a block.
    pub fn set_anonymous_hint(&mut self, bb: Block, hint: u32)
        requires
            old(self).wf(),
            old(self).spec_block_live(bb),
        ensures
            final(self).wf(),
            final(self).block_hint@ == old(self).block_hint@.update(bb.0 as int, Some(hint)),
            final(self).block_live@ == old(self).block_live@,
            final(self).block_name@ == old(self).block_name@,
    {
        self.block_hint.set(bb.0, Some(hint));
    }

    /// Clear and return the anonymous-name hint of a block.
    pub fn clear_anonymous_hint(&mut self, bb: Block) -> (r: Option<u32>)
        requires
            old(self).wf(),
            old(self).spec_block_live(bb),
        ensures
            final(self).wf(),
            r == old(self).block_hint@[bb.0 as int],
            final(self).block_hint@ == old(self).block_hint@.update(bb.0 as int, None::<u32>),
            final(self).block_live@ == old(self).block_live@,
            final(self).block_name@ == old(self).block_name@,
    {
        let r = self.block_hint[bb.0];
        self.block_hint.set(bb.0, None);
        r
    }

    /// Look up the anonymous-name hint of a block.
    pub fn get_anonymous_hint(&self, bb: Block) -> (r: Option<u32>)
        requires
            self.wf(),
            self.spec_block_live(bb),
        ensures
            r == self.block_hint@[bb.0 as int],
    {
        self.block_hint[bb.0]
    }
}

} // verus!
