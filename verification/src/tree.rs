//! The confidence tree: per-node confidence, preferred sibling, and the
//! consecutive-selection counter that feeds the second acceptance rule.

use vstd::prelude::*;
use crate::idmap::IdMap;

verus! {

/// The parent-linked confidence tree, keyed by node digest: each entry maps
/// a node to its parent's digest and its bookkeeping.
pub type HashTreeNode = IdMap<(crate::hash::Hash, TreeNode)>;

/// Consensus bookkeeping for one node of the transaction DAG.
#[derive(Clone, Copy)]
pub struct TreeNode {
    pub node: crate::hash::Hash,
    pub confidence: u64,
    pub preferred: crate::hash::Hash,
    pub last: crate::hash::Hash,
    pub count: u64,
}

impl TreeNode {
    /// Fresh bookkeeping: zero confidence, the node its own preferred and
    /// last choice, zero consecutive selections.
    pub fn new(node: crate::hash::Hash) -> (r: Self)
        ensures
            r.node == node,
            r.confidence == 0,
            r.preferred == node,
            r.last == node,
            r.count == 0,
    {
        TreeNode { node, confidence: 0, preferred: node, last: node, count: 0 }
    }

    /// Sets the preferred sibling.
    pub fn set_preferred(&mut self, p: crate::hash::Hash) -> (r: &mut Self)
        ensures
            *final(self) == *final(r),
            r.preferred == p,
            r.node == old(self).node && r.confidence == old(self).confidence && r.last == old(
                self,
            ).last && r.count == old(self).count,
    {
        self.preferred = p;
        self
    }

    /// Sets the node selected in the last round.
    pub fn set_last(&mut self, l: crate::hash::Hash) -> (r: &mut Self)
        ensures
            *final(self) == *final(r),
            r.last == l,
            r.node == old(self).node && r.confidence == old(self).confidence && r.preferred == old(
                self,
            ).preferred && r.count == old(self).count,
    {
        self.last = l;
        self
    }

    /// Sets the confidence.
    pub fn set_confidence(&mut self, c: u64) -> (r: &mut Self)
        ensures
            *final(self) == *final(r),
            r.confidence == c,
            r.node == old(self).node && r.preferred == old(self).preferred && r.last == old(
                self,
            ).last && r.count == old(self).count,
    {
        self.confidence = c;
        self
    }

    /// Advances the consecutive-selection counter by one.
    pub fn increment_count(&mut self) -> (r: &mut Self)
        requires
            old(self).count < u64::MAX,
        ensures
            *final(self) == *final(r),
            r.count == old(self).count + 1,
            r.node == old(self).node && r.confidence == old(self).confidence && r.preferred == old(
                self,
            ).preferred && r.last == old(self).last,
    {
        self.count = self.count + 1;
        self
    }
}

} // verus!
