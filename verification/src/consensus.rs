//! What the consensus engines share: the outcome type, the per-account
//! conflict sets, and the growth property the engines maintain on them.

use vstd::prelude::*;
use crate::idmap::{IdMap, IdSet};

verus! {

/// Per-account conflict sets: account state id to the candidate transaction
/// ids contesting that state.
pub type AccountConflictSet = IdMap<IdSet>;

/// What one consensus step concluded.
#[derive(Debug)]
pub enum ConsensusStatus {
    /// Another contest for the state is still in flight.
    InProgress,
    /// The carried transaction id won its conflict set.
    Accept(crate::hash::Hash),
    /// The request did not gather acceptance.
    Reject,
}

/// Conflict sets only grow: every state keeps its entry, and every recorded
/// candidate stays recorded.
pub open spec fn conflict_grows(
    a: Map<Seq<u8>, Set<Seq<u8>>>,
    b: Map<Seq<u8>, Set<Seq<u8>>>,
) -> bool {
    forall|s: Seq<u8>|
        a.contains_key(s) ==> #[trigger] b.contains_key(s) && a[s].subset_of(b[s])
}

/// Growth is transitive: two grown steps make one.
pub proof fn lemma_conflict_grows_trans(
    a: Map<Seq<u8>, Set<Seq<u8>>>,
    b: Map<Seq<u8>, Set<Seq<u8>>>,
    c: Map<Seq<u8>, Set<Seq<u8>>>,
)
    requires
        conflict_grows(a, b),
        conflict_grows(b, c),
    ensures
        conflict_grows(a, c),
{
    assert forall|s: Seq<u8>| a.contains_key(s) implies #[trigger] c.contains_key(s)
        && a[s].subset_of(c[s]) by {
        assert(b.contains_key(s));
        assert(c.contains_key(s));
        assert forall|x: Seq<u8>| a[s].contains(x) implies #[trigger] c[s].contains(x) by {
            assert(a[s].subset_of(b[s]));
            assert(b[s].contains(x));
            assert(b[s].subset_of(c[s]));
        }
    }
}

} // verus!
