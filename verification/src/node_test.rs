//! Node tests: the filter an axis applies to each candidate node. The
//! expression core hands the test to the axis and never calls it itself.

use vstd::prelude::*;

verus! {

use crate::context::Evaluation;
use crate::nodeset::OrderedNodes;

/// A node test. An axis calls `test` with a context whose node is the
/// candidate; the test appends the node to `result` where it passes.
pub trait NodeTest<F> {
    fn test(&self, context: &Evaluation<F>, result: &mut OrderedNodes);
}

} // verus!
