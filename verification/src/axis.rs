//! Axes: the collaborator that enumerates the nodes reachable from a
//! context node in one direction of the document.

use vstd::prelude::*;

verus! {

use crate::context::Evaluation;
use crate::nodeset::OrderedNodes;

/// An axis. For the node of `context` it appends to `result`, in the
/// axis's natural order, the nodes it reaches that survive `node_test`.
/// Nothing is assumed here of what an implementation appends; the step
/// pipeline states what holds of its result whatever came back.
pub trait AxisLike<N, F> {
    fn select_nodes(&self, context: &Evaluation<F>, node_test: &N, result: &mut OrderedNodes);
}

} // verus!
