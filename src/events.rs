//! Events as the trap sees them, and the node that really raised one.

use crate::dom::Dom;
use vstd::prelude::*;

verus! {

/// What an event can be aimed at.
#[derive(Clone, Copy, Debug, PartialEq, Eq)]
pub enum Target {
    /// An element of the document, by index.
    Element(usize),
    /// A node that the model holds no element for: the document, a text
    /// node, or an element inside a shadow tree. No element of the model
    /// contains it.
    Node,
    /// A target that is not a node, such as a window.
    NotNode,
}

/// A delivered event: its nominal target and its composed path, innermost
/// first.
#[derive(Debug)]
pub struct Event {
    pub target: Option<Target>,
    pub composed_path: Vec<Target>,
}

impl Event {
    /// Every element that the event names exists in `dom`.
    pub open spec fn valid_in(&self, dom: Dom) -> bool {
        &&& self.target matches Some(Target::Element(i)) ==> i < dom.elements@.len()
        &&& forall|k: int|
            0 <= k < self.composed_path@.len() ==> (#[trigger] self.composed_path@[k] matches Target::Element(
                i,
            ) ==> i < dom.elements@.len())
    }

    /// The target that raised the event: the head of the composed path
    /// where the target is an element that hosts a shadow root and the path
    /// is not empty; else the nominal target, if any.
    pub open spec fn actual_target_spec(&self, dom: Dom) -> Option<Target> {
        match self.target {
            Some(Target::Element(i)) => if dom.elements@[i as int].shadow_host
                && self.composed_path@.len() > 0 {
                Some(self.composed_path@[0])
            } else {
                Some(Target::Element(i))
            },
            other => other,
        }
    }

    /// The target that raised the event, seen through shadow roots.
    pub fn actual_target(&self, dom: &Dom) -> (r: Option<Target>)
        requires
            self.valid_in(*dom),
        ensures
            r == self.actual_target_spec(*dom),
            r matches Some(Target::Element(i)) ==> i < dom.elements@.len(),
    {
        match self.target {
            Some(Target::Element(i)) => {
                if dom.elements[i].shadow_host && self.composed_path.len() > 0 {
                    Some(self.composed_path[0])
                } else {
                    Some(Target::Element(i))
                }
            },
            other => other,
        }
    }
}

} // verus!
