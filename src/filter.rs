//! Predicates that decide whether an element can take focus.

use crate::dom::{text_eq, Dom, Element};
use vstd::prelude::*;

verus! {

/// The `disabled` attribute holds exactly `true`.
pub open spec fn disabled_spec(e: Element) -> bool {
    e.attr("disabled"@) == Some("true"@)
}

/// The `inert` attribute holds exactly `true`.
pub open spec fn inert_spec(e: Element) -> bool {
    e.attr("inert"@) == Some("true"@)
}

/// An `input` whose `type` is `hidden`.
pub open spec fn hidden_input_spec(e: Element) -> bool {
    e.tag@ == "input"@ && e.attr("type"@) == Some("hidden"@)
}

/// Some element strictly above `i` is inert.
pub open spec fn inert_ancestor_spec(d: Dom, i: int) -> bool
    decreases i,
{
    if i < 0 || i >= d.elements@.len() {
        false
    } else {
        match d.parent_of(i) {
            Some(p) => if p < i {
                inert_spec(d.elements@[p as int]) || inert_ancestor_spec(d, p as int)
            } else {
                false
            },
            None => false,
        }
    }
}

pub open spec fn focusable_spec(d: Dom, i: int) -> bool {
    let e = d.elements@[i];
    !disabled_spec(e) && !inert_spec(e) && !inert_ancestor_spec(d, i) && !hidden_input_spec(e)
}

pub open spec fn tabbable_spec(d: Dom, i: int) -> bool {
    d.elements@[i].tab_index >= 0 && focusable_spec(d, i)
}

/// Whether the element is disabled: its `disabled` attribute is the text
/// `true` and nothing else.
pub fn is_disabled(element: &Element) -> (r: bool)
    ensures
        r == disabled_spec(*element),
{
    match element.get_attribute("disabled") {
        Some(v) => text_eq(v.as_str(), "true"),
        None => false,
    }
}

/// Whether the element's `inert` attribute is the text `true`.
pub fn is_inert(element: &Element) -> (r: bool)
    ensures
        r == inert_spec(*element),
{
    match element.get_attribute("inert") {
        Some(v) => text_eq(v.as_str(), "true"),
        None => false,
    }
}

/// Whether an element above `i` is inert. Each ancestor is tested itself,
/// from the parent up to the root.
pub fn has_inert_ancestor(dom: &Dom, i: usize) -> (r: bool)
    requires
        dom.wf(),
        i < dom.elements@.len(),
    ensures
        r == inert_ancestor_spec(*dom, i as int),
{
    let mut cur = i;
    loop
        invariant
            dom.wf(),
            cur < dom.elements@.len(),
            inert_ancestor_spec(*dom, i as int) == inert_ancestor_spec(*dom, cur as int),
        decreases cur,
    {
        match dom.elements[cur].parent {
            Some(p) => {
                if is_inert(&dom.elements[p]) {
                    return true;
                }
                cur = p;
            },
            None => {
                return false;
            },
        }
    }
}

/// Whether the element is an `input` of type `hidden`.
pub fn is_hidden_input(element: &Element) -> (r: bool)
    ensures
        r == hidden_input_spec(*element),
{
    if !text_eq(element.tag.as_str(), "input") {
        return false;
    }
    match element.get_attribute("type") {
        Some(t) => text_eq(t.as_str(), "hidden"),
        None => false,
    }
}

/// Whether element `i` can take focus: it is not disabled, not inert, under
/// no inert ancestor and no hidden input.
pub fn is_focusable(dom: &Dom, i: usize) -> (r: bool)
    requires
        dom.wf(),
        i < dom.elements@.len(),
    ensures
        r == focusable_spec(*dom, i as int),
        inert_spec(dom.elements@[i as int]) ==> !r,
        disabled_spec(dom.elements@[i as int]) ==> !r,
{
    let e = &dom.elements[i];
    !(is_disabled(e) || is_inert(e) || has_inert_ancestor(dom, i) || is_hidden_input(e))
}

/// Whether element `i` is reached by sequential navigation: its tab index is
/// not negative and it can take focus.
pub fn is_tabbable(dom: &Dom, i: usize) -> (r: bool)
    requires
        dom.wf(),
        i < dom.elements@.len(),
    ensures
        r == tabbable_spec(*dom, i as int),
        r ==> focusable_spec(*dom, i as int),
{
    dom.elements[i].tab_index >= 0 && is_focusable(dom, i)
}

/// Whether an element lies under an inert one depends only on the elements
/// before it and on its own parent.
pub proof fn lemma_inert_ancestor_prefix(d1: Dom, d2: Dom, i: int)
    requires
        0 <= i < d1.elements@.len(),
        d1.elements@.len() == d2.elements@.len(),
        forall|j: int| 0 <= j < i ==> d1.elements@[j] == d2.elements@[j],
        d1.parent_of(i) == d2.parent_of(i),
    ensures
        inert_ancestor_spec(d1, i) == inert_ancestor_spec(d2, i),
    decreases i,
{
    match d1.parent_of(i) {
        Some(p) => {
            if p < i {
                lemma_inert_ancestor_prefix(d1, d2, p as int);
            }
        },
        None => {},
    }
}

/// An element whose `inert` attribute is `true` cannot take focus; with that
/// attribute taken away (and the rest of the document as it was) it can,
/// exactly when it is neither disabled, nor under an inert element, nor a
/// hidden input.
pub proof fn lemma_inert_toggle(d: Dom, restored: Dom, i: int, e: Element)
    requires
        d.wf(),
        0 <= i < d.elements@.len(),
        e.attr("inert"@).is_none(),
        forall|name: Seq<char>| name != "inert"@ ==> #[trigger] e.attr(name) == d.elements@[i].attr(name),
        e.tag == d.elements@[i].tag,
        e.parent == d.elements@[i].parent,
        restored.elements@ == d.elements@.update(i, e),
    ensures
        inert_spec(d.elements@[i]) ==> !focusable_spec(d, i),
        focusable_spec(restored, i) == (!disabled_spec(d.elements@[i]) && !inert_ancestor_spec(d, i)
            && !hidden_input_spec(d.elements@[i])),
{
    lemma_inert_ancestor_prefix(d, restored, i);
    reveal_strlit("disabled");
    reveal_strlit("inert");
    reveal_strlit("type");
    assert("disabled"@[0] != "inert"@[0]);
    assert("type"@[0] != "inert"@[0]);
    assert(e.attr("disabled"@) == d.elements@[i].attr("disabled"@));
    assert(e.attr("type"@) == d.elements@[i].attr("type"@));
}

} // verus!
