//! Candidate queries: of the elements that the fixed candidate selector
//! matched below a container, in document order, those a filter keeps.

use crate::dom::Dom;
use crate::filter::{focusable_spec, is_focusable, is_tabbable, tabbable_spec};
use vstd::prelude::*;

verus! {

/// The selector whose matches, below a container, are the candidates: form
/// controls, links with `href`, buttons, elements with `tabindex` other than
/// `slot`, media with `controls`, editable content, `details` and the first
/// `summary` of a `details`; none of them with an `inert` attribute.
pub const CANDIDATE_SELECTOR: &'static str = "input:not([inert]),select:not([inert]),textarea:not([inert]),a[href]:not([inert]),button:not([inert]),[tabindex]:not(slot):not([inert]),audio[controls]:not([inert]),video[controls]:not([inert]),[contenteditable]:not([contenteditable=\"false\"]):not([inert]),details>summary:first-of-type:not([inert]),details:not([inert])";

/// Every index of `matched` names an element of `d`.
pub open spec fn matched_valid(d: Dom, matched: Seq<usize>) -> bool {
    forall|k: int| 0 <= k < matched.len() ==> #[trigger] matched[k] < d.elements@.len()
}

/// Which candidates a query keeps.
#[derive(Clone, Copy, Debug, PartialEq, Eq)]
pub enum CandidateFilter {
    Focusable,
    Tabbable,
}

pub open spec fn passes_spec(d: Dom, f: CandidateFilter, i: int) -> bool {
    match f {
        CandidateFilter::Focusable => focusable_spec(d, i),
        CandidateFilter::Tabbable => tabbable_spec(d, i),
    }
}

/// A matched element is kept where it is an HTML element that passes `f`.
pub open spec fn accepted_spec(d: Dom, f: CandidateFilter, i: int) -> bool {
    d.elements@[i].html && passes_spec(d, f, i)
}

/// The kept elements among the first `k` of `matched`, in their order.
pub open spec fn selected(d: Dom, matched: Seq<usize>, f: CandidateFilter, k: int) -> Seq<usize>
    decreases k,
{
    if k <= 0 {
        Seq::empty()
    } else {
        let s = selected(d, matched, f, k - 1);
        if accepted_spec(d, f, matched[k - 1] as int) {
            s.push(matched[k - 1])
        } else {
            s
        }
    }
}

/// The kept elements of `matched`, in their order.
pub open spec fn query_spec(d: Dom, matched: Seq<usize>, f: CandidateFilter) -> Seq<usize> {
    selected(d, matched, f, matched.len() as int)
}

pub open spec fn first_of(s: Seq<usize>) -> Option<usize> {
    if s.len() > 0 {
        Some(s[0])
    } else {
        None
    }
}

/// An element is selected among the first `k` matches exactly when it is
/// one of them and is kept.
pub proof fn lemma_selected_members(d: Dom, matched: Seq<usize>, f: CandidateFilter, k: int)
    requires
        0 <= k <= matched.len(),
    ensures
        forall|x: usize|
            #[trigger] selected(d, matched, f, k).contains(x) <==> (matched.take(k).contains(x)
                && accepted_spec(d, f, x as int)),
    decreases k,
{
    if k > 0 {
        lemma_selected_members(d, matched, f, k - 1);
        let s = selected(d, matched, f, k - 1);
        let m = matched[k - 1];
        assert(matched.take(k) =~= matched.take(k - 1).push(m));
        assert forall|x: usize|
            #[trigger] selected(d, matched, f, k).contains(x) <==> (matched.take(k).contains(x)
                && accepted_spec(d, f, x as int)) by {
            lemma_push_contains(matched.take(k - 1), m, x);
            if accepted_spec(d, f, m as int) {
                lemma_push_contains(s, m, x);
            }
        }
    } else {
        assert(matched.take(k) =~= Seq::<usize>::empty());
    }
}

proof fn lemma_push_contains(s: Seq<usize>, v: usize, x: usize)
    ensures
        s.push(v).contains(x) <==> (s.contains(x) || x == v),
{
    if x == v {
        assert(s.push(v)[s.len() as int] == x);
    }
    if s.push(v).contains(x) {
        let j = choose|j: int| 0 <= j < s.len() + 1 && #[trigger] s.push(v)[j] == x;
        if j < s.len() {
            assert(s[j] == x);
        }
    }
    if s.contains(x) {
        let j = choose|j: int| 0 <= j < s.len() && #[trigger] s[j] == x;
        assert(s.push(v)[j] == x);
    }
}

/// Selecting among more elements keeps what was selected among fewer as a
/// prefix.
pub proof fn lemma_selected_prefix(d: Dom, matched: Seq<usize>, f: CandidateFilter, k0: int, k: int)
    requires
        k0 <= k,
    ensures
        selected(d, matched, f, k0).len() <= selected(d, matched, f, k).len(),
        forall|j: int|
            0 <= j < selected(d, matched, f, k0).len() ==> selected(d, matched, f, k)[j]
                == selected(d, matched, f, k0)[j],
    decreases k - k0,
{
    if k0 < k {
        lemma_selected_prefix(d, matched, f, k0, k - 1);
    }
}

fn passes(dom: &Dom, filter: CandidateFilter, i: usize) -> (r: bool)
    requires
        dom.wf(),
        i < dom.elements@.len(),
    ensures
        r == passes_spec(*dom, filter, i as int),
{
    match filter {
        CandidateFilter::Focusable => is_focusable(dom, i),
        CandidateFilter::Tabbable => is_tabbable(dom, i),
    }
}

/// The elements of `matched` (what the candidate selector matched below a
/// container, in document order) that are HTML elements and that `filter`
/// keeps, in the same order.
pub fn candidates(dom: &Dom, matched: &Vec<usize>, filter: CandidateFilter) -> (r: Vec<usize>)
    requires
        dom.wf(),
        matched_valid(*dom, matched@),
    ensures
        r@ == query_spec(*dom, matched@, filter),
{
    let n = matched.len();
    let mut out: Vec<usize> = Vec::new();
    let mut i: usize = 0;
    while i < n
        invariant
            dom.wf(),
            matched_valid(*dom, matched@),
            n == matched@.len(),
            i <= n,
            out@ == selected(*dom, matched@, filter, i as int),
        decreases n - i,
    {
        let m = matched[i];
        if dom.elements[m].html && passes(dom, filter, m) {
            out.push(m);
        }
        i = i + 1;
    }
    out
}

/// The first element of `matched` that is an HTML element and that `filter`
/// keeps, found without collecting the others.
pub fn first_candidate(dom: &Dom, matched: &Vec<usize>, filter: CandidateFilter) -> (r: Option<
    usize,
>)
    requires
        dom.wf(),
        matched_valid(*dom, matched@),
    ensures
        r == first_of(query_spec(*dom, matched@, filter)),
{
    let n = matched.len();
    let mut i: usize = 0;
    while i < n
        invariant
            dom.wf(),
            matched_valid(*dom, matched@),
            n == matched@.len(),
            i <= n,
            selected(*dom, matched@, filter, i as int).len() == 0,
        decreases n - i,
    {
        let m = matched[i];
        if dom.elements[m].html && passes(dom, filter, m) {
            proof {
                lemma_selected_prefix(*dom, matched@, filter, i + 1, n as int);
            }
            return Some(m);
        }
        i = i + 1;
    }
    None
}

/// The matched elements reached by sequential navigation.
pub fn tab_candidates(dom: &Dom, matched: &Vec<usize>) -> (r: Vec<usize>)
    requires
        dom.wf(),
        matched_valid(*dom, matched@),
    ensures
        r@ == query_spec(*dom, matched@, CandidateFilter::Tabbable),
{
    candidates(dom, matched, CandidateFilter::Tabbable)
}

/// The matched elements that can take focus.
pub fn focus_candidates(dom: &Dom, matched: &Vec<usize>) -> (r: Vec<usize>)
    requires
        dom.wf(),
        matched_valid(*dom, matched@),
    ensures
        r@ == query_spec(*dom, matched@, CandidateFilter::Focusable),
{
    candidates(dom, matched, CandidateFilter::Focusable)
}

/// Every tab candidate is a focus candidate, whatever the selector matched.
pub proof fn lemma_tab_candidates_within_focus_candidates(d: Dom, matched: Seq<usize>)
    ensures
        forall|x: usize|
            #[trigger] query_spec(d, matched, CandidateFilter::Tabbable).contains(x)
                ==> query_spec(d, matched, CandidateFilter::Focusable).contains(x),
{
    let n = matched.len() as int;
    lemma_selected_members(d, matched, CandidateFilter::Tabbable, n);
    lemma_selected_members(d, matched, CandidateFilter::Focusable, n);
}

} // verus!
