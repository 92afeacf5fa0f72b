//! The focus trap: a state machine that owns a container, the last element
//! focused inside it and the document listeners it holds while active. Its
//! steps return what the caller must do: listeners to add or remove, and an
//! element to focus on a later turn of the event loop.

use crate::dom::Dom;
use crate::events::{Event, Target};
use crate::query::{first_candidate, first_of, matched_valid, query_spec, CandidateFilter};
use vstd::prelude::*;

verus! {

/// The document events that the trap listens to.
#[derive(Clone, Copy, Debug, PartialEq, Eq, Structural)]
pub enum EventKind {
    FocusIn,
    MouseDown,
    TouchStart,
    Click,
    KeyDown,
}

/// One listener on the document: an event kind and its phase.
#[derive(Clone, Copy, Debug, PartialEq, Eq, Structural)]
pub struct Registration {
    pub kind: EventKind,
    pub capture: bool,
}

/// A change to the document's listeners.
#[derive(Clone, Copy, Debug, PartialEq, Eq, Structural)]
pub enum ListenerOp {
    Add(Registration),
    Remove(Registration),
}

/// The registrations of an active trap: capture listeners for each kind, and
/// key-down once more outside the capture phase.
pub open spec fn trap_registrations() -> Seq<Registration> {
    seq![
        Registration { kind: EventKind::FocusIn, capture: true },
        Registration { kind: EventKind::MouseDown, capture: true },
        Registration { kind: EventKind::TouchStart, capture: true },
        Registration { kind: EventKind::Click, capture: true },
        Registration { kind: EventKind::KeyDown, capture: true },
        Registration { kind: EventKind::KeyDown, capture: false },
    ]
}

pub open spec fn set_of(s: Seq<Registration>) -> Set<Registration>
    decreases s.len(),
{
    if s.len() == 0 {
        Set::empty()
    } else {
        set_of(s.drop_last()).insert(s.last())
    }
}

pub open spec fn adds(s: Seq<Registration>) -> Seq<ListenerOp>
    decreases s.len(),
{
    if s.len() == 0 {
        Seq::empty()
    } else {
        adds(s.drop_last()).push(ListenerOp::Add(s.last()))
    }
}

pub open spec fn removes(s: Seq<Registration>) -> Seq<ListenerOp>
    decreases s.len(),
{
    if s.len() == 0 {
        Seq::empty()
    } else {
        removes(s.drop_last()).push(ListenerOp::Remove(s.last()))
    }
}

/// The registrations bound after applying `ops`, in order, to `bound`.
pub open spec fn bound_after(bound: Set<Registration>, ops: Seq<ListenerOp>) -> Set<Registration>
    decreases ops.len(),
{
    if ops.len() == 0 {
        bound
    } else {
        let b = bound_after(bound, ops.drop_last());
        match ops.last() {
            ListenerOp::Add(r) => b.insert(r),
            ListenerOp::Remove(r) => b.remove(r),
        }
    }
}

pub proof fn lemma_bound_after_adds(b: Set<Registration>, s: Seq<Registration>)
    ensures
        bound_after(b, adds(s)) == b.union(set_of(s)),
    decreases s.len(),
{
    if s.len() > 0 {
        lemma_bound_after_adds(b, s.drop_last());
        assert(adds(s).drop_last() == adds(s.drop_last()));
        assert(bound_after(b, adds(s)) =~= b.union(set_of(s)));
    } else {
        assert(b.union(set_of(s)) =~= b);
    }
}

pub proof fn lemma_bound_after_removes(b: Set<Registration>, s: Seq<Registration>)
    ensures
        bound_after(b, removes(s)) == b.difference(set_of(s)),
    decreases s.len(),
{
    if s.len() > 0 {
        lemma_bound_after_removes(b, s.drop_last());
        assert(removes(s).drop_last() == removes(s.drop_last()));
        assert(bound_after(b, removes(s)) =~= b.difference(set_of(s)));
    } else {
        assert(b.difference(set_of(s)) =~= b);
    }
}

/// The listener handles of an active trap, one for each registration.
#[derive(Debug)]
pub struct Listeners {
    registrations: Vec<Registration>,
}

/// What activation asks of the caller.
#[derive(Debug)]
pub struct Activation {
    /// An element to focus on a later turn of the event loop.
    pub initial_focus: Option<usize>,
    /// Listener changes to make, in order.
    pub listener_ops: Vec<ListenerOp>,
}

/// What a handled event asks of the caller.
#[derive(Clone, Copy, Debug, PartialEq, Eq, Structural)]
pub struct Outcome {
    /// Stop the event reaching any other listener.
    pub stop_propagation: bool,
    /// An element to focus on a later turn of the event loop.
    pub refocus: Option<usize>,
}

/// Where the focus goes back to when it escapes: the last focused node, where
/// it is an HTML element.
pub open spec fn refocus_spec(dom: Dom, last_focus: Option<usize>) -> Option<usize> {
    match last_focus {
        Some(l) => if dom.elements@[l as int].html {
            Some(l)
        } else {
            None
        },
        None => None,
    }
}

/// Activation moves focus into the container only where some element has focus
/// and it lies outside the container.
pub open spec fn should_focus_spec(dom: Dom, container: usize) -> bool {
    match dom.active {
        Some(a) => !dom.contains_spec(container as int, a as int),
        None => false,
    }
}

/// The element that activation focuses, if any, given what the candidate
/// selector matched below the container.
pub open spec fn initial_focus_spec(dom: Dom, container: usize, matched: Seq<usize>) -> Option<usize> {
    if should_focus_spec(dom, container) {
        first_of(query_spec(dom, matched, CandidateFilter::Focusable))
    } else {
        None
    }
}

/// A focus trap bound to a container.
#[derive(Debug)]
pub struct FocusTrap {
    listeners: Option<Listeners>,
    last_focus: Option<usize>,
    container: usize,
}

impl FocusTrap {
    pub closed spec fn container_spec(&self) -> usize {
        self.container
    }

    pub closed spec fn last_focus_spec(&self) -> Option<usize> {
        self.last_focus
    }

    pub closed spec fn active_spec(&self) -> bool {
        self.listeners.is_some()
    }

    /// The handles held are the trap registrations.
    pub closed spec fn wf(&self) -> bool {
        self.listeners matches Some(l) ==> l.registrations@ == trap_registrations()
    }

    /// The registrations this trap holds on the document.
    pub open spec fn bound(&self) -> Set<Registration> {
        if self.active_spec() {
            set_of(trap_registrations())
        } else {
            Set::empty()
        }
    }

    /// The listener changes that activation makes.
    pub open spec fn attach_ops_spec(&self) -> Seq<ListenerOp> {
        if self.active_spec() {
            Seq::empty()
        } else {
            adds(trap_registrations())
        }
    }

    /// The listener changes that deactivation makes.
    pub open spec fn detach_ops_spec(&self) -> Seq<ListenerOp> {
        if self.active_spec() {
            removes(trap_registrations())
        } else {
            Seq::empty()
        }
    }

    /// The elements the trap refers to exist in `dom`.
    pub open spec fn valid_in(&self, dom: Dom) -> bool {
        &&& self.container_spec() < dom.elements@.len()
        &&& self.last_focus_spec() matches Some(l) ==> l < dom.elements@.len()
    }

    /// `next` is `prev` with its listeners attached.
    pub open spec fn activated(prev: FocusTrap, next: FocusTrap) -> bool {
        &&& next.wf()
        &&& next.active_spec()
        &&& next.container_spec() == prev.container_spec()
        &&& next.last_focus_spec() == prev.last_focus_spec()
    }

    /// `next` is `prev` with its listeners released.
    pub open spec fn deactivated(prev: FocusTrap, next: FocusTrap) -> bool {
        &&& next.wf()
        &&& !next.active_spec()
        &&& next.container_spec() == prev.container_spec()
        &&& next.last_focus_spec() == prev.last_focus_spec()
    }

    /// Attaches the listeners, unless they are attached already. Returns the
    /// listener changes to make, in order.
    fn add_listeners(&mut self) -> (r: Vec<ListenerOp>)
        requires
            old(self).wf(),
        ensures
            FocusTrap::activated(*old(self), *final(self)),
            r@ == old(self).attach_ops_spec(),
    {
        if self.listeners.is_some() {
            return Vec::new();
        }
        let regs: Vec<Registration> = vec![
            Registration { kind: EventKind::FocusIn, capture: true },
            Registration { kind: EventKind::MouseDown, capture: true },
            Registration { kind: EventKind::TouchStart, capture: true },
            Registration { kind: EventKind::Click, capture: true },
            Registration { kind: EventKind::KeyDown, capture: true },
            Registration { kind: EventKind::KeyDown, capture: false },
        ];
        proof {
            assert(regs@ =~= trap_registrations());
        }
        let mut ops: Vec<ListenerOp> = Vec::new();
        let n = regs.len();
        let mut i: usize = 0;
        while i < n
            invariant
                n == regs@.len(),
                i <= n,
                ops@ == adds(regs@.take(i as int)),
            decreases n - i,
        {
            proof {
                assert(regs@.take(i + 1).drop_last() =~= regs@.take(i as int));
            }
            ops.push(ListenerOp::Add(regs[i]));
            i = i + 1;
        }
        proof {
            assert(regs@.take(n as int) =~= regs@);
        }
        self.listeners = Some(Listeners { registrations: regs });
        ops
    }

    /// Releases the listeners, if any are attached. Each registration held is
    /// removed as it was made. Returns the listener changes to make, in order.
    fn remove_listeners(&mut self) -> (r: Vec<ListenerOp>)
        requires
            old(self).wf(),
        ensures
            FocusTrap::deactivated(*old(self), *final(self)),
            r@ == old(self).detach_ops_spec(),
    {
        let mut ops: Vec<ListenerOp> = Vec::new();
        match self.listeners.take() {
            None => {},
            Some(held) => {
                let n = held.registrations.len();
                let mut i: usize = 0;
                while i < n
                    invariant
                        n == held.registrations@.len(),
                        i <= n,
                        ops@ == removes(held.registrations@.take(i as int)),
                    decreases n - i,
                {
                    proof {
                        assert(held.registrations@.take(i + 1).drop_last()
                            =~= held.registrations@.take(i as int));
                    }
                    ops.push(ListenerOp::Remove(held.registrations[i]));
                    i = i + 1;
                }
                proof {
                    assert(held.registrations@.take(n as int) =~= held.registrations@);
                }
            },
        }
        ops
    }

    /// Activates the trap. `matched` is what the candidate selector matched
    /// below the container, in document order. Where some element outside
    /// the container has focus, the first focus candidate among them is
    /// handed back to be focused on a later turn; then the listeners are
    /// attached, once.
    pub fn activate(&mut self, dom: &Dom, matched: &Vec<usize>) -> (r: Activation)
        requires
            old(self).wf(),
            old(self).valid_in(*dom),
            dom.wf(),
            matched_valid(*dom, matched@),
        ensures
            FocusTrap::activated(*old(self), *final(self)),
            r.initial_focus == initial_focus_spec(*dom, old(self).container_spec(), matched@),
            r.listener_ops@ == old(self).attach_ops_spec(),
            bound_after(old(self).bound(), r.listener_ops@) == final(self).bound(),
    {
        let initial_focus = if self.should_focus_initially(dom) {
            first_candidate(dom, matched, CandidateFilter::Focusable)
        } else {
            None
        };
        let listener_ops = self.add_listeners();
        proof {
            if !old(self).active_spec() {
                lemma_bound_after_adds(Set::empty(), trap_registrations());
                assert(Set::<Registration>::empty().union(set_of(trap_registrations()))
                    =~= set_of(trap_registrations()));
            }
        }
        Activation { initial_focus, listener_ops }
    }

    /// Deactivates the trap: every listener it holds is removed, once.
    pub fn deactivate(&mut self) -> (r: Vec<ListenerOp>)
        requires
            old(self).wf(),
        ensures
            FocusTrap::deactivated(*old(self), *final(self)),
            r@ == old(self).detach_ops_spec(),
            bound_after(old(self).bound(), r@) == Set::<Registration>::empty(),
    {
        let ops = self.remove_listeners();
        proof {
            if old(self).active_spec() {
                lemma_bound_after_removes(set_of(trap_registrations()), trap_registrations());
                assert(set_of(trap_registrations()).difference(set_of(trap_registrations()))
                    =~= Set::<Registration>::empty());
            }
        }
        ops
    }

    /// Whether activation should move focus into the container.
    fn should_focus_initially(&self, dom: &Dom) -> (r: bool)
        requires
            dom.wf(),
        ensures
            r == should_focus_spec(*dom, self.container_spec()),
    {
        match dom.active {
            Some(a) => !dom.contains(self.container, a),
            None => false,
        }
    }

    /// Handles a focus-in event. A target that is not a node is ignored.
    /// Focus that lands inside the container is recorded. Focus that lands on
    /// any other node has escaped: the event is stopped, and the last recorded element,
    /// where it is an HTML element, is handed back to be focused on a later
    /// turn.
    pub fn handle_focus_in(&mut self, dom: &Dom, event: &Event) -> (r: Outcome)
        requires
            old(self).valid_in(*dom),
            dom.wf(),
            event.valid_in(*dom),
        ensures
            final(self).wf() == old(self).wf(),
            final(self).active_spec() == old(self).active_spec(),
            final(self).container_spec() == old(self).container_spec(),
            final(self).valid_in(*dom),
            FocusTrap::focus_in_spec(*old(self), *final(self), *dom, *event, r),
    {
        let inside = match event.actual_target(dom) {
            Some(Target::Element(t)) => if dom.contains(self.container, t) {
                Some(t)
            } else {
                None
            },
            Some(Target::Node) => None,
            _ => {
                return Outcome { stop_propagation: false, refocus: None };
            },
        };
        if let Some(target) = inside {
            self.last_focus = Some(target);
            Outcome { stop_propagation: false, refocus: None }
        } else {
            let refocus = match self.last_focus {
                Some(l) => if dom.elements[l].html {
                    Some(l)
                } else {
                    None
                },
                None => None,
            };
            Outcome { stop_propagation: true, refocus }
        }
    }

    /// Routes an event of `kind` to its handler. Only focus-in has work to
    /// do; the other kinds leave the trap as it is and ask for nothing.
    pub fn handle_event(&mut self, dom: &Dom, kind: EventKind, event: &Event) -> (r: Outcome)
        requires
            old(self).valid_in(*dom),
            dom.wf(),
            event.valid_in(*dom),
        ensures
            kind != EventKind::FocusIn ==> *final(self) == *old(self) && r == (Outcome {
                stop_propagation: false,
                refocus: None,
            }),
            kind == EventKind::FocusIn ==> FocusTrap::focus_in_spec(
                *old(self),
                *final(self),
                *dom,
                *event,
                r,
            ),
    {
        match kind {
            EventKind::FocusIn => self.handle_focus_in(dom, event),
            _ => Outcome { stop_propagation: false, refocus: None },
        }
    }

    /// A focus-in event takes the trap from `prev` to `next` with outcome `r`:
    /// a missing target, or one that is not a node, changes nothing; an
    /// element inside the container is recorded; any other node is an escape.
    pub open spec fn focus_in_spec(prev: FocusTrap, next: FocusTrap, dom: Dom, event: Event, r: Outcome) -> bool {
        &&& next.wf() == prev.wf()
        &&& next.active_spec() == prev.active_spec()
        &&& next.container_spec() == prev.container_spec()
        &&& next.valid_in(dom)
        &&& match event.actual_target_spec(dom) {
            Some(Target::NotNode) | None => {
                &&& next.last_focus_spec() == prev.last_focus_spec()
                &&& r == (Outcome { stop_propagation: false, refocus: None })
            },
            Some(Target::Element(e)) => if dom.contains_spec(prev.container_spec() as int, e as int) {
                &&& next.last_focus_spec() == Some(e)
                &&& r == (Outcome { stop_propagation: false, refocus: None })
            } else {
                FocusTrap::escape_spec(prev, next, dom, r)
            },
            Some(Target::Node) => FocusTrap::escape_spec(prev, next, dom, r),
        }
    }

    /// Focus has escaped: the event is stopped and the last focused element,
    /// where it is an HTML element, is to be focused again; the trap keeps
    /// its state.
    pub open spec fn escape_spec(prev: FocusTrap, next: FocusTrap, dom: Dom, r: Outcome) -> bool {
        &&& next.last_focus_spec() == prev.last_focus_spec()
        &&& r == (Outcome {
            stop_propagation: true,
            refocus: refocus_spec(dom, prev.last_focus_spec()),
        })
    }

    /// Points the trap at the same container and last focused element as
    /// they stand in a newer model of the document. The listeners held are
    /// kept.
    pub fn relocate(&mut self, container: usize, last_focus: Option<usize>)
        requires
            old(self).wf(),
        ensures
            final(self).wf(),
            final(self).active_spec() == old(self).active_spec(),
            final(self).container_spec() == container,
            final(self).last_focus_spec() == last_focus,
    {
        self.container = container;
        self.last_focus = last_focus;
    }

    /// The container this trap confines focus to.
    pub fn container(&self) -> (r: usize)
        ensures
            r == self.container_spec(),
    {
        self.container
    }

    /// The last element focused inside the container.
    pub fn last_focus(&self) -> (r: Option<usize>)
        ensures
            r == self.last_focus_spec(),
    {
        self.last_focus
    }

    /// Whether the trap holds its listeners.
    pub fn is_active(&self) -> (r: bool)
        ensures
            r == self.active_spec(),
    {
        self.listeners.is_some()
    }
}

/// An inactive trap on `container`.
pub fn create_focus_trap(container: usize) -> (r: FocusTrap)
    ensures
        r.wf(),
        !r.active_spec(),
        r.container_spec() == container,
        r.last_focus_spec().is_none(),
{
    FocusTrap { listeners: None, last_focus: None, container }
}

/// Activation focuses nothing where the focused element already lies in the
/// container, and otherwise at most one element: the first focus candidate
/// of the container in document order.
pub proof fn lemma_initial_focus(dom: Dom, container: usize, matched: Seq<usize>)
    requires
        dom.wf(),
    ensures
        dom.active matches Some(a) && dom.contains_spec(container as int, a as int)
            ==> initial_focus_spec(dom, container, matched).is_none(),
        dom.active matches Some(a) && !dom.contains_spec(container as int, a as int)
            ==> initial_focus_spec(dom, container, matched) == first_of(
            query_spec(dom, matched, CandidateFilter::Focusable),
        ),
{
}

/// Activating an active trap attaches nothing more, and leaves what is bound
/// as it was after the first activation.
pub proof fn lemma_activate_twice(t0: FocusTrap, t1: FocusTrap)
    requires
        t0.wf(),
        FocusTrap::activated(t0, t1),
    ensures
        t1.attach_ops_spec().len() == 0,
        bound_after(bound_after(t0.bound(), t0.attach_ops_spec()), t1.attach_ops_spec())
            == t1.bound(),
{
    if !t0.active_spec() {
        lemma_bound_after_adds(Set::empty(), trap_registrations());
        assert(Set::<Registration>::empty().union(set_of(trap_registrations())) =~= set_of(
            trap_registrations(),
        ));
    }
}

/// Deactivating twice removes each registration once: the first call's
/// removals hold no repeat, and the second call removes nothing.
pub proof fn lemma_deactivate_twice(t0: FocusTrap, t1: FocusTrap)
    requires
        t0.wf(),
        FocusTrap::deactivated(t0, t1),
    ensures
        t1.detach_ops_spec().len() == 0,
        forall|i: int, j: int|
            0 <= i < j < t0.detach_ops_spec().len() ==> t0.detach_ops_spec()[i]
                != t0.detach_ops_spec()[j],
{
    reveal_with_fuel(removes, 7);
}

/// After deactivation no listener of this trap, of any kind or phase, is left
/// on the document, whether or not the trap was active; activating and then
/// deactivating an inactive trap leaves nothing bound.
pub proof fn lemma_deactivate_unbinds(t0: FocusTrap, t1: FocusTrap, t2: FocusTrap)
    requires
        t0.wf(),
        !t0.active_spec(),
        FocusTrap::activated(t0, t1),
        FocusTrap::deactivated(t1, t2),
    ensures
        bound_after(bound_after(t0.bound(), t0.attach_ops_spec()), t1.detach_ops_spec())
            == Set::<Registration>::empty(),
        forall|reg: Registration|
            !(#[trigger] bound_after(t1.bound(), t1.detach_ops_spec()).contains(reg)),
        t2.bound() == Set::<Registration>::empty(),
{
    lemma_bound_after_adds(Set::empty(), trap_registrations());
    assert(Set::<Registration>::empty().union(set_of(trap_registrations())) =~= set_of(
        trap_registrations(),
    ));
    lemma_bound_after_removes(set_of(trap_registrations()), trap_registrations());
    assert(set_of(trap_registrations()).difference(set_of(trap_registrations()))
        =~= Set::<Registration>::empty());
}

} // verus!
