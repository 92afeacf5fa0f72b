use focus_trap::dom::{text_eq, Dom, Element};
use focus_trap::events::{Event, Target};
use focus_trap::id::parse_uid;
use focus_trap::filter::{
    has_inert_ancestor, is_disabled, is_focusable, is_hidden_input, is_inert, is_tabbable,
};
use focus_trap::query::{
    candidates, first_candidate, focus_candidates, tab_candidates, CandidateFilter,
    CANDIDATE_SELECTOR,
};
use focus_trap::trap::{create_focus_trap, EventKind, ListenerOp, Outcome, Registration};

fn el(tag: &str, parent: Option<usize>, tab_index: i32) -> Element {
    let mut e = Element::new(tag, tab_index);
    e.parent = parent;
    e
}

fn dom(elements: Vec<Element>, active: Option<usize>) -> Dom {
    Dom { elements, active }
}

fn focus_event(target: usize) -> Event {
    Event { target: Some(Target::Element(target)), composed_path: vec![Target::Element(target)] }
}

/// Applies listener changes to a set of bound registrations, as the document does.
fn apply(bound: &mut Vec<Registration>, ops: &[ListenerOp]) {
    for op in ops {
        match op {
            ListenerOp::Add(r) => {
                if !bound.contains(r) {
                    bound.push(*r);
                }
            }
            ListenerOp::Remove(r) => bound.retain(|b| b != r),
        }
    }
}

/// body(0) > outside button(1), container div(2) > A(3), B(4), C(5)
fn three_buttons(active: Option<usize>) -> Dom {
    dom(
        vec![
            el("body", None, -1),
            el("button", Some(0), 0),
            el("div", Some(0), -1),
            el("button", Some(2), 0),
            el("button", Some(2), 0),
            el("button", Some(2), 0),
        ],
        active,
    )
}

#[test]
fn text_eq_compares_characters() {
    assert!(text_eq("true", "true"));
    assert!(!text_eq("true", "True"));
    assert!(!text_eq("true", "tru"));
    assert!(text_eq("", ""));
}

#[test]
fn attributes_last_set_wins_and_removal() {
    let mut e = el("input", None, 0);
    assert!(e.get_attribute("type").is_none());
    e.set_attribute("type", "text");
    e.set_attribute("type", "hidden");
    e.set_attribute("name", "q");
    assert_eq!(e.get_attribute("type").map(|s| s.as_str()), Some("hidden"));
    e.remove_attribute("type");
    assert!(!e.has_attribute("type"));
    assert_eq!(e.get_attribute("name").map(|s| s.as_str()), Some("q"));
}

#[test]
fn inert_element_is_not_focusable_until_attribute_removed() {
    let mut d = dom(vec![el("div", None, -1), el("button", Some(0), 0)], None);
    d.elements[1].set_attribute("inert", "true");
    assert!(is_inert(&d.elements[1]));
    assert!(!is_focusable(&d, 1));
    d.elements[1].remove_attribute("inert");
    assert!(!is_inert(&d.elements[1]));
    assert!(is_focusable(&d, 1));
}

#[test]
fn inert_other_values_do_not_count() {
    let mut e = el("button", None, 0);
    e.set_attribute("inert", "");
    assert!(!is_inert(&e));
    e.set_attribute("inert", "false");
    assert!(!is_inert(&e));
}

#[test]
fn disabled_only_when_exactly_true() {
    let mut d = dom(vec![el("button", None, 0)], None);
    d.elements[0].set_attribute("disabled", "true");
    assert!(is_disabled(&d.elements[0]));
    assert!(!is_focusable(&d, 0));
    for v in ["false", "", "disabled", "TRUE"] {
        d.elements[0].set_attribute("disabled", v);
        assert!(!is_disabled(&d.elements[0]));
        assert!(is_focusable(&d, 0));
    }
}

#[test]
fn hidden_input_only_for_input_of_type_hidden() {
    let mut e = el("input", None, 0);
    assert!(!is_hidden_input(&e));
    e.set_attribute("type", "hidden");
    assert!(is_hidden_input(&e));
    e.set_attribute("type", "text");
    assert!(!is_hidden_input(&e));
    let mut d = el("div", None, 0);
    d.set_attribute("type", "hidden");
    assert!(!is_hidden_input(&d));
}

// Each ancestor is tested itself; an element under an inert ancestor is
// therefore not focusable. This departs on purpose from a walk that would
// test the element itself at every step.
#[test]
fn inert_ancestor_excludes_descendants() {
    let mut d = dom(
        vec![el("body", None, -1), el("div", Some(0), -1), el("section", Some(1), -1), el("button", Some(2), 0)],
        None,
    );
    assert!(!has_inert_ancestor(&d, 3));
    d.elements[1].set_attribute("inert", "true");
    assert!(has_inert_ancestor(&d, 3));
    assert!(!has_inert_ancestor(&d, 1));
    assert!(!is_focusable(&d, 3));
    assert!(is_focusable(&d, 0));
}

#[test]
fn tabbable_needs_non_negative_tab_index() {
    let d = dom(vec![el("button", None, 0), el("div", None, -1), el("span", None, 3)], None);
    assert!(is_tabbable(&d, 0));
    assert!(!is_tabbable(&d, 1));
    assert!(is_focusable(&d, 1));
    assert!(is_tabbable(&d, 2));
}

#[test]
fn candidates_keep_html_elements_in_match_order() {
    let mut d = three_buttons(None);
    d.elements.push(el("button", Some(2), 0)); // 6
    d.elements[6].html = false;
    assert_eq!(focus_candidates(&d, &vec![3, 4, 5, 6]), vec![3, 4, 5]);
    assert_eq!(focus_candidates(&d, &vec![]), Vec::<usize>::new());
    assert_eq!(focus_candidates(&d, &vec![1, 3, 4, 5]), vec![1, 3, 4, 5]);
    assert!(!CANDIDATE_SELECTOR.is_empty());
}

#[test]
fn first_candidate_is_first_in_document_order() {
    let d = three_buttons(None);
    let matched = vec![3, 4, 5];
    assert_eq!(first_candidate(&d, &matched, CandidateFilter::Focusable), Some(3));
    assert_eq!(first_candidate(&d, &matched, CandidateFilter::Tabbable), Some(3));
}

#[test]
fn first_candidate_skips_filtered_and_none_when_empty() {
    let mut d = three_buttons(None);
    let matched = vec![3, 4, 5];
    d.elements[3].set_attribute("disabled", "true");
    d.elements[4].tab_index = -1;
    assert_eq!(first_candidate(&d, &matched, CandidateFilter::Focusable), Some(4));
    assert_eq!(first_candidate(&d, &matched, CandidateFilter::Tabbable), Some(5));
    assert_eq!(first_candidate(&d, &vec![], CandidateFilter::Focusable), None);
}

#[test]
fn tab_candidates_within_focus_candidates() {
    let mut d = three_buttons(None);
    d.elements[4].tab_index = -1;
    d.elements[5].set_attribute("type", "hidden");
    let matched = vec![1, 3, 4, 5];
    let tab = tab_candidates(&d, &matched);
    let focus = focus_candidates(&d, &matched);
    assert_eq!(tab, vec![1, 3, 5]);
    assert_eq!(focus, vec![1, 3, 4, 5]);
    assert!(tab.iter().all(|t| focus.contains(t)));
    assert_eq!(candidates(&d, &matched, CandidateFilter::Tabbable), tab);
}

#[test]
fn actual_target_looks_through_shadow_hosts() {
    let mut d = three_buttons(None);
    let plain = Event { target: Some(Target::Element(4)), composed_path: vec![Target::Element(3)] };
    assert_eq!(plain.actual_target(&d), Some(Target::Element(4)));
    d.elements[4].shadow_host = true;
    assert_eq!(plain.actual_target(&d), Some(Target::Element(3)));
    let empty_path = Event { target: Some(Target::Element(4)), composed_path: vec![] };
    assert_eq!(empty_path.actual_target(&d), Some(Target::Element(4)));
    let window = Event { target: Some(Target::NotNode), composed_path: vec![] };
    assert_eq!(window.actual_target(&d), Some(Target::NotNode));
    let document = Event { target: Some(Target::Node), composed_path: vec![Target::Element(3)] };
    assert_eq!(document.actual_target(&d), Some(Target::Node));
    let none = Event { target: None, composed_path: vec![] };
    assert_eq!(none.actual_target(&d), None);
}

#[test]
fn activate_inside_container_focuses_nothing() {
    let d = three_buttons(Some(4));
    let mut trap = create_focus_trap(2);
    let act = trap.activate(&d, &vec![3, 4, 5]);
    assert_eq!(act.initial_focus, None);
    assert!(trap.is_active());
}

#[test]
fn activate_outside_container_focuses_first_candidate() {
    let d = three_buttons(Some(1));
    let mut trap = create_focus_trap(2);
    let act = trap.activate(&d, &vec![3, 4, 5]);
    assert_eq!(act.initial_focus, Some(3));
    let d_none = three_buttons(None);
    let mut other = create_focus_trap(2);
    assert_eq!(other.activate(&d_none, &vec![3, 4, 5]).initial_focus, None);
}

#[test]
fn focus_escape_returns_to_last_focus() {
    let d = three_buttons(Some(4));
    let mut trap = create_focus_trap(2);
    trap.activate(&d, &vec![3, 4, 5]);
    let inside = trap.handle_focus_in(&d, &focus_event(4));
    assert_eq!(inside, Outcome { stop_propagation: false, refocus: None });
    assert_eq!(trap.last_focus(), Some(4));
    let escape = trap.handle_focus_in(&d, &focus_event(1));
    assert_eq!(escape, Outcome { stop_propagation: true, refocus: Some(4) });
    assert_eq!(trap.last_focus(), Some(4));
}

#[test]
fn focus_escape_without_last_focus_only_stops() {
    let d = three_buttons(Some(1));
    let mut trap = create_focus_trap(2);
    let escape = trap.handle_event(&d, EventKind::FocusIn, &focus_event(1));
    assert_eq!(escape, Outcome { stop_propagation: true, refocus: None });
    let other = Event { target: Some(Target::NotNode), composed_path: vec![] };
    assert_eq!(trap.handle_focus_in(&d, &other), Outcome { stop_propagation: false, refocus: None });
    assert_eq!(trap.last_focus(), None);
}

#[test]
fn other_kinds_change_nothing() {
    let d = three_buttons(Some(1));
    let mut trap = create_focus_trap(2);
    for kind in [EventKind::MouseDown, EventKind::TouchStart, EventKind::Click, EventKind::KeyDown] {
        let r = trap.handle_event(&d, kind, &focus_event(4));
        assert_eq!(r, Outcome { stop_propagation: false, refocus: None });
        assert_eq!(trap.last_focus(), None);
    }
    assert_eq!(trap.container(), 2);
}

#[test]
fn activate_twice_attaches_once() {
    let d = three_buttons(None);
    let mut trap = create_focus_trap(2);
    let mut bound = Vec::new();
    let first = trap.activate(&d, &vec![3, 4, 5]);
    assert_eq!(first.listener_ops.len(), 6);
    assert!(first.listener_ops.contains(&ListenerOp::Add(Registration { kind: EventKind::KeyDown, capture: false })));
    apply(&mut bound, &first.listener_ops);
    let second = trap.activate(&d, &vec![3, 4, 5]);
    assert!(second.listener_ops.is_empty());
    apply(&mut bound, &second.listener_ops);
    assert_eq!(bound.len(), 6);
}

#[test]
fn deactivate_twice_removes_once() {
    let d = three_buttons(None);
    let mut trap = create_focus_trap(2);
    trap.activate(&d, &vec![3, 4, 5]);
    let first = trap.deactivate();
    assert_eq!(first.len(), 6);
    assert!(!trap.is_active());
    assert!(trap.deactivate().is_empty());
}

#[test]
fn deactivate_leaves_no_listener_bound() {
    let d = three_buttons(None);
    let mut trap = create_focus_trap(2);
    let mut bound = Vec::new();
    apply(&mut bound, &trap.activate(&d, &vec![3, 4, 5]).listener_ops);
    for kind in [EventKind::FocusIn, EventKind::MouseDown, EventKind::TouchStart, EventKind::Click, EventKind::KeyDown] {
        assert!(bound.iter().any(|r| r.kind == kind && r.capture));
    }
    apply(&mut bound, &trap.deactivate());
    assert!(bound.is_empty());
}

#[test]
fn parse_uid_reads_decimal_u64() {
    assert_eq!(parse_uid("42"), Some(42));
    assert_eq!(parse_uid("+7"), Some(7));
    assert_eq!(parse_uid("18446744073709551615"), Some(u64::MAX));
    assert_eq!(parse_uid("18446744073709551616"), None);
    assert_eq!(parse_uid(""), None);
    assert_eq!(parse_uid("+"), None);
    assert_eq!(parse_uid("-1"), None);
    assert_eq!(parse_uid("12a"), None);
    assert_eq!(parse_uid("007"), Some(7));
}

#[test]
fn relocate_keeps_listeners_and_moves_references() {
    let d = three_buttons(Some(1));
    let mut trap = create_focus_trap(2);
    trap.activate(&d, &vec![3, 4, 5]);
    trap.relocate(0, Some(5));
    assert!(trap.is_active());
    assert_eq!(trap.container(), 0);
    assert_eq!(trap.last_focus(), Some(5));
    assert!(trap.activate(&d, &vec![3, 4, 5]).listener_ops.is_empty());
}

#[test]
fn focus_on_node_outside_model_is_an_escape() {
    let mut d = three_buttons(Some(4));
    let mut trap = create_focus_trap(2);
    trap.handle_focus_in(&d, &focus_event(4));
    let node = Event { target: Some(Target::Node), composed_path: vec![] };
    assert_eq!(trap.handle_focus_in(&d, &node), Outcome { stop_propagation: true, refocus: Some(4) });
    assert_eq!(trap.last_focus(), Some(4));
    // focus moving into another component's shadow tree: the host is the
    // nominal target, the inner element is a node of the shadow tree
    d.elements[1].shadow_host = true;
    let into_shadow = Event { target: Some(Target::Element(1)), composed_path: vec![Target::Node, Target::Element(1)] };
    assert_eq!(trap.handle_focus_in(&d, &into_shadow), Outcome { stop_propagation: true, refocus: Some(4) });
    let mut fresh = create_focus_trap(2);
    assert_eq!(fresh.handle_focus_in(&d, &node), Outcome { stop_propagation: true, refocus: None });
}
