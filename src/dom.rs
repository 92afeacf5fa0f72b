//! The document as plain values: elements in document order, each with its
//! attributes and the index of its parent.

use vstd::prelude::*;
use vstd::string::StrSliceExecFns;

verus! {

/// Whether two texts hold the same characters.
pub fn text_eq(a: &str, b: &str) -> (r: bool)
    ensures
        r == (a@ == b@),
{
    let n = a.unicode_len();
    if n != b.unicode_len() {
        return false;
    }
    let mut i: usize = 0;
    while i < n
        invariant
            n == a@.len(),
            n == b@.len(),
            i <= n,
            forall|j: int| 0 <= j < i ==> a@[j] == b@[j],
        decreases n - i,
    {
        if a.get_char(i) != b.get_char(i) {
            return false;
        }
        i = i + 1;
    }
    proof {
        assert(a@ =~= b@);
    }
    true
}

/// One attribute of an element.
#[derive(Debug)]
pub struct Attribute {
    pub name: String,
    pub value: String,
}

/// The value of attribute `name` in `attrs`; where a name occurs more than
/// once, the last occurrence wins.
pub open spec fn attr_of(attrs: Seq<Attribute>, name: Seq<char>) -> Option<Seq<char>>
    decreases attrs.len(),
{
    if attrs.len() == 0 {
        None
    } else if attrs.last().name@ == name {
        Some(attrs.last().value@)
    } else {
        attr_of(attrs.drop_last(), name)
    }
}

/// `attrs` with every attribute named `name` taken out.
pub open spec fn without_attr(attrs: Seq<Attribute>, name: Seq<char>) -> Seq<Attribute>
    decreases attrs.len(),
{
    if attrs.len() == 0 {
        Seq::empty()
    } else if attrs.last().name@ == name {
        without_attr(attrs.drop_last(), name)
    } else {
        without_attr(attrs.drop_last(), name).push(attrs.last())
    }
}

/// One element of the document.
#[derive(Debug)]
pub struct Element {
    /// The local tag name, such as `input`.
    pub tag: String,
    pub attributes: Vec<Attribute>,
    /// Index of the parent element in the document, if any.
    pub parent: Option<usize>,
    /// The element's `tabIndex` as the browser reports it.
    pub tab_index: i32,
    /// Whether the element is an HTML element (not SVG or MathML).
    pub html: bool,
    /// Whether the element hosts a shadow root.
    pub shadow_host: bool,
}

impl Element {
    pub open spec fn attr(&self, name: Seq<char>) -> Option<Seq<char>> {
        attr_of(self.attributes@, name)
    }

    /// A parentless HTML element with the given tag, no attributes and the
    /// given tab index.
    pub fn new(tag: &str, tab_index: i32) -> (r: Element)
        ensures
            r.tag@ == tag@,
            r.attributes@.len() == 0,
            r.parent.is_none(),
            r.tab_index == tab_index,
            r.html,
            !r.shadow_host,
    {
        Element {
            tag: tag.to_owned(),
            attributes: Vec::new(),
            parent: None,
            tab_index,
            html: true,
            shadow_host: false,
        }
    }

    /// The value of attribute `name`, if the element has it.
    pub fn get_attribute(&self, name: &str) -> (r: Option<&String>)
        ensures
            r.is_some() == self.attr(name@).is_some(),
            r.is_some() ==> r.unwrap()@ == self.attr(name@).unwrap(),
    {
        let n = self.attributes.len();
        let mut found: Option<&String> = None;
        let mut i: usize = 0;
        while i < n
            invariant
                n == self.attributes@.len(),
                i <= n,
                found.is_some() == attr_of(self.attributes@.take(i as int), name@).is_some(),
                found.is_some() ==> found.unwrap()@ == attr_of(
                    self.attributes@.take(i as int),
                    name@,
                ).unwrap(),
            decreases n - i,
        {
            let a = &self.attributes[i];
            proof {
                assert(self.attributes@.take(i + 1).drop_last() =~= self.attributes@.take(
                    i as int,
                ));
            }
            if text_eq(a.name.as_str(), name) {
                found = Some(&a.value);
            }
            i = i + 1;
        }
        proof {
            assert(self.attributes@.take(n as int) =~= self.attributes@);
        }
        found
    }

    /// Whether the element has attribute `name`.
    pub fn has_attribute(&self, name: &str) -> (r: bool)
        ensures
            r == self.attr(name@).is_some(),
    {
        self.get_attribute(name).is_some()
    }

    /// Sets attribute `name` to `value`.
    pub fn set_attribute(&mut self, name: &str, value: &str)
        ensures
            final(self).attr(name@) == Some(value@),
            forall|other: Seq<char>|
                other != name@ ==> #[trigger] final(self).attr(other) == old(self).attr(other),
            final(self).tag == old(self).tag,
            final(self).parent == old(self).parent,
            final(self).tab_index == old(self).tab_index,
            final(self).html == old(self).html,
            final(self).shadow_host == old(self).shadow_host,
    {
        let a = Attribute { name: name.to_owned(), value: value.to_owned() };
        self.attributes.push(a);
        proof {
            assert(self.attributes@.drop_last() =~= old(self).attributes@);
        }
    }

    /// Takes attribute `name` away.
    pub fn remove_attribute(&mut self, name: &str)
        ensures
            final(self).attr(name@).is_none(),
            forall|other: Seq<char>|
                other != name@ ==> #[trigger] final(self).attr(other) == old(self).attr(other),
            final(self).tag == old(self).tag,
            final(self).parent == old(self).parent,
            final(self).tab_index == old(self).tab_index,
            final(self).html == old(self).html,
            final(self).shadow_host == old(self).shadow_host,
    {
        let ghost before = self.attributes@;
        let mut kept: Vec<Attribute> = Vec::new();
        let n = self.attributes.len();
        let mut i: usize = 0;
        while i < n
            invariant
                n == before.len(),
                self.attributes@ == before,
                i <= n,
                kept@ == without_attr(before.take(i as int), name@),
            decreases n - i,
        {
            let a = &self.attributes[i];
            proof {
                assert(before.take(i + 1).drop_last() =~= before.take(i as int));
            }
            if !text_eq(a.name.as_str(), name) {
                kept.push(Attribute { name: a.name.clone(), value: a.value.clone() });
            }
            i = i + 1;
        }
        proof {
            assert(before.take(n as int) =~= before);
            lemma_without_attr(before, name@);
        }
        self.attributes = kept;
    }
}

/// Taking out every attribute named `name` leaves `name` unset and every other
/// attribute as it was.
pub proof fn lemma_without_attr(attrs: Seq<Attribute>, name: Seq<char>)
    ensures
        attr_of(without_attr(attrs, name), name).is_none(),
        forall|other: Seq<char>|
            other != name ==> #[trigger] attr_of(without_attr(attrs, name), other) == attr_of(
                attrs,
                other,
            ),
    decreases attrs.len(),
{
    if attrs.len() > 0 {
        lemma_without_attr(attrs.drop_last(), name);
        let w = without_attr(attrs.drop_last(), name);
        assert(w.push(attrs.last()).drop_last() =~= w);
        assert forall|other: Seq<char>| other != name implies #[trigger] attr_of(
            without_attr(attrs, name),
            other,
        ) == attr_of(attrs, other) by {
            assert(attr_of(w, other) == attr_of(attrs.drop_last(), other));
            if attrs.last().name@ != name {
                assert(without_attr(attrs, name) == w.push(attrs.last()));
            } else {
                assert(without_attr(attrs, name) == w);
            }
        }
    }
}

/// The document: its elements in document order, and the element that has
/// focus, if any.
#[derive(Debug)]
pub struct Dom {
    pub elements: Vec<Element>,
    pub active: Option<usize>,
}

impl Dom {
    /// Parents precede their children, as document order has it, and the
    /// focused element exists.
    pub open spec fn wf(&self) -> bool {
        &&& forall|i: int|
            0 <= i < self.elements@.len() ==> match #[trigger] self.elements@[i].parent {
                Some(p) => p < i,
                None => true,
            }
        &&& self.active matches Some(a) ==> a < self.elements@.len()
    }

    pub open spec fn parent_of(&self, i: int) -> Option<usize> {
        self.elements@[i].parent
    }

    /// Whether `node` is `ancestor` or lies below it.
    pub open spec fn contains_spec(&self, ancestor: int, node: int) -> bool
        decreases node,
    {
        if node == ancestor {
            true
        } else if node < 0 || node >= self.elements@.len() {
            false
        } else {
            match self.parent_of(node) {
                Some(p) => if p < node {
                    self.contains_spec(ancestor, p as int)
                } else {
                    false
                },
                None => false,
            }
        }
    }

    /// Whether `node` is `ancestor` or lies below it.
    pub fn contains(&self, ancestor: usize, node: usize) -> (r: bool)
        requires
            self.wf(),
            node < self.elements@.len(),
        ensures
            r == self.contains_spec(ancestor as int, node as int),
    {
        let mut cur = node;
        while cur != ancestor
            invariant
                self.wf(),
                cur < self.elements@.len(),
                self.contains_spec(ancestor as int, node as int) == self.contains_spec(
                    ancestor as int,
                    cur as int,
                ),
            decreases cur,
        {
            match self.elements[cur].parent {
                Some(p) => {
                    cur = p;
                },
                None => {
                    return false;
                },
            }
        }
        true
    }
}

} // verus!
