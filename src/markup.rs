use vstd::prelude::*;
use vstd::string::*;

verus! {

/// An element: tag name, attributes in order, and indices of its children in order.
pub struct Element {
    pub name: String,
    pub attributes: Vec<(String, String)>,
    pub children: Vec<usize>,
}

pub enum XmlNode {
    Element(Element),
    Text(String),
}

/// A markup tree held as an arena; node 0 is the root element.
pub struct Markup {
    pub nodes: Vec<XmlNode>,
}

/// The value of the first attribute named `key`.
pub open spec fn attribute_in(attrs: Seq<(String, String)>, key: Seq<char>) -> Option<Seq<char>>
    decreases attrs.len(),
{
    if attrs.len() == 0 {
        None
    } else if attrs[0].0@ == key {
        Some(attrs[0].1@)
    } else {
        attribute_in(attrs.drop_first(), key)
    }
}

impl Markup {
    pub open spec fn len(self) -> int {
        self.nodes@.len() as int
    }

    pub open spec fn is_element(self, i: int) -> bool {
        0 <= i < self.len() && self.nodes@[i] is Element
    }

    pub open spec fn children(self, i: int) -> Seq<usize> {
        if self.is_element(i) {
            self.nodes@[i]->Element_0.children@
        } else {
            Seq::empty()
        }
    }

    pub open spec fn is_named(self, i: int, name: Seq<char>) -> bool {
        self.is_element(i) && self.nodes@[i]->Element_0.name@ == name
    }

    /// Every child comes after its parent and lies inside the arena; the root is an element.
    pub open spec fn wf(self) -> bool {
        &&& self.is_element(0)
        &&& forall|i: int, k: int|
            0 <= i < self.len() && 0 <= k < self.children(i).len() ==> i < #[trigger] self.children(
                i,
            )[k] < self.len()
    }

    /// Elements named `name` among the descendants of node `i` reached through its
    /// children from the `k`-th on, in document order.
    pub open spec fn select_from(self, i: int, k: int, name: Seq<char>) -> Seq<usize>
        decreases self.len() - i, self.children(i).len() - k,
    {
        if i < 0 || i >= self.len() || k < 0 || k >= self.children(i).len() {
            Seq::empty()
        } else {
            let c = self.children(i)[k];
            let here = if self.is_named(c as int, name) { seq![c] } else { Seq::empty() };
            let below = if i < c && c < self.len() { self.select_from(c as int, 0, name) } else { Seq::empty() };
            here + below + self.select_from(i, k + 1, name)
        }
    }

    /// Descendant elements of node `i` named `name`, in document order.
    pub open spec fn select_all(self, i: int, name: Seq<char>) -> Seq<usize> {
        self.select_from(i, 0, name)
    }

    /// The value of attribute `key` of node `i`.
    pub open spec fn attribute(self, i: int, key: Seq<char>) -> Option<Seq<char>> {
        if self.is_element(i) {
            attribute_in(self.nodes@[i]->Element_0.attributes@, key)
        } else {
            None
        }
    }

    /// The text of node `i`'s first child, when that child is a text node.
    pub open spec fn first_text(self, i: int) -> Option<Seq<char>> {
        let ch = self.children(i);
        if ch.len() > 0 && 0 <= ch[0] < self.len() && self.nodes@[ch[0] as int] is Text {
            Some(self.nodes@[ch[0] as int]->Text_0@)
        } else {
            None
        }
    }

    /// Whether every node but `skip` is as in `old`.
    pub open spec fn keeps_others(self, old: Markup, skip: int) -> bool {
        forall|j: int| 0 <= j < old.len() && j != skip ==> #[trigger] self.nodes@[j] == old.nodes@[j]
    }

    /// A tree that holds one root element named `root`.
    pub fn new(root: &str) -> (r: Markup)
        ensures
            r.wf(),
            r.len() == 1,
            r.is_named(0, root@),
            r.children(0).len() == 0,
            r.nodes@[0]->Element_0.attributes@.len() == 0,
    {
        let mut nodes: Vec<XmlNode> = Vec::new();
        nodes.push(
            XmlNode::Element(
                Element { name: root.to_owned(), attributes: Vec::new(), children: Vec::new() },
            ),
        );
        Markup { nodes }
    }

    /// Takes node `i` out, leaving an empty text node in its place.
    fn take_node(&mut self, i: usize) -> (r: XmlNode)
        requires
            i < old(self).len(),
        ensures
            r == old(self).nodes@[i as int],
            final(self).len() == old(self).len(),
            final(self).keeps_others(*old(self), i as int),
    {
        let mut r = XmlNode::Text(String::new());
        self.nodes.set_and_swap(i, &mut r);
        r
    }

    /// Appends `node` as the last child of element `parent`; returns its index.
    fn add_child(&mut self, parent: usize, node: XmlNode) -> (r: usize)
        requires
            old(self).wf(),
            old(self).is_element(parent as int),
            old(self).len() < usize::MAX,
            node is Element ==> node->Element_0.children@.len() == 0,
        ensures
            final(self).wf(),
            r == old(self).len(),
            final(self).len() == old(self).len() + 1,
            final(self).nodes@[r as int] == node,
            final(self).children(parent as int) == old(self).children(parent as int).push(r),
            final(self).nodes@[parent as int]->Element_0.name == old(self).nodes@[parent as int]->Element_0.name,
            final(self).nodes@[parent as int]->Element_0.attributes == old(self).nodes@[parent as int]->Element_0.attributes,
            final(self).is_element(parent as int),
            final(self).keeps_others(*old(self), parent as int),
    {
        let r = self.nodes.len();
        self.nodes.push(node);
        let taken = self.take_node(parent);
        let mut e = match taken {
            XmlNode::Element(e) => e,
            XmlNode::Text(t) => {
                assert(false);
                return r;
            },
        };
        e.children.push(r);
        self.nodes.set(parent, XmlNode::Element(e));
        assert forall|i: int, k: int|
            0 <= i < self.len() && 0 <= k < self.children(i).len() implies i
            < #[trigger] self.children(i)[k] < self.len() by {
            if i == parent as int {
                if k < old(self).children(i).len() {
                    assert(self.children(i)[k] == old(self).children(i)[k]);
                }
            } else if i != r {
                assert(self.children(i) == old(self).children(i));
                assert(old(self).children(i)[k] < old(self).len());
            }
        }
        r
    }

    /// Appends an element named `name` with no attributes under element `parent`.
    pub fn add_element(&mut self, parent: usize, name: &str) -> (r: usize)
        requires
            old(self).wf(),
            old(self).is_element(parent as int),
            old(self).len() < usize::MAX,
        ensures
            final(self).wf(),
            r == old(self).len(),
            final(self).len() == old(self).len() + 1,
            final(self).is_named(r as int, name@),
            final(self).children(r as int).len() == 0,
            final(self).nodes@[r as int]->Element_0.attributes@.len() == 0,
            final(self).children(parent as int) == old(self).children(parent as int).push(r),
            final(self).is_element(parent as int),
            final(self).nodes@[parent as int]->Element_0.name == old(self).nodes@[parent as int]->Element_0.name,
            final(self).nodes@[parent as int]->Element_0.attributes == old(self).nodes@[parent as int]->Element_0.attributes,
            final(self).keeps_others(*old(self), parent as int),
    {
        self.add_child(
            parent,
            XmlNode::Element(
                Element { name: name.to_owned(), attributes: Vec::new(), children: Vec::new() },
            ),
        )
    }

    /// Appends a text node holding `text` under element `parent`.
    pub fn add_text(&mut self, parent: usize, text: &str) -> (r: usize)
        requires
            old(self).wf(),
            old(self).is_element(parent as int),
            old(self).len() < usize::MAX,
        ensures
            final(self).wf(),
            r == old(self).len(),
            final(self).len() == old(self).len() + 1,
            final(self).nodes@[r as int] is Text,
            final(self).nodes@[r as int]->Text_0@ == text@,
            final(self).children(parent as int) == old(self).children(parent as int).push(r),
            final(self).is_element(parent as int),
            final(self).nodes@[parent as int]->Element_0.name == old(self).nodes@[parent as int]->Element_0.name,
            final(self).nodes@[parent as int]->Element_0.attributes == old(self).nodes@[parent as int]->Element_0.attributes,
            final(self).keeps_others(*old(self), parent as int),
    {
        self.add_child(parent, XmlNode::Text(text.to_owned()))
    }

    /// Appends attribute `key="value"` to element `node`.
    pub fn add_attribute(&mut self, node: usize, key: &str, value: &str)
        requires
            old(self).wf(),
            old(self).is_element(node as int),
        ensures
            final(self).wf(),
            final(self).len() == old(self).len(),
            final(self).is_element(node as int),
            final(self).nodes@[node as int]->Element_0.name == old(self).nodes@[node as int]->Element_0.name,
            final(self).children(node as int) == old(self).children(node as int),
            final(self).nodes@[node as int]->Element_0.attributes@.len() == old(self).nodes@[node as int]->Element_0.attributes@.len() + 1,
            final(self).nodes@[node as int]->Element_0.attributes@.last().0@ == key@,
            final(self).nodes@[node as int]->Element_0.attributes@.last().1@ == value@,
            final(self).nodes@[node as int]->Element_0.attributes@.drop_last() == old(self).nodes@[node as int]->Element_0.attributes@,
            final(self).keeps_others(*old(self), node as int),
    {
        let taken = self.take_node(node);
        let mut e = match taken {
            XmlNode::Element(e) => e,
            XmlNode::Text(t) => {
                assert(false);
                return;
            },
        };
        e.attributes.push((key.to_owned(), value.to_owned()));
        self.nodes.set(node, XmlNode::Element(e));
        assert forall|i: int, k: int|
            0 <= i < self.len() && 0 <= k < self.children(i).len() implies i
            < #[trigger] self.children(i)[k] < self.len() by {
            assert(self.children(i) == old(self).children(i));
            assert(old(self).children(i)[k] < old(self).len());
        }
    }

    fn collect(&self, i: usize, k: usize, name: &str, out: &mut Vec<usize>)
        requires
            self.wf(),
            i < self.len(),
            k <= self.children(i as int).len(),
        ensures
            final(out)@ == old(out)@ + self.select_from(i as int, k as int, name@),
        decreases self.len() - i, self.children(i as int).len() - k,
    {
        let ch = match &self.nodes[i] {
            XmlNode::Element(e) => &e.children,
            XmlNode::Text(_) => {
                assert(out@ =~= old(out)@ + self.select_from(i as int, k as int, name@));
                return;
            },
        };
        if k >= ch.len() {
            assert(out@ =~= old(out)@ + self.select_from(i as int, k as int, name@));
            return;
        }
        let c = ch[k];
        assert(i < c < self.len());
        let ghost before = out@;
        let named = match &self.nodes[c] {
            XmlNode::Element(e) => same_text(e.name.as_str(), name),
            XmlNode::Text(_) => false,
        };
        if named {
            out.push(c);
        }
        self.collect(c, 0, name, out);
        self.collect(i, k + 1, name, out);
        assert(out@ =~= before + self.select_from(i as int, k as int, name@));
    }

    /// Descendant elements of node `i` named `name`, in document order.
    pub fn query_selector_all(&self, i: usize, name: &str) -> (r: Vec<usize>)
        requires
            self.wf(),
            i < self.len(),
        ensures
            r@ == self.select_all(i as int, name@),
    {
        let mut out: Vec<usize> = Vec::new();
        self.collect(i, 0, name, &mut out);
        assert(out@ =~= self.select_all(i as int, name@));
        out
    }

    /// The value of attribute `key` of node `i`.
    pub fn attribute_of(&self, i: usize, key: &str) -> (r: Option<String>)
        requires
            i < self.len(),
        ensures
            r is Some ==> self.attribute(i as int, key@) == Some(r->Some_0@),
            r is None ==> self.attribute(i as int, key@) is None,
    {
        match &self.nodes[i] {
            XmlNode::Element(e) => {
                let attrs = &e.attributes;
                assert(self.attribute(i as int, key@) == attribute_in(attrs@, key@));
                let mut j: usize = 0;
                assert(attrs@.subrange(0, attrs@.len() as int) =~= attrs@);
                while j < attrs.len()
                    invariant
                        j <= attrs@.len(),
                        self.attribute(i as int, key@) == attribute_in(attrs@, key@),
                        attribute_in(attrs@, key@) == attribute_in(
                            attrs@.subrange(j as int, attrs@.len() as int),
                            key@,
                        ),
                    decreases attrs@.len() - j,
                {
                    let ghost rest = attrs@.subrange(j as int, attrs@.len() as int);
                    assert(rest.drop_first() =~= attrs@.subrange(j + 1, attrs@.len() as int));
                    assert(rest[0] == attrs@[j as int]);
                    if same_text(attrs[j].0.as_str(), key) {
                        let v = attrs[j].1.clone();
                        assert(v@ == attrs@[j as int].1@);
                        assert(attribute_in(rest, key@) == Some(v@));
                        return Some(v);
                    }
                    j = j + 1;
                }
                None
            },
            XmlNode::Text(_) => None,
        }
    }

    /// The text of node `i`'s first child, when that child is a text node.
    pub fn first_text_of(&self, i: usize) -> (r: Option<String>)
        requires
            i < self.len(),
        ensures
            r is Some ==> self.first_text(i as int) == Some(r->Some_0@),
            r is None ==> self.first_text(i as int) is None,
    {
        match &self.nodes[i] {
            XmlNode::Element(e) => {
                if e.children.len() == 0 {
                    return None;
                }
                let c = e.children[0];
                if c >= self.nodes.len() {
                    return None;
                }
                match &self.nodes[c] {
                    XmlNode::Text(t) => Some(t.clone()),
                    XmlNode::Element(_) => None,
                }
            },
            XmlNode::Text(_) => None,
        }
    }
}

/// Whether `a` and `b` hold the same characters.
pub fn same_text(a: &str, b: &str) -> (r: bool)
    ensures
        r == (a@ == b@),
{
    let n = a.unicode_len();
    if n != b.unicode_len() {
        return false;
    }
    let mut i: usize = 0;
    while i < n
        invariant
            n == a@.len(),
            n == b@.len(),
            i <= n,
            a@.subrange(0, i as int) == b@.subrange(0, i as int),
        decreases n - i,
    {
        if a.get_char(i) != b.get_char(i) {
            return false;
        }
        assert(a@.subrange(0, i + 1) =~= a@.subrange(0, i as int).push(a@[i as int]));
        assert(b@.subrange(0, i + 1) =~= b@.subrange(0, i as int).push(b@[i as int]));
        i = i + 1;
    }
    assert(a@ =~= a@.subrange(0, n as int));
    assert(b@ =~= b@.subrange(0, n as int));
    true
}

} // verus!
