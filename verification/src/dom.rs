//! The document tree: elements with attributes, and runs of text.

use vstd::prelude::*;
use vstd::string::StringExecFns;

verus! {

/// The attributes of an element, in the order in which they were first given.
/// No name occurs twice.
#[derive(Debug)]
pub struct AttributeMap {
    pub names: Vec<String>,
    pub values: Vec<String>,
}

impl AttributeMap {
    /// Whether each name has its value and no name occurs twice.
    pub open spec fn well_formed(&self) -> bool {
        &&& self.names@.len() == self.values@.len()
        &&& forall|i: int, j: int|
            #![trigger self.names@[i], self.names@[j]]
            0 <= i < j < self.names@.len() ==> self.names@[i]@ != self.names@[j]@
    }

    /// Where `name` stands among the names, if it does.
    pub open spec fn position(&self, name: Seq<char>) -> Option<int> {
        if exists|i: int| 0 <= i < self.names@.len() && self.names@[i]@ == name {
            Some(choose|i: int| 0 <= i < self.names@.len() && self.names@[i]@ == name)
        } else {
            None
        }
    }

    /// The attributes as a map from names to values.
    pub open spec fn entries(&self) -> Map<Seq<char>, Seq<char>> {
        Map::new(
            |name: Seq<char>| self.position(name).is_some(),
            |name: Seq<char>| self.values@[self.position(name).unwrap()]@,
        )
    }

    /// No attributes.
    pub fn new() -> (m: AttributeMap)
        ensures
            m.well_formed(),
            m.entries() == Map::<Seq<char>, Seq<char>>::empty(),
    {
        let m = AttributeMap { names: Vec::new(), values: Vec::new() };
        assert(m.entries() =~= Map::<Seq<char>, Seq<char>>::empty());
        m
    }

    fn find(&self, name: &String) -> (at: Option<usize>)
        requires
            self.well_formed(),
        ensures
            match at {
                Some(i) => i < self.names@.len() && self.position(name@) == Some(i as int),
                None => self.position(name@).is_none(),
            },
    {
        let mut i: usize = 0;
        while i < self.names.len()
            invariant
                self.well_formed(),
                i <= self.names@.len(),
                forall|k: int| 0 <= k < i ==> self.names@[k]@ != name@,
            decreases self.names@.len() - i,
        {
            if self.names[i] == *name {
                proof {
                    let j = choose|j: int| 0 <= j < self.names@.len() && self.names@[j]@ == name@;
                    assert(self.names@[i as int]@ == name@);
                    if j < i {
                        assert(self.names@[j]@ != self.names@[i as int]@);
                    } else if i < j {
                        assert(self.names@[i as int]@ != self.names@[j]@);
                    }
                }
                return Some(i);
            }
            i += 1;
        }
        None
    }

    /// Gives `name` the value `value`, in place of the value it had, if any.
    pub fn insert(&mut self, name: String, value: String)
        requires
            old(self).well_formed(),
        ensures
            final(self).well_formed(),
            final(self).entries() == old(self).entries().insert(name@, value@),
    {
        let ghost before = *self;
        match self.find(&name) {
            Some(i) => {
                self.values[i] = value;
                proof {
                    assert forall|n: Seq<char>| self.position(n) == before.position(n) by {}
                    assert(self.entries() =~= before.entries().insert(name@, value@));
                }
            },
            None => {
                self.names.push(name);
                self.values.push(value);
                proof {
                    let last = before.names@.len() as int;
                    assert forall|n: Seq<char>| n != name@ implies self.position(n)
                        == before.position(n) by {
                        if before.position(n).is_some() {
                            let i = before.position(n).unwrap();
                            assert(self.names@[i]@ == n);
                        }
                        if self.position(n).is_some() {
                            let i = self.position(n).unwrap();
                            assert(before.names@[i]@ == n);
                        }
                    }
                    assert(self.names@[last]@ == name@);
                    assert(self.position(name@) == Some(last));
                    assert(self.entries() =~= before.entries().insert(name@, value@));
                }
            },
        }
    }

    /// The value of `name`, if it has one.
    pub fn get(&self, name: &String) -> (value: Option<&String>)
        requires
            self.well_formed(),
        ensures
            match value {
                Some(v) => self.entries().contains_key(name@) && self.entries()[name@] == v@,
                None => !self.entries().contains_key(name@),
            },
    {
        match self.find(name) {
            Some(i) => Some(&self.values[i]),
            None => None,
        }
    }

    /// The number of attributes.
    pub fn len(&self) -> (n: usize)
        ensures
            n == self.names@.len(),
    {
        self.names.len()
    }
}

/// What a node of the document is.
#[derive(Debug)]
pub enum NodeData {
    /// An element with its tag name and its attributes.
    Element { tag: String, attributes: AttributeMap },
    /// A run of text.
    Text(String),
}

/// A node of the document tree.
#[derive(Debug)]
pub struct DocumentNode {
    /// The node's number in the document.
    pub index: usize,
    pub data: NodeData,
    pub children: Vec<DocumentNode>,
}

impl DocumentNode {
    /// An element that has no number yet.
    pub fn new_elem(tag: String, attributes: AttributeMap, children: Vec<DocumentNode>) -> (node:
        DocumentNode)
        ensures
            node.index == 0,
            node.data == (NodeData::Element { tag, attributes }),
            node.children == children,
    {
        DocumentNode { index: 0, data: NodeData::Element { tag, attributes }, children }
    }

    /// A run of text that has no number yet.
    pub fn new_text(text: String) -> (node: DocumentNode)
        ensures
            node.index == 0,
            node.data == NodeData::Text(text),
            node.children@.len() == 0,
    {
        DocumentNode { index: 0, data: NodeData::Text(text), children: Vec::new() }
    }

    pub open spec fn is_text(&self) -> bool {
        self.data is Text
    }

    /// The text of a run of text.
    pub fn as_text(&self) -> (text: Option<&str>)
        ensures
            text.is_some() == self.is_text(),
            match text {
                Some(t) => t@ == self.data->Text_0@,
                None => true,
            },
    {
        match &self.data {
            NodeData::Text(t) => Some(t.as_str()),
            NodeData::Element { .. } => None,
        }
    }

    /// The tag name of an element.
    pub fn tag(&self) -> (tag: Option<&str>)
        ensures
            tag.is_some() == !self.is_text(),
            match tag {
                Some(t) => t@ == self.data->tag@,
                None => true,
            },
    {
        match &self.data {
            NodeData::Text(_) => None,
            NodeData::Element { tag, .. } => Some(tag.as_str()),
        }
    }

    /// Whether the node is an element with the tag name `name`.
    pub open spec fn has_tag_spec(&self, name: &str) -> bool {
        self.data is Element && self.data->tag@ == name@
    }

    /// Whether the node is an element with the tag name `name`.
    #[verifier::when_used_as_spec(has_tag_spec)]
    pub fn has_tag(&self, name: &str) -> (b: bool)
        ensures
            b == self.has_tag_spec(name),
    {
        match &self.data {
            NodeData::Text(_) => false,
            NodeData::Element { tag, .. } => {
                let wanted = String::from_str(name);
                *tag == wanted
            },
        }
    }
}

/// The mathematical model of what a node is.
pub enum DataView {
    Element { tag: Seq<char>, attributes: Map<Seq<char>, Seq<char>> },
    Text(Seq<char>),
}

/// The mathematical model of a node of the document.
pub struct NodeView {
    pub index: nat,
    pub data: DataView,
    pub children: Seq<NodeView>,
}

/// The model of what a node is.
pub open spec fn data_view(data: NodeData) -> DataView {
    match data {
        NodeData::Element { tag, attributes } => DataView::Element {
            tag: tag@,
            attributes: attributes.entries(),
        },
        NodeData::Text(text) => DataView::Text(text@),
    }
}

/// The model of a node.
pub open spec fn node_view(node: DocumentNode) -> NodeView
    decreases node,
{
    NodeView {
        index: node.index as nat,
        data: data_view(node.data),
        children: Seq::new(
            node.children@.len(),
            |i: int|
                if 0 <= i < node.children@.len() {
                    node_view(node.children@[i])
                } else {
                    arbitrary()
                },
        ),
    }
}

/// The models of a sequence of nodes.
pub open spec fn node_views(nodes: Seq<DocumentNode>) -> Seq<NodeView> {
    Seq::new(nodes.len(), |i: int| node_view(nodes[i]))
}

impl View for DocumentNode {
    type V = NodeView;

    open spec fn view(&self) -> NodeView {
        node_view(*self)
    }
}

/// The model of a node holds the models of the nodes inside it.
pub proof fn lemma_node_children(node: DocumentNode)
    ensures
        node@.children == node_views(node.children@),
{
    assert(node@.children =~= node_views(node.children@));
}

/// The number after `n`, which is `n` itself where there is no greater one.
pub open spec fn next_index(n: nat) -> nat {
    if n < usize::MAX {
        n + 1
    } else {
        n
    }
}

/// The first `n` of `children` numbered in document order from `next` on,
/// and the first number that is left.
pub open spec fn numbered_children(children: Seq<NodeView>, n: nat, next: nat) -> (
    Seq<NodeView>,
    nat,
)
    decreases children, 0nat, n,
{
    if n == 0 || n > children.len() {
        (Seq::empty(), next)
    } else {
        let (done, free) = numbered_children(children, (n - 1) as nat, next);
        let (child, after) = numbered(children[n - 1], free);
        (done.push(child), after)
    }
}

/// A node and the nodes below it numbered in document order from `next` on:
/// a node has its number before the nodes inside it have theirs. With the
/// node comes the first number that is left.
pub open spec fn numbered(node: NodeView, next: nat) -> (NodeView, nat)
    decreases node.children, 1nat,
{
    let (children, free) = numbered_children(node.children, node.children.len(), next_index(next));
    (NodeView { index: next, children, ..node }, free)
}

/// The root of the document that holds the given nodes at its top: the node
/// itself where there is one, and else an element `html` around them.
pub open spec fn document_root_of(nodes: Seq<NodeView>) -> NodeView {
    if nodes.len() == 1 {
        nodes[0]
    } else {
        NodeView {
            index: 0,
            data: DataView::Element { tag: "html"@, attributes: Map::empty() },
            children: nodes,
        }
    }
}

impl DocumentNode {
    /// Numbers the node and the nodes below it in document order from `next`
    /// on, and returns the first number that is left.
    pub fn number_preorder(&mut self, next: usize) -> (free: usize)
        ensures
            (final(self)@, free as nat) == numbered(old(self)@, next as nat),
        decreases old(self).children, 1nat,
    {
        self.index = next;
        let mut free: usize = if next < usize::MAX {
            next + 1
        } else {
            next
        };
        let ghost first = free;
        let mut i: usize = 0;
        proof {
            lemma_node_children(*self);
            lemma_node_children(*old(self));
        }
        while i < self.children.len()
            invariant
                i <= self.children@.len(),
                self.index == next,
                self.data == old(self).data,
                self.children@.len() == old(self).children@.len(),
                old(self)@.children == node_views(old(self).children@),
                forall|j: int|
                    i <= j < self.children@.len() ==> self.children@[j] == old(self).children@[j],
                (node_views(self.children@).take(i as int), free as nat) == numbered_children(
                    old(self)@.children,
                    i as nat,
                    first as nat,
                ),
            decreases self.children@.len() - i,
        {
            let ghost before = node_views(self.children@);
            let child = &mut self.children[i];
            free = child.number_preorder(free);
            i += 1;
            proof {
                assert(node_views(self.children@).take(i as int) =~= before.take(i - 1).push(
                    node_views(self.children@)[i - 1],
                ));
            }
        }
        proof {
            lemma_node_children(*self);
            assert(node_views(self.children@).take(i as int) =~= node_views(self.children@));
        }
        free
    }
}

/// A document.
#[derive(Debug)]
pub struct DocumentTree {
    pub document_root: DocumentNode,
}

impl DocumentTree {
    /// The document with the given nodes at its top, numbered in document
    /// order from 0 on.
    pub fn new(nodes: Vec<DocumentNode>) -> (tree: DocumentTree)
        ensures
            tree.document_root@ == numbered(document_root_of(node_views(nodes@)), 0).0,
    {
        let mut nodes = nodes;
        let mut root = if nodes.len() == 1 {
            let node = nodes.pop().unwrap();
            node
        } else {
            let wrapped = DocumentNode::new_elem(
                String::from_str("html"),
                AttributeMap::new(),
                nodes,
            );
            proof {
                lemma_node_children(wrapped);
            }
            wrapped
        };
        root.number_preorder(0);
        DocumentTree { document_root: root }
    }
}

} // verus!
