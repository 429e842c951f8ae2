use vstd::prelude::*;

verus! {

/// An index into a document's node arena.
pub type NodeId = usize;

/// What a node is.
pub enum NodeData {
    Element { name: String },
    Text { contents: String },
    Other,
}

/// A document tree kept as an arena: every relation between nodes is an index.
/// Node `0` is the root element. A node is always appended after its parent,
/// so children and later siblings have larger ids than the node itself.
pub struct Document {
    data: Vec<NodeData>,
    parent: Vec<Option<NodeId>>,
    first_child: Vec<Option<NodeId>>,
    last_child: Vec<Option<NodeId>>,
    next_sibling: Vec<Option<NodeId>>,
}

pub open spec fn later(link: Option<NodeId>, i: int, len: int) -> bool {
    match link {
        Some(j) => i < j < len,
        None => true,
    }
}

impl Document {
    pub closed spec fn len(&self) -> nat {
        self.data@.len()
    }

    pub closed spec fn node_data(&self, i: int) -> NodeData {
        self.data@[i]
    }

    pub closed spec fn parent_of(&self, i: int) -> Option<NodeId> {
        self.parent@[i]
    }

    pub closed spec fn first_child_of(&self, i: int) -> Option<NodeId> {
        self.first_child@[i]
    }

    pub closed spec fn next_sibling_of(&self, i: int) -> Option<NodeId> {
        self.next_sibling@[i]
    }

    /// The arena is consistent: every link points forward (or, for a parent,
    /// backward) to an existing node, and the root has no parent.
    pub closed spec fn wf(&self) -> bool {
        &&& self.data@.len() >= 1
        &&& self.parent@.len() == self.data@.len()
        &&& self.first_child@.len() == self.data@.len()
        &&& self.last_child@.len() == self.data@.len()
        &&& self.next_sibling@.len() == self.data@.len()
        &&& self.parent@[0] is None
        &&& forall|i: int|
            0 <= i < self.data@.len() ==> {
                &&& later(#[trigger] self.first_child@[i], i, self.data@.len() as int)
                &&& later(self.last_child@[i], i, self.data@.len() as int)
                &&& later(self.next_sibling@[i], i, self.data@.len() as int)
                &&& (i > 0 ==> (self.parent@[i] matches Some(p) && p < i))
                &&& (self.first_child@[i] is None <==> self.last_child@[i] is None)
            }
    }

    pub broadcast proof fn lemma_links(&self, i: int)
        requires
            self.wf(),
            0 <= i < self.len(),
        ensures
            #![trigger self.first_child_of(i)]
            #![trigger self.next_sibling_of(i)]
            #![trigger self.parent_of(i)]
            later(self.first_child_of(i), i, self.len() as int),
            later(self.next_sibling_of(i), i, self.len() as int),
            self.parent_of(i) matches Some(p) ==> 0 <= p < i,
            i == 0 ==> self.parent_of(i) is None,
    {
    }

    /// A document holding only a root element with the given tag name.
    pub fn new(root_name: &str) -> (r: Document)
        ensures
            r.wf(),
            r.len() == 1,
            r.node_data(0) matches NodeData::Element { name } && name@ == root_name@,
            r.first_child_of(0) is None,
    {
        let mut data: Vec<NodeData> = Vec::new();
        data.push(NodeData::Element { name: root_name.to_string() });
        let mut parent: Vec<Option<NodeId>> = Vec::new();
        parent.push(None);
        let mut first_child: Vec<Option<NodeId>> = Vec::new();
        first_child.push(None);
        let mut last_child: Vec<Option<NodeId>> = Vec::new();
        last_child.push(None);
        let mut next_sibling: Vec<Option<NodeId>> = Vec::new();
        next_sibling.push(None);
        Document { data, parent, first_child, last_child, next_sibling }
    }

    /// Appends `data` as the last child of `parent` and returns its id.
    pub fn append(&mut self, parent: NodeId, data: NodeData) -> (r: NodeId)
        requires
            old(self).wf(),
            parent < old(self).len(),
            old(self).len() < usize::MAX,
        ensures
            final(self).wf(),
            r == old(self).len(),
            final(self).len() == old(self).len() + 1,
            final(self).node_data(r as int) == data,
            final(self).parent_of(r as int) == Some(parent),
            final(self).first_child_of(r as int) is None,
            final(self).next_sibling_of(r as int) is None,
            forall|i: int|
                0 <= i < old(self).len() ==> #[trigger] final(self).node_data(i) == old(
                    self,
                ).node_data(i),
    {
        let id = self.data.len();
        let last = self.last_child[parent];
        assert(later(self.first_child@[parent as int], parent as int, id as int));
        assert(later(last, parent as int, id as int));
        self.data.push(data);
        self.parent.push(Some(parent));
        self.first_child.push(None);
        self.last_child.push(None);
        self.next_sibling.push(None);
        match last {
            Some(prev) => {
                self.next_sibling.set(prev, Some(id));
            },
            None => {
                self.first_child.set(parent, Some(id));
            },
        }
        self.last_child.set(parent, Some(id));
        assert forall|i: int| 0 <= i < self.data@.len() implies {
            &&& later(#[trigger] self.first_child@[i], i, self.data@.len() as int)
            &&& later(self.last_child@[i], i, self.data@.len() as int)
            &&& later(self.next_sibling@[i], i, self.data@.len() as int)
            &&& (i > 0 ==> (self.parent@[i] matches Some(p) && p < i))
            &&& (self.first_child@[i] is None <==> self.last_child@[i] is None)
        } by {
            if i < id {
                assert(later(old(self).first_child@[i], i, id as int));
                assert(later(old(self).last_child@[i], i, id as int));
            }
        }
        id
    }

    /// Appends an element with tag `name` as the last child of `parent`.
    pub fn append_element(&mut self, parent: NodeId, name: &str) -> (r: NodeId)
        requires
            old(self).wf(),
            parent < old(self).len(),
            old(self).len() < usize::MAX,
        ensures
            final(self).wf(),
            r == old(self).len(),
            final(self).len() == old(self).len() + 1,
            final(self).node_data(r as int) matches NodeData::Element { name: n } && n@ == name@,
    {
        self.append(parent, NodeData::Element { name: name.to_string() })
    }

    /// Appends a text node holding `contents` as the last child of `parent`.
    pub fn append_text(&mut self, parent: NodeId, contents: &str) -> (r: NodeId)
        requires
            old(self).wf(),
            parent < old(self).len(),
            old(self).len() < usize::MAX,
        ensures
            final(self).wf(),
            r == old(self).len(),
            final(self).len() == old(self).len() + 1,
            final(self).node_data(r as int) matches NodeData::Text { contents: c } && c@
                == contents@,
    {
        self.append(parent, NodeData::Text { contents: contents.to_string() })
    }

    pub fn num_nodes(&self) -> (r: usize)
        ensures
            r == self.len(),
    {
        self.data.len()
    }

    pub fn root_element(&self) -> (r: NodeId)
        requires
            self.wf(),
        ensures
            r == 0,
            r < self.len(),
    {
        0
    }

    pub fn data(&self, id: NodeId) -> (r: &NodeData)
        requires
            self.wf(),
            id < self.len(),
        ensures
            *r == self.node_data(id as int),
    {
        &self.data[id]
    }

    pub fn parent(&self, id: NodeId) -> (r: Option<NodeId>)
        requires
            self.wf(),
            id < self.len(),
        ensures
            r == self.parent_of(id as int),
    {
        self.parent[id]
    }

    pub fn first_child(&self, id: NodeId) -> (r: Option<NodeId>)
        requires
            self.wf(),
            id < self.len(),
        ensures
            r == self.first_child_of(id as int),
    {
        self.first_child[id]
    }

    pub fn next_sibling(&self, id: NodeId) -> (r: Option<NodeId>)
        requires
            self.wf(),
            id < self.len(),
        ensures
            r == self.next_sibling_of(id as int),
    {
        self.next_sibling[id]
    }
}

} // verus!
