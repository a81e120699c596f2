//! Syntax nodes as the passes see them: an identity, a kind tag and the
//! children that are reachable by field name.

use vstd::prelude::*;

verus! {

/// Identity of a syntax node within its source.
pub type NodeId = usize;

/// Identity of a parsed source text.
#[derive(Debug, Clone, Copy, PartialEq, Eq, Structural)]
pub struct SourceId {
    pub id: u64,
}

/// A child of a node, under the field name the grammar gives it.
#[derive(Debug, Clone)]
pub struct NodeField {
    pub name: String,
    pub node: NodeId,
}

/// One node of a syntax tree.
#[derive(Debug, Clone)]
pub struct Node {
    pub id: NodeId,
    pub kind: String,
    pub fields: Vec<NodeField>,
}

/// The first child in `fields` whose field name is `name`.
pub open spec fn first_field(fields: Seq<NodeField>, name: Seq<char>) -> Option<NodeId>
    decreases fields.len(),
{
    if fields.len() == 0 {
        None
    } else if fields[0].name@ == name {
        Some(fields[0].node)
    } else {
        first_field(fields.drop_first(), name)
    }
}

impl Node {
    /// A node of the given kind without children.
    pub fn new(id: NodeId, kind: &str) -> (node: Node)
        ensures
            node.id == id,
            node.kind@ == kind@,
            node.fields@ == Seq::<NodeField>::empty(),
    {
        Node { id, kind: kind.to_owned(), fields: Vec::new() }
    }

    /// The same node with one more child, after those it has.
    pub fn with_field(self, name: &str, child: NodeId) -> (node: Node)
        ensures
            node.id == self.id,
            node.kind == self.kind,
            node.fields@.len() == self.fields@.len() + 1,
            node.fields@.drop_last() == self.fields@,
            node.fields@.last().name@ == name@,
            node.fields@.last().node == child,
    {
        let mut node = self;
        node.fields.push(NodeField { name: name.to_owned(), node: child });
        assert(node.fields@.drop_last() =~= self.fields@);
        node
    }

    /// The child that the grammar files under `name`, if there is one.
    pub open spec fn spec_child(&self, name: Seq<char>) -> Option<NodeId> {
        first_field(self.fields@, name)
    }

    /// Whether the node's kind tag is `kind`.
    pub fn is_kind(&self, kind: &str) -> (same: bool)
        ensures
            same == (self.kind@ == kind@),
    {
        let wanted = kind.to_owned();
        self.kind == wanted
    }

    /// The first child with the given field name.
    pub fn child_by_field_name(&self, name: &str) -> (child: Option<NodeId>)
        ensures
            child == self.spec_child(name@),
    {
        let wanted = name.to_owned();
        let mut i: usize = 0;
        assert(self.fields@.subrange(0, self.fields@.len() as int) =~= self.fields@);
        while i < self.fields.len()
            invariant
                i <= self.fields.len(),
                wanted@ == name@,
                first_field(self.fields@, name@) == first_field(
                    self.fields@.subrange(i as int, self.fields@.len() as int),
                    name@,
                ),
            decreases self.fields.len() - i,
        {
            let ghost rest = self.fields@.subrange(i as int, self.fields@.len() as int);
            assert(rest.drop_first() =~= self.fields@.subrange(
                i as int + 1,
                self.fields@.len() as int,
            ));
            if self.fields[i].name == wanted {
                return Some(self.fields[i].node);
            }
            i += 1;
        }
        None
    }
}

} // verus!
