use vstd::prelude::*;
use crate::node::{Node, node_text, nodes_text};

verus! {

/// The largest number of children that one element aggregates into a tuple.
/// More children have to be wrapped in an explicit sequence.
pub const MAX_CHILDREN: usize = 10;

/// The ordered nested content of one element.
pub struct Children {
    nodes: Vec<Node>,
}

/// Rejection of a children list longer than `MAX_CHILDREN`.
pub struct ArityOverflow {
    pub count: usize,
}

/// `n` is the aggregated form of `s`: an optional holding the single child,
/// or a tuple of all the children in order.
pub open spec fn aggregates(n: Node, s: Seq<Node>) -> bool {
    match n {
        Node::Optional(Some(b)) => if s.len() == 1 {
            *b == s[0]
        } else {
            match *b {
                Node::Tuple(v) => v@ == s,
                _ => false,
            }
        },
        _ => false,
    }
}

impl View for Children {
    type V = Seq<Node>;

    closed spec fn view(&self) -> Seq<Node> {
        self.nodes@
    }
}

impl Children {
    /// Every children list that can be built holds at most `MAX_CHILDREN` nodes.
    pub open spec fn wf(&self) -> bool {
        self@.len() <= MAX_CHILDREN
    }

    /// The children `nodes`, in order; an error when there are more than `MAX_CHILDREN`.
    pub fn new(nodes: Vec<Node>) -> (r: Result<Children, ArityOverflow>)
        ensures
            nodes@.len() <= MAX_CHILDREN <==> r is Ok,
            r matches Ok(c) ==> c@ == nodes@ && c.wf(),
            r matches Err(e) ==> e.count == nodes@.len(),
    {
        if nodes.len() > MAX_CHILDREN {
            Err(ArityOverflow { count: nodes.len() })
        } else {
            Ok(Children { nodes })
        }
    }

    /// No children.
    pub fn empty() -> (r: Children)
        ensures
            r@.len() == 0,
            r.wf(),
    {
        Children { nodes: Vec::new() }
    }

    pub fn len(&self) -> (r: usize)
        ensures
            r == self@.len(),
    {
        self.nodes.len()
    }

    pub fn is_empty(&self) -> (r: bool)
        ensures
            r == (self@.len() == 0),
    {
        self.nodes.len() == 0
    }

    /// The children as one value: the single child, or a tuple of all of them,
    /// wrapped in an optional.
    pub fn as_option_of_tuples(self) -> (r: Node)
        ensures
            aggregates(r, self@),
    {
        let mut nodes = self.nodes;
        if nodes.len() == 1 {
            let only = nodes.pop().unwrap();
            Node::Optional(Some(Box::new(only)))
        } else {
            Node::Optional(Some(Box::new(Node::Tuple(nodes))))
        }
    }

    /// The children's nodes, in order.
    pub fn into_nodes(self) -> (r: Vec<Node>)
        ensures
            r@ == self@,
    {
        self.nodes
    }
}

/// The aggregated form of a children list renders as all the children, in order.
pub proof fn aggregate_renders_children(n: Node, s: Seq<Node>, escape: bool)
    requires
        aggregates(n, s),
    ensures
        node_text(n, escape) == nodes_text(s, escape),
{
    if let Node::Optional(Some(b)) = n {
        assert(node_text(n, escape) == node_text(*b, escape));
        if s.len() == 1 {
            assert(nodes_text(s.subrange(0, 0), escape) =~= Seq::<char>::empty());
            assert(nodes_text(s, escape) =~= node_text(s[0], escape));
        } else {
            if let Node::Tuple(v) = *b {
                assert(node_text(*b, escape) == nodes_text(v@, escape));
            }
        }
    }
}

} // verus!
