//! The value literals and the abstract syntax tree.

use vstd::prelude::*;
use vstd::seq::axiom_seq_index_decreases;
use crate::rational::{Num, Rat};

verus! {

/// Mathematical model of a literal value.
pub ghost enum RawModel {
    Number(Rat),
    Text(Seq<char>),
    Bool(bool),
}

/// A literal value: stored in program code by the parser, and carried inside
/// variables at run time.  Immutable and cheaply copyable.
#[derive(Debug, PartialEq, Clone)]
pub enum Raw {
    Number(Num),
    Text(String),
    Bool(bool),
}

impl View for Raw {
    type V = RawModel;

    open spec fn view(&self) -> RawModel {
        match self {
            Raw::Number(n) => RawModel::Number(n@),
            Raw::Text(t) => RawModel::Text(t@),
            Raw::Bool(b) => RawModel::Bool(*b),
        }
    }
}

impl Raw {
    /// An owned copy with the same value.
    pub fn dup(&self) -> (r: Raw)
        ensures
            r@ == self@,
    {
        match self {
            Raw::Number(n) => Raw::Number(*n),
            Raw::Text(t) => Raw::Text(t.clone()),
            Raw::Bool(b) => Raw::Bool(*b),
        }
    }
}

/// Mathematical model of an AST node.
pub ghost enum NodeModel {
    Block(Seq<NodeModel>),
    List(Seq<NodeModel>),
    Value(RawModel),
    Var(Seq<char>),
    Assign(Seq<char>, Box<NodeModel>),
    Call(Seq<char>, Seq<NodeModel>),
    Lambda(Box<NodeModel>),
}

/// One node of the abstract syntax tree.
///
/// A `Block` runs its statements in a fresh child scope and is worth the
/// collapse of their values; a `List` is an argument list evaluated in the
/// current scope; `Assign` binds in the innermost scope; `Call` invokes a
/// named callable; a `Lambda` wraps an unevaluated node for a builtin to
/// force later.  `dup` gives an owned copy of a tree.
#[derive(Debug, PartialEq)]
pub enum Node {
    Block(Vec<Node>),
    List(Vec<Node>),
    Value(Raw),
    Var(String),
    Assign(String, Box<Node>),
    Call(String, Vec<Node>),
    Lambda(Box<Node>),
}

/// The model of a node.
pub open spec fn node_view(n: Node) -> NodeModel
    decreases n,
{
    match n {
        Node::Block(ch) => NodeModel::Block(nodes_view(ch@)),
        Node::List(ch) => NodeModel::List(nodes_view(ch@)),
        Node::Value(r) => NodeModel::Value(r@),
        Node::Var(id) => NodeModel::Var(id@),
        Node::Assign(id, rhs) => NodeModel::Assign(id@, Box::new(node_view(*rhs))),
        Node::Call(id, args) => NodeModel::Call(id@, nodes_view(args@)),
        Node::Lambda(body) => NodeModel::Lambda(Box::new(node_view(*body))),
    }
}

/// The models of a sequence of nodes.
pub open spec fn nodes_view(s: Seq<Node>) -> Seq<NodeModel>
    decreases s,
{
    if s.len() == 0 {
        Seq::empty()
    } else {
        nodes_view(s.drop_last()).push(node_view(s.last()))
    }
}

impl View for Node {
    type V = NodeModel;

    open spec fn view(&self) -> NodeModel {
        node_view(*self)
    }
}

/// `nodes_view` maps `node_view` over the sequence, element by element.
pub proof fn lemma_nodes_view(s: Seq<Node>)
    ensures
        nodes_view(s).len() == s.len(),
        forall|i: int| 0 <= i < s.len() ==> nodes_view(s)[i] == node_view(#[trigger] s[i]),
    decreases s,
{
    if s.len() > 0 {
        lemma_nodes_view(s.drop_last());
        assert forall|i: int| 0 <= i < s.len() implies nodes_view(s)[i] == node_view(s[i]) by {
            if i < s.len() - 1 {
                assert(s.drop_last()[i] == s[i]);
                assert(nodes_view(s)[i] == nodes_view(s.drop_last())[i]);
            } else {
                assert(s.last() == s[i]);
            }
        }
    }
}

/// Viewing commutes with appending one node.
pub proof fn lemma_nodes_view_push(s: Seq<Node>, n: Node)
    ensures
        nodes_view(s.push(n)) == nodes_view(s).push(node_view(n)),
{
    assert(s.push(n).drop_last() =~= s);
    assert(s.push(n).last() == n);
}

impl Node {
    /// An empty block.
    pub fn new_block() -> (r: Node)
        ensures
            r@ == NodeModel::Block(Seq::<NodeModel>::empty()),
    {
        let v: Vec<Node> = Vec::new();
        proof {
            assert(nodes_view(v@) =~= Seq::<NodeModel>::empty());
        }
        Node::Block(v)
    }

    /// An owned copy of the whole tree, equal to it node for node.
    pub fn dup(&self) -> (r: Node)
        ensures
            r@ == self@,
        decreases *self,
    {
        match self {
            Node::Block(ch) => Node::Block(dup_nodes(ch)),
            Node::List(ch) => Node::List(dup_nodes(ch)),
            Node::Value(r) => Node::Value(r.dup()),
            Node::Var(id) => Node::Var(id.clone()),
            Node::Assign(id, rhs) => Node::Assign(id.clone(), Box::new(rhs.dup())),
            Node::Call(id, args) => Node::Call(id.clone(), dup_nodes(args)),
            Node::Lambda(body) => Node::Lambda(Box::new(body.dup())),
        }
    }
}

/// An owned copy of a sequence of nodes.
fn dup_nodes(ns: &Vec<Node>) -> (r: Vec<Node>)
    ensures
        nodes_view(r@) == nodes_view(ns@),
    decreases *ns,
{
    let mut out: Vec<Node> = Vec::new();
    let mut i: usize = 0;
    while i < ns.len()
        invariant
            i <= ns@.len(),
            out@.len() == i,
            forall|k: int| 0 <= k < i ==> node_view(#[trigger] out@[k]) == node_view(ns@[k]),
        decreases ns@.len() - i,
    {
        proof {
            axiom_seq_index_decreases(ns@, i as int);
        }
        out.push(ns[i].dup());
        i = i + 1;
    }
    proof {
        lemma_nodes_view(out@);
        lemma_nodes_view(ns@);
        assert forall|k: int| 0 <= k < ns@.len() implies nodes_view(out@)[k] == nodes_view(
            ns@,
        )[k] by {
            assert(node_view(out@[k]) == node_view(ns@[k]));
        }
        assert(nodes_view(out@) =~= nodes_view(ns@));
    }
    out
}

} // verus!
