//! The element tree in memory.

use vstd::prelude::*;

#[allow(unused_imports)]
use crate::ebml::node::Node;

verus! {

#[derive(Debug)]
pub enum Body {
    Master(Vec<Element>),
    Data(Vec<u8>),
}

/// `width` is how many bytes the data size took where the element was read. It
/// is written back as wide, so that what nobody changes stays as it was. Zero
/// is for an element that was made: its size is as short as it can be.
#[derive(Debug)]
pub struct Element {
    pub id: u64,
    pub width: usize,
    pub body: Body,
}

/// The model of an element.
pub open spec fn node_of(e: Element) -> Node
    decreases e,
{
    match e.body {
        Body::Master(children) => Node::Master { id: e.id, width: e.width, children: nodes_of(children@) },
        Body::Data(bytes) => Node::Data { id: e.id, width: e.width, bytes: bytes@ },
    }
}

/// The models of elements in order.
pub open spec fn nodes_of(s: Seq<Element>) -> Seq<Node>
    decreases s,
{
    if s.len() == 0 {
        Seq::empty()
    } else {
        nodes_of(s.drop_last()).push(node_of(s.last()))
    }
}

pub broadcast proof fn lemma_nodes_len(s: Seq<Element>)
    ensures
        #[trigger] nodes_of(s).len() == s.len(),
    decreases s.len(),
{
    if s.len() > 0 {
        lemma_nodes_len(s.drop_last());
    }
}

pub broadcast proof fn lemma_nodes_index(s: Seq<Element>, i: int)
    requires
        0 <= i < s.len(),
    ensures
        #[trigger] nodes_of(s)[i] == node_of(s[i]),
    decreases s.len(),
{
    lemma_nodes_len(s.drop_last());
    if i < s.len() - 1 {
        lemma_nodes_index(s.drop_last(), i);
    }
}

impl View for Element {
    type V = Node;

    open spec fn view(&self) -> Node {
        node_of(*self)
    }
}

} // verus!
