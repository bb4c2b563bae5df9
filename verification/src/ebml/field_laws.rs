//! What changing one field of a master does to that field and to the others.

use vstd::prelude::*;

#[allow(unused_imports)]
use crate::ebml::laws::{all_readable, lemma_all_readable, lemma_all_readable_index, readable};
#[allow(unused_imports)]
use crate::ebml::node::{first_with, holds_children, lemma_first_with, lemma_first_with_unique, Node};
#[allow(unused_imports)]
use crate::ebml::value::{law_string_reads_back, law_uint_reads_back, uint_data};
#[allow(unused_imports)]
use crate::ebml::vint::canonical_id;

verus! {

/// After a field was set, it holds the new bytes, and every other field is
/// found as before.
pub proof fn law_set_field(n: Node, id: u64, bytes: Seq<u8>, at: nat)
    requires
        n is Master,
    ensures
        n.with_data(id, bytes, at).find(id) == Some(Node::leaf(id, bytes)),
        forall|other: u64|
            other != id ==> #[trigger] n.with_data(id, bytes, at).find(other) == n.find(other),
        n.with_data(id, bytes, at).id() == n.id(),
        n.with_data(id, bytes, at) is Master,
{
    let nodes = n.children();
    let m = n.with_data(id, bytes, at);
    let p = n.position(id);
    let leaf = Node::leaf(id, bytes);
    lemma_first_with(nodes, id, 0);
    if n.has(id) {
        assert forall|i: int| 0 <= i < p implies (#[trigger] m.children()[i]).id() != id by {
            assert(nodes[i].id() != id);
        }
        lemma_first_with_unique(m.children(), id, p);
        assert forall|other: u64| other != id implies #[trigger] m.find(other) == n.find(other) by {
            let k = n.position(other);
            lemma_first_with(nodes, other, 0);
            assert forall|i: int| 0 <= i < k implies (#[trigger] m.children()[i]).id() != other by {
                assert(nodes[i].id() != other);
            }
            lemma_first_with_unique(m.children(), other, k);
        }
    } else {
        let a: int = if at <= nodes.len() {
            at as int
        } else {
            nodes.len() as int
        };
        assert(m.children() =~= nodes.insert(a, leaf));
        assert forall|i: int| 0 <= i < a implies (#[trigger] m.children()[i]).id() != id by {
            assert(nodes[i].id() != id);
        }
        lemma_first_with_unique(m.children(), id, a);
        assert forall|other: u64| other != id implies #[trigger] m.find(other) == n.find(other) by {
            let k = n.position(other);
            lemma_first_with(nodes, other, 0);
            let q = if k < a {
                k
            } else {
                k + 1
            };
            assert forall|i: int| 0 <= i < q implies (#[trigger] m.children()[i]).id() != other by {
                if i < a {
                    assert(nodes[i].id() != other);
                } else if i > a {
                    assert(nodes[i - 1].id() != other);
                }
            }
            lemma_first_with_unique(m.children(), other, q);
        }
    }
}

/// An integer field that was set is read back.
pub proof fn law_set_uint_reads_back(n: Node, id: u64, v: u64, at: nat)
    requires
        n is Master,
    ensures
        n.with_data(id, uint_data(v), at).uint(id) == Some(v),
{
    law_set_field(n, id, uint_data(v), at);
    law_uint_reads_back(v);
}

/// A text field that was set is read back, unless the text holds the character
/// U+0000.
pub proof fn law_set_string_reads_back(n: Node, id: u64, s: Seq<char>, at: nat)
    requires
        n is Master,
        !s.contains('\0'),
    ensures
        n.with_data(id, vstd::utf8::encode_utf8(s), at).text(id) == Some(s),
{
    law_set_field(n, id, vstd::utf8::encode_utf8(s), at);
    law_string_reads_back(s);
}

/// After a field was removed it is not found, and every other field is found
/// as before.
pub proof fn law_remove_field(n: Node, id: u64)
    ensures
        n.without(id).find(id) is None,
        forall|other: u64| other != id ==> #[trigger] n.without(id).find(other) == n.find(other),
        n.without(id).id() == n.id(),
{
    let nodes = n.children();
    let keep = |m: Node| m.id() != id;
    let kept = nodes.filter(keep);
    match n {
        Node::Data { .. } => {
            assert(first_with(Seq::<Node>::empty(), id, 0) == 0);
        },
        Node::Master { .. } => {
            lemma_filter_first(nodes, id);
            lemma_first_with(kept, id, 0);
            assert forall|other: u64| other != id implies #[trigger] n.without(id).find(other)
                == n.find(other) by {
                lemma_filter_find(nodes, id, other);
            }
        },
    }
}

proof fn lemma_filter_first(nodes: Seq<Node>, id: u64)
    ensures
        ({
            let kept = nodes.filter(|m: Node| m.id() != id);
            forall|i: int| 0 <= i < kept.len() ==> (#[trigger] kept[i]).id() != id
        }),
    decreases nodes.len(),
{
    reveal(Seq::filter);
    if nodes.len() > 0 {
        lemma_filter_first(nodes.drop_last(), id);
    }
}

/// The first node of another ID is the same with and without the nodes that
/// were taken out.
proof fn lemma_filter_find(nodes: Seq<Node>, id: u64, other: u64)
    requires
        id != other,
    ensures
        ({
            let kept = nodes.filter(|m: Node| m.id() != id);
            let k = first_with(kept, other, 0);
            let p = first_with(nodes, other, 0);
            &&& k < kept.len() <==> p < nodes.len()
            &&& p < nodes.len() ==> kept[k] == nodes[p]
        }),
    decreases nodes.len(),
{
    reveal(Seq::filter);
    let keep = |m: Node| m.id() != id;
    let kept = nodes.filter(keep);
    if nodes.len() > 0 {
        let front = nodes.drop_last();
        let front_kept = front.filter(keep);
        lemma_filter_find(front, id, other);
        lemma_first_with(front, other, 0);
        lemma_first_with(front_kept, other, 0);
        let p = first_with(front, other, 0);
        let k = first_with(front_kept, other, 0);
        if p < front.len() {
            assert forall|i: int| 0 <= i < p implies (#[trigger] nodes[i]).id() != other by {
                assert(front[i].id() != other);
            }
            assert(nodes[p] == front[p]);
            lemma_first_with_unique(nodes, other, p);
            assert forall|i: int| 0 <= i < k implies (#[trigger] kept[i]).id() != other by {
                assert(front_kept[i].id() != other);
            }
            assert(kept[k] == front_kept[k]);
            lemma_first_with_unique(kept, other, k);
        } else {
            assert forall|i: int| 0 <= i < front.len() implies (#[trigger] nodes[i]).id() != other by {
                assert(front[i].id() != other);
            }
            assert forall|i: int| 0 <= i < front_kept.len() implies (#[trigger] kept[i]).id() != other by {
                assert(front_kept[i].id() != other);
            }
            if nodes.last().id() == other {
                lemma_first_with_unique(nodes, other, nodes.len() - 1);
                lemma_first_with_unique(kept, other, kept.len() - 1);
            } else {
                lemma_first_with_unique(nodes, other, nodes.len() as int);
                lemma_first_with_unique(kept, other, kept.len() as int);
            }
        }
    }
}

/// Setting a field keeps a tree one that can be read back.
pub proof fn lemma_set_field_readable(n: Node, id: u64, bytes: Seq<u8>, at: nat)
    requires
        readable(n),
        canonical_id(id),
        !holds_children(id),
    ensures
        readable(n.with_data(id, bytes, at)),
{
    if let Node::Master { id: own, width, children: nodes } = n {
        let m = n.with_data(id, bytes, at);
        let leaf = Node::leaf(id, bytes);
        lemma_first_with(nodes, id, 0);
        let a: int = if at <= nodes.len() {
            at as int
        } else {
            nodes.len() as int
        };
        assert(!n.has(id) ==> m.children() =~= nodes.insert(a, leaf));
        assert forall|i: int| 0 <= i < m.children().len() implies readable(#[trigger] m.children()[i]) by {
            if n.has(id) {
                if i != n.position(id) {
                    lemma_all_readable_index(nodes, i);
                }
            } else if i < a {
                lemma_all_readable_index(nodes, i);
            } else if i > a {
                lemma_all_readable_index(nodes, i - 1);
            }
        }
        lemma_all_readable(m.children());
    }
}

/// Removing a field keeps a tree one that can be read back.
pub proof fn lemma_remove_field_readable(n: Node, id: u64)
    requires
        readable(n),
    ensures
        readable(n.without(id)),
{
    if let Node::Master { id: own, width, children: nodes } = n {
        lemma_filter_readable(nodes, id);
    }
}

proof fn lemma_filter_readable(nodes: Seq<Node>, id: u64)
    requires
        all_readable(nodes),
    ensures
        all_readable(nodes.filter(|m: Node| m.id() != id)),
    decreases nodes.len(),
{
    reveal(Seq::filter);
    let keep = |m: Node| m.id() != id;
    if nodes.len() > 0 {
        lemma_filter_readable(nodes.drop_last(), id);
        let rest = nodes.drop_last().filter(keep);
        if keep(nodes.last()) {
            assert(rest.push(nodes.last()).drop_last() =~= rest);
        }
    }
}

} // verus!
