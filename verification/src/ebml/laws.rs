//! What holds between reading, changing and writing element trees.

use vstd::prelude::*;

use crate::ebml::id;
use crate::ebml::vint::MAX_SIZE;
#[allow(unused_imports)]
use crate::ebml::crc::{crc_of, le4};
#[allow(unused_imports)]
use crate::ebml::node::{
    after, checksum_bytes, element_bytes, encoded, encoded_all, first_of, has_checksum, head_of, holds_children,
    left_out, lemma_first_of, lemma_first_with, parsed, payload, sized_bytes, written_width, Node,
};
#[allow(unused_imports)]
use crate::ebml::vint::{
    canonical_id, id_at, id_bytes, id_size, lemma_id_at, lemma_id_at_canonical, lemma_id_at_local, lemma_id_bytes_len,
    lemma_size_at, lemma_size_at_bound, lemma_size_at_is_written, lemma_size_at_local, lemma_size_bytes_len,
    lemma_size_marker_table, lemma_size_size, size_at, size_bytes, size_size, size_size_from,
};
#[allow(unused_imports)]
use crate::ebml::bytes::be_bytes;

verus! {

// ---------------------------------------------------------------------------
// Writing and reading back
// ---------------------------------------------------------------------------

/// A node that can be read back: its ID says its own width, and it has
/// children exactly where the ID is that of a master.
pub open spec fn readable(n: Node) -> bool
    decreases n,
{
    &&& canonical_id(n.id())
    &&& match n {
        Node::Master { id, children, .. } => holds_children(id) && all_readable(children),
        Node::Data { id, .. } => !holds_children(id),
    }
}

pub open spec fn all_readable(nodes: Seq<Node>) -> bool
    decreases nodes,
{
    nodes.len() == 0 || (readable(nodes.last()) && all_readable(nodes.drop_last()))
}

pub proof fn lemma_all_readable_index(nodes: Seq<Node>, i: int)
    requires
        all_readable(nodes),
        0 <= i < nodes.len(),
    ensures
        readable(nodes[i]),
    decreases nodes.len(),
{
    if i < nodes.len() - 1 {
        lemma_all_readable_index(nodes.drop_last(), i);
    }
}

pub proof fn lemma_all_readable(nodes: Seq<Node>)
    requires
        forall|i: int| 0 <= i < nodes.len() ==> readable(#[trigger] nodes[i]),
    ensures
        all_readable(nodes),
    decreases nodes.len(),
{
    if nodes.len() > 0 {
        assert(readable(nodes[nodes.len() - 1]));
        assert forall|i: int| 0 <= i < nodes.drop_last().len() implies readable(
            #[trigger] nodes.drop_last()[i],
        ) by {
            assert(readable(nodes[i]));
        }
        lemma_all_readable(nodes.drop_last());
    }
}

/// The tree that is read back from what is written for `n`: the padding is
/// gone, a checksum stands first and is right, and each size is as wide as it
/// was written.
pub open spec fn settled(n: Node) -> Node
    decreases n, 1nat,
{
    match n {
        Node::Data { id, width, bytes } => Node::Data {
            id,
            width: written_width(width, bytes.len() as u64),
            bytes,
        },
        Node::Master { id, width, children } => Node::Master {
            id,
            width: written_width(width, payload(n).len() as u64),
            children: settled_children(children),
        },
    }
}

/// The checksum that is read back for `body`.
pub open spec fn checksum_of(body: Seq<u8>) -> Node {
    Node::Data { id: id::CRC32, width: 1, bytes: le4(crc_of(body)) }
}

pub open spec fn settled_children(nodes: Seq<Node>) -> Seq<Node>
    decreases nodes, 1nat,
{
    if has_checksum(nodes) {
        seq![checksum_of(encoded_all(nodes))] + settled_all(nodes)
    } else {
        settled_all(nodes)
    }
}

/// The settled form of each node, but for those left out.
pub open spec fn settled_all(nodes: Seq<Node>) -> Seq<Node>
    decreases nodes, 0nat,
{
    if nodes.len() == 0 {
        Seq::empty()
    } else {
        let rest = settled_all(nodes.drop_last());
        if left_out(nodes.last()) {
            rest
        } else {
            rest.push(settled(nodes.last()))
        }
    }
}

/// The width that a size is written in is one it can have, and a size of that
/// width is written in it again.
pub proof fn lemma_written_width(width: usize, v: u64)
    ensures
        1 <= size_size(v) <= written_width(width, v) <= 8,
        written_width(written_width(width, v), v) == written_width(width, v),
{
    lemma_size_size(v);
}

/// The header of a written element is read as its ID and the length of its
/// payload.
pub proof fn lemma_sized_head(id: u64, width: usize, body: Seq<u8>, rest: Seq<u8>)
    requires
        canonical_id(id),
        body.len() <= MAX_SIZE,
    ensures
        ({
            let one = sized_bytes(id, width, body);
            let w = written_width(width, body.len() as u64);
            let start = id_size(id) + w;
            &&& id_at(one + rest, 0) == Some((id, id_size(id)))
            &&& size_at(one + rest, id_size(id) as int) == Some((body.len() as u64, w))
            &&& one.len() == start + body.len()
            &&& head_of(one + rest) == Ok::<(u64, int, int), Seq<char>>((id, start, one.len() as int))
            &&& (one + rest).subrange(start, one.len() as int) == body
            &&& (one + rest).skip(one.len() as int) == rest
        }),
{
    let n = body.len() as u64;
    let w = written_width(width, n) as nat;
    let one = sized_bytes(id, width, body);
    let buf = one + rest;
    let il = id_size(id) as int;
    lemma_id_bytes_len(id);
    lemma_written_width(width, n);
    lemma_size_bytes_len(n, w);
    assert(buf.subrange(0, il) =~= id_bytes(id));
    lemma_id_at(buf, 0, id);
    assert(buf.subrange(il, il + w) =~= size_bytes(n, w));
    lemma_size_at(buf, il, n, w);
    assert(buf.subrange(il + w, one.len() as int) =~= body);
    assert(buf.skip(one.len() as int) =~= rest);
}

/// The rest of a buffer is read after its first element.
proof fn lemma_parsed_cons(first: Node, width: usize, body: Seq<u8>, rest: Seq<u8>)
    requires
        canonical_id(first.id()),
        body.len() <= MAX_SIZE,
        first.width() == written_width(width, body.len() as u64),
        match first {
            Node::Master { id, children, .. } => holds_children(id) && parsed(body) == Ok::<
                Seq<Node>,
                Seq<char>,
            >(children),
            Node::Data { id, bytes, .. } => !holds_children(id) && bytes == body,
        },
    ensures
        parsed(sized_bytes(first.id(), width, body) + rest) == after(seq![first], parsed(rest)),
{
    lemma_sized_head(first.id(), width, body, rest);
    lemma_written_width(width, body.len() as u64);
    let buf = sized_bytes(first.id(), width, body) + rest;
    let end = sized_bytes(first.id(), width, body).len() as int;
    assert(first_of(buf) == Ok::<(Node, int), Seq<char>>((first, end)));
    lemma_first_of(buf);
    assert(buf.skip(end) == rest);
}

proof fn lemma_encoded_all_append(a: Seq<Node>, b: Seq<Node>)
    ensures
        encoded_all(a + b) == encoded_all(a) + encoded_all(b),
        settled_all(a + b) == settled_all(a) + settled_all(b),
    decreases b.len(),
{
    if b.len() == 0 {
        assert(a + b =~= a);
        assert(encoded_all(a) + encoded_all(b) =~= encoded_all(a));
        assert(settled_all(a) + settled_all(b) =~= settled_all(a));
    } else {
        lemma_encoded_all_append(a, b.drop_last());
        assert((a + b).drop_last() =~= a + b.drop_last());
        assert((a + b).last() == b.last());
        assert(encoded_all(a + b) =~= encoded_all(a) + encoded_all(b));
        assert(settled_all(a + b) =~= settled_all(a) + settled_all(b));
    }
}

/// Writing the first node, and the others.
proof fn lemma_encoded_all_first(nodes: Seq<Node>)
    requires
        nodes.len() > 0,
    ensures
        encoded_all(nodes) == (if left_out(nodes[0]) {
            encoded_all(nodes.drop_first())
        } else {
            encoded(nodes[0]) + encoded_all(nodes.drop_first())
        }),
        settled_all(nodes) == (if left_out(nodes[0]) {
            settled_all(nodes.drop_first())
        } else {
            seq![settled(nodes[0])] + settled_all(nodes.drop_first())
        }),
{
    let one = seq![nodes[0]];
    lemma_encoded_all_append(one, nodes.drop_first());
    assert(one + nodes.drop_first() =~= nodes);
    assert(one.drop_last() =~= Seq::<Node>::empty());
    assert(one.last() == nodes[0]);
    assert(encoded_all(Seq::<Node>::empty()) =~= Seq::<u8>::empty());
    assert(settled_all(Seq::<Node>::empty()) =~= Seq::<Node>::empty());
    if left_out(nodes[0]) {
        assert(encoded_all(one) =~= Seq::<u8>::empty());
        assert(settled_all(one) =~= Seq::<Node>::empty());
        assert(encoded_all(nodes) =~= encoded_all(nodes.drop_first()));
        assert(settled_all(nodes) =~= settled_all(nodes.drop_first()));
    } else {
        assert(encoded_all(one) =~= encoded(nodes[0]));
        assert(settled_all(one) =~= seq![settled(nodes[0])]);
    }
}

/// The parts of a payload are no longer than the whole.
proof fn lemma_encoded_len(n: Node)
    ensures
        payload(n).len() <= encoded(n).len(),
{
}

/// What is written for a tree is read back as its settled form.
pub proof fn lemma_payload_reads_back(n: Node)
    requires
        readable(n),
        n is Master,
        payload(n).len() <= MAX_SIZE,
    ensures
        parsed(payload(n)) == Ok::<Seq<Node>, Seq<char>>(settled_children(n.children())),
    decreases n, 1nat, 0nat,
{
    let nodes = n.children();
    let body = encoded_all(nodes);
    if has_checksum(nodes) {
        assert(payload(n) == checksum_bytes(body) + body);
        assert(body.len() <= payload(n).len());
        lemma_body_reads_back(nodes);
        let sum = le4(crc_of(body));
        reveal_with_fuel(be_bytes, 2);
        reveal_with_fuel(size_size_from, 2);
        lemma_size_marker_table();
        assert(0x04u8 | 0x80u8 == 0x84u8) by (bit_vector);
        assert(size_size(4) == 1);
        assert(id_bytes(id::CRC32) =~= seq![0xBFu8]);
        assert(size_bytes(4, 1) =~= seq![0x84u8]);
        lemma_parsed_cons(checksum_of(body), 1, sum, body);
        assert(sized_bytes(id::CRC32, 1, sum) =~= checksum_bytes(body));
    } else {
        lemma_body_reads_back(nodes);
    }
}

/// What is written for nodes in order is read back as their settled forms.
pub proof fn lemma_body_reads_back(nodes: Seq<Node>)
    requires
        all_readable(nodes),
        encoded_all(nodes).len() <= MAX_SIZE,
    ensures
        parsed(encoded_all(nodes)) == Ok::<Seq<Node>, Seq<char>>(settled_all(nodes)),
    decreases nodes, 0nat, nodes.len(),
{
    if nodes.len() > 0 {
        let rest = nodes.drop_first();
        lemma_encoded_all_first(nodes);
        lemma_all_readable_index(nodes, 0);
        assert forall|i: int| 0 <= i < rest.len() implies readable(#[trigger] rest[i]) by {
            lemma_all_readable_index(nodes, i + 1);
        }
        lemma_all_readable(rest);
        lemma_body_reads_back(rest);
        if !left_out(nodes[0]) {
            let first = nodes[0];
            lemma_encoded_len(first);
            if first is Master {
                lemma_payload_reads_back(first);
            }
            lemma_parsed_cons(settled(first), first.width(), payload(first), encoded_all(rest));
        }
    }
}

/// Writing the settled form of a tree gives the bytes that writing the tree
/// gave.
pub proof fn lemma_settled_same_bytes(n: Node)
    ensures
        payload(settled(n)) == payload(n),
        encoded(settled(n)) == encoded(n),
    decreases n, 1nat,
{
    lemma_written_width(n.width(), payload(n).len() as u64);
    if let Node::Master { id, width, children } = n {
        lemma_settled_all_same_bytes(children);
        let s = settled_all(children);
        if has_checksum(children) {
            let all = seq![checksum_of(encoded_all(children))] + s;
            lemma_encoded_all_first(all);
            assert(all.drop_first() =~= s);
            assert(all[0].id() == id::CRC32);
            assert(has_checksum(all));
        }
    }
}

proof fn lemma_settled_all_same_bytes(nodes: Seq<Node>)
    ensures
        encoded_all(settled_all(nodes)) == encoded_all(nodes),
        !has_checksum(settled_all(nodes)),
    decreases nodes, 0nat,
{
    if nodes.len() > 0 {
        lemma_settled_all_same_bytes(nodes.drop_last());
        let rest = settled_all(nodes.drop_last());
        if !left_out(nodes.last()) {
            lemma_settled_same_bytes(nodes.last());
            let all = rest.push(settled(nodes.last()));
            assert(all.drop_last() =~= rest);
            assert(all.last().id() == nodes.last().id());
            assert forall|i: int| 0 <= i < all.len() implies (#[trigger] all[i]).id() != id::CRC32 by {
                if i < rest.len() {
                    assert(all[i] == rest[i]);
                }
            }
        }
    }
}

/// Everything that is read can be written: nothing but readable nodes comes out
/// of a buffer.
pub proof fn lemma_parsed_readable(buf: Seq<u8>)
    ensures
        match parsed(buf) {
            Ok(nodes) => all_readable(nodes),
            Err(_) => true,
        },
    decreases buf.len(),
{
    if buf.len() > 0 {
        if let Ok((id, start, end)) = head_of(buf) {
            lemma_id_at_canonical(buf, 0);
            lemma_size_at_bound(buf, id_size(id) as int);
            let inner = buf.subrange(start, end);
            lemma_parsed_readable(inner);
            lemma_parsed_readable(buf.skip(end));
            if let Ok(nodes) = parsed(buf) {
                assert(first_of(buf) is Ok);
                assert((first_of(buf)->Ok_0).1 == end);
                assert(nodes == after(seq![(first_of(buf)->Ok_0).0], parsed(buf.skip(end)))->Ok_0);
                assert(parsed(buf.skip(end)) is Ok);
                let more = parsed(buf.skip(end))->Ok_0;
                assert forall|i: int| 0 <= i < nodes.len() implies readable(#[trigger] nodes[i]) by {
                    if i > 0 {
                        assert(nodes[i] == more[i - 1]);
                        lemma_all_readable_index(more, i - 1);
                    }
                }
                lemma_all_readable(nodes);
            }
        }
    }
}

/// A tree that was written is read back: parsing the payload gives the settled
/// form of its children.
pub proof fn law_tree_reads_back(n: Node)
    requires
        n is Master,
        readable(n),
        payload(n).len() <= MAX_SIZE,
    ensures
        parsed(payload(n)) == Ok::<Seq<Node>, Seq<char>>(settled(n).children()),
{
    lemma_payload_reads_back(n);
}

/// Writing, reading and writing again gives the same bytes.
pub proof fn law_tree_round_trips(n: Node)
    requires
        n is Master,
        readable(n),
        payload(n).len() <= MAX_SIZE,
    ensures
        parsed(payload(n)) is Ok,
        encoded(n.with_children(parsed(payload(n))->Ok_0)) == encoded(n),
{
    lemma_payload_reads_back(n);
    lemma_settled_same_bytes(n);
}

/// The node with no width kept, at any depth: its IDs, children and bytes.
pub open spec fn bare(n: Node) -> Node
    decreases n, 1nat,
{
    match n {
        Node::Master { id, children, .. } => Node::branch(id, bare_all(children)),
        Node::Data { id, bytes, .. } => Node::leaf(id, bytes),
    }
}

pub open spec fn bare_all(nodes: Seq<Node>) -> Seq<Node>
    decreases nodes, 0nat,
{
    if nodes.len() == 0 {
        Seq::empty()
    } else {
        bare_all(nodes.drop_last()).push(bare(nodes.last()))
    }
}

/// A tree without checksums or padding is read back with the same IDs, children
/// and bytes.
pub proof fn law_plain_tree_is_settled(n: Node)
    requires
        plain(n),
    ensures
        bare(settled(n)) == bare(n),
    decreases n, 1nat,
{
    if let Node::Master { id, width, children } = n {
        lemma_plain_all(children);
    }
}

/// No checksum and no padding below the node.
pub open spec fn plain(n: Node) -> bool
    decreases n, 1nat,
{
    match n {
        Node::Master { children, .. } => all_plain(children),
        Node::Data { .. } => true,
    }
}

pub open spec fn all_plain(nodes: Seq<Node>) -> bool
    decreases nodes, 0nat,
{
    nodes.len() == 0 || (!left_out(nodes.last()) && plain(nodes.last()) && all_plain(
        nodes.drop_last(),
    ))
}

proof fn lemma_plain_all(nodes: Seq<Node>)
    requires
        all_plain(nodes),
    ensures
        bare_all(settled_all(nodes)) == bare_all(nodes),
        !has_checksum(nodes),
    decreases nodes, 0nat,
{
    if nodes.len() > 0 {
        lemma_plain_all(nodes.drop_last());
        law_plain_tree_is_settled(nodes.last());
        let all = settled_all(nodes);
        assert(all.drop_last() =~= settled_all(nodes.drop_last()));
        assert(all.last() == settled(nodes.last()));
        assert forall|i: int| 0 <= i < nodes.len() implies (#[trigger] nodes[i]).id() != id::CRC32 by {
            if i < nodes.len() - 1 {
                assert(nodes[i] == nodes.drop_last()[i]);
            }
        }
    }
}

// ---------------------------------------------------------------------------
// Elements that are carried through
// ---------------------------------------------------------------------------

/// The bytes of the first element are what is written for its payload with the
/// width that its size has.
proof fn lemma_head_is_written(buf: Seq<u8>)
    requires
        head_of(buf) is Ok,
    ensures
        ({
            let (id, start, end) = head_of(buf)->Ok_0;
            &&& id_size(id) < start <= end <= buf.len()
            &&& end - start <= MAX_SIZE
            &&& written_width((start - id_size(id)) as usize, (end - start) as u64) == start - id_size(id)
            &&& buf.take(end) == sized_bytes(id, (start - id_size(id)) as usize, buf.subrange(start, end))
        }),
{
    let (id, start, end) = head_of(buf)->Ok_0;
    let il = id_size(id) as int;
    lemma_id_at_canonical(buf, 0);
    lemma_size_at_bound(buf, il);
    lemma_size_at_is_written(buf, il);
    lemma_id_bytes_len(id);
    lemma_size_size((end - start) as u64);
    assert(buf.take(end) =~= buf.subrange(0, il) + buf.subrange(il, start) + buf.subrange(start, end));
}

/// Elements that are neither padding nor a checksum, and hold none at any depth,
/// are written as they were read, byte for byte, understood or not; and so is
/// the payload of a master that holds them.
pub proof fn law_elements_survive(buf: Seq<u8>, nodes: Seq<Node>)
    requires
        parsed(buf) == Ok::<Seq<Node>, Seq<char>>(nodes),
        forall|i: int| 0 <= i < nodes.len() ==> !left_out(#[trigger] nodes[i]) && plain(nodes[i]),
    ensures
        encoded_all(nodes) == buf,
        forall|id: u64| #[trigger] encoded(Node::branch(id, nodes)) == element_bytes(id, buf),
{
    lemma_all_plain(nodes);
    lemma_plain_all(nodes);
    lemma_plain_survive(buf, nodes);
    assert forall|id: u64| #[trigger] encoded(Node::branch(id, nodes)) == element_bytes(id, buf) by {
        assert(payload(Node::branch(id, nodes)) == buf);
    }
}

proof fn lemma_all_plain(nodes: Seq<Node>)
    requires
        forall|i: int| 0 <= i < nodes.len() ==> !left_out(#[trigger] nodes[i]) && plain(nodes[i]),
    ensures
        all_plain(nodes),
    decreases nodes.len(),
{
    if nodes.len() > 0 {
        let front = nodes.drop_last();
        assert forall|i: int| 0 <= i < front.len() implies !left_out(#[trigger] front[i]) && plain(front[i]) by {
            assert(front[i] == nodes[i]);
        }
        lemma_all_plain(front);
        assert(!left_out(nodes[nodes.len() - 1]));
    }
}

/// What was read without padding or checksums is written as it was.
proof fn lemma_plain_survive(buf: Seq<u8>, nodes: Seq<Node>)
    requires
        parsed(buf) == Ok::<Seq<Node>, Seq<char>>(nodes),
        all_plain(nodes),
    ensures
        encoded_all(nodes) == buf,
    decreases buf.len(),
{
    if buf.len() > 0 {
        let (id, start, end) = head_of(buf)->Ok_0;
        lemma_head_is_written(buf);
        let inner = buf.subrange(start, end);
        let (first, _) = first_of(buf)->Ok_0;
        let rest = parsed(buf.skip(end))->Ok_0;
        assert(nodes == seq![first] + rest);
        assert(nodes.drop_first() =~= rest);
        lemma_all_plain_first(nodes);
        lemma_plain_survive(buf.skip(end), rest);
        if holds_children(id) {
            lemma_plain_survive(inner, first.children());
            lemma_plain_all(first.children());
        }
        assert(payload(first) == inner);
        assert(encoded(first) == buf.take(end));
        lemma_encoded_all_first(nodes);
        assert(buf.take(end) + buf.skip(end) =~= buf);
    } else {
        assert(encoded_all(nodes) =~= buf);
    }
}

/// The first of plain nodes is plain, and so are the others.
proof fn lemma_all_plain_first(nodes: Seq<Node>)
    requires
        all_plain(nodes),
        nodes.len() > 0,
    ensures
        plain(nodes[0]),
        !left_out(nodes[0]),
        all_plain(nodes.drop_first()),
    decreases nodes.len(),
{
    if nodes.len() > 1 {
        lemma_all_plain_first(nodes.drop_last());
        assert(nodes.drop_first().drop_last() =~= nodes.drop_last().drop_first());
        assert(nodes.drop_first().last() == nodes.last());
    }
}

/// The header at the front does not depend on what follows the element.
proof fn lemma_head_with_more(buf: Seq<u8>, more: Seq<u8>)
    requires
        head_of(buf) is Ok,
    ensures
        head_of(buf + more) == head_of(buf),
        ({
            let (_, start, end) = head_of(buf)->Ok_0;
            0 < start <= end <= buf.len()
        }),
{
    let (id, start, end) = head_of(buf)->Ok_0;
    let il = id_size(id) as int;
    lemma_id_at_canonical(buf, 0);
    lemma_size_at_bound(buf, il);
    assert(buf.subrange(0, il) =~= (buf + more).subrange(0, il));
    lemma_id_at_local(buf, buf + more, 0, 0);
    assert(buf.subrange(il, start) =~= (buf + more).subrange(il, start));
    lemma_size_at_local(buf, buf + more, il, il);
}

/// Elements are read one list after the other.
proof fn lemma_parsed_append(a: Seq<u8>, b: Seq<u8>)
    requires
        parsed(a) is Ok,
        parsed(b) is Ok,
    ensures
        parsed(a + b) == Ok::<Seq<Node>, Seq<char>>(parsed(a)->Ok_0 + parsed(b)->Ok_0),
    decreases a.len(),
{
    if a.len() == 0 {
        assert(a + b =~= b);
        assert(parsed(a)->Ok_0 + parsed(b)->Ok_0 =~= parsed(b)->Ok_0);
    } else {
        let (first, end) = first_of(a)->Ok_0;
        let (_, start, _) = head_of(a)->Ok_0;
        lemma_head_with_more(a, b);
        assert((a + b).subrange(start, end) =~= a.subrange(start, end));
        assert(first_of(a + b) == first_of(a));
        assert((a + b).skip(end) =~= a.skip(end) + b);
        lemma_parsed_append(a.skip(end), b);
        let rest = parsed(a.skip(end))->Ok_0;
        assert(seq![first] + (rest + parsed(b)->Ok_0) =~= (seq![first] + rest) + parsed(b)->Ok_0);
    }
}

/// An element keeps its bytes and its place, whatever stands before and behind
/// it: `one`, which is read as `e`, is written as it was among the others. This
/// is so of everything that is not understood, and of a master that holds no
/// padding and no checksum.
pub proof fn law_element_survives_among_others(before: Seq<u8>, one: Seq<u8>, rest: Seq<u8>, e: Node)
    requires
        parsed(one) == Ok::<Seq<Node>, Seq<char>>(seq![e]),
        plain(e),
        !left_out(e),
        parsed(before) is Ok,
        parsed(rest) is Ok,
    ensures
        ({
            let all = parsed(before)->Ok_0 + seq![e] + parsed(rest)->Ok_0;
            &&& parsed(before + one + rest) == Ok::<Seq<Node>, Seq<char>>(all)
            &&& encoded(e) == one
            &&& encoded_all(all) == encoded_all(parsed(before)->Ok_0) + one + encoded_all(
                parsed(rest)->Ok_0,
            )
        }),
{
    let a = parsed(before)->Ok_0;
    let b = parsed(rest)->Ok_0;
    lemma_parsed_append(before, one);
    lemma_parsed_append(before + one, rest);
    law_elements_survive(one, seq![e]);
    lemma_encoded_all_first(seq![e]);
    assert(seq![e].drop_first() =~= Seq::<Node>::empty());
    assert(encoded_all(seq![e]) =~= encoded(e));
    law_other_elements_keep_their_bytes(a, e, b);
}

/// Where one element is put between others, or in the place of one, the others
/// are written as they would be without it, before and behind it.
pub proof fn law_other_elements_keep_their_bytes(before: Seq<Node>, e: Node, behind: Seq<Node>)
    requires
        !left_out(e),
    ensures
        encoded_all(before + seq![e] + behind) == encoded_all(before) + encoded(e) + encoded_all(behind),
{
    lemma_encoded_all_append(before, seq![e]);
    lemma_encoded_all_append(before + seq![e], behind);
    lemma_encoded_all_first(seq![e]);
    assert(seq![e].drop_first() =~= Seq::<Node>::empty());
    assert(encoded_all(seq![e]) =~= encoded(e));
}

/// Setting a field of a master leaves the bytes of its other children, and the
/// width of its own size.
pub proof fn law_set_field_keeps_other_bytes(n: Node, id: u64, bytes: Seq<u8>, at: nat)
    requires
        n is Master,
        id != id::CRC32 && id != id::VOID,
    ensures
        ({
            let nodes = n.children();
            let here = if n.has(id) {
                n.position(id)
            } else if at <= nodes.len() {
                at as int
            } else {
                nodes.len() as int
            };
            let next = if n.has(id) {
                here + 1
            } else {
                here
            };
            &&& n.with_data(id, bytes, at).width() == n.width()
            &&& 0 <= here <= next <= nodes.len()
            &&& encoded_all(n.with_data(id, bytes, at).children()) == encoded_all(nodes.take(here))
                + element_bytes(id, bytes) + encoded_all(nodes.skip(next))
        }),
{
    let nodes = n.children();
    let leaf = Node::leaf(id, bytes);
    lemma_first_with(nodes, id, 0);
    let here = if n.has(id) {
        n.position(id)
    } else if at <= nodes.len() {
        at as int
    } else {
        nodes.len() as int
    };
    let next = if n.has(id) {
        here + 1
    } else {
        here
    };
    assert(n.with_data(id, bytes, at).children() =~= nodes.take(here) + seq![leaf] + nodes.skip(next));
    law_other_elements_keep_their_bytes(nodes.take(here), leaf, nodes.skip(next));
    assert(encoded(leaf) == element_bytes(id, bytes));
}

} // verus!
