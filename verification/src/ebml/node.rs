//! What an element is: an ID with either children or bytes, and how it is laid
//! out on disk.

use vstd::prelude::*;

use crate::ebml::id;
#[allow(unused_imports)]
use crate::ebml::crc::{crc_of, le4};
#[allow(unused_imports)]
use crate::ebml::value::{float_of, string_of, uint_of, FloatBits};
#[allow(unused_imports)]
use crate::ebml::vint::{id_at, id_bytes, id_size, size_at, size_bytes, size_size, UNKNOWN};

verus! {

/// The mathematical model of an element: its ID, how wide its data size was
/// where it was read, and what it holds.
pub enum Node {
    Master { id: u64, width: usize, children: Seq<Node> },
    Data { id: u64, width: usize, bytes: Seq<u8> },
}

/// The first index from `from` on whose node has the ID, or the length.
pub open spec fn first_with(nodes: Seq<Node>, id: u64, from: int) -> int
    decreases nodes.len() - from,
{
    if from >= nodes.len() || nodes[from].id() == id {
        from
    } else {
        first_with(nodes, id, from + 1)
    }
}

impl Node {
    /// A new master with those children, whose size is as short as it can be.
    pub open spec fn branch(id: u64, children: Seq<Node>) -> Node {
        Node::Master { id, width: 0, children }
    }

    /// A new element of bytes, whose size is as short as it can be.
    pub open spec fn leaf(id: u64, bytes: Seq<u8>) -> Node {
        Node::Data { id, width: 0, bytes }
    }

    pub open spec fn id(self) -> u64 {
        match self {
            Node::Master { id, .. } => id,
            Node::Data { id, .. } => id,
        }
    }

    /// How many bytes the data size took where it was read, or zero.
    pub open spec fn width(self) -> usize {
        match self {
            Node::Master { width, .. } => width,
            Node::Data { width, .. } => width,
        }
    }

    /// The children of a master; other elements have none.
    pub open spec fn children(self) -> Seq<Node> {
        match self {
            Node::Master { children, .. } => children,
            Node::Data { .. } => Seq::empty(),
        }
    }

    /// The bytes of an element that is not a master; a master has none.
    pub open spec fn bytes(self) -> Seq<u8> {
        match self {
            Node::Master { .. } => Seq::empty(),
            Node::Data { bytes, .. } => bytes,
        }
    }

    /// Where the first child with the ID stands.
    pub open spec fn position(self, id: u64) -> int {
        first_with(self.children(), id, 0)
    }

    pub open spec fn has(self, id: u64) -> bool {
        self.position(id) < self.children().len()
    }

    /// The first child with the ID.
    pub open spec fn find(self, id: u64) -> Option<Node> {
        if self.has(id) {
            Some(self.children()[self.position(id)])
        } else {
            None
        }
    }

    pub open spec fn uint(self, id: u64) -> Option<u64> {
        match self.find(id) {
            Some(n) => Some(uint_of(n.bytes())),
            None => None,
        }
    }

    pub open spec fn float(self, id: u64) -> Option<FloatBits> {
        match self.find(id) {
            Some(n) => Some(float_of(n.bytes())),
            None => None,
        }
    }

    pub open spec fn text(self, id: u64) -> Option<Seq<char>> {
        match self.find(id) {
            Some(n) => Some(string_of(n.bytes())),
            None => None,
        }
    }

    /// The master with other children; an element of bytes stays as it is.
    pub open spec fn with_children(self, nodes: Seq<Node>) -> Node {
        match self {
            Node::Master { id, width, .. } => Node::Master { id, width, children: nodes },
            Node::Data { .. } => self,
        }
    }

    /// The master with `bytes` as the payload of its first child with the ID,
    /// or with a new child of that ID at `at`, or at the end where `at` lies
    /// past it.
    pub open spec fn with_data(self, id: u64, bytes: Seq<u8>, at: nat) -> Node {
        let nodes = self.children();
        let leaf = Node::leaf(id, bytes);
        if self.has(id) {
            self.with_children(nodes.update(self.position(id), leaf))
        } else if at <= nodes.len() {
            self.with_children(nodes.insert(at as int, leaf))
        } else {
            self.with_children(nodes.push(leaf))
        }
    }

    /// The master without any child of that ID.
    pub open spec fn without(self, id: u64) -> Node {
        self.with_children(self.children().filter(|n: Node| n.id() != id))
    }
}

// ---------------------------------------------------------------------------
// On disk
// ---------------------------------------------------------------------------

/// Children that are not written out as they are: padding is dropped, and a
/// checksum is made anew.
pub open spec fn left_out(n: Node) -> bool {
    n.id() == id::CRC32 || n.id() == id::VOID
}

/// Whether a child is a checksum.
pub open spec fn has_checksum(nodes: Seq<Node>) -> bool {
    exists|i: int| 0 <= i < nodes.len() && (#[trigger] nodes[i]).id() == id::CRC32
}

/// A checksum element for `body`.
pub open spec fn checksum_bytes(body: Seq<u8>) -> Seq<u8> {
    seq![0xBFu8, 0x84u8] + le4(crc_of(body))
}

/// An element on disk: its ID, the length of its payload, and the payload. The
/// length takes as many bytes as it did where the element was read.
pub open spec fn encoded(n: Node) -> Seq<u8>
    decreases n, 1nat,
{
    sized_bytes(n.id(), n.width(), payload(n))
}

/// How many bytes the data size `v` is written in: `width`, or as few as it
/// needs where that is no width it can have.
pub open spec fn written_width(width: usize, v: u64) -> usize {
    if size_size(v) <= width <= 8 {
        width
    } else {
        size_size(v)
    }
}

/// An element with that ID and payload on disk, its size `width` bytes wide
/// where it can be.
pub open spec fn sized_bytes(id: u64, width: usize, payload: Seq<u8>) -> Seq<u8> {
    let v = payload.len() as u64;
    id_bytes(id) + size_bytes(v, written_width(width, v) as nat) + payload
}

/// An element with that ID and payload on disk, its size as short as it can be.
pub open spec fn element_bytes(id: u64, payload: Seq<u8>) -> Seq<u8> {
    id_bytes(id) + size_bytes(payload.len() as u64, size_size(payload.len() as u64) as nat) + payload
}

/// The payload of an element: its bytes, or its children one after the other,
/// with a checksum of them in front where there was one.
pub open spec fn payload(n: Node) -> Seq<u8>
    decreases n, 0nat,
{
    match n {
        Node::Data { bytes, .. } => bytes,
        Node::Master { children, .. } => {
            let body = encoded_all(children);
            if has_checksum(children) {
                checksum_bytes(body) + body
            } else {
                body
            }
        },
    }
}

/// The elements on disk one after the other, but for those left out.
pub open spec fn encoded_all(nodes: Seq<Node>) -> Seq<u8>
    decreases nodes, 0nat,
{
    if nodes.len() == 0 {
        Seq::empty()
    } else {
        let rest = encoded_all(nodes.drop_last());
        if left_out(nodes.last()) {
            rest
        } else {
            rest + encoded(nodes.last())
        }
    }
}

/// IDs that hold child elements. Anything else is kept as an opaque blob so
/// that unknown or unhandled elements survive a rewrite untouched.
pub open spec fn holds_children(id: u64) -> bool {
    ||| id == id::SEGMENT
    ||| id == id::SEEK_HEAD
    ||| id == id::SEEK
    ||| id == id::INFO
    ||| id == id::TRACKS
    ||| id == id::TRACK_ENTRY
    ||| id == id::VIDEO
    ||| id == id::AUDIO
    ||| id == id::CONTENT_ENCODINGS
    ||| id == id::CUES
    ||| id == id::CUE_POINT
    ||| id == id::CUE_TRACK_POSITIONS
    ||| id == id::CUE_REFERENCE
}

pub fn is_master(id: u64) -> (r: bool)
    ensures
        r == holds_children(id),
{
    id == id::SEGMENT || id == id::SEEK_HEAD || id == id::SEEK || id == id::INFO || id == id::TRACKS
        || id == id::TRACK_ENTRY || id == id::VIDEO || id == id::AUDIO || id
        == id::CONTENT_ENCODINGS || id == id::CUES || id == id::CUE_POINT || id
        == id::CUE_TRACK_POSITIONS || id == id::CUE_REFERENCE
}

/// The ID of the element at the start of `buf`, and where its payload starts
/// and ends.
pub open spec fn head_of(buf: Seq<u8>) -> Result<(u64, int, int), Seq<char>> {
    match id_at(buf, 0) {
        None => Err("bad element ID"@),
        Some((id, id_len)) => match size_at(buf, id_len as int) {
            None => Err("bad element size"@),
            Some((size, size_len)) => {
                let start = id_len + size_len;
                if size == UNKNOWN {
                    Err("unknown size inside a master element"@)
                } else if start + size > buf.len() {
                    Err("element runs past the end of its parent"@)
                } else {
                    Ok((id, start as int, start + size))
                }
            },
        },
    }
}

/// The element at the start of `buf` with the width of its size, and where it
/// ends.
pub open spec fn first_of(buf: Seq<u8>) -> Result<(Node, int), Seq<char>>
    decreases buf.len(), 0nat,
{
    match head_of(buf) {
        Err(e) => Err(e),
        Ok((id, start, end)) => {
            let inner = buf.subrange(start, end);
            let width = (start - id_size(id)) as usize;
            if holds_children(id) {
                match parsed(inner) {
                    Ok(children) => Ok((Node::Master { id, width, children }, end)),
                    Err(e) => Err(e),
                }
            } else {
                Ok((Node::Data { id, width, bytes: inner }, end))
            }
        },
    }
}

/// The elements that a master's payload holds: `Err` with the reason where one
/// of them, at any depth, is broken, and then with the first such reason.
pub open spec fn parsed(buf: Seq<u8>) -> Result<Seq<Node>, Seq<char>>
    decreases buf.len(), 1nat,
{
    if buf.len() == 0 {
        Ok(Seq::empty())
    } else {
        match first_of(buf) {
            Err(e) => Err(e),
            Ok((node, end)) => if 0 < end <= buf.len() {
                after(seq![node], parsed(buf.skip(end)))
            } else {
                Err("element runs past the end of its parent"@)
            },
        }
    }
}

/// Every element takes room, and lies within the buffer.
pub proof fn lemma_first_of(buf: Seq<u8>)
    ensures
        match first_of(buf) {
            Ok((node, end)) => 2 <= end <= buf.len(),
            Err(_) => true,
        },
{
}

/// Elements that were read already, and what comes of the rest.
pub open spec fn after(nodes: Seq<Node>, rest: Result<Seq<Node>, Seq<char>>) -> Result<
    Seq<Node>,
    Seq<char>,
> {
    match rest {
        Ok(more) => Ok(nodes + more),
        Err(e) => Err(e),
    }
}

// ---------------------------------------------------------------------------
// Searching
// ---------------------------------------------------------------------------

/// What `first_with` finds.
pub proof fn lemma_first_with(nodes: Seq<Node>, id: u64, from: int)
    requires
        0 <= from <= nodes.len(),
    ensures
        from <= first_with(nodes, id, from) <= nodes.len(),
        forall|i: int| from <= i < first_with(nodes, id, from) ==> (#[trigger] nodes[i]).id() != id,
        first_with(nodes, id, from) < nodes.len() ==> nodes[first_with(nodes, id, from)].id() == id,
    decreases nodes.len() - from,
{
    if from < nodes.len() && nodes[from].id() != id {
        lemma_first_with(nodes, id, from + 1);
    }
}

/// Only one index can be the first.
pub proof fn lemma_first_with_unique(nodes: Seq<Node>, id: u64, at: int)
    requires
        0 <= at <= nodes.len(),
        at < nodes.len() ==> nodes[at].id() == id,
        forall|i: int| 0 <= i < at ==> (#[trigger] nodes[i]).id() != id,
    ensures
        first_with(nodes, id, 0) == at,
{
    lemma_first_with(nodes, id, 0);
    let k = first_with(nodes, id, 0);
    if k < at {
        assert(nodes[k].id() != id);
    }
    if at < k {
        assert(nodes[at].id() != id);
    }
}

} // verus!
