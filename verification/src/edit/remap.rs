//! Stored positions, and where they point once the elements have moved.

use vstd::prelude::*;

use crate::ebml::element::{Body, Element};
use crate::ebml::id;
use crate::ebml::value::{read_uint, uint_bytes};
#[allow(unused_imports)]
use crate::ebml::element::{lemma_nodes_index, lemma_nodes_len, nodes_of};
#[allow(unused_imports)]
use crate::ebml::node::Node;
#[allow(unused_imports)]
use crate::ebml::value::{uint_data, uint_of};

verus! {

broadcast use {lemma_nodes_len, lemma_nodes_index};

/// Where the Segment's children stood and stand, as offsets from the start of
/// its payload, and how long they were and are.
#[derive(Debug)]
pub struct Moves {
    pub old_rel: Vec<u64>,
    pub old_len: Vec<u64>,
    pub starts: Vec<u64>,
    pub new_len: Vec<u64>,
}

/// The model of [`Moves`].
pub struct MovesModel {
    pub old_rel: Seq<u64>,
    pub old_len: Seq<u64>,
    pub starts: Seq<u64>,
    pub new_len: Seq<u64>,
}

impl View for Moves {
    type V = MovesModel;

    open spec fn view(&self) -> MovesModel {
        MovesModel {
            old_rel: self.old_rel@,
            old_len: self.old_len@,
            starts: self.starts@,
            new_len: self.new_len@,
        }
    }
}

/// The last of some numbers, or zero.
pub open spec fn last_or_zero(s: Seq<u64>) -> u64 {
    if s.len() == 0 {
        0
    } else {
        s.last()
    }
}

impl MovesModel {
    /// As many of each as there are children, and no position out of reach.
    pub open spec fn wf(self) -> bool {
        &&& self.old_len.len() == self.old_rel.len()
        &&& self.starts.len() == self.old_rel.len()
        &&& self.new_len.len() == self.old_rel.len()
        &&& forall|i: int|
            0 <= i < self.old_rel.len() ==> (#[trigger] self.old_rel[i]) + self.old_len[i] <= u64::MAX
        &&& forall|i: int|
            0 <= i < self.old_rel.len() ==> (#[trigger] self.starts[i]) + self.old_len[i] <= u64::MAX
        &&& forall|i: int|
            0 <= i < self.old_rel.len() ==> (#[trigger] self.starts[i]) + self.new_len[i] <= u64::MAX
    }

    /// Whether the position lay in the child.
    pub open spec fn holds(self, i: int, p: u64) -> bool {
        self.old_rel[i] <= p < self.old_rel[i] + self.old_len[i]
    }

    /// The first child from `from` on that the position lay in, or the number
    /// of children.
    pub open spec fn holder(self, p: u64, from: int) -> int
        decreases self.old_rel.len() - from,
    {
        if from >= self.old_rel.len() || self.holds(from, p) {
            from
        } else {
            self.holder(p, from + 1)
        }
    }

    /// Where the children ended.
    pub open spec fn old_end(self) -> int {
        last_or_zero(self.old_rel) + last_or_zero(self.old_len)
    }

    /// Where the children end.
    pub open spec fn new_end(self) -> int {
        last_or_zero(self.starts) + last_or_zero(self.new_len)
    }

    /// By how much the end has moved: less than zero where it moved down.
    pub open spec fn growth(self) -> int {
        self.new_end() - self.old_end()
    }

    /// Where a stored position points in the new layout: to the same place in
    /// the child that it lay in. Past the last child it moves as the end does, in
    /// the arithmetic of a 64 bit word; what lies in no child and not past the
    /// last stays.
    pub open spec fn place(self, p: u64) -> u64 {
        let i = self.holder(p, 0);
        if i < self.old_rel.len() {
            (self.starts[i] + (p - self.old_rel[i])) as u64
        } else if p >= self.old_end() {
            ((p + self.growth()) % 0x1_0000_0000_0000_0000) as u64
        } else {
            p
        }
    }
}

fn last_value(s: &Vec<u64>) -> (r: u64)
    ensures
        r == last_or_zero(s@),
{
    if s.len() == 0 {
        0
    } else {
        s[s.len() - 1]
    }
}

/// Maps a position relative to the Segment data start from the old layout to
/// the new one.
pub fn map_pos(m: &Moves, p: u64) -> (r: u64)
    requires
        m@.wf(),
    ensures
        r == m@.place(p),
{
    let n: usize = m.old_rel.len();
    let mut i: usize = 0;
    while i < n
        invariant
            i <= n,
            n == m.old_rel@.len(),
            m@.wf(),
            m@.holder(p, i as int) == m@.holder(p, 0),
        decreases n - i,
    {
        assert(m@.old_rel[i as int] + m@.old_len[i as int] <= u64::MAX);
        assert(m@.starts[i as int] + m@.old_len[i as int] <= u64::MAX);
        if p >= m.old_rel[i] && p < m.old_rel[i] + m.old_len[i] {
            return m.starts[i] + (p - m.old_rel[i]);
        }
        i += 1;
    }
    // Past the last child, which should not happen in a well formed file: shift
    // by the overall delta. Leave anything before the first child where it is.
    proof {
        if n > 0 {
            assert(m@.old_rel[n - 1] + m@.old_len[n - 1] <= u64::MAX);
            assert(m@.starts[n - 1] + m@.new_len[n - 1] <= u64::MAX);
        }
    }
    let old_end: u64 = last_value(&m.old_rel) + last_value(&m.old_len);
    let new_end: u64 = last_value(&m.starts) + last_value(&m.new_len);
    if p >= old_end {
        if new_end >= old_end {
            p.wrapping_add(new_end - old_end)
        } else {
            p - (old_end - new_end)
        }
    } else {
        p
    }
}

// ---------------------------------------------------------------------------
// Positions in element trees
// ---------------------------------------------------------------------------

/// The element with its position moved where it is a `leaf`, else as it is.
pub open spec fn leaf_moved(e: Node, leaf: u64, m: MovesModel) -> Node {
    if e.id() == leaf {
        Node::leaf(leaf, uint_data(m.place(uint_of(e.bytes()))))
    } else {
        e
    }
}

/// The element with the position of every child that is a `leaf` moved.
pub open spec fn leaves_moved(n: Node, leaf: u64, m: MovesModel) -> Node {
    n.with_children(n.children().map_values(|e: Node| leaf_moved(e, leaf, m)))
}

/// One entry of a SeekHead with its position moved.
pub open spec fn seek_moved(e: Node, m: MovesModel) -> Node {
    if e.id() == id::SEEK {
        leaves_moved(e, id::SEEK_POSITION, m)
    } else {
        e
    }
}

/// A SeekHead with every position in it moved.
pub open spec fn seek_head_moved(n: Node, m: MovesModel) -> Node {
    n.with_children(n.children().map_values(|e: Node| seek_moved(e, m)))
}

/// One element of a cue point with the positions in it moved.
pub open spec fn track_positions_moved(e: Node, m: MovesModel) -> Node {
    if e.id() == id::CUE_TRACK_POSITIONS {
        leaves_moved(e, id::CUE_CLUSTER_POSITION, m)
    } else {
        e
    }
}

/// One element of a Cues element with the positions in it moved.
pub open spec fn cue_moved(e: Node, m: MovesModel) -> Node {
    if e.id() == id::CUE_POINT {
        e.with_children(e.children().map_values(|t: Node| track_positions_moved(t, m)))
    } else {
        e
    }
}

/// A Cues element with every position in it moved.
pub open spec fn cues_moved(n: Node, m: MovesModel) -> Node {
    n.with_children(n.children().map_values(|e: Node| cue_moved(e, m)))
}

/// Moves the position of every child that is a `leaf`.
fn move_leaves(e: &Element, leaf: u64, m: &Moves) -> (r: Element)
    requires
        m@.wf(),
    ensures
        r@ == leaves_moved(e@, leaf, m@),
{
    match &e.body {
        Body::Data(_) => e.clone(),
        Body::Master(children) => {
            let mut out: Vec<Element> = Vec::new();
            let mut i: usize = 0;
            while i < children.len()
                invariant
                    i <= children@.len(),
                    m@.wf(),
                    out@.len() == i,
                    forall|k: int|
                        0 <= k < i ==> (#[trigger] out@[k])@ == leaf_moved(children@[k]@, leaf, m@),
                decreases children@.len() - i,
            {
                let c = &children[i];
                let moved = if c.id == leaf {
                    let old = read_uint(c.bytes());
                    Element::data(leaf, uint_bytes(map_pos(m, old)))
                } else {
                    c.clone()
                };
                out.push(moved);
                i += 1;
            }
            assert(nodes_of(out@) =~= nodes_of(children@).map_values(|e: Node| leaf_moved(e, leaf, m@)));
            Element { id: e.id, width: e.width, body: Body::Master(out) }
        },
    }
}

/// Rewrites every SeekPosition in a SeekHead.
pub fn remap_seek_head(el: &Element, m: &Moves) -> (r: Element)
    requires
        m@.wf(),
    ensures
        r@ == seek_head_moved(el@, m@),
{
    match &el.body {
        Body::Data(_) => el.clone(),
        Body::Master(children) => {
            let mut out: Vec<Element> = Vec::new();
            let mut i: usize = 0;
            while i < children.len()
                invariant
                    i <= children@.len(),
                    m@.wf(),
                    out@.len() == i,
                    forall|k: int|
                        0 <= k < i ==> (#[trigger] out@[k])@ == seek_moved(children@[k]@, m@),
                decreases children@.len() - i,
            {
                let c = &children[i];
                let moved = if c.id == id::SEEK {
                    move_leaves(c, id::SEEK_POSITION, m)
                } else {
                    c.clone()
                };
                out.push(moved);
                i += 1;
            }
            assert(nodes_of(out@) =~= nodes_of(children@).map_values(|e: Node| seek_moved(e, m@)));
            Element { id: el.id, width: el.width, body: Body::Master(out) }
        },
    }
}

/// Rewrites every CueClusterPosition in a cue point.
fn move_cue_point(point: &Element, m: &Moves) -> (r: Element)
    requires
        m@.wf(),
        point@.id() == id::CUE_POINT,
    ensures
        r@ == cue_moved(point@, m@),
{
    match &point.body {
        Body::Data(_) => point.clone(),
        Body::Master(children) => {
            let mut out: Vec<Element> = Vec::new();
            let mut i: usize = 0;
            while i < children.len()
                invariant
                    i <= children@.len(),
                    m@.wf(),
                    out@.len() == i,
                    forall|k: int|
                        0 <= k < i ==> (#[trigger] out@[k])@ == track_positions_moved(children@[k]@, m@),
                decreases children@.len() - i,
            {
                let c = &children[i];
                let moved = if c.id == id::CUE_TRACK_POSITIONS {
                    move_leaves(c, id::CUE_CLUSTER_POSITION, m)
                } else {
                    c.clone()
                };
                out.push(moved);
                i += 1;
            }
            assert(nodes_of(out@) =~= nodes_of(children@).map_values(|t: Node| track_positions_moved(t, m@)));
            Element { id: point.id, width: point.width, body: Body::Master(out) }
        },
    }
}

/// Rewrites every CueClusterPosition in a Cues element.
pub fn remap_cues(el: &Element, m: &Moves) -> (r: Element)
    requires
        m@.wf(),
    ensures
        r@ == cues_moved(el@, m@),
{
    match &el.body {
        Body::Data(_) => el.clone(),
        Body::Master(children) => {
            let mut out: Vec<Element> = Vec::new();
            let mut i: usize = 0;
            while i < children.len()
                invariant
                    i <= children@.len(),
                    m@.wf(),
                    out@.len() == i,
                    forall|k: int|
                        0 <= k < i ==> (#[trigger] out@[k])@ == cue_moved(children@[k]@, m@),
                decreases children@.len() - i,
            {
                let c = &children[i];
                let moved = if c.id == id::CUE_POINT {
                    move_cue_point(c, m)
                } else {
                    c.clone()
                };
                out.push(moved);
                i += 1;
            }
            assert(nodes_of(out@) =~= nodes_of(children@).map_values(|e: Node| cue_moved(e, m@)));
            Element { id: el.id, width: el.width, body: Body::Master(out) }
        },
    }
}

} // verus!
