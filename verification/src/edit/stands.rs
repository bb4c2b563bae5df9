//! The children of a rewritten file: each is an element with the ID that it
//! had, and holds what it should.

use vstd::prelude::*;

use crate::ebml::id;
use crate::ebml::vint::MAX_SIZE;
#[allow(unused_imports)]
use crate::ebml::laws::{lemma_all_readable, lemma_all_readable_index, lemma_written_width, readable};
#[allow(unused_imports)]
use crate::ebml::node::{element_bytes, holds_children, sized_bytes, written_width, Node};
#[allow(unused_imports)]
use crate::ebml::bytes::{be, lemma_be_bytes_len, lemma_be_of_be_bytes, lemma_pow256_monotonic};
#[allow(unused_imports)]
use crate::ebml::value::{lemma_uint_width, uint_data, uint_data_fixed, uint_width};
#[allow(unused_imports)]
use crate::ebml::vint::{
    canonical_id, id_at, id_bytes, id_size, lemma_id_at, lemma_id_at_canonical, lemma_id_at_local, lemma_id_bytes_len,
    lemma_size_at, lemma_size_at_bound, lemma_size_at_local, lemma_size_bytes_len, lemma_size_size, size_at,
    size_bytes, size_size,
};
#[allow(unused_imports)]
use crate::edit::layout::copied;
#[allow(unused_imports)]
use crate::edit::piece::{
    cluster_pieces_of, laid_out, lemma_position_bytes, lemma_slot_from, piece_bytes, position_bytes, slot_fits,
    slot_from, widened_head, widened_size, PieceModel, PositionSlot,
};
#[allow(unused_imports)]
use crate::edit::remap::{
    cue_moved, cues_moved, leaf_moved, leaves_moved, seek_head_moved, seek_moved, track_positions_moved, MovesModel,
};
use crate::mkv::child::TopChild;
use crate::mkv::source::MAX_FILE_LEN;
#[allow(unused_imports)]
use crate::mkv::local::{lemma_header_moved, lemma_header_written};
#[allow(unused_imports)]
use crate::mkv::source::{file_source, header_at};
#[allow(unused_imports)]
use crate::mkv::walk::{child_at, lemma_child_at};

verus! {

/// Whether the bytes are one element with that ID, and the length of its
/// header.
pub open spec fn is_element(bytes: Seq<u8>, id: u64, header_len: u64) -> bool {
    &&& header_len <= bytes.len()
    &&& bytes.len() <= MAX_FILE_LEN
    &&& header_at(file_source(bytes), 0) == Ok::<(u64, u64, u64), Seq<char>>(
        (id, (bytes.len() - header_len) as u64, header_len),
    )
}

/// An element is found wherever its bytes stand.
pub proof fn lemma_element_stands(bytes: Seq<u8>, id: u64, header_len: u64, file: Seq<u8>, pos: u64)
    requires
        is_element(bytes, id, header_len),
        bytes.len() - header_len <= MAX_SIZE,
        pos + bytes.len() <= file.len(),
        file.subrange(pos as int, pos + bytes.len()) == bytes,
    ensures
        header_at(file_source(file), pos) == Ok::<(u64, u64, u64), Seq<char>>(
            (id, (bytes.len() - header_len) as u64, header_len),
        ),
{
    assert(bytes.subrange(0, header_len as int) =~= file.subrange(pos as int, pos + header_len));
    lemma_header_moved(bytes, file, 0, pos);
}

/// What is written as an element is one, however wide its size is.
pub proof fn lemma_sized_bytes_is(id: u64, width: usize, body: Seq<u8>)
    requires
        canonical_id(id),
        body.len() <= MAX_SIZE,
    ensures
        ({
            let b = sized_bytes(id, width, body);
            let start = id_size(id) + written_width(width, body.len() as u64);
            &&& is_element(b, id, start as u64)
            &&& b.len() == start + body.len()
            &&& b.skip(start) == body
        }),
{
    let n = body.len() as u64;
    let w = written_width(width, n) as nat;
    let b = sized_bytes(id, width, body);
    lemma_id_bytes_len(id);
    lemma_written_width(width, n);
    lemma_size_bytes_len(n, w);
    assert(b.subrange(0, id_size(id) + w) =~= id_bytes(id) + size_bytes(n, w));
    lemma_header_written(b, 0, id, n, w);
    assert(b.skip(id_size(id) + w) =~= body);
}

/// The same of an element whose size is as short as it can be.
pub proof fn lemma_element_bytes_is(id: u64, body: Seq<u8>)
    requires
        canonical_id(id),
        body.len() <= MAX_SIZE,
    ensures
        is_element(element_bytes(id, body), id, (id_size(id) + size_size(body.len() as u64)) as u64),
        element_bytes(id, body).len() == id_size(id) + size_size(body.len() as u64) + body.len(),
        element_bytes(id, body).skip(id_size(id) + size_size(body.len() as u64)) == body,
{
    lemma_sized_bytes_is(id, 0, body);
    assert(sized_bytes(id, 0, body) == element_bytes(id, body));
}

/// A child that was found is an element.
pub proof fn lemma_child_is_element(file: Seq<u8>, c: TopChild, end: u64)
    requires
        end <= file.len() <= MAX_FILE_LEN,
        child_at(file_source(file), c.start, end) == Ok::<TopChild, Seq<char>>(c),
    ensures
        is_element(file.subrange(c.start as int, c.end_at()), c.id, c.header_len),
{
    lemma_child_at(file_source(file), c.start, end);
    let b = file.subrange(c.start as int, c.end_at());
    let h = c.header_len as int;
    assert(file.subrange(c.start as int, c.start + h) =~= b.subrange(0, h));
    lemma_header_moved(file, b, c.start, 0);
}

/// One piece.
pub proof fn lemma_laid_out_one(p: PieceModel, file: Seq<u8>)
    ensures
        laid_out(seq![p], file) == piece_bytes(p, file),
{
    reveal_with_fuel(laid_out, 2);
    assert(seq![p].drop_last() =~= Seq::<PieceModel>::empty());
    assert(laid_out(seq![p], file) =~= piece_bytes(p, file));
}

/// A child that is copied whole.
pub proof fn lemma_copied_bytes(c: TopChild, file: Seq<u8>)
    requires
        c.end_at() <= file.len(),
        file.len() <= MAX_FILE_LEN,
    ensures
        laid_out(copied(c), file) == file.subrange(c.start as int, c.end_at()),
{
    let p = PieceModel::Copy { off: c.start, len: c.extent() as u64 };
    lemma_laid_out_one(p, file);
    assert(piece_bytes(p, file) =~= file.subrange(c.start as int, c.end_at()));
}

// ---------------------------------------------------------------------------
// Trees whose positions were moved
// ---------------------------------------------------------------------------

proof fn lemma_leaves_moved_readable(n: Node, leaf: u64, m: MovesModel)
    requires
        readable(n),
        !holds_children(leaf),
    ensures
        readable(leaves_moved(n, leaf, m)),
        leaves_moved(n, leaf, m).id() == n.id(),
{
    if let Node::Master { id, width, children } = n {
        let moved = children.map_values(|e: Node| leaf_moved(e, leaf, m));
        assert forall|i: int| 0 <= i < moved.len() implies readable(#[trigger] moved[i]) by {
            lemma_all_readable_index(children, i);
            assert(moved[i] == leaf_moved(children[i], leaf, m));
        }
        lemma_all_readable(moved);
    }
}

/// A SeekHead with its positions moved can be read back.
pub proof fn lemma_seek_head_moved_readable(n: Node, m: MovesModel)
    requires
        readable(n),
    ensures
        readable(seek_head_moved(n, m)),
        seek_head_moved(n, m).id() == n.id(),
{
    if let Node::Master { id, width, children } = n {
        let moved = children.map_values(|e: Node| seek_moved(e, m));
        assert forall|i: int| 0 <= i < moved.len() implies readable(#[trigger] moved[i]) by {
            lemma_all_readable_index(children, i);
            lemma_leaves_moved_readable(children[i], id::SEEK_POSITION, m);
            assert(moved[i] == seek_moved(children[i], m));
        }
        lemma_all_readable(moved);
    }
}

proof fn lemma_cue_moved_readable(n: Node, m: MovesModel)
    requires
        readable(n),
    ensures
        readable(cue_moved(n, m)),
{
    if n.id() == id::CUE_POINT {
        if let Node::Master { id, width, children } = n {
            let moved = children.map_values(|t: Node| track_positions_moved(t, m));
            assert forall|i: int| 0 <= i < moved.len() implies readable(#[trigger] moved[i]) by {
                lemma_all_readable_index(children, i);
                lemma_leaves_moved_readable(children[i], id::CUE_CLUSTER_POSITION, m);
                assert(moved[i] == track_positions_moved(children[i], m));
            }
            lemma_all_readable(moved);
        }
    }
}

/// A Cues element with its positions moved can be read back.
pub proof fn lemma_cues_moved_readable(n: Node, m: MovesModel)
    requires
        readable(n),
    ensures
        readable(cues_moved(n, m)),
        cues_moved(n, m).id() == n.id(),
{
    if let Node::Master { id, width, children } = n {
        let moved = children.map_values(|e: Node| cue_moved(e, m));
        assert forall|i: int| 0 <= i < moved.len() implies readable(#[trigger] moved[i]) by {
            lemma_all_readable_index(children, i);
            lemma_cue_moved_readable(children[i], m);
            assert(moved[i] == cue_moved(children[i], m));
        }
        lemma_all_readable(moved);
    }
}

// ---------------------------------------------------------------------------
// Clusters whose position was corrected
// ---------------------------------------------------------------------------

/// The Position element is found where a header of one stands behind the same
/// bytes.
proof fn lemma_slot_found(a: Seq<u8>, b: Seq<u8>, pos: int, slot: PositionSlot, size: u64, width: usize)
    requires
        0 <= pos,
        a.len() <= u64::MAX,
        b.len() <= u64::MAX,
        slot_from(a, pos) == Some(slot),
        slot.off < b.len(),
        forall|k: int| 0 <= k < slot.off ==> a[k] == b[k],
        id_at(b, slot.off as int) == Some((id::CLUSTER_POSITION, 1usize)),
        size_at(b, slot.off + 1) == Some((size, width)),
        1 <= width <= 8,
    ensures
        slot_from(b, pos) == Some(
            PositionSlot { off: slot.off, header_len: (1 + width) as u64, size },
        ),
    decreases a.len() - pos,
{
    lemma_slot_from(a, pos);
    if pos < slot.off {
        lemma_id_at_canonical(a, pos);
        let (eid, il) = id_at(a, pos)->0;
        lemma_size_at_bound(a, pos + il);
        let (s, sl) = size_at(a, pos + il)->0;
        let next = pos + il + sl + s;
        if eid == id::CLUSTER_POSITION {
            assert(slot.off == pos);
        }
        lemma_slot_from(a, next);
        assert(next <= slot.off);
        assert(a.subrange(pos, pos + il) =~= b.subrange(pos, pos + il));
        lemma_id_at_local(a, b, pos, pos);
        assert(a.subrange(pos + il, pos + il + sl) =~= b.subrange(pos + il, pos + il + sl));
        lemma_size_at_local(a, b, pos + il, pos + il);
        lemma_slot_found(a, b, next, slot, size, width);
    }
}

/// Three or four pieces.
proof fn lemma_laid_out_few(a: PieceModel, b: PieceModel, c: PieceModel, d: PieceModel, file: Seq<u8>)
    ensures
        laid_out(seq![a, b, c], file) == piece_bytes(a, file) + piece_bytes(b, file) + piece_bytes(
            c,
            file,
        ),
        laid_out(seq![a, b, c, d], file) == piece_bytes(a, file) + piece_bytes(b, file) + piece_bytes(
            c,
            file,
        ) + piece_bytes(d, file),
{
    lemma_laid_out_one(a, file);
    assert(seq![a, b].drop_last() =~= seq![a]);
    assert(seq![a, b].last() == b);
    assert(laid_out(seq![a, b], file) == piece_bytes(a, file) + piece_bytes(b, file));
    assert(seq![a, b, c].drop_last() =~= seq![a, b]);
    assert(seq![a, b, c].last() == c);
    assert(laid_out(seq![a, b, c], file) == laid_out(seq![a, b], file) + piece_bytes(c, file));
    assert(seq![a, b, c, d].drop_last() =~= seq![a, b, c]);
    assert(seq![a, b, c, d].last() == d);
    assert(laid_out(seq![a, b, c, d], file) == laid_out(seq![a, b, c], file) + piece_bytes(d, file));
}

/// The parts of bytes that are put together.
proof fn lemma_five_parts(p: Seq<u8>, i: Seq<u8>, s: Seq<u8>, v: Seq<u8>, r: Seq<u8>)
    ensures
        ({
            let t = p + (i + s + v) + r;
            let a = p.len() as int;
            let b = a + i.len();
            let c = b + s.len();
            let d = c + v.len();
            &&& t.len() == d + r.len()
            &&& t.take(a) == p
            &&& t.subrange(a, b) == i
            &&& t.subrange(b, c) == s
            &&& t.subrange(c, d) == v
            &&& t.skip(d) == r
        }),
{
    let t = p + (i + s + v) + r;
    let a = p.len() as int;
    let b = a + i.len();
    let c = b + s.len();
    let d = c + v.len();
    assert(t.take(a) =~= p);
    assert(t.subrange(a, b) =~= i);
    assert(t.subrange(b, c) =~= s);
    assert(t.subrange(c, d) =~= v);
    assert(t.skip(d) =~= r);
}

/// How long the header of a corrected cluster is.
pub open spec fn cluster_header_len(c: TopChild, slot: PositionSlot, new_rel: u64) -> u64 {
    if uint_data_fixed(new_rel, slot.size as nat) is Some {
        c.header_len
    } else {
        (4 + size_size(widened_size(c, slot, new_rel) as u64)) as u64
    }
}

/// Where the Position element of a corrected cluster stands in its payload.
pub open spec fn corrected_slot(slot: PositionSlot, new_rel: u64) -> PositionSlot {
    if uint_data_fixed(new_rel, slot.size as nat) is Some {
        slot
    } else {
        PositionSlot { off: slot.off, header_len: 2, size: uint_data(new_rel).len() as u64 }
    }
}

/// What holds of the bytes of a corrected cluster: it is one, its Position
/// element says `new_rel`, and everything around that element is as it was.
pub open spec fn cluster_corrected(
    bytes: Seq<u8>,
    old: Seq<u8>,
    c: TopChild,
    slot: PositionSlot,
    new_rel: u64,
) -> bool {
    let h = cluster_header_len(c, slot, new_rel);
    let new = bytes.skip(h as int);
    let at = corrected_slot(slot, new_rel);
    let value_at = at.off + at.header_len;
    &&& is_element(bytes, id::CLUSTER, h)
    &&& bytes.len() - h <= MAX_SIZE
    &&& slot_from(new, 0) == Some(at)
    &&& value_at + at.size <= new.len()
    &&& be(new.subrange(value_at, value_at + at.size)) == new_rel
    &&& new.take(at.off as int) == old.take(at.off as int)
    &&& new.skip(value_at + at.size) == old.skip(slot.off + slot.header_len + slot.size)
}

/// The Position element is found where it was when nothing before its value has
/// changed.
proof fn lemma_slot_stays(old: Seq<u8>, new: Seq<u8>, slot: PositionSlot)
    requires
        old.len() <= u64::MAX,
        new.len() == old.len(),
        slot_from(old, 0) == Some(slot),
        forall|k: int| 0 <= k < slot.off + slot.header_len ==> #[trigger] old[k] == new[k],
    ensures
        slot_from(new, 0) == Some(slot),
{
    let off = slot.off as int;
    let sl = slot.header_len - 1;
    lemma_slot_from(old, 0);
    lemma_id_at_canonical(old, off);
    assert(old.subrange(off, off + 1) =~= new.subrange(off, off + 1));
    lemma_id_at_local(old, new, off, off);
    assert(old.subrange(off + 1, off + 1 + sl) =~= new.subrange(off + 1, off + 1 + sl));
    lemma_size_at_bound(old, off + 1);
    lemma_size_at_local(old, new, off + 1, off + 1);
    lemma_slot_found(old, new, 0, slot, slot.size, sl as usize);
}

/// The bytes of a cluster whose Position element has a new value: its header,
/// and a payload that differs in that value alone.
proof fn lemma_patched_bytes(c: TopChild, slot: PositionSlot, new_rel: u64, file: Seq<u8>)
    requires
        c.end_at() <= file.len() <= MAX_FILE_LEN,
        slot_fits(c, slot),
        uint_data_fixed(new_rel, slot.size as nat) is Some,
    ensures
        ({
            let voff = slot.off + slot.header_len;
            let old = file.subrange(c.data_at(), c.end_at());
            let bytes = laid_out(cluster_pieces_of(c, slot, new_rel), file);
            &&& bytes.len() == c.extent()
            &&& bytes.take(c.header_len as int) == file.subrange(c.start as int, c.data_at())
            &&& bytes.skip(c.header_len as int) == old.take(voff) + uint_data_fixed(
                new_rel,
                slot.size as nat,
            )->0 + old.skip(voff + slot.size)
        }),
{
    let value = uint_data_fixed(new_rel, slot.size as nat)->0;
    lemma_fixed_value(new_rel, slot.size as nat);
    let voff = slot.off + slot.header_len;
    let value_off = c.data_at() + voff;
    let front = PieceModel::Copy { off: c.start, len: (value_off - c.start) as u64 };
    let tail = PieceModel::Copy {
        off: (value_off + slot.size) as u64,
        len: (c.end_at() - (value_off + slot.size)) as u64,
    };
    lemma_laid_out_few(front, PieceModel::Bytes(value), tail, tail, file);
    let bytes = laid_out(cluster_pieces_of(c, slot, new_rel), file);
    let old = file.subrange(c.data_at(), c.end_at());
    let h = c.header_len as int;
    assert(piece_bytes(front, file) =~= file.subrange(c.start as int, value_off));
    assert(piece_bytes(tail, file) =~= old.skip(voff + slot.size));
    assert(bytes == file.subrange(c.start as int, value_off) + value + old.skip(voff + slot.size));
    assert(bytes.take(h) =~= file.subrange(c.start as int, c.data_at()));
    assert(bytes.skip(h) =~= old.take(voff) + value + old.skip(voff + slot.size));
}

proof fn lemma_cluster_patched(c: TopChild, slot: PositionSlot, new_rel: u64, file: Seq<u8>, end: u64)
    requires
        end <= file.len() <= MAX_FILE_LEN,
        child_at(file_source(file), c.start, end) == Ok::<TopChild, Seq<char>>(c),
        c.id == id::CLUSTER,
        slot_fits(c, slot),
        slot_from(file.subrange(c.data_at(), c.end_at()), 0) == Some(slot),
        uint_data_fixed(new_rel, slot.size as nat) is Some,
    ensures
        cluster_corrected(
            laid_out(cluster_pieces_of(c, slot, new_rel), file),
            file.subrange(c.data_at(), c.end_at()),
            c,
            slot,
            new_rel,
        ),
{
    lemma_child_at(file_source(file), c.start, end);
    lemma_patched_bytes(c, slot, new_rel, file);
    lemma_fixed_value(new_rel, slot.size as nat);
    let value = uint_data_fixed(new_rel, slot.size as nat)->0;
    let voff = slot.off + slot.header_len;
    let bytes = laid_out(cluster_pieces_of(c, slot, new_rel), file);
    let old = file.subrange(c.data_at(), c.end_at());
    let h = c.header_len as int;
    let new = bytes.skip(h);
    assert(file.subrange(c.start as int, c.start + h) =~= bytes.subrange(0, h));
    lemma_header_moved(file, bytes, c.start, 0);
    assert(new.take(slot.off as int) =~= old.take(slot.off as int));
    assert(new.skip(voff + slot.size) =~= old.skip(voff + slot.size));
    assert(new.subrange(voff, voff + slot.size) =~= value);
    lemma_slot_stays(old, new, slot);
}

/// A number spelled out over a fixed width is that number.
proof fn lemma_fixed_value(v: u64, len: nat)
    requires
        uint_data_fixed(v, len) is Some,
    ensures
        uint_data_fixed(v, len)->0.len() == len,
        be(uint_data_fixed(v, len)->0) == v,
{
    lemma_uint_width(v as nat);
    lemma_pow256_monotonic(uint_width(v as nat), len);
    lemma_be_bytes_len(v as nat, len);
    lemma_be_of_be_bytes(v as nat, len);
}

/// The payload of a cluster whose Position element is written anew.
#[verifier::opaque]
spec fn widened_payload(front: Seq<u8>, new_rel: u64, rest: Seq<u8>) -> Seq<u8> {
    front + position_bytes(new_rel) + rest
}

proof fn lemma_widened_payload(slot: PositionSlot, old: Seq<u8>, new_rel: u64, rest: Seq<u8>)
    requires
        old.len() <= MAX_FILE_LEN,
        slot.off + rest.len() <= old.len(),
        slot_from(old, 0) == Some(slot),
    ensures
        ({
            let inner = widened_payload(old.take(slot.off as int), new_rel, rest);
            let vn = uint_data(new_rel).len();
            let at = slot.off + 2;
            &&& 1 <= vn <= 8
            &&& inner.len() == at + vn + rest.len()
            &&& slot_from(inner, 0) == Some(
                PositionSlot { off: slot.off, header_len: 2, size: vn as u64 },
            )
            &&& be(inner.subrange(at, at + vn)) == new_rel
            &&& inner.take(slot.off as int) == old.take(slot.off as int)
            &&& inner.skip(at + vn) == rest
        }),
{
    reveal(widened_payload);
    let inner = widened_payload(old.take(slot.off as int), new_rel, rest);
    let value = uint_data(new_rel);
    let vn = value.len() as u64;
    let off = slot.off as int;
    lemma_slot_from(old, 0);
    lemma_position_bytes(new_rel);
    lemma_five_parts(old.take(off), id_bytes(id::CLUSTER_POSITION), size_bytes(vn, 1), value, rest);
    lemma_id_at(inner, off, id::CLUSTER_POSITION);
    lemma_size_at(inner, off + 1, vn, 1);
    assert forall|k: int| 0 <= k < off implies #[trigger] old[k] == inner[k] by {
        assert(inner.take(off)[k] == inner[k]);
    }
    lemma_slot_found(old, inner, 0, slot, vn, 1);
    lemma_uint_width(new_rel as nat);
    lemma_be_of_be_bytes(new_rel as nat, uint_width(new_rel as nat));
}

/// The bytes of a cluster whose Position element is written anew.
proof fn lemma_widened_bytes(c: TopChild, slot: PositionSlot, new_rel: u64, file: Seq<u8>)
    requires
        c.end_at() <= file.len() <= MAX_FILE_LEN,
        slot_fits(c, slot),
        uint_data_fixed(new_rel, slot.size as nat) is None,
    ensures
        ({
            let old = file.subrange(c.data_at(), c.end_at());
            let rest = old.skip(slot.off + slot.header_len + slot.size);
            laid_out(cluster_pieces_of(c, slot, new_rel), file) == widened_head(c, slot, new_rel)
                + widened_payload(old.take(slot.off as int), new_rel, rest)
        }),
{
    reveal(widened_payload);
    let old = file.subrange(c.data_at(), c.end_at());
    let rest = old.skip(slot.off + slot.header_len + slot.size);
    let tail_off = c.data_at() + slot.off + slot.header_len + slot.size;
    let tail = PieceModel::Copy { off: tail_off as u64, len: (c.end_at() - tail_off) as u64 };
    let front = PieceModel::Copy { off: c.data_at() as u64, len: slot.off };
    let head = widened_head(c, slot, new_rel);
    let position = position_bytes(new_rel);
    lemma_laid_out_few(PieceModel::Bytes(head), front, PieceModel::Bytes(position), tail, file);
    assert(piece_bytes(front, file) =~= old.take(slot.off as int));
    assert(piece_bytes(tail, file) =~= rest);
    assert(head + old.take(slot.off as int) + position + rest =~= head + (old.take(slot.off as int) + position + rest));
}

/// A cluster put together from a header and a payload whose Position element
/// was written anew is corrected.
proof fn lemma_widened_corrected(c: TopChild, slot: PositionSlot, new_rel: u64, old: Seq<u8>, bytes: Seq<u8>)
    requires
        slot_from(old, 0) == Some(slot),
        uint_data_fixed(new_rel, slot.size as nat) is None,
        slot_fits(c, slot),
        c.size + 8 <= MAX_SIZE,
        old.len() == c.size,
        bytes == widened_head(c, slot, new_rel) + widened_payload(
            old.take(slot.off as int),
            new_rel,
            old.skip(slot.off + slot.header_len + slot.size),
        ),
    ensures
        cluster_corrected(bytes, old, c, slot, new_rel),
{
    let rest = old.skip(slot.off + slot.header_len + slot.size);
    lemma_slot_from(old, 0);
    lemma_widened_payload(slot, old, new_rel, rest);
    let inner = widened_payload(old.take(slot.off as int), new_rel, rest);
    let n = widened_size(c, slot, new_rel) as u64;
    let w = size_size(n) as nat;
    lemma_id_bytes_len(id::CLUSTER);
    lemma_size_size(n);
    lemma_size_bytes_len(n, w);
    let h = 4 + w as int;
    let hd = widened_head(c, slot, new_rel);
    assert(inner.len() == n);
    assert(bytes.len() == h + n);
    assert(bytes.subrange(0, h) =~= hd);
    lemma_header_written(bytes, 0, id::CLUSTER, n, w);
    assert(bytes.skip(h) =~= inner);
}

/// A corrected cluster is one.
pub proof fn lemma_cluster_corrected(c: TopChild, slot: PositionSlot, new_rel: u64, file: Seq<u8>, end: u64)
    requires
        end <= file.len() <= MAX_FILE_LEN,
        child_at(file_source(file), c.start, end) == Ok::<TopChild, Seq<char>>(c),
        c.id == id::CLUSTER,
        slot_fits(c, slot),
        slot_from(file.subrange(c.data_at(), c.end_at()), 0) == Some(slot),
        c.size + 8 <= MAX_SIZE,
    ensures
        cluster_corrected(
            laid_out(cluster_pieces_of(c, slot, new_rel), file),
            file.subrange(c.data_at(), c.end_at()),
            c,
            slot,
            new_rel,
        ),
{
    if uint_data_fixed(new_rel, slot.size as nat) is Some {
        lemma_cluster_patched(c, slot, new_rel, file, end);
    } else {
        lemma_child_at(file_source(file), c.start, end);
        lemma_widened_bytes(c, slot, new_rel, file);
        lemma_widened_corrected(
            c,
            slot,
            new_rel,
            file.subrange(c.data_at(), c.end_at()),
            laid_out(cluster_pieces_of(c, slot, new_rel), file),
        );
    }
}

} // verus!
