//! What a rewritten file is made of, and the Position element of a cluster.

use vstd::prelude::*;

use crate::ebml::id;
use crate::ebml::value::{uint_bytes, uint_bytes_fixed};
use crate::ebml::vint::{read_id, read_size, write_id, write_size, UNKNOWN};
#[allow(unused_imports)]
use crate::ebml::bytes::lemma_be_bytes_len;
#[allow(unused_imports)]
use crate::ebml::node::element_bytes;
#[allow(unused_imports)]
use crate::ebml::value::{lemma_uint_width_word, uint_data, uint_data_fixed};
#[allow(unused_imports)]
use crate::ebml::vint::{
    id_at, id_bytes, lemma_id_at_canonical, lemma_id_bytes_len, lemma_size_at_bound, lemma_size_bytes_len,
    lemma_size_marker_table, lemma_size_size, size_at, size_bytes, size_size, size_size_from,
};
use crate::mkv::child::TopChild;
use crate::mkv::source::MAX_FILE_LEN;
#[allow(unused_imports)]
use crate::mkv::source::clipped;

verus! {

#[derive(Debug)]
pub enum Piece {
    /// Copy bytes straight from the source file.
    Copy { off: u64, len: u64 },
    Bytes(Vec<u8>),
}

/// The model of [`Piece`].
pub enum PieceModel {
    Copy { off: u64, len: u64 },
    Bytes(Seq<u8>),
}

impl View for Piece {
    type V = PieceModel;

    open spec fn view(&self) -> PieceModel {
        match *self {
            Piece::Copy { off, len } => PieceModel::Copy { off, len },
            Piece::Bytes(b) => PieceModel::Bytes(b@),
        }
    }
}

/// The models of pieces in order.
pub open spec fn piece_models(s: Seq<Piece>) -> Seq<PieceModel> {
    s.map_values(|p: Piece| p@)
}

/// How many bytes a piece stands for.
pub open spec fn piece_len(p: PieceModel) -> nat {
    match p {
        PieceModel::Copy { len, .. } => len as nat,
        PieceModel::Bytes(b) => b.len(),
    }
}

/// How many bytes pieces stand for.
pub open spec fn total_len(s: Seq<PieceModel>) -> nat
    decreases s.len(),
{
    if s.len() == 0 {
        0
    } else {
        total_len(s.drop_last()) + piece_len(s.last())
    }
}

/// The bytes that a piece stands for.
pub open spec fn piece_bytes(p: PieceModel, file: Seq<u8>) -> Seq<u8> {
    match p {
        PieceModel::Copy { off, len } => clipped(file, off as int, len as int),
        PieceModel::Bytes(b) => b,
    }
}

/// The bytes that pieces stand for, one after the other.
pub open spec fn laid_out(s: Seq<PieceModel>, file: Seq<u8>) -> Seq<u8>
    decreases s.len(),
{
    if s.len() == 0 {
        Seq::empty()
    } else {
        laid_out(s.drop_last(), file) + piece_bytes(s.last(), file)
    }
}

/// The first pieces are no longer than all of them.
pub proof fn lemma_total_len_take(s: Seq<PieceModel>, i: int)
    requires
        0 <= i <= s.len(),
    ensures
        total_len(s.take(i)) <= total_len(s),
    decreases s.len(),
{
    if i == s.len() {
        assert(s.take(i) =~= s);
    } else {
        lemma_total_len_take(s.drop_last(), i);
        assert(s.drop_last().take(i) =~= s.take(i));
    }
}

pub fn pieces_len(pieces: &Vec<Piece>) -> (r: u64)
    requires
        total_len(piece_models(pieces@)) <= u64::MAX,
    ensures
        r == total_len(piece_models(pieces@)),
{
    let ghost all = piece_models(pieces@);
    let mut sum: u64 = 0;
    let mut i: usize = 0;
    while i < pieces.len()
        invariant
            i <= pieces@.len(),
            all == piece_models(pieces@),
            total_len(all) <= u64::MAX,
            sum == total_len(all.take(i as int)),
        decreases pieces@.len() - i,
    {
        let len: u64 = match &pieces[i] {
            Piece::Copy { len, .. } => *len,
            Piece::Bytes(b) => b.len() as u64,
        };
        proof {
            assert(all.take(i + 1).drop_last() =~= all.take(i as int));
            assert(all.take(i + 1).last() == pieces@[i as int]@);
            lemma_total_len_take(all, i + 1);
        }
        sum = sum + len;
        i += 1;
    }
    assert(all.take(i as int) =~= all);
    sum
}

/// Location of a Cluster's Position element, relative to the cluster payload.
#[derive(Clone, Copy, Debug, PartialEq, Eq, Structural)]
pub struct PositionSlot {
    /// Offset of the element ID within the cluster payload.
    pub off: u64,
    /// Bytes of ID plus size VINT.
    pub header_len: u64,
    /// Payload length of the Position element.
    pub size: u64,
}

/// What an element header says of the search for the Position element.
#[derive(Clone, Copy, Debug, PartialEq, Eq, Structural)]
pub enum SlotStep {
    /// It is the header of the Position element.
    Found(PositionSlot),
    /// There is none: the data begins here, or the payload ends.
    Absent,
    /// The next header stands here in the payload.
    Next(u64),
}

/// One step of the search: the header that stands at `at` in the bytes and at
/// `off` in a payload of length `limit`. Blocks start the data; Position always
/// precedes them.
pub open spec fn slot_step(buf: Seq<u8>, at: int, off: int, limit: int) -> SlotStep {
    match id_at(buf, at) {
        None => SlotStep::Absent,
        Some((eid, il)) => match size_at(buf, at + il) {
            None => SlotStep::Absent,
            Some((size, sl)) => if eid == id::CLUSTER_POSITION {
                SlotStep::Found(PositionSlot { off: off as u64, header_len: (il + sl) as u64, size })
            } else if eid == id::SIMPLE_BLOCK || eid == id::BLOCK_GROUP || size == UNKNOWN {
                SlotStep::Absent
            } else if off + il + sl + size >= limit {
                SlotStep::Absent
            } else {
                SlotStep::Next((off + il + sl + size) as u64)
            },
        },
    }
}

/// A step leads forward, and not out of the payload.
pub proof fn lemma_slot_step(buf: Seq<u8>, at: int, off: int, limit: int)
    requires
        0 <= off,
        limit <= u64::MAX,
    ensures
        slot_step(buf, at, off, limit) matches SlotStep::Next(next) ==> off + 2 <= next < limit,
{
    lemma_id_at_canonical(buf, at);
    if let Some((eid, il)) = id_at(buf, at) {
        lemma_size_at_bound(buf, at + il);
    }
}

/// The Position element among the elements of a cluster's payload, no longer
/// than a word can count, from `pos` on.
pub open spec fn slot_from(payload: Seq<u8>, pos: int) -> Option<PositionSlot>
    decreases payload.len() - pos,
{
    if !(0 <= pos < payload.len() <= u64::MAX) {
        None
    } else {
        match slot_step(payload, pos, pos, payload.len() as int) {
            SlotStep::Found(slot) => Some(slot),
            SlotStep::Absent => None,
            SlotStep::Next(next) => {
                proof {
                    lemma_slot_step(payload, pos, pos, payload.len() as int);
                }
                slot_from(payload, next as int)
            },
        }
    }
}

/// A slot that was found lies in the payload with its header.
pub proof fn lemma_slot_from(payload: Seq<u8>, pos: int)
    requires
        0 <= pos,
        payload.len() <= u64::MAX,
    ensures
        match slot_from(payload, pos) {
            Some(slot) => {
                &&& 2 <= slot.header_len <= 12
                &&& slot.off >= pos
                &&& slot.off + slot.header_len <= payload.len()
                &&& id_at(payload, slot.off as int) is Some
                &&& (id_at(payload, slot.off as int)->0).0 == id::CLUSTER_POSITION
                &&& size_at(payload, slot.off + (id_at(payload, slot.off as int)->0).1) == Some(
                    (slot.size, (slot.header_len - (id_at(payload, slot.off as int)->0).1) as usize),
                )
            },
            None => true,
        },
    decreases payload.len() - pos,
{
    if pos < payload.len() {
        lemma_id_at_canonical(payload, pos);
        if let Some((eid, il)) = id_at(payload, pos) {
            lemma_size_at_bound(payload, pos + il);
        }
        lemma_slot_step(payload, pos, pos, payload.len() as int);
        if let SlotStep::Next(next) = slot_step(payload, pos, pos, payload.len() as int) {
            lemma_slot_from(payload, next as int);
        }
    }
}

/// Takes one step of the search.
pub fn step_to_slot(buf: &[u8], at: usize, off: u64, limit: u64) -> (r: SlotStep)
    requires
        off <= limit,
    ensures
        r == slot_step(buf@, at as int, off as int, limit as int),
{
    proof {
        lemma_id_at_canonical(buf@, at as int);
    }
    match read_id(buf, at) {
        None => SlotStep::Absent,
        Some((eid, il)) => {
            proof {
                lemma_size_at_bound(buf@, at + il);
                assert(buf.len() == buf@.len());
            }
            match read_size(buf, at + il) {
                None => SlotStep::Absent,
                Some((size, sl)) => {
                    let header_len: u64 = (il + sl) as u64;
                    if eid == id::CLUSTER_POSITION {
                        SlotStep::Found(PositionSlot { off, header_len, size })
                    } else if eid == id::SIMPLE_BLOCK || eid == id::BLOCK_GROUP || size == UNKNOWN {
                        // Blocks start the data; Position always precedes them.
                        SlotStep::Absent
                    } else if header_len >= limit - off || size >= limit - off - header_len {
                        SlotStep::Absent
                    } else {
                        SlotStep::Next(off + header_len + size)
                    }
                },
            }
        },
    }
}

/// Finds the Position element in a cluster's payload.
pub fn find_position_slot(payload: &[u8]) -> (r: Option<PositionSlot>)
    ensures
        r == slot_from(payload@, 0),
{
    let n: usize = payload.len();
    let mut pos: usize = 0;
    while pos < n
        invariant
            pos <= n,
            n == payload@.len(),
            slot_from(payload@, pos as int) == slot_from(payload@, 0),
        decreases n - pos,
    {
        proof {
            lemma_slot_step(payload@, pos as int, pos as int, n as int);
        }
        match step_to_slot(payload, pos, pos as u64, n as u64) {
            SlotStep::Found(slot) => {
                return Some(slot);
            },
            SlotStep::Absent => {
                return None;
            },
            SlotStep::Next(next) => {
                pos = next as usize;
            },
        }
    }
    None
}

/// Pieces for a Cluster whose Position element must be corrected: the value is
/// patched where it fits, else the Position element and the header of the
/// cluster are written anew.
pub open spec fn cluster_pieces_of(c: TopChild, slot: PositionSlot, new_rel: u64) -> Seq<PieceModel> {
    let value_off = c.data_at() + slot.off + slot.header_len;
    let tail = PieceModel::Copy {
        off: (value_off + slot.size) as u64,
        len: (c.end_at() - (value_off + slot.size)) as u64,
    };
    match uint_data_fixed(new_rel, slot.size as nat) {
        Some(bytes) => seq![
            PieceModel::Copy { off: c.start, len: (value_off - c.start) as u64 },
            PieceModel::Bytes(bytes),
            tail,
        ],
        None => seq![
            PieceModel::Bytes(widened_head(c, slot, new_rel)),
            PieceModel::Copy { off: c.data_at() as u64, len: slot.off },
            PieceModel::Bytes(position_bytes(new_rel)),
            tail,
        ],
    }
}

/// How long the payload of a cluster is whose Position element is written anew:
/// one byte of ID and one of size take the place of the old header.
pub open spec fn widened_size(c: TopChild, slot: PositionSlot, new_rel: u64) -> int {
    c.size + uint_data(new_rel).len() + 2 - slot.header_len - slot.size
}

/// The header of a cluster whose Position element is written anew.
pub open spec fn widened_head(c: TopChild, slot: PositionSlot, new_rel: u64) -> Seq<u8> {
    let n = widened_size(c, slot, new_rel) as u64;
    id_bytes(id::CLUSTER) + size_bytes(n, size_size(n) as nat)
}

/// A Position element with the value.
pub open spec fn position_bytes(new_rel: u64) -> Seq<u8> {
    element_bytes(id::CLUSTER_POSITION, uint_data(new_rel))
}

/// Whether the Position element ends within its cluster.
pub open spec fn slot_fits(c: TopChild, slot: PositionSlot) -> bool {
    slot.off + slot.header_len + slot.size <= c.size
}

/// One piece after another.
pub proof fn lemma_total_len_push(s: Seq<PieceModel>, p: PieceModel)
    ensures
        total_len(s.push(p)) == total_len(s) + piece_len(p),
{
    assert(s.push(p).drop_last() =~= s);
}

/// A Position element is two bytes of header and the value.
pub proof fn lemma_position_bytes(new_rel: u64)
    ensures
        1 <= uint_data(new_rel).len() <= 8,
        size_size(uint_data(new_rel).len() as u64) == 1,
        position_bytes(new_rel) == id_bytes(id::CLUSTER_POSITION) + size_bytes(
            uint_data(new_rel).len() as u64,
            1,
        ) + uint_data(new_rel),
        id_bytes(id::CLUSTER_POSITION).len() == 1,
        size_bytes(uint_data(new_rel).len() as u64, 1).len() == 1,
        position_bytes(new_rel).len() == 2 + uint_data(new_rel).len(),
{
    let n = uint_data(new_rel).len() as u64;
    lemma_uint_width_word(new_rel);
    reveal_with_fuel(size_size_from, 2);
    lemma_size_marker_table();
    lemma_id_bytes_len(id::CLUSTER_POSITION);
    lemma_size_bytes_len(n, 1);
}

/// How long a corrected cluster is: as long as it was where the value fits, and
/// else a new header and a new payload.
pub proof fn lemma_cluster_total(c: TopChild, slot: PositionSlot, new_rel: u64)
    requires
        slot_fits(c, slot),
        c.end_at() <= MAX_FILE_LEN,
    ensures
        total_len(cluster_pieces_of(c, slot, new_rel)) == (if uint_data_fixed(
            new_rel,
            slot.size as nat,
        ) is Some {
            c.extent()
        } else {
            widened_head(c, slot, new_rel).len() + widened_size(c, slot, new_rel)
        }),
        uint_data_fixed(new_rel, slot.size as nat) is None ==> {
            &&& widened_head(c, slot, new_rel).len() <= 12
            &&& 0 <= widened_size(c, slot, new_rel) <= c.size + 10
        },
{
    lemma_position_bytes(new_rel);
    let value_off = c.data_at() + slot.off + slot.header_len;
    let none = Seq::<PieceModel>::empty();
    let tail = PieceModel::Copy {
        off: (value_off + slot.size) as u64,
        len: (c.end_at() - (value_off + slot.size)) as u64,
    };
    match uint_data_fixed(new_rel, slot.size as nat) {
        Some(bytes) => {
            let front = PieceModel::Copy { off: c.start, len: (value_off - c.start) as u64 };
            let middle = PieceModel::Bytes(bytes);
            lemma_total_len_push(none, front);
            lemma_total_len_push(none.push(front), middle);
            lemma_total_len_push(none.push(front).push(middle), tail);
            assert(cluster_pieces_of(c, slot, new_rel) =~= none.push(front).push(middle).push(tail));
            lemma_be_bytes_len(new_rel as nat, slot.size as nat);
        },
        None => {
            let n = widened_size(c, slot, new_rel) as u64;
            let head = PieceModel::Bytes(widened_head(c, slot, new_rel));
            let front = PieceModel::Copy { off: c.data_at() as u64, len: slot.off };
            let position = PieceModel::Bytes(position_bytes(new_rel));
            lemma_id_bytes_len(id::CLUSTER);
            lemma_size_size(n);
            lemma_size_bytes_len(n, size_size(n) as nat);
            lemma_total_len_push(none, head);
            lemma_total_len_push(none.push(head), front);
            lemma_total_len_push(none.push(head).push(front), position);
            lemma_total_len_push(none.push(head).push(front).push(position), tail);
            assert(cluster_pieces_of(c, slot, new_rel) =~= none.push(head).push(front).push(position).push(tail));
        },
    }
}

/// Pieces for a Cluster whose Position element must be corrected.
pub fn cluster_pieces(c: &TopChild, slot: &PositionSlot, new_rel: u64) -> (r: Vec<Piece>)
    requires
        slot_fits(*c, *slot),
        c.end_at() <= MAX_FILE_LEN,
        c.size <= usize::MAX,
    ensures
        piece_models(r@) == cluster_pieces_of(*c, *slot, new_rel),
        total_len(piece_models(r@)) <= u64::MAX,
{
    proof {
        lemma_position_bytes(new_rel);
        lemma_cluster_total(*c, *slot, new_rel);
    }
    let value_off: u64 = c.data_start() + slot.off + slot.header_len;
    let tail_off: u64 = value_off + slot.size;
    let tail = Piece::Copy { off: tail_off, len: c.end() - tail_off };
    let mut out: Vec<Piece> = Vec::new();
    match uint_bytes_fixed(new_rel, slot.size as usize) {
        Some(bytes) => {
            // Same width: patch the value and leave every length alone.
            out.push(Piece::Copy { off: c.start, len: value_off - c.start });
            out.push(Piece::Bytes(bytes));
            out.push(tail);
        },
        None => {
            // The value no longer fits, so the Position element is written anew
            // and the cluster header with it.
            let mut value = uint_bytes(new_rel);
            let kept: u64 = c.size - slot.header_len - slot.size;
            let mut head: Vec<u8> = Vec::new();
            write_id(&mut head, id::CLUSTER);
            write_size(&mut head, kept + 2 + value.len() as u64);
            assert(head@ =~= widened_head(*c, *slot, new_rel));
            let mut position: Vec<u8> = Vec::new();
            write_id(&mut position, id::CLUSTER_POSITION);
            write_size(&mut position, value.len() as u64);
            position.append(&mut value);
            assert(position@ =~= position_bytes(new_rel));
            out.push(Piece::Bytes(head));
            out.push(Piece::Copy { off: c.data_start(), len: slot.off });
            out.push(Piece::Bytes(position));
            out.push(tail);
        },
    }
    assert(piece_models(out@) =~= cluster_pieces_of(*c, *slot, new_rel));
    out
}

} // verus!
