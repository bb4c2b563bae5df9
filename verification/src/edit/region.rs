//! The room that a Tracks element takes on disk, with the padding behind it.

use vstd::prelude::*;

use crate::ebml::element::Element;
use crate::ebml::id;
use crate::ebml::vint::{id_len, size_len, write_id, write_size_with_len, MAX_SIZE, UNKNOWN};
use crate::ebml::void::void_of;
#[allow(unused_imports)]
use crate::ebml::node::payload;
#[allow(unused_imports)]
use crate::ebml::vint::{
    id_at, id_bytes, id_size, lemma_id_at, lemma_id_at_local, lemma_id_bytes_len, lemma_size_at, lemma_size_at_local,
    lemma_size_bytes_len, lemma_size_size, size_at, size_bytes, size_size,
};
#[allow(unused_imports)]
use crate::ebml::void::{law_void_fills_its_gap, lemma_void_len, void_bytes, void_size_width};
use crate::mkv::source::{read_header, HEADER_WINDOW, MAX_FILE_LEN};
#[allow(unused_imports)]
use crate::mkv::source::{answer, header_at, lemma_header_at, Source};

verus! {

/// Payload of the Tracks element, without its own ID and size header.
pub fn tracks_payload(tracks: &Element) -> (r: Vec<u8>)
    ensures
        r@ == payload(tracks@),
{
    tracks.payload_bytes()
}

/// How many bytes the Tracks element takes at least.
pub open spec fn tracks_extent(len: nat) -> nat {
    id_size(id::TRACKS) as nat + size_size(len as u64) as nat + len
}

/// A Tracks element whose size is stored in `width` bytes.
pub open spec fn tracks_bytes(payload: Seq<u8>, width: nat) -> Seq<u8> {
    id_bytes(id::TRACKS) + size_bytes(payload.len() as u64, width) + payload
}

/// A Tracks element with that payload and the padding behind it, `avail` bytes
/// in all. A gap of one byte cannot hold a Void, so the size is stored in one
/// byte more than it needs.
pub open spec fn region_of(payload: Seq<u8>, avail: nat) -> Option<Seq<u8>> {
    let width = size_size(payload.len() as u64) as nat;
    let need = tracks_extent(payload.len());
    if need > avail {
        None
    } else if avail - need == 1 {
        if width >= 8 {
            None
        } else {
            Some(tracks_bytes(payload, width + 1))
        }
    } else if avail == need {
        Some(tracks_bytes(payload, width))
    } else {
        Some(tracks_bytes(payload, width) + void_bytes((avail - need) as nat))
    }
}

/// Lays out a Tracks element that occupies exactly `avail` bytes, padding with
/// Void. Returns None when the payload cannot be made to fit.
pub fn build_region(payload: &[u8], avail: usize) -> (r: Option<Vec<u8>>)
    ensures
        match r {
            Some(out) => region_of(payload@, avail as nat) == Some(out@),
            None => region_of(payload@, avail as nat) is None,
        },
{
    let len: usize = payload.len();
    let head: usize = id_len(id::TRACKS) + size_len(len as u64);
    if len > avail || avail - len < head {
        return None;
    }
    let min_sl: usize = size_len(len as u64);
    let rem: usize = avail - len - head;
    let mut out: Vec<u8> = Vec::new();
    write_id(&mut out, id::TRACKS);
    // A one byte gap cannot hold a Void, so widen the size VINT instead; EBML
    // allows a longer than minimal encoding.
    if rem == 1 {
        if min_sl >= 8 {
            return None;
        }
        write_size_with_len(&mut out, len as u64, min_sl + 1);
    } else {
        write_size_with_len(&mut out, len as u64, min_sl);
    }
    out.extend_from_slice(payload);
    if rem > 1 {
        let mut pad = void_of(rem);
        out.append(&mut pad);
    }
    assert(region_of(payload@, avail as nat) is Some);
    assert(out@ =~= region_of(payload@, avail as nat)->0);
    Some(out)
}

/// A region is as long as the room.
pub proof fn lemma_region_len(payload: Seq<u8>, avail: nat)
    requires
        avail <= u64::MAX,
        region_of(payload, avail) is Some,
    ensures
        region_of(payload, avail)->0.len() == avail,
{
    let n = payload.len() as u64;
    let need = tracks_extent(payload.len());
    lemma_size_size(n);
    lemma_id_bytes_len(id::TRACKS);
    lemma_size_bytes_len(n, size_size(n) as nat);
    lemma_size_bytes_len(n, (size_size(n) + 1) as nat);
    if avail > need + 1 {
        lemma_void_len((avail - need) as nat);
    }
}

/// How many bytes the size of the Tracks element takes in a region.
pub open spec fn region_width(len: nat, avail: nat) -> nat {
    let width = size_size(len as u64) as nat;
    if avail - tracks_extent(len) == 1 {
        width + 1
    } else {
        width
    }
}

/// A region fills its room exactly and is read back: a Tracks element with the
/// payload, and behind it nothing or one Void that reaches to the end.
pub proof fn law_region_fills_exactly(payload: Seq<u8>, avail: nat)
    requires
        payload.len() <= MAX_SIZE,
        avail <= MAX_SIZE,
        region_of(payload, avail) is Some,
    ensures
        ({
            let r = region_of(payload, avail)->0;
            let w = region_width(payload.len(), avail);
            let used = (4 + w + payload.len()) as int;
            &&& r.len() == avail
            &&& id_at(r, 0) == Some((id::TRACKS, 4usize))
            &&& size_at(r, 4) == Some((payload.len() as u64, w as usize))
            &&& used <= avail
            &&& r.subrange((4 + w) as int, used) == payload
            &&& used < avail ==> {
                &&& id_at(r, used) == Some((id::VOID, 1usize))
                &&& size_at(r, used + 1) is Some
                &&& used + 1 + (size_at(r, used + 1)->0).1 + (size_at(r, used + 1)->0).0 == avail
            }
        }),
{
    let r = region_of(payload, avail)->0;
    let n = payload.len() as u64;
    let w = region_width(payload.len(), avail);
    let used = (4 + w + payload.len()) as int;
    lemma_size_size(n);
    lemma_id_bytes_len(id::TRACKS);
    lemma_size_bytes_len(n, w);
    assert(r.subrange(0, 4) =~= id_bytes(id::TRACKS));
    if used < avail {
        let pad = (avail - used) as nat;
        let void = void_bytes(pad);
        law_void_fills_its_gap(pad);
        let vw = void_size_width(pad) as int;
        assert(r =~= tracks_bytes(payload, w) + void);
        assert(void.subrange(0, 1) =~= r.subrange(used, used + 1));
        lemma_id_at_local(void, r, 0, used);
        assert(void.subrange(1, 1 + vw) =~= r.subrange(used + 1, used + 1 + vw));
        lemma_size_at_local(void, r, 1, used + 1);
    }
    lemma_id_at(r, 0, id::TRACKS);
    assert(r.subrange(4, (4 + w) as int) =~= size_bytes(n, w));
    lemma_size_at(r, 4, n, w);
    assert(r.subrange((4 + w) as int, used) =~= payload);
}

// ---------------------------------------------------------------------------
// The padding behind the old Tracks element
// ---------------------------------------------------------------------------

/// End of the run of Void elements starting at `pos` that end within `limit`.
pub open spec fn slack_end(src: Source, pos: u64, limit: u64) -> u64
    decreases limit - pos,
{
    if pos >= limit {
        pos
    } else {
        match header_at(src, pos) {
            Ok((id, size, header_len)) => if id == id::VOID && size != UNKNOWN && pos + header_len + size
                <= limit {
                proof {
                    lemma_header_at(src, pos);
                }
                slack_end(src, (pos + header_len + size) as u64, limit)
            } else {
                pos
            },
            Err(_) => pos,
        }
    }
}

pub proof fn lemma_slack_end(src: Source, pos: u64, limit: u64)
    requires
        pos <= limit,
    ensures
        pos <= slack_end(src, pos, limit) <= limit,
    decreases limit - pos,
{
    if pos < limit {
        lemma_header_at(src, pos);
        if let Ok((id, size, header_len)) = header_at(src, pos) {
            if id == id::VOID && size != UNKNOWN && pos + header_len + size <= limit {
                lemma_slack_end(src, (pos + header_len + size) as u64, limit);
            }
        }
    }
}

/// A search for the end of a run of Void elements in progress.
#[derive(Debug)]
pub struct SlackWalk {
    pub pos: u64,
    pub limit: u64,
    pub ended: bool,
}

impl SlackWalk {
    pub open spec fn wf(self) -> bool {
        &&& self.limit <= MAX_FILE_LEN
        &&& self.pos <= self.limit
        &&& !self.ended ==> self.pos < self.limit
    }

    /// Where the run ends if the source is `src`.
    pub open spec fn outcome(self, src: Source) -> u64 {
        if self.ended {
            self.pos
        } else {
            slack_end(src, self.pos, self.limit)
        }
    }

    /// How much is left to look at.
    pub open spec fn left(self) -> nat {
        if self.ended {
            0
        } else {
            (self.limit - self.pos) as nat
        }
    }

    pub fn new(pos: u64, limit: u64) -> (w: SlackWalk)
        requires
            pos <= limit <= MAX_FILE_LEN,
        ensures
            w.wf(),
            w.pos == pos,
            w.limit == limit,
            forall|src: Source| #[trigger] w.outcome(src) == slack_end(src, pos, limit),
    {
        SlackWalk { pos, limit, ended: pos >= limit }
    }

    /// Takes the answer to the read of the header at `pos`.
    pub fn supply(&mut self, reply: &Result<Vec<u8>, String>)
        requires
            old(self).wf(),
            !old(self).ended,
        ensures
            final(self).wf(),
            final(self).left() < old(self).left(),
            final(self).limit == old(self).limit,
            final(self).pos >= old(self).pos,
            forall|src: Source|
                #![trigger final(self).outcome(src)]
                src(old(self).pos, HEADER_WINDOW) == answer(*reply) ==> final(self).outcome(src) == old(
                    self,
                ).outcome(src),
    {
        let ghost before = *self;
        match read_header(reply, self.pos) {
            Ok((eid, size, header_len)) => {
                if eid == id::VOID && size != UNKNOWN && self.pos + header_len + size <= self.limit {
                    self.pos = self.pos + header_len + size;
                    self.ended = self.pos >= self.limit;
                } else {
                    self.ended = true;
                }
            },
            Err(_) => {
                self.ended = true;
            },
        }
        proof {
            assert forall|src: Source|
                #![trigger self.outcome(src)]
                src(before.pos, HEADER_WINDOW) == answer(*reply) implies self.outcome(src)
                == before.outcome(src) by {
                reveal_with_fuel(slack_end, 2);
            }
        }
    }
}

} // verus!
