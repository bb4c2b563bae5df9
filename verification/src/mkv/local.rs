//! What is read of a file depends on the bytes that it lies in, and on no
//! others.

use vstd::prelude::*;

use crate::ebml::id;
use crate::ebml::vint::MAX_SIZE;
#[allow(unused_imports)]
use crate::ebml::vint::{
    canonical_id, id_at, id_bytes, id_size, lemma_id_at, lemma_id_at_canonical, lemma_id_at_local,
    lemma_id_bytes_len, lemma_size_at, lemma_size_at_bound, lemma_size_at_local, lemma_size_bytes_len,
    lemma_size_size, size_at, size_bytes, size_size,
};
use crate::mkv::child::TopChild;
use crate::mkv::source::{HEADER_WINDOW, MAX_FILE_LEN};
#[allow(unused_imports)]
use crate::mkv::child::ScanModel;
#[allow(unused_imports)]
use crate::mkv::open::{child_index, lemma_child_index, segment_from};
#[allow(unused_imports)]
use crate::mkv::source::{clipped, file_source, header_at, lemma_header_at, lemma_header_in};
#[allow(unused_imports)]
use crate::mkv::valid::lemma_segment_from;
#[allow(unused_imports)]
use crate::mkv::walk::{child_at, lemma_child_at, walked};

verus! {

/// Whether two files hold the same bytes before `end`.
pub open spec fn same_before(a: Seq<u8>, b: Seq<u8>, end: int) -> bool {
    &&& end <= a.len()
    &&& end <= b.len()
    &&& forall|i: int| 0 <= i < end ==> a[i] == b[i]
}

/// Whether two files hold the same bytes from `start` on.
pub open spec fn same_from(a: Seq<u8>, b: Seq<u8>, start: int) -> bool {
    &&& a.len() == b.len()
    &&& forall|i: int| start <= i < a.len() ==> a[i] == b[i]
}

/// A header says the same wherever its bytes stand.
pub proof fn lemma_header_moved(a: Seq<u8>, b: Seq<u8>, p: u64, q: u64)
    requires
        header_at(file_source(a), p) is Ok,
        q + (header_at(file_source(a), p)->Ok_0).2 <= b.len(),
        a.subrange(p as int, p + (header_at(file_source(a), p)->Ok_0).2) == b.subrange(
            q as int,
            q + (header_at(file_source(a), p)->Ok_0).2,
        ),
    ensures
        p + (header_at(file_source(a), p)->Ok_0).2 <= a.len(),
        header_at(file_source(b), q) == header_at(file_source(a), p),
{
    reveal(header_at);
    let (id, size, h) = header_at(file_source(a), p)->Ok_0;
    let wa = clipped(a, p as int, HEADER_WINDOW as int);
    let wb = clipped(b, q as int, HEADER_WINDOW as int);
    lemma_header_in(wa, p);
    lemma_id_at_canonical(wa, 0);
    let il = (id_at(wa, 0)->0).1 as int;
    lemma_size_at_bound(wa, il);
    let sl = (size_at(wa, il)->0).1 as int;
    assert(h == il + sl);
    let s = a.subrange(p as int, p + h);
    let t = b.subrange(q as int, q + h);
    assert(wa.subrange(0, il) =~= s.subrange(0, il));
    assert(wb.subrange(0, il) =~= t.subrange(0, il));
    lemma_id_at_local(wa, wb, 0, 0);
    assert(wa.subrange(il, il + sl) =~= s.subrange(il, il + sl));
    assert(wb.subrange(il, il + sl) =~= t.subrange(il, il + sl));
    lemma_size_at_local(wa, wb, il, il);
}

/// A header lies within the file.
pub proof fn lemma_header_whole(a: Seq<u8>, p: u64)
    ensures
        header_at(file_source(a), p) matches Ok((id, size, h)) ==> p + h <= a.len(),
{
    reveal(header_at);
    lemma_header_in(clipped(a, p as int, HEADER_WINDOW as int), p);
}

/// A header that was written is read.
pub proof fn lemma_header_written(b: Seq<u8>, q: u64, id: u64, size: u64, width: nat)
    requires
        canonical_id(id),
        size <= MAX_SIZE,
        size_size(size) <= width <= 8,
        q + id_size(id) + width <= b.len(),
        b.subrange(q as int, q + id_size(id) + width) == id_bytes(id) + size_bytes(size, width),
    ensures
        header_at(file_source(b), q) == Ok::<(u64, u64, u64), Seq<char>>(
            (id, size, (id_size(id) + width) as u64),
        ),
{
    reveal(header_at);
    let wb = clipped(b, q as int, HEADER_WINDOW as int);
    let il = id_size(id) as int;
    let t = b.subrange(q as int, q + il + width);
    lemma_id_bytes_len(id);
    lemma_size_size(size);
    lemma_size_bytes_len(size, width);
    assert(wb.subrange(0, il) =~= t.subrange(0, il));
    assert(t.subrange(0, il) =~= id_bytes(id));
    lemma_id_at(wb, 0, id);
    assert(wb.subrange(il, il + width) =~= t.subrange(il, il + width));
    assert(t.subrange(il, il + width) =~= size_bytes(size, width));
    lemma_size_at(wb, il, size, width);
}

/// The Segment is found where it was as long as nothing before its payload
/// changes.
pub proof fn lemma_segment_stays(a: Seq<u8>, b: Seq<u8>, pos: u64, end: int)
    requires
        a.len() == b.len() <= MAX_FILE_LEN,
        same_before(a, b, end),
        segment_from(file_source(a), pos, a.len() as u64) is Ok,
        ({
            let (start, size, header_len) = segment_from(file_source(a), pos, a.len() as u64)->Ok_0;
            start + header_len <= end
        }),
    ensures
        segment_from(file_source(b), pos, b.len() as u64) == segment_from(
            file_source(a),
            pos,
            a.len() as u64,
        ),
    decreases a.len() - pos,
{
    let sa = file_source(a);
    let len = a.len() as u64;
    lemma_segment_from(sa, pos, len);
    let (start, seg_size, seg_header) = segment_from(sa, pos, len)->Ok_0;
    let (id, size, header_len) = header_at(sa, pos)->Ok_0;
    lemma_header_at(sa, pos);
    lemma_header_whole(a, pos);
    if id == id::EBML_HEAD || id == id::VOID {
        let next = (pos + header_len + size) as u64;
        lemma_segment_from(sa, next, len);
        assert(a.subrange(pos as int, pos + header_len) =~= b.subrange(pos as int, pos + header_len));
        lemma_header_moved(a, b, pos, pos);
        lemma_segment_stays(a, b, next, end);
    } else {
        assert(a.subrange(pos as int, pos + header_len) =~= b.subrange(pos as int, pos + header_len));
        lemma_header_moved(a, b, pos, pos);
    }
}

/// A walk finds the same children from `pos` on where the files are the same
/// there.
pub proof fn lemma_walk_agrees(
    a: Seq<u8>,
    b: Seq<u8>,
    pos: u64,
    end: u64,
    stop: bool,
    seen: bool,
)
    requires
        same_from(a, b, pos as int),
    ensures
        walked(file_source(a), pos, end, stop, seen) == walked(
            file_source(b),
            pos,
            end,
            stop,
            seen,
        ),
    decreases end - pos,
{
    if pos < end {
        let sa = file_source(a);
        assert(clipped(a, pos as int, HEADER_WINDOW as int) =~= clipped(
            b,
            pos as int,
            HEADER_WINDOW as int,
        ));
        assert(header_at(file_source(b), pos) == header_at(sa, pos)) by {
            reveal(header_at);
        }
        lemma_child_at(sa, pos, end);
        if let Ok(child) = child_at(sa, pos, end) {
            let now_seen = seen || child.id == id::TRACKS;
            if !(stop && now_seen && child.id == id::CLUSTER) {
                lemma_walk_agrees(a, b, child.end_at() as u64, end, stop, now_seen);
            }
        }
    }
}

/// Children before the one at `i` are found again where the files are the same
/// before it, as long as no Tracks element is among them. The walk goes on
/// where that child stands.
pub proof fn lemma_walk_prefix(
    a: Seq<u8>,
    b: Seq<u8>,
    pos: u64,
    end: u64,
    stop: bool,
    top: Seq<TopChild>,
    scan: ScanModel,
    i: int,
)
    requires
        walked(file_source(a), pos, end, stop, false) == (top, scan),
        0 <= i < top.len(),
        forall|k: int| 0 <= k < i ==> (#[trigger] top[k]).id != id::TRACKS,
        same_before(a, b, top[i].start as int),
    ensures
        pos <= top[i].start < end,
        walked(file_source(a), top[i].start, end, stop, false) == (top.skip(i), scan),
        walked(file_source(b), pos, end, stop, false) == (
            top.take(i) + walked(file_source(b), top[i].start, end, stop, false).0,
            walked(file_source(b), top[i].start, end, stop, false).1,
        ),
    decreases i,
{
    let sa = file_source(a);
    let sb = file_source(b);
    lemma_child_at(sa, pos, end);
    assert(pos < end && child_at(sa, pos, end) is Ok);
    let child = child_at(sa, pos, end)->Ok_0;
    assert(top[0] == child);
    let at = top[i].start;
    let (tb, _) = walked(sb, at, end, stop, false);
    if i == 0 {
        assert(top.skip(0) =~= top);
        assert(top.take(0) + tb =~= tb);
    } else {
        let next = child.end_at() as u64;
        let (rest, rest_scan) = walked(sa, next, end, stop, false);
        assert(top =~= seq![child] + rest);
        assert(rest_scan == scan);
        assert(rest[i - 1] == top[i]);
        assert forall|k: int| 0 <= k < i - 1 implies (#[trigger] rest[k]).id != id::TRACKS by {
            assert(rest[k] == top[k + 1]);
        }
        lemma_walk_prefix(a, b, next, end, stop, rest, scan, i - 1);
        lemma_same_child(a, b, pos, end);
        assert(top.skip(i) =~= rest.skip(i - 1));
        assert(top.take(i) + tb =~= seq![child] + (rest.take(i - 1) + tb));
    }
}

/// A child is found again where its bytes are the same.
pub proof fn lemma_same_child(a: Seq<u8>, b: Seq<u8>, pos: u64, end: u64)
    requires
        child_at(file_source(a), pos, end) is Ok,
        same_before(a, b, (child_at(file_source(a), pos, end)->Ok_0).end_at()),
    ensures
        child_at(file_source(b), pos, end) == child_at(file_source(a), pos, end),
{
    let h = (child_at(file_source(a), pos, end)->Ok_0).header_len;
    lemma_header_whole(a, pos);
    assert(a.subrange(pos as int, pos + h) =~= b.subrange(pos as int, pos + h));
    lemma_header_moved(a, b, pos, pos);
}

/// The first child with an ID among two lists of children.
pub proof fn lemma_child_index_split(a: Seq<TopChild>, b: Seq<TopChild>, id: u64)
    ensures
        child_index(a + b, id, 0) == (if child_index(a, id, 0) < a.len() {
            child_index(a, id, 0)
        } else {
            a.len() + child_index(b, id, 0)
        }),
{
    let s = a + b;
    lemma_child_index(s, id, 0);
    lemma_child_index(a, id, 0);
    lemma_child_index(b, id, 0);
    let k = child_index(s, id, 0);
    let i = child_index(a, id, 0);
    let j = child_index(b, id, 0);
    if i < a.len() {
        assert(s[i] == a[i]);
        if k < i {
            assert(s[k] == a[k]);
        }
    } else {
        if k < a.len() {
            assert(s[k] == a[k]);
        }
        if j < b.len() {
            assert(s[a.len() + j] == b[j]);
        }
        if a.len() <= k < a.len() + j {
            assert(s[k] == b[k - a.len()]);
        }
        if k > a.len() + j {
            assert(s[a.len() + j] == b[j]);
        }
    }
}

} // verus!
