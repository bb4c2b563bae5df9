//! What is found in a file when it is opened.

use vstd::prelude::*;

#[allow(unused_imports)]
use crate::ebml::node::{parsed, Node};
#[allow(unused_imports)]
use crate::ebml::vint::{
    id_at, lemma_id_at_canonical, lemma_id_at_local, lemma_size_at_bound, lemma_size_at_local, size_at, UNKNOWN,
};
use crate::mkv::child::ScanModel;
#[allow(unused_imports)]
use crate::mkv::child::TopChild;
use crate::mkv::file::Timestamp;
#[allow(unused_imports)]
use crate::mkv::file::{info_of, no_info, MkvModel, PathModel};
#[allow(unused_imports)]
use crate::mkv::open::{child_index, lemma_child_index, open_outcome, segment_from, spot_of};
use crate::mkv::source::MAX_FILE_LEN;
#[allow(unused_imports)]
use crate::mkv::source::{clipped, file_source, header_at, lemma_header_in, HEADER_WINDOW};
#[allow(unused_imports)]
use crate::mkv::valid::{law_opened_is_valid, lemma_segment_from};
#[allow(unused_imports)]
use crate::mkv::walk::{child_at, lemma_child_at, lemma_walked, walked};

verus! {

/// Whether an element header stands in the file: its ID, its size and how long the
/// header is.
pub open spec fn header_stands(file: Seq<u8>, pos: int, id: u64, size: u64, header_len: int) -> bool {
    id_at(file, pos) matches Some((i, il)) && i == id && (size_at(file, pos + il) matches Some((s, sl)) && s == size
        && header_len == il + sl)
}

/// A header that is read is the one that stands there, and the header that stands
/// there is read.
pub proof fn law_headers_are_read_where_they_stand(file: Seq<u8>, pos: u64, id: u64, size: u64, header_len: u64)
    ensures
        header_at(file_source(file), pos) == Ok::<(u64, u64, u64), Seq<char>>((id, size, header_len))
            <==> header_stands(file, pos as int, id, size, header_len as int),
{
    reveal(header_at);
    let w = clipped(file, pos as int, HEADER_WINDOW as int);
    lemma_id_at_canonical(w, 0);
    lemma_id_at_canonical(file, pos as int);
    if let Some((i, il)) = id_at(w, 0) {
        lemma_size_at_bound(w, il as int);
        assert(w.subrange(0, il as int) =~= file.subrange(pos as int, pos + il));
        lemma_id_at_local(w, file, 0, pos as int);
        if let Some((s, sl)) = size_at(w, il as int) {
            assert(w.subrange(il as int, il + sl) =~= file.subrange(pos + il, pos + il + sl));
            lemma_size_at_local(w, file, il as int, pos + il);
        }
    }
    if let Some((i, il)) = id_at(file, pos as int) {
        lemma_size_at_bound(file, pos + il);
        assert(il <= 4);
        assert(w.subrange(0, il as int) =~= file.subrange(pos as int, pos + il));
        lemma_id_at_local(file, w, pos as int, 0);
        if let Some((s, sl)) = size_at(file, pos + il) {
            assert(w.subrange(il as int, il + sl) =~= file.subrange(pos + il, pos + il + sl));
            lemma_size_at_local(file, w, pos + il, il as int);
        }
    }
}

/// Whether the child is an element of the file.
pub open spec fn child_stands(file: Seq<u8>, c: TopChild) -> bool {
    header_stands(file, c.start as int, c.id, c.size, c.header_len as int)
}

proof fn lemma_walk_stands(file: Seq<u8>, pos: u64, end: u64, stop: bool, seen: bool)
    requires
        pos <= end <= file.len() <= MAX_FILE_LEN,
    ensures
        ({
            let (top, scan) = walked(file_source(file), pos, end, stop, seen);
            &&& forall|k: int| 0 <= k < top.len() ==> child_stands(file, #[trigger] top[k])
            &&& scan is StoppedAtClusters ==> stop && top.len() > 0 && top.last().id == 0x1F43_B675 && (seen || exists|
                k: int,
            | 0 <= k < top.len() && (#[trigger] top[k]).id == 0x1654_AE6B)
            &&& stop && seen ==> forall|k: int| 0 <= k < top.len() - 1 ==> (#[trigger] top[k]).id != 0x1F43_B675
            &&& stop ==> forall|a: int, b: int|
                0 <= a < b < top.len() - 1 && (#[trigger] top[a]).id == 0x1654_AE6B ==> (#[trigger] top[b]).id != 0x1F43_B675
        }),
    decreases end - pos,
{
    let src = file_source(file);
    if pos < end {
        if let Ok(c) = child_at(src, pos, end) {
            lemma_child_at(src, pos, end);
            law_headers_are_read_where_they_stand(file, pos, c.id, c.size, c.header_len);
            let now = seen || c.id == 0x1654_AE6B;
            if !(stop && now && c.id == 0x1F43_B675) {
                let next = c.end_at() as u64;
                lemma_walk_stands(file, next, end, stop, now);
                let (rest, scan) = walked(src, next, end, stop, now);
                let (top, _) = walked(src, pos, end, stop, seen);
                assert(top == seq![c] + rest);
                assert forall|k: int| 0 <= k < top.len() implies child_stands(file, #[trigger] top[k]) by {
                    if k > 0 {
                        assert(top[k] == rest[k - 1]);
                    }
                }
                if scan is StoppedAtClusters {
                    assert(top.last() == rest.last());
                    if !seen {
                        if c.id == 0x1654_AE6B {
                            assert(top[0].id == 0x1654_AE6B);
                        } else {
                            let k = choose|k: int| 0 <= k < rest.len() && (#[trigger] rest[k]).id == 0x1654_AE6B;
                            assert(top[k + 1].id == 0x1654_AE6B);
                        }
                    }
                }
                if stop && seen {
                    assert forall|k: int| 0 <= k < top.len() - 1 implies (#[trigger] top[k]).id != 0x1F43_B675 by {
                        if k > 0 {
                            assert(top[k] == rest[k - 1]);
                        }
                    }
                }
                if stop {
                    assert forall|a: int, b: int|
                        0 <= a < b < top.len() - 1 && (#[trigger] top[a]).id == 0x1654_AE6B implies (
                    #[trigger] top[b]).id != 0x1F43_B675 by {
                        assert(top[b] == rest[b - 1]);
                        if a > 0 {
                            assert(top[a] == rest[a - 1]);
                        }
                    }
                }
            }
        }
    }
}

/// What an opened file says is what stands in it. Its Segment is where a Segment
/// header stands, and reaches as far as that says or to the end of the file. Its
/// children are elements of the Segment that stand one behind the other from its
/// start; they are all of them, or those up to the first cluster behind Tracks. Its
/// Tracks are those of the first Tracks element among them.
pub proof fn law_opened_file_is_what_stands_there(
    file: Seq<u8>,
    path: PathModel,
    modified: Option<Timestamp>,
    m: MkvModel,
)
    requires
        file.len() <= MAX_FILE_LEN,
        open_outcome(file_source(file), path, file.len() as u64, modified) == Ok::<MkvModel, Seq<char>>(m),
    ensures
        m.path == path && m.modified == modified && m.file_len == file.len(),
        exists|size: u64, header_len: int| {
            &&& #[trigger] header_stands(file, m.segment_start as int, 0x1853_8067, size, header_len)
            &&& m.segment_data_start == m.segment_start + header_len
            &&& m.segment_end == if size == UNKNOWN || m.segment_data_start + size > file.len() {
                file.len() as int
            } else {
                m.segment_data_start + size
            }
        },
        forall|k: int| 0 <= k < m.top.len() ==> child_stands(file, #[trigger] m.top[k]),
        m.top.len() > 0 && m.top[0].start == m.segment_data_start,
        forall|k: int|
            0 <= k < m.top.len() - 1 ==> (#[trigger] m.top[k + 1]).start == m.top[k].end_at(),
        forall|k: int| 0 <= k < m.top.len() ==> (#[trigger] m.top[k]).end_at() <= m.segment_end,
        m.scan is Complete ==> m.top.last().end_at() == m.segment_end,
        m.scan is StoppedAtClusters ==> m.top.last().id == 0x1F43_B675,
        forall|a: int, b: int|
            0 <= a < b < m.top.len() - 1 && (#[trigger] m.top[a]).id == 0x1654_AE6B ==> (#[trigger] m.top[b]).id
                != 0x1F43_B675,
        ({
            let c = m.top[m.tracks_idx as int];
            &&& m.tracks_idx < m.top.len()
            &&& c.id == 0x1654_AE6B
            &&& forall|k: int| 0 <= k < m.tracks_idx ==> (#[trigger] m.top[k]).id != 0x1654_AE6B
            &&& m.tracks is Master && m.tracks.id() == 0x1654_AE6B
            &&& parsed(file.subrange(c.data_at(), c.end_at())) == Ok::<Seq<Node>, Seq<char>>(m.tracks.children())
        }),
{
    let src = file_source(file);
    let len = file.len() as u64;
    law_opened_is_valid(src, path, len, modified);
    lemma_segment_from(src, 0, len);
    let segment = segment_from(src, 0, len)->Ok_0;
    let (start, size, header_len) = segment;
    law_headers_are_read_where_they_stand(file, start, 0x1853_8067, size, header_len);
    assert(header_stands(file, m.segment_start as int, 0x1853_8067, size, header_len as int));
    reveal(header_at);
    lemma_header_in(clipped(file, start as int, HEADER_WINDOW as int), start);
    let base = m.segment_data_start;
    let end = m.segment_end;
    lemma_walked(src, base, end, true, false);
    lemma_child_index(m.top, 0x1654_AE6B, 0);
    assert(walked(src, base, end, true, false) == (m.top, m.scan));
    assert(base <= end);
    lemma_walk_stands(file, base, end, true, false);
    let c = m.top[m.tracks_idx as int];
    assert(c.end_at() <= end);
    assert(clipped(file, c.data_at() as u64 as int, c.size as int) =~= file.subrange(c.data_at(), c.end_at()));
}

/// A file opens where it has a Segment with a Tracks element in it whose payload is
/// no larger than 64 MiB and is made of whole elements.
pub proof fn law_files_with_tracks_open(
    file: Seq<u8>,
    path: PathModel,
    modified: Option<Timestamp>,
    segment: (u64, u64, u64),
    top: Seq<TopChild>,
    scan: ScanModel,
    i: int,
)
    requires
        file.len() <= MAX_FILE_LEN,
        segment_from(file_source(file), 0, file.len() as u64) == Ok::<(u64, u64, u64), Seq<char>>(segment),
        walked(
            file_source(file),
            spot_of(segment, file.len() as u64).data_start,
            spot_of(segment, file.len() as u64).end,
            true,
            false,
        ) == (top, scan),
        0 <= i < top.len(),
        top[i].id == 0x1654_AE6B,
        forall|k: int| 0 <= k < i ==> (#[trigger] top[k]).id != 0x1654_AE6B,
        top[i].size <= 64 * 1024 * 1024,
        parsed(clipped(file, top[i].data_at() as u64 as int, top[i].size as int)) is Ok,
    ensures
        open_outcome(file_source(file), path, file.len() as u64, modified) matches Ok(m) && m.top == top && m.scan == scan
            && m.tracks_idx == i,
{
    lemma_child_index(top, 0x1654_AE6B, 0);
    let k = child_index(top, 0x1654_AE6B, 0);
    if k < i {
        assert(top[k].id == 0x1654_AE6B);
    }
    if i < k {
        assert(top[i].id != 0x1654_AE6B);
    }
}

/// Whether elements of the file stand one after the other from `pos` on, none past
/// `end`, of which the last is the only Tracks element.
pub open spec fn up_to_tracks(file: Seq<u8>, kids: Seq<TopChild>, pos: int, end: int) -> bool {
    &&& kids.len() > 0
    &&& kids[0].start == pos
    &&& forall|k: int|
        0 <= k < kids.len() ==> child_stands(file, #[trigger] kids[k]) && kids[k].size != UNKNOWN && kids[k].start
            + kids[k].header_len + kids[k].size <= end
    &&& forall|j: int, k: int|
        0 <= j && k == j + 1 && k < kids.len() ==> (#[trigger] kids[k]).start == (#[trigger] kids[j]).start
            + kids[j].header_len + kids[j].size
    &&& forall|k: int| 0 <= k < kids.len() ==> ((#[trigger] kids[k]).id == 0x1654_AE6B <==> k == kids.len() - 1)
}

proof fn lemma_walk_reaches(file: Seq<u8>, pos: u64, end: u64, kids: Seq<TopChild>)
    requires
        pos <= end <= file.len() <= MAX_FILE_LEN,
        up_to_tracks(file, kids, pos as int, end as int),
    ensures
        ({
            let top = walked(file_source(file), pos, end, true, false).0;
            top.len() >= kids.len() && top.take(kids.len() as int) == kids
        }),
    decreases kids.len(),
{
    let src = file_source(file);
    let c = kids[0];
    assert(child_stands(file, kids[0]));
    law_headers_are_read_where_they_stand(file, c.start, c.id, c.size, c.header_len);
    lemma_child_at(src, pos, end);
    assert(child_at(src, pos, end) == Ok::<TopChild, Seq<char>>(c));
    let top = walked(src, pos, end, true, false).0;
    if kids.len() == 1 {
        assert(top[0] == c);
        assert(top.take(1) =~= kids);
    } else {
        assert(kids[0].id != 0x1654_AE6B);
        let rest = kids.drop_first();
        assert(kids[1].start == c.start + c.header_len + c.size);
        assert forall|k: int| 0 <= k < rest.len() implies child_stands(file, #[trigger] rest[k]) && rest[k].size
            != UNKNOWN && rest[k].start + rest[k].header_len + rest[k].size <= end && (rest[k].id == 0x1654_AE6B <==> k
            == rest.len() - 1) by {
            assert(rest[k] == kids[k + 1]);
        }
        assert forall|j: int, k: int| 0 <= j && k == j + 1 && k < rest.len() implies (#[trigger] rest[k]).start == (
        #[trigger] rest[j]).start + rest[j].header_len + rest[j].size by {
            assert(rest[k] == kids[k + 1] && rest[j] == kids[j + 1]);
        }
        let next = c.end_at() as u64;
        lemma_walk_reaches(file, next, end, rest);
        let more = walked(src, next, end, true, false).0;
        assert(top =~= seq![c] + more);
        assert(top.take(kids.len() as int) =~= kids) by {
            assert forall|k: int| 0 <= k < kids.len() implies top[k] == kids[k] by {
                if k > 0 {
                    assert(more.take(rest.len() as int)[k - 1] == rest[k - 1]);
                }
            }
        }
    }
}

/// A Matroska file opens: one with an EBML header, a Segment behind it and in this,
/// behind whatever else, a Tracks element of no more than 64 MiB that is made of
/// whole elements. The Segment may be of unknown size, or say that it is longer than
/// the file.
pub proof fn law_matroska_files_open(
    file: Seq<u8>,
    path: PathModel,
    modified: Option<Timestamp>,
    head: (u64, u64),
    segment: (u64, u64),
    kids: Seq<TopChild>,
)
    requires
        file.len() <= MAX_FILE_LEN,
        header_stands(file, 0, 0x1A45_DFA3, head.0, head.1 as int),
        head.0 != UNKNOWN,
        head.1 + head.0 + 4 < file.len(),
        header_stands(file, head.1 + head.0, 0x1853_8067, segment.0, segment.1 as int),
        ({
            let base = head.1 + head.0 + segment.1;
            let end = if segment.0 == UNKNOWN || base + segment.0 > file.len() {
                file.len() as int
            } else {
                base + segment.0
            };
            up_to_tracks(file, kids, base, end)
        }),
        kids.last().size <= 64 * 1024 * 1024,
        parsed(file.subrange(kids.last().data_at(), kids.last().end_at())) is Ok,
    ensures
        open_outcome(file_source(file), path, file.len() as u64, modified) matches Ok(m) && m.tracks_idx == kids.len()
            - 1 && m.top.take(kids.len() as int) == kids && m.tracks.children() == parsed(
            file.subrange(kids.last().data_at(), kids.last().end_at()),
        )->Ok_0,
{
    let src = file_source(file);
    let len = file.len() as u64;
    let at = (head.1 + head.0) as u64;
    law_headers_are_read_where_they_stand(file, 0, 0x1A45_DFA3, head.0, head.1);
    law_headers_are_read_where_they_stand(file, at, 0x1853_8067, segment.0, segment.1);
    reveal_with_fuel(segment_from, 3);
    assert(segment_from(src, 0, len) == Ok::<(u64, u64, u64), Seq<char>>((at, segment.0, segment.1)));
    let spot = spot_of((at, segment.0, segment.1), len);
    assert(child_stands(file, kids[0]));
    lemma_walk_reaches(file, spot.data_start, spot.end, kids);
    let (top, scan) = walked(src, spot.data_start, spot.end, true, false);
    let i = kids.len() - 1;
    assert forall|k: int| 0 <= k < kids.len() implies #[trigger] top[k] == kids[k] by {
        assert(top.take(kids.len() as int)[k] == kids[k]);
    }
    assert(top[i].id == 0x1654_AE6B) by {
        assert(kids[i].id == 0x1654_AE6B);
    }
    assert forall|k: int| 0 <= k < i implies (#[trigger] top[k]).id != 0x1654_AE6B by {
        assert(kids[k].id != 0x1654_AE6B);
    }
    let c = kids.last();
    assert(c == kids[i]);
    assert(clipped(file, c.data_at() as u64 as int, c.size as int) =~= file.subrange(c.data_at(), c.end_at()));
    law_files_with_tracks_open(file, path, modified, (at, segment.0, segment.1), top, scan, i);
    let m = open_outcome(src, path, len, modified)->Ok_0;
    law_opened_file_is_what_stands_there(file, path, modified, m);
    assert(m.top[i] == c);
}

/// The Segment is looked for behind the EBML header and padding, and nowhere else.
pub proof fn law_segment_stands_behind_the_header(file: Seq<u8>, pos: u64, id: u64, size: u64, header_len: u64)
    requires
        file.len() <= MAX_FILE_LEN,
        pos + 4 < file.len(),
        header_stands(file, pos as int, id, size, header_len as int),
    ensures
        ({
            let src = file_source(file);
            let len = file.len() as u64;
            &&& id == 0x1853_8067 ==> segment_from(src, pos, len) == Ok::<(u64, u64, u64), Seq<char>>(
                (pos, size, header_len),
            )
            &&& (id == 0x1A45_DFA3 || id == 0xEC) && size != UNKNOWN && pos + header_len + size < file.len()
                ==> segment_from(src, pos, len) == segment_from(src, (pos + header_len + size) as u64, len)
            &&& id != 0x1853_8067 && id != 0x1A45_DFA3 && id != 0xEC ==> segment_from(src, pos, len) is Err
        }),
{
    law_headers_are_read_where_they_stand(file, pos, id, size, header_len);
}

/// Whether the child at `k` is the first with the ID.
pub open spec fn first_child(top: Seq<TopChild>, id: u64, k: int) -> bool {
    &&& 0 <= k < top.len()
    &&& top[k].id == id
    &&& forall|j: int| 0 <= j < k ==> (#[trigger] top[j]).id != id
}

/// What is known of the file as a whole is what its first Info element says, where
/// that is under 1 MiB and made of whole elements, and else nothing.
pub proof fn law_info_is_that_of_the_info_element(
    file: Seq<u8>,
    path: PathModel,
    modified: Option<Timestamp>,
    m: MkvModel,
    k: int,
)
    requires
        file.len() <= MAX_FILE_LEN,
        open_outcome(file_source(file), path, file.len() as u64, modified) == Ok::<MkvModel, Seq<char>>(m),
    ensures
        first_child(m.top, 0x1549_A966, k) && m.top[k].size < 1024 * 1024 ==> {
            let body = clipped(file, m.top[k].data_at() as u64 as int, m.top[k].size as int);
            match parsed(body) {
                Ok(children) => exists|n: Node| #[trigger] n.children() == children && n is Master && m.info == info_of(n),
                Err(_) => m.info == no_info(),
            }
        },
        (forall|j: int| 0 <= j < m.top.len() ==> (#[trigger] m.top[j]).id != 0x1549_A966) ==> m.info == no_info(),
{
    lemma_child_index(m.top, 0x1549_A966, 0);
    let i = child_index(m.top, 0x1549_A966, 0);
    if first_child(m.top, 0x1549_A966, k) {
        if i < k {
            assert(m.top[i].id == 0x1549_A966);
        }
        if k < i {
            assert(m.top[k].id != 0x1549_A966);
        }
        assert(i == k);
        let body = clipped(file, m.top[k].data_at() as u64 as int, m.top[k].size as int);
        if let Ok(children) = parsed(body) {
            let n = Node::branch(0x1549_A966, children);
            assert(n.children() == children);
        }
    }
    if forall|j: int| 0 <= j < m.top.len() ==> (#[trigger] m.top[j]).id != 0x1549_A966 {
        if i < m.top.len() {
            assert(m.top[i].id == 0x1549_A966);
        }
    }
}

} // verus!
