//! What is read of a track and of a file.

use vstd::prelude::*;

#[allow(unused_imports)]
use crate::ebml::node::{holds_children, lemma_first_with, lemma_first_with_unique, Node};
#[allow(unused_imports)]
use crate::ebml::value::{float_of, string_of, uint_of, zero_from};
#[allow(unused_imports)]
use crate::mkv::file::info_of;
#[allow(unused_imports)]
use crate::mkv::track::{first_kept, insert_position, track_of, tracks_from, tracks_in, Flag};

verus! {

// ---------------------------------------------------------------------------
// Fields
// ---------------------------------------------------------------------------

/// Whether the child at `k` is the first with the ID.
pub open spec fn is_first(n: Node, id: u64, k: int) -> bool {
    &&& 0 <= k < n.children().len()
    &&& n.children()[k].id() == id
    &&& forall|j: int| 0 <= j < k ==> (#[trigger] n.children()[j]).id() != id
}

/// A field of a master is its first child with the ID, and there is one exactly
/// where a child has it. Its number, its text and its float are those in the
/// bytes of that child.
pub proof fn law_fields_are_first_children(n: Node, id: u64, k: int)
    ensures
        n.has(id) <==> exists|j: int| 0 <= j < n.children().len() && (#[trigger] n.children()[j]).id() == id,
        !n.has(id) ==> n.find(id) is None && n.uint(id) is None && n.text(id) is None && n.float(id) is None,
        is_first(n, id, k) ==> {
            &&& n.find(id) == Some(n.children()[k])
            &&& n.uint(id) == Some(uint_of(n.children()[k].bytes()))
            &&& n.text(id) == Some(string_of(n.children()[k].bytes()))
            &&& n.float(id) == Some(float_of(n.children()[k].bytes()))
        },
{
    lemma_first_with(n.children(), id, 0);
    if is_first(n, id, k) {
        lemma_first_with_unique(n.children(), id, k);
    }
    if n.has(id) {
        assert(n.children()[n.position(id)].id() == id);
    }
}

/// A stored number is read with its most significant byte first, and not past its
/// eighth byte; nothing stored is zero.
pub proof fn law_numbers_are_big_endian(bytes: Seq<u8>, last: u8)
    requires
        bytes.len() < 8,
    ensures
        uint_of(Seq::empty()) == 0,
        uint_of(bytes.push(last)) == 256 * uint_of(bytes) + last,
        forall|more: Seq<u8>| bytes.len() == 7 ==> uint_of(#[trigger] (bytes.push(last) + more)) == uint_of(
            bytes.push(last),
        ),
{
    let all = bytes.push(last);
    crate::ebml::bytes::lemma_be_bound(bytes);
    crate::ebml::bytes::lemma_be_bound(all);
    crate::ebml::bytes::lemma_pow256_table();
    crate::ebml::bytes::lemma_pow256_monotonic(bytes.len(), 7);
    crate::ebml::bytes::lemma_pow256_monotonic(all.len(), 8);
    assert(all.drop_last() =~= bytes);
    assert forall|more: Seq<u8>| bytes.len() == 7 implies uint_of(#[trigger] (all + more)) == uint_of(all) by {
        assert((all + more).take(8) =~= all);
        assert(all.take(8) =~= all);
        if more.len() == 0 {
            assert(all + more =~= all);
        }
    }
}

/// Whether bytes hold no zero.
pub open spec fn no_zero(bytes: Seq<u8>) -> bool {
    forall|i: int| 0 <= i < bytes.len() ==> #[trigger] bytes[i] != 0
}

proof fn lemma_zero_at(data: Seq<u8>, from: int, n: int)
    requires
        0 <= from <= n <= data.len(),
        forall|i: int| from <= i < n ==> data[i] != 0,
        n == data.len() || data[n] == 0,
    ensures
        zero_from(data, from) == n,
    decreases n - from,
{
    if from < n {
        lemma_zero_at(data, from + 1, n);
    }
}

/// A stored text ends at its first zero byte: what stands behind makes no
/// difference.
pub proof fn law_texts_end_at_a_zero(bytes: Seq<u8>, rest: Seq<u8>)
    requires
        no_zero(bytes),
    ensures
        string_of(bytes + seq![0u8] + rest) == string_of(bytes),
        vstd::utf8::valid_utf8(bytes) ==> string_of(bytes) == vstd::utf8::decode_utf8(bytes),
{
    let n = bytes.len() as int;
    let all = bytes + seq![0u8] + rest;
    assert(forall|i: int| 0 <= i < n ==> all[i] == bytes[i]);
    assert(forall|i: int| 0 <= i < n ==> #[trigger] bytes[i] != 0);
    assert forall|i: int| 0 <= i < n implies all[i] != 0 by {
        assert(bytes[i] != 0);
    }
    lemma_zero_at(all, 0, n);
    lemma_zero_at(bytes, 0, n);
    assert(all.take(n) =~= bytes);
    assert(bytes.take(n) =~= bytes);
}

// ---------------------------------------------------------------------------
// Tracks
// ---------------------------------------------------------------------------

/// A number that may be missing.
pub open spec fn number_or(v: Option<u64>, other: u64) -> u64 {
    if v is Some {
        v->0
    } else {
        other
    }
}

/// Whether a flag is what the element with that ID says, or the default where
/// there is none.
pub open spec fn flag_says(f: Flag, e: Node, id: u64, default: bool) -> bool {
    match e.uint(id) {
        Some(v) => f.explicit && f.value == (v != 0),
        None => !f.explicit && f.value == default,
    }
}

/// Whether a text is what the element with that ID holds, where that is not
/// empty.
pub open spec fn text_says(s: Option<Seq<char>>, e: Node, id: u64) -> bool {
    match e.text(id) {
        Some(t) => if t.len() > 0 {
            s == Some(t)
        } else {
            s is None
        },
        None => s is None,
    }
}

/// Each field of a track is read of the element that Matroska has for it, and a
/// field that the file does not state is what Matroska has it be: language `eng`,
/// the default and the enabled flag on, every other flag off.
pub proof fn law_track_fields(index: nat, e: Node)
    ensures
        ({
            let t = track_of(index, e);
            &&& t.index == index
            &&& t.number == number_or(e.uint(0xD7), 0)
            &&& t.uid == number_or(e.uint(0x73C5), 0)
            &&& t.ttype == number_or(e.uint(0x83), 0)
            &&& e.text(0x86) is Some ==> t.codec_id == e.text(0x86)->0
            &&& e.text(0x86) is None ==> t.codec_id.len() == 0
            &&& text_says(t.codec_name, e, 0x258688)
            &&& text_says(t.name, e, 0x536E)
            &&& e.text(0x22B59C) is Some ==> t.language == e.text(0x22B59C)->0
            &&& e.text(0x22B59C) is None ==> t.language == "eng"@
            &&& t.language_explicit == e.has(0x22B59C)
            &&& text_says(t.language_bcp47, e, 0x22B59D)
            &&& flag_says(t.default, e, 0x88, true)
            &&& flag_says(t.forced, e, 0x55AA, false)
            &&& flag_says(t.enabled, e, 0xB9, true)
            &&& flag_says(t.hearing_impaired, e, 0x55AB, false)
            &&& flag_says(t.visual_impaired, e, 0x55AC, false)
            &&& flag_says(t.text_descriptions, e, 0x55AD, false)
            &&& flag_says(t.original, e, 0x55AE, false)
            &&& flag_says(t.commentary, e, 0x55AF, false)
            &&& t.default_duration == e.uint(0x23E383)
            &&& t.codec_delay == e.uint(0x56AA)
            &&& t.codec_private_len == match e.find(0x63A2) {
                Some(c) => c.bytes().len(),
                None => 0,
            }
            &&& t.compressed == e.has(0x6D80)
            &&& t.audio is Some <==> e.has(0xE1)
            &&& t.audio matches Some(a) ==> {
                let sound = e.find(0xE1)->0;
                &&& a.channels == sound.uint(0x9F)
                &&& a.sampling_frequency == sound.float(0xB5)
                &&& a.output_sampling_frequency == sound.float(0x78B5)
                &&& a.bit_depth == sound.uint(0x6264)
            }
            &&& t.video is Some <==> e.has(0xE0)
            &&& t.video matches Some(v) ==> {
                let picture = e.find(0xE0)->0;
                &&& v.pixel_width == picture.uint(0xB0)
                &&& v.pixel_height == picture.uint(0xBA)
                &&& v.display_width == picture.uint(0x54B0)
                &&& v.display_height == picture.uint(0x54BA)
            }
        }),
{
}

/// What is said of a file as a whole is read of the elements that Matroska has
/// for it. A timestamp is a millisecond where the file does not say, or says
/// nothing at all.
pub proof fn law_info_fields(e: Node)
    ensures
        text_says(info_of(e).title, e, 0x7BA9),
        text_says(info_of(e).muxing_app, e, 0x4D80),
        text_says(info_of(e).writing_app, e, 0x5741),
        info_of(e).duration == e.float(0x4489),
        info_of(e).timestamp_scale == if number_or(e.uint(0x2AD7B1), 0) == 0 {
            1_000_000
        } else {
            number_or(e.uint(0x2AD7B1), 0)
        },
{
}

/// The entries among elements.
pub open spec fn entries_of(nodes: Seq<Node>) -> Seq<Node> {
    nodes.filter(|n: Node| n.id() == 0xAE)
}

proof fn lemma_entries_behind(nodes: Seq<Node>)
    requires
        nodes.len() > 0,
    ensures
        entries_of(nodes) == if nodes[0].id() == 0xAE {
            seq![nodes[0]] + entries_of(nodes.drop_first())
        } else {
            entries_of(nodes.drop_first())
        },
    decreases nodes.len(),
{
    reveal(Seq::filter);
    let rest = nodes.drop_first();
    if nodes.len() == 1 {
        assert(rest =~= Seq::<Node>::empty());
        assert(nodes.drop_last() =~= Seq::<Node>::empty());
        assert(entries_of(rest) =~= Seq::<Node>::empty());
        assert(entries_of(nodes.drop_last()) =~= Seq::<Node>::empty());
        assert(nodes.last() == nodes[0]);
        if nodes[0].id() == 0xAE {
            assert(entries_of(nodes) =~= seq![nodes[0]] + entries_of(rest));
        }
    } else {
        lemma_entries_behind(nodes.drop_last());
        assert(nodes.drop_last().drop_first() =~= rest.drop_last());
        assert(rest.last() == nodes.last());
        assert(entries_of(nodes) =~= if nodes[0].id() == 0xAE {
            seq![nodes[0]] + entries_of(rest)
        } else {
            entries_of(rest)
        });
    }
}

proof fn lemma_tracks_entries(nodes: Seq<Node>, from: int)
    requires
        0 <= from <= nodes.len(),
    ensures
        tracks_from(nodes, from).len() == entries_of(nodes.skip(from)).len(),
        forall|k: int|
            0 <= k < tracks_from(nodes, from).len() ==> {
                let t = #[trigger] tracks_from(nodes, from)[k];
                &&& from <= t.index < nodes.len()
                &&& nodes[t.index as int] == entries_of(nodes.skip(from))[k]
                &&& t == track_of(t.index, entries_of(nodes.skip(from))[k])
            },
        forall|a: int, b: int|
            0 <= a < b < tracks_from(nodes, from).len() ==> (#[trigger] tracks_from(nodes, from)[a]).index < (
            #[trigger] tracks_from(nodes, from)[b]).index,
    decreases nodes.len() - from,
{
    if from < nodes.len() {
        lemma_tracks_entries(nodes, from + 1);
        let here = nodes.skip(from);
        lemma_entries_behind(here);
        assert(here.drop_first() =~= nodes.skip(from + 1));
        assert(here[0] == nodes[from]);
        let rest = tracks_from(nodes, from + 1);
        let all = tracks_from(nodes, from);
        if nodes[from].id() == 0xAE {
            assert(all == seq![track_of(from as nat, nodes[from])] + rest);
            assert forall|k: int| 0 <= k < all.len() implies {
                let t = #[trigger] all[k];
                &&& from <= t.index < nodes.len()
                &&& nodes[t.index as int] == entries_of(here)[k]
                &&& t == track_of(t.index, entries_of(here)[k])
            } by {
                if k > 0 {
                    assert(all[k] == rest[k - 1]);
                    assert(entries_of(here)[k] == entries_of(nodes.skip(from + 1))[k - 1]);
                }
            }
            assert forall|a: int, b: int| 0 <= a < b < all.len() implies (#[trigger] all[a]).index < (
            #[trigger] all[b]).index by {
                assert(all[b] == rest[b - 1]);
                if a > 0 {
                    assert(all[a] == rest[a - 1]);
                }
            }
        }
    } else {
        reveal(Seq::filter);
        assert(nodes.skip(from) =~= Seq::<Node>::empty());
    }
}

/// The tracks of a file are its track entries, every one of them and in their
/// order, and each says what its entry says.
pub proof fn law_tracks_are_the_entries(tracks: Node)
    ensures
        tracks_in(tracks).len() == entries_of(tracks.children()).len(),
        forall|k: int|
            0 <= k < tracks_in(tracks).len() ==> {
                let t = #[trigger] tracks_in(tracks)[k];
                &&& t.index < tracks.children().len()
                &&& tracks.children()[t.index as int] == entries_of(tracks.children())[k]
                &&& t == track_of(t.index, entries_of(tracks.children())[k])
            },
        forall|a: int, b: int|
            0 <= a < b < tracks_in(tracks).len() ==> (#[trigger] tracks_in(tracks)[a]).index < (#[trigger] tracks_in(
                tracks,
            )[b]).index,
{
    lemma_tracks_entries(tracks.children(), 0);
    assert(tracks.children().skip(0) =~= tracks.children());
}

proof fn lemma_first_kept(nodes: Seq<Node>, from: int)
    requires
        0 <= from <= nodes.len(),
    ensures
        from <= first_kept(nodes, from) <= nodes.len(),
        forall|i: int| from <= i < first_kept(nodes, from) ==> (#[trigger] nodes[i]).id() == 0xBF || nodes[i].id() == 0xEC,
        first_kept(nodes, from) < nodes.len() ==> nodes[first_kept(nodes, from)].id() != 0xBF && nodes[first_kept(
            nodes,
            from,
        )].id() != 0xEC,
    decreases nodes.len() - from,
{
    if from < nodes.len() && (nodes[from].id() == 0xBF || nodes[from].id() == 0xEC) {
        lemma_first_kept(nodes, from + 1);
    }
}

/// A new field of an entry goes right behind the type of its track, or where there
/// is none before the first element that is neither padding nor a checksum.
pub proof fn law_new_fields_go_behind_the_type(e: Node)
    ensures
        0 <= insert_position(e) <= e.children().len(),
        e.has(0x83) ==> is_first(e, 0x83, insert_position(e) - 1),
        !e.has(0x83) ==> forall|i: int|
            0 <= i < insert_position(e) ==> (#[trigger] e.children()[i]).id() == 0xBF || e.children()[i].id() == 0xEC,
        !e.has(0x83) && insert_position(e) < e.children().len() ==> {
            let next = e.children()[insert_position(e)].id();
            next != 0xBF && next != 0xEC
        },
{
    lemma_first_with(e.children(), 0x83, 0);
    lemma_first_kept(e.children(), 0);
}

/// Which elements hold others: anything else is kept as it is, unread.
pub proof fn law_masters(id: u64)
    ensures
        holds_children(id) <==> {
            ||| id == 0x1853_8067
            ||| id == 0x114D_9B74
            ||| id == 0x4DBB
            ||| id == 0x1549_A966
            ||| id == 0x1654_AE6B
            ||| id == 0xAE
            ||| id == 0xE0
            ||| id == 0xE1
            ||| id == 0x6D80
            ||| id == 0x1C53_BB6B
            ||| id == 0xBB
            ||| id == 0xB7
            ||| id == 0xDB
        },
{
}

} // verus!
