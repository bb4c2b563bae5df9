//! Tracks that were written and read again.

use vstd::prelude::*;

use crate::ebml::id;
#[allow(unused_imports)]
use crate::ebml::laws::{settled, settled_all};
#[allow(unused_imports)]
use crate::ebml::node::{first_with, has_checksum, left_out, lemma_first_with, lemma_first_with_unique, Node};
#[allow(unused_imports)]
use crate::mkv::track::{audio_of, flag_of, track_of, tracks_from, tracks_in, video_of, TrackModel};

verus! {

/// The first node with the ID, looked for from the end.
spec fn found(nodes: Seq<Node>, id: u64) -> Option<Node>
    decreases nodes.len(),
{
    if nodes.len() == 0 {
        None
    } else {
        match found(nodes.drop_last(), id) {
            Some(n) => Some(n),
            None => if nodes.last().id() == id {
                Some(nodes.last())
            } else {
                None
            },
        }
    }
}

/// It is the one that is found from the front.
proof fn lemma_found(nodes: Seq<Node>, id: u64)
    ensures
        ({
            let k = first_with(nodes, id, 0);
            found(nodes, id) == (if k < nodes.len() {
                Some(nodes[k])
            } else {
                None
            })
        }),
    decreases nodes.len(),
{
    if nodes.len() > 0 {
        let front = nodes.drop_last();
        lemma_found(front, id);
        lemma_first_with(front, id, 0);
        let k = first_with(front, id, 0);
        assert forall|i: int| 0 <= i < k implies (#[trigger] nodes[i]).id() != id by {
            assert(front[i] == nodes[i]);
        }
        if k < front.len() {
            assert(nodes[k] == front[k]);
            lemma_first_with_unique(nodes, id, k);
        } else if nodes.last().id() == id {
            lemma_first_with_unique(nodes, id, nodes.len() - 1);
        } else {
            lemma_first_with_unique(nodes, id, nodes.len() as int);
        }
    }
}

/// The settled form of a node that may be there.
spec fn settled_if(n: Option<Node>) -> Option<Node> {
    match n {
        Some(n) => Some(settled(n)),
        None => None,
    }
}

/// What is neither padding nor a checksum is found among the settled.
proof fn lemma_found_settled(nodes: Seq<Node>, id: u64)
    requires
        id != id::CRC32,
        id != id::VOID,
    ensures
        found(settled_all(nodes), id) == settled_if(found(nodes, id)),
    decreases nodes.len(),
{
    if nodes.len() > 0 {
        let front = nodes.drop_last();
        let last = nodes.last();
        lemma_found_settled(front, id);
        if !left_out(last) {
            let all = settled_all(nodes);
            assert(all.drop_last() =~= settled_all(front));
            assert(all.last() == settled(last));
        }
    }
}

/// A first node with another ID is passed over.
proof fn lemma_found_behind(first: Node, rest: Seq<Node>, id: u64)
    requires
        first.id() != id,
    ensures
        found(seq![first] + rest, id) == found(rest, id),
    decreases rest.len(),
{
    let all = seq![first] + rest;
    if rest.len() == 0 {
        assert(all.drop_last() =~= Seq::<Node>::empty());
        assert(all.last() == first);
    } else {
        assert(all.drop_last() =~= seq![first] + rest.drop_last());
        assert(all.last() == rest.last());
        lemma_found_behind(first, rest.drop_last(), id);
    }
}

/// A field of a master is read back as it was written.
proof fn lemma_field_kept(n: Node, id: u64)
    requires
        id != id::CRC32,
        id != id::VOID,
    ensures
        settled(n).find(id) == settled_if(n.find(id)),
        settled(n).has(id) == n.has(id),
        settled(n).uint(id) == n.uint(id),
        settled(n).float(id) == n.float(id),
        settled(n).text(id) == n.text(id),
{
    let nodes = n.children();
    let after = settled(n).children();
    lemma_found(nodes, id);
    lemma_found(after, id);
    if let Node::Master { children, .. } = n {
        lemma_found_settled(children, id);
        if has_checksum(children) {
            lemma_found_behind(after[0], settled_all(children), id);
            assert(after =~= seq![after[0]] + settled_all(children));
        }
    }
}

/// A field of an entry is read as it was, and so is the flag in it.
proof fn lemma_value_kept(e: Node, id: u64, default: bool)
    requires
        id != id::CRC32,
        id != id::VOID,
    ensures
        settled(e).has(id) == e.has(id),
        settled(e).uint(id) == e.uint(id),
        settled(e).text(id) == e.text(id),
        flag_of(settled(e), id, default) == flag_of(e, id, default),
{
    lemma_field_kept(e, id);
}

proof fn lemma_flags_kept(e: Node)
    ensures
        flag_of(settled(e), id::FLAG_DEFAULT, true) == flag_of(e, id::FLAG_DEFAULT, true),
        flag_of(settled(e), id::FLAG_FORCED, false) == flag_of(e, id::FLAG_FORCED, false),
        flag_of(settled(e), id::FLAG_ENABLED, true) == flag_of(e, id::FLAG_ENABLED, true),
        flag_of(settled(e), id::FLAG_HEARING_IMPAIRED, false) == flag_of(e, id::FLAG_HEARING_IMPAIRED, false),
        flag_of(settled(e), id::FLAG_VISUAL_IMPAIRED, false) == flag_of(e, id::FLAG_VISUAL_IMPAIRED, false),
        flag_of(settled(e), id::FLAG_TEXT_DESCRIPTIONS, false) == flag_of(e, id::FLAG_TEXT_DESCRIPTIONS, false),
        flag_of(settled(e), id::FLAG_ORIGINAL, false) == flag_of(e, id::FLAG_ORIGINAL, false),
        flag_of(settled(e), id::FLAG_COMMENTARY, false) == flag_of(e, id::FLAG_COMMENTARY, false),
{
    lemma_value_kept(e, id::FLAG_DEFAULT, true);
    lemma_value_kept(e, id::FLAG_FORCED, false);
    lemma_value_kept(e, id::FLAG_ENABLED, true);
    lemma_value_kept(e, id::FLAG_HEARING_IMPAIRED, false);
    lemma_value_kept(e, id::FLAG_VISUAL_IMPAIRED, false);
    lemma_value_kept(e, id::FLAG_TEXT_DESCRIPTIONS, false);
    lemma_value_kept(e, id::FLAG_ORIGINAL, false);
    lemma_value_kept(e, id::FLAG_COMMENTARY, false);
}

proof fn lemma_values_kept(e: Node)
    ensures
        settled(e).uint(id::TRACK_NUMBER) == e.uint(id::TRACK_NUMBER),
        settled(e).uint(id::TRACK_UID) == e.uint(id::TRACK_UID),
        settled(e).uint(id::TRACK_TYPE) == e.uint(id::TRACK_TYPE),
        settled(e).text(id::CODEC_ID) == e.text(id::CODEC_ID),
        settled(e).text(id::CODEC_NAME) == e.text(id::CODEC_NAME),
        settled(e).text(id::TRACK_NAME) == e.text(id::TRACK_NAME),
        settled(e).text(id::LANGUAGE) == e.text(id::LANGUAGE),
        settled(e).has(id::LANGUAGE) == e.has(id::LANGUAGE),
        settled(e).text(id::LANGUAGE_BCP47) == e.text(id::LANGUAGE_BCP47),
        settled(e).uint(id::DEFAULT_DURATION) == e.uint(id::DEFAULT_DURATION),
        settled(e).uint(id::CODEC_DELAY) == e.uint(id::CODEC_DELAY),
        settled(e).has(id::CONTENT_ENCODINGS) == e.has(id::CONTENT_ENCODINGS),
{
    lemma_value_kept(e, id::TRACK_NUMBER, false);
    lemma_value_kept(e, id::TRACK_UID, false);
    lemma_value_kept(e, id::TRACK_TYPE, false);
    lemma_value_kept(e, id::CODEC_ID, false);
    lemma_value_kept(e, id::CODEC_NAME, false);
    lemma_value_kept(e, id::TRACK_NAME, false);
    lemma_value_kept(e, id::LANGUAGE, false);
    lemma_value_kept(e, id::LANGUAGE_BCP47, false);
    lemma_value_kept(e, id::DEFAULT_DURATION, false);
    lemma_value_kept(e, id::CODEC_DELAY, false);
    lemma_value_kept(e, id::CONTENT_ENCODINGS, false);
}

/// A track entry says of its track what it said.
proof fn lemma_track_kept(index: nat, e: Node)
    ensures
        track_of(index, settled(e)) == track_of(index, e),
{
    lemma_parts_kept(e);
    lemma_flags_kept(e);
    lemma_values_kept(e);
}

proof fn lemma_parts_kept(e: Node)
    ensures
        (match settled(e).find(id::AUDIO) {
            Some(a) => Some(audio_of(a)),
            None => None,
        }) == (match e.find(id::AUDIO) {
            Some(a) => Some(audio_of(a)),
            None => None,
        }),
        (match settled(e).find(id::VIDEO) {
            Some(v) => Some(video_of(v)),
            None => None,
        }) == (match e.find(id::VIDEO) {
            Some(v) => Some(video_of(v)),
            None => None,
        }),
        (match settled(e).find(id::CODEC_PRIVATE) {
            Some(c) => c.bytes().len(),
            None => 0,
        }) == (match e.find(id::CODEC_PRIVATE) {
            Some(c) => c.bytes().len(),
            None => 0,
        }),
{
    lemma_field_kept(e, id::AUDIO);
    lemma_field_kept(e, id::VIDEO);
    lemma_field_kept(e, id::CODEC_PRIVATE);
    if let Some(a) = e.find(id::AUDIO) {
        lemma_field_kept(a, id::CHANNELS);
        lemma_field_kept(a, id::SAMPLING_FREQUENCY);
        lemma_field_kept(a, id::OUTPUT_SAMPLING_FREQUENCY);
        lemma_field_kept(a, id::BIT_DEPTH);
    }
    if let Some(v) = e.find(id::VIDEO) {
        lemma_field_kept(v, id::PIXEL_WIDTH);
        lemma_field_kept(v, id::PIXEL_HEIGHT);
        lemma_field_kept(v, id::DISPLAY_WIDTH);
        lemma_field_kept(v, id::DISPLAY_HEIGHT);
    }
}

/// What a track says, wherever its entry stands.
pub open spec fn unplaced(t: TrackModel) -> TrackModel {
    TrackModel { index: 0, ..t }
}

/// Tracks, wherever their entries stand.
pub open spec fn all_unplaced(s: Seq<TrackModel>) -> Seq<TrackModel> {
    s.map_values(|t: TrackModel| unplaced(t))
}

/// What the last node adds.
spec fn last_track(nodes: Seq<Node>) -> Seq<TrackModel> {
    if nodes.last().id() == id::TRACK_ENTRY {
        seq![track_of((nodes.len() - 1) as nat, nodes.last())]
    } else {
        Seq::empty()
    }
}

proof fn lemma_tracks_last(nodes: Seq<Node>, from: int)
    requires
        0 <= from < nodes.len(),
    ensures
        tracks_from(nodes, from) == tracks_from(nodes.drop_last(), from) + last_track(nodes),
    decreases nodes.len() - from,
{
    let front = nodes.drop_last();
    if from == nodes.len() - 1 {
        assert(tracks_from(nodes, from + 1) =~= Seq::<TrackModel>::empty());
        assert(tracks_from(front, from) =~= Seq::<TrackModel>::empty());
        assert(tracks_from(nodes, from) =~= last_track(nodes));
    } else {
        lemma_tracks_last(nodes, from + 1);
        assert(front[from] == nodes[from]);
        assert(tracks_from(nodes, from) =~= tracks_from(front, from) + last_track(nodes));
    }
}

proof fn lemma_settled_tracks(nodes: Seq<Node>)
    ensures
        all_unplaced(tracks_from(settled_all(nodes), 0)) == all_unplaced(tracks_from(nodes, 0)),
    decreases nodes.len(),
{
    if nodes.len() > 0 {
        let front = nodes.drop_last();
        let last = nodes.last();
        let all = settled_all(nodes);
        lemma_settled_tracks(front);
        lemma_tracks_last(nodes, 0);
        if !left_out(last) {
            assert(all.drop_last() =~= settled_all(front));
            assert(all.last() == settled(last));
            assert(settled(last).id() == last.id());
            lemma_tracks_last(all, 0);
            lemma_track_kept((all.len() - 1) as nat, last);
            assert(all_unplaced(last_track(all)) =~= all_unplaced(last_track(nodes)));
            lemma_unplaced_parts(tracks_from(all.drop_last(), 0), last_track(all));
        } else {
            assert(all_unplaced(last_track(nodes)) =~= Seq::<TrackModel>::empty());
        }
        lemma_unplaced_parts(tracks_from(front, 0), last_track(nodes));
        assert(all_unplaced(tracks_from(all, 0)) =~= all_unplaced(tracks_from(nodes, 0)));
    }
}

proof fn lemma_unplaced_parts(a: Seq<TrackModel>, b: Seq<TrackModel>)
    ensures
        all_unplaced(a + b) == all_unplaced(a) + all_unplaced(b),
{
    assert(all_unplaced(a + b) =~= all_unplaced(a) + all_unplaced(b));
}

/// Tracks behind another node that is none.
proof fn lemma_tracks_behind(first: Node, rest: Seq<Node>, from: int)
    requires
        0 <= from <= rest.len(),
    ensures
        all_unplaced(tracks_from(seq![first] + rest, from + 1)) == all_unplaced(tracks_from(rest, from)),
    decreases rest.len() - from,
{
    let all = seq![first] + rest;
    if from < rest.len() {
        lemma_tracks_behind(first, rest, from + 1);
        assert(all[from + 1] == rest[from]);
        if rest[from].id() == id::TRACK_ENTRY {
            lemma_unplaced_parts(seq![track_of((from + 1) as nat, rest[from])], tracks_from(all, from + 2));
            lemma_unplaced_parts(seq![track_of(from as nat, rest[from])], tracks_from(rest, from + 1));
            assert(all_unplaced(seq![track_of((from + 1) as nat, rest[from])]) =~= all_unplaced(
                seq![track_of(from as nat, rest[from])],
            ));
        }
    }
}

/// The tracks that are read back from what was written say what they said, each
/// of them and in the same order.
pub proof fn law_tracks_read_the_same(tracks: Node)
    ensures
        all_unplaced(tracks_in(settled(tracks))) == all_unplaced(tracks_in(tracks)),
{
    if let Node::Master { children, .. } = tracks {
        let after = settled(tracks).children();
        lemma_settled_tracks(children);
        if has_checksum(children) {
            let rest = settled_all(children);
            assert(after =~= seq![after[0]] + rest);
            assert(after[0].id() != id::TRACK_ENTRY);
            lemma_tracks_behind(after[0], rest, 0);
        }
    }
}

} // verus!
