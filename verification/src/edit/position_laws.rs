//! Where positions are found, and how they move.

use vstd::prelude::*;

use crate::ebml::vint::UNKNOWN;
#[allow(unused_imports)]
use crate::ebml::vint::lemma_id_at_canonical;
use crate::edit::piece::PositionSlot;
#[allow(unused_imports)]
use crate::edit::piece::slot_from;
#[allow(unused_imports)]
use crate::edit::remap::MovesModel;
#[allow(unused_imports)]
use crate::mkv::open_laws::header_stands;

verus! {

/// Whether elements stand one behind the other in the payload of a cluster, at
/// these places from its start on, none of them a Position or a block before the
/// last.
pub open spec fn leads_to(payload: Seq<u8>, places: Seq<int>) -> bool {
    &&& places.len() > 0
    &&& places[0] == 0
    &&& forall|k: int| 0 <= k < places.len() - 1 ==> #[trigger] leads_on(payload, places[k], places[k + 1])
    &&& forall|k: int| 0 <= k < places.len() ==> 0 <= #[trigger] places[k] < payload.len()
}

/// Whether the element at `at` is neither a Position nor a block, and the next one
/// stands at `next`.
pub open spec fn leads_on(payload: Seq<u8>, at: int, next: int) -> bool {
    exists|id: u64, size: u64, header_len: int| {
        &&& #[trigger] header_stands(payload, at, id, size, header_len)
        &&& id != 0xA7 && id != 0xA3 && id != 0xA0
        &&& size != UNKNOWN
        &&& next == at + header_len + size
    }
}

proof fn lemma_leads(payload: Seq<u8>, places: Seq<int>, k: int)
    requires
        leads_to(payload, places),
        payload.len() <= u64::MAX,
        0 <= k < places.len(),
    ensures
        slot_from(payload, places[k]) == slot_from(payload, places.last()),
    decreases places.len() - k,
{
    if k < places.len() - 1 {
        let at = places[k];
        assert(leads_on(payload, places[k], places[k + 1]));
        let (id, size, header_len) = choose|id: u64, size: u64, header_len: int| {
            &&& #[trigger] header_stands(payload, at, id, size, header_len)
            &&& id != 0xA7 && id != 0xA3 && id != 0xA0
            &&& size != UNKNOWN
            &&& places[k + 1] == at + header_len + size
        };
        assert(0 <= places[k] < payload.len());
        assert(0 <= places[k + 1] < payload.len());
        lemma_leads(payload, places, k + 1);
    }
}

/// The Position element of a cluster is found wherever it stands before the first
/// block, however much stands in front of it; and where a block comes first there
/// is none.
pub proof fn law_position_is_found(payload: Seq<u8>, places: Seq<int>, id: u64, size: u64, header_len: int)
    requires
        payload.len() <= u64::MAX,
        leads_to(payload, places),
        header_stands(payload, places.last(), id, size, header_len),
    ensures
        id == 0xA7 ==> slot_from(payload, 0) == Some(
            PositionSlot { off: places.last() as u64, header_len: header_len as u64, size },
        ),
        id == 0xA3 || id == 0xA0 ==> slot_from(payload, 0) is None,
{
    lemma_leads(payload, places, 0);
    let at = places.last();
    assert(0 <= places[places.len() - 1] < payload.len());
    lemma_id_at_canonical(payload, at);
}

/// A position in a child moves with it, to the same place in it. One past the last
/// child stays as far behind the end as it was, whether the whole grew or shrank.
/// Any other stays.
pub proof fn law_positions_move_with_what_they_point_to(mv: MovesModel, p: u64, i: int)
    requires
        mv.wf(),
    ensures
        0 <= i < mv.old_rel.len() && mv.old_rel[i] <= p < mv.old_rel[i] + mv.old_len[i] && (forall|k: int|
            0 <= k < i ==> !((#[trigger] mv.old_rel[k]) <= p < mv.old_rel[k] + mv.old_len[k])) ==> mv.place(p) - mv.starts[i]
            == p - mv.old_rel[i],
        (forall|k: int| 0 <= k < mv.old_rel.len() ==> !((#[trigger] mv.old_rel[k]) <= p < mv.old_rel[k] + mv.old_len[k]))
            && mv.old_rel.len() > 0 ==> {
            let old_end = mv.old_rel.last() + mv.old_len.last();
            let new_end = mv.starts.last() + mv.new_len.last();
            &&& p >= old_end && p + new_end - old_end <= u64::MAX ==> mv.place(p) - new_end == p - old_end
            &&& p < old_end ==> mv.place(p) == p
        },
{
    lemma_holder_is_first(mv, p, 0);
    if 0 <= i < mv.old_rel.len() && mv.old_rel[i] <= p < mv.old_rel[i] + mv.old_len[i] && (forall|k: int|
        0 <= k < i ==> !((#[trigger] mv.old_rel[k]) <= p < mv.old_rel[k] + mv.old_len[k])) {
        let h = mv.holder(p, 0);
        if h < i {
            assert(mv.old_rel[h] <= p < mv.old_rel[h] + mv.old_len[h]);
        }
        if i < h {
            assert(!(mv.old_rel[i] <= p < mv.old_rel[i] + mv.old_len[i]));
        }
        assert(mv.starts[i] + mv.old_len[i] <= u64::MAX);
    }
    if (forall|k: int| 0 <= k < mv.old_rel.len() ==> !((#[trigger] mv.old_rel[k]) <= p < mv.old_rel[k] + mv.old_len[k]))
        && mv.old_rel.len() > 0 {
        let h = mv.holder(p, 0);
        if h < mv.old_rel.len() {
            assert(mv.old_rel[h] <= p < mv.old_rel[h] + mv.old_len[h]);
        }
        let n = mv.old_rel.len() - 1;
        assert(mv.old_rel[n] + mv.old_len[n] <= u64::MAX);
        assert(mv.starts[n] + mv.new_len[n] <= u64::MAX);
    }
}

proof fn lemma_holder_is_first(mv: MovesModel, p: u64, from: int)
    requires
        0 <= from <= mv.old_rel.len(),
    ensures
        from <= mv.holder(p, from) <= mv.old_rel.len(),
        mv.holder(p, from) < mv.old_rel.len() ==> mv.old_rel[mv.holder(p, from)] <= p < mv.old_rel[mv.holder(p, from)]
            + mv.old_len[mv.holder(p, from)],
        forall|k: int|
            from <= k < mv.holder(p, from) ==> !((#[trigger] mv.old_rel[k]) <= p < mv.old_rel[k] + mv.old_len[k]),
    decreases mv.old_rel.len() - from,
{
    if from < mv.old_rel.len() && !mv.holds(from, p) {
        lemma_holder_is_first(mv, p, from + 1);
    }
}

} // verus!
