//! The bytes of a rewritten file, child by child.

use vstd::prelude::*;

use crate::ebml::id;
#[allow(unused_imports)]
use crate::ebml::vint::{lemma_id_bytes_len, lemma_size_bytes_len};
#[allow(unused_imports)]
use crate::edit::apply::{all_within_file, within_file};
#[allow(unused_imports)]
use crate::edit::layout::{all_fit, lemma_sum_take, lens_of, sum};
#[allow(unused_imports)]
use crate::edit::piece::{laid_out, piece_bytes, total_len, PieceModel};
#[allow(unused_imports)]
use crate::edit::save::{behind_segment, flat, new_file, segment_header};
#[allow(unused_imports)]
use crate::mkv::file::MkvModel;
#[allow(unused_imports)]
use crate::mkv::source::clipped;

verus! {

/// Pieces that only copy what the file holds are as long as they say.
pub proof fn lemma_laid_out_len(s: Seq<PieceModel>, file: Seq<u8>)
    requires
        all_within_file(s, file.len()),
    ensures
        laid_out(s, file).len() == total_len(s),
    decreases s.len(),
{
    if s.len() > 0 {
        assert(within_file(s[s.len() - 1], file.len()));
        assert forall|i: int| 0 <= i < s.drop_last().len() implies within_file(
            #[trigger] s.drop_last()[i],
            file.len(),
        ) by {
            assert(within_file(s[i], file.len()));
        }
        lemma_laid_out_len(s.drop_last(), file);
    }
}

pub proof fn lemma_laid_out_append(a: Seq<PieceModel>, b: Seq<PieceModel>, file: Seq<u8>)
    ensures
        laid_out(a + b, file) == laid_out(a, file) + laid_out(b, file),
    decreases b.len(),
{
    if b.len() == 0 {
        assert(a + b =~= a);
        assert(laid_out(a, file) + laid_out(b, file) =~= laid_out(a, file));
    } else {
        lemma_laid_out_append(a, b.drop_last(), file);
        assert((a + b).drop_last() =~= a + b.drop_last());
        assert((a + b).last() == b.last());
        assert(laid_out(a + b, file) =~= laid_out(a, file) + laid_out(b, file));
    }
}

/// Each child's pieces are among the pieces of all.
proof fn lemma_flat_within(children: Seq<Seq<PieceModel>>, len: nat)
    requires
        all_within_file(flat(children), len),
    ensures
        forall|i: int| 0 <= i < children.len() ==> all_within_file(#[trigger] children[i], len),
    decreases children.len(),
{
    if children.len() > 0 {
        let front = flat(children.drop_last());
        let last = children.last();
        let all = flat(children);
        assert forall|k: int| 0 <= k < front.len() implies within_file(#[trigger] front[k], len) by {
            assert(all[k] == front[k]);
        }
        assert forall|k: int| 0 <= k < last.len() implies within_file(#[trigger] last[k], len) by {
            assert(all[front.len() + k] == last[k]);
        }
        lemma_flat_within(children.drop_last(), len);
        assert forall|i: int| 0 <= i < children.len() implies all_within_file(
            #[trigger] children[i],
            len,
        ) by {
            if i < children.len() - 1 {
                assert(children[i] == children.drop_last()[i]);
            }
        }
    }
}

/// The bytes of the children: as many as the lengths add up to, and those of
/// each child where it starts.
pub proof fn lemma_flat_bytes(children: Seq<Seq<PieceModel>>, file: Seq<u8>)
    requires
        all_fit(children),
        all_within_file(flat(children), file.len()),
    ensures
        laid_out(flat(children), file).len() == sum(lens_of(children)),
        forall|i: int|
            0 <= i < children.len() ==> {
                &&& laid_out(#[trigger] children[i], file).len() == lens_of(children)[i]
                &&& sum(lens_of(children).take(i)) + lens_of(children)[i] <= sum(lens_of(children))
                &&& laid_out(flat(children), file).subrange(
                    sum(lens_of(children).take(i)) as int,
                    sum(lens_of(children).take(i)) + lens_of(children)[i],
                ) == laid_out(children[i], file)
            },
    decreases children.len(),
{
    let lens = lens_of(children);
    if children.len() > 0 {
        let front = children.drop_last();
        let last = children.last();
        lemma_flat_within(children, file.len());
        assert(all_within_file(children[children.len() - 1], file.len()));
        assert(total_len(children[children.len() - 1]) <= u64::MAX);
        lemma_laid_out_len(last, file);
        lemma_laid_out_append(flat(front), last, file);
        assert forall|k: int| 0 <= k < flat(front).len() implies within_file(
            #[trigger] flat(front)[k],
            file.len(),
        ) by {
            assert(flat(children)[k] == flat(front)[k]);
        }
        assert forall|i: int| 0 <= i < front.len() implies total_len(#[trigger] front[i])
            <= u64::MAX by {
            assert(front[i] == children[i]);
        }
        lemma_flat_bytes(front, file);
        assert(lens_of(front) =~= lens.drop_last());
        let all = laid_out(flat(children), file);
        let head = laid_out(flat(front), file);
        assert(all == head + laid_out(last, file));
        assert forall|i: int| 0 <= i < children.len() implies {
            &&& laid_out(#[trigger] children[i], file).len() == lens[i]
            &&& sum(lens.take(i)) + lens[i] <= sum(lens)
            &&& all.subrange(sum(lens.take(i)) as int, sum(lens.take(i)) + lens[i]) == laid_out(
                children[i],
                file,
            )
        } by {
            lemma_sum_take(lens, i);
            if i < front.len() {
                assert(front[i] == children[i]);
                assert(lens.drop_last().take(i) =~= lens.take(i));
                lemma_sum_take(lens.drop_last(), i);
                let from = sum(lens.take(i)) as int;
                let to = from + lens[i];
                assert(all.subrange(from, to) =~= head.subrange(from, to));
            } else {
                assert(lens.take(i) =~= lens.drop_last());
                let from = sum(lens.take(i)) as int;
                let to = from + lens[i];
                assert(all.subrange(from, to) =~= laid_out(last, file));
            }
        }
    } else {
        assert(flat(children) =~= Seq::<PieceModel>::empty());
        assert(laid_out(flat(children), file) =~= Seq::<u8>::empty());
        assert(lens =~= Seq::<u64>::empty());
    }
}

/// The bytes of a rewritten file: those before the Segment, its header, each
/// child where it starts, and those behind the Segment.
pub proof fn lemma_new_file_bytes(m: MkvModel, lens: Seq<u64>, children: Seq<Seq<PieceModel>>, file: Seq<u8>)
    requires
        all_fit(children),
        lens == lens_of(children),
        sum(lens) <= u64::MAX,
        m.segment_start <= file.len(),
        m.segment_end <= file.len(),
        m.file_len == file.len(),
        all_within_file(new_file(m, lens, children), file.len()),
    ensures
        ({
            let new = laid_out(new_file(m, lens, children), file);
            let base = m.segment_start + 12;
            let end = base + sum(lens);
            &&& new.len() == end + file.len() - m.segment_end
            &&& new.take(m.segment_start as int) == file.take(m.segment_start as int)
            &&& new.subrange(m.segment_start as int, base) == segment_header(sum(lens) as u64)
            &&& new.skip(end) == file.skip(m.segment_end as int)
            &&& forall|i: int|
                0 <= i < children.len() ==> {
                    &&& laid_out(#[trigger] children[i], file).len() == lens[i]
                    &&& sum(lens.take(i)) + lens[i] <= sum(lens)
                    &&& new.subrange(
                        base + sum(lens.take(i)),
                        base + sum(lens.take(i)) + lens[i],
                    ) == laid_out(children[i], file)
                }
        }),
{
    let total = sum(lens) as u64;
    let start = m.segment_start as int;
    let front = seq![
        PieceModel::Copy { off: 0, len: m.segment_start },
        PieceModel::Bytes(segment_header(total)),
    ];
    let all = new_file(m, lens, children);
    assert forall|k: int| 0 <= k < flat(children).len() implies within_file(
        #[trigger] flat(children)[k],
        file.len(),
    ) by {
        assert(all[2 + k] == flat(children)[k]);
    }
    lemma_flat_bytes(children, file);
    lemma_laid_out_append(front, flat(children), file);
    lemma_id_bytes_len(id::SEGMENT);
    lemma_size_bytes_len(total, 8);
    let new = laid_out(all, file);
    let base = start + 12;
    let end = base + sum(lens);
    let middle = laid_out(flat(children), file);
    let head = laid_out(front, file);
    let tail = file.skip(m.segment_end as int);
    assert(head =~= file.take(start) + segment_header(total)) by {
        reveal_with_fuel(laid_out, 3);
        assert(front.drop_last() =~= seq![front[0]]);
        assert(front.drop_last().drop_last() =~= Seq::<PieceModel>::empty());
        assert(clipped(file, 0, start) =~= file.take(start));
    }
    assert(all.drop_last() =~= front + flat(children));
    assert(piece_bytes(behind_segment(m), file) =~= tail);
    assert(head.len() == base);
    assert(new == head + middle + tail);
    assert(new.take(start) =~= file.take(start));
    assert(new.subrange(start, base) =~= segment_header(total));
    assert(new.skip(end) =~= tail);
    assert forall|i: int| 0 <= i < children.len() implies {
        &&& laid_out(#[trigger] children[i], file).len() == lens[i]
        &&& sum(lens.take(i)) + lens[i] <= sum(lens)
        &&& new.subrange(base + sum(lens.take(i)), base + sum(lens.take(i)) + lens[i]) == laid_out(
            children[i],
            file,
        )
    } by {
        let from = sum(lens.take(i)) as int;
        assert(new.subrange(base + from, base + from + lens[i]) =~= middle.subrange(
            from,
            from + lens[i],
        ));
    }
}

} // verus!
