//! Void elements, which pad a gap.

use vstd::prelude::*;

use crate::ebml::id;
use crate::ebml::vint::{write_size_with_len, MAX_SIZE};
#[allow(unused_imports)]
use crate::ebml::vint::{
    id_at, id_bytes, lemma_id_at, lemma_size_at, lemma_size_bytes_len, lemma_size_marker_table, lemma_size_size,
    size_at, size_bytes, size_size_from,
};
#[allow(unused_imports)]
use crate::ebml::bytes::be_bytes;

verus! {

/// How many bytes the size of a Void of `total` bytes takes: one where that is
/// enough, else eight, which keeps the arithmetic simple for big gaps.
pub open spec fn void_size_width(total: nat) -> nat {
    if total <= 128 {
        1
    } else {
        8
    }
}

/// A Void element of `total` bytes.
pub open spec fn void_bytes(total: nat) -> Seq<u8> {
    let w = void_size_width(total);
    seq![0xECu8] + size_bytes((total - 1 - w) as u64, w) + Seq::new(
        (total - 1 - w) as nat,
        |i: int| 0u8,
    )
}

/// A Void is as long as asked for.
pub proof fn lemma_void_len(total: nat)
    requires
        2 <= total,
    ensures
        void_bytes(total).len() == total,
{
    let w = void_size_width(total);
    lemma_size_bytes_len((total - 1 - w) as u64, w);
}

/// A Void fills its gap exactly and is read back as one: the ID, and a size
/// that reaches to the end of the gap.
pub proof fn law_void_fills_its_gap(total: nat)
    requires
        2 <= total,
        total <= MAX_SIZE,
    ensures
        void_bytes(total).len() == total,
        id_at(void_bytes(total), 0) == Some((id::VOID, 1usize)),
        size_at(void_bytes(total), 1) == Some(
            ((total - 1 - void_size_width(total)) as u64, void_size_width(total) as usize),
        ),
{
    let w = void_size_width(total);
    let v = (total - 1 - w) as u64;
    let s = void_bytes(total);
    lemma_size_size(v);
    reveal_with_fuel(size_size_from, 9);
    lemma_size_marker_table();
    lemma_size_bytes_len(v, w);
    reveal_with_fuel(be_bytes, 2);
    assert(s.subrange(0, 1) =~= id_bytes(id::VOID));
    lemma_id_at(s, 0, id::VOID);
    assert(s.subrange(1, (1 + w) as int) =~= size_bytes(v, w));
    lemma_size_at(s, 1, v, w);
}

/// Builds a Void element occupying exactly `total` bytes. `total` must be at
/// least 2 (an ID byte plus a size byte).
pub fn void_of(total: usize) -> (out: Vec<u8>)
    requires
        total >= 2,
    ensures
        out@ == void_bytes(total as nat),
        out@.len() == total,
{
    proof {
        reveal_with_fuel(size_size_from, 9);
        lemma_size_marker_table();
    }
    let mut out: Vec<u8> = Vec::new();
    out.push(id::VOID as u8);
    if total <= 2 + 0x7E {
        write_size_with_len(&mut out, (total - 2) as u64, 1);
        proof {
            lemma_size_bytes_len((total - 2) as u64, 1);
        }
    } else {
        write_size_with_len(&mut out, (total - 9) as u64, 8);
        proof {
            lemma_size_bytes_len((total - 9) as u64, 8);
        }
    }
    out.resize(total, 0);
    assert(out@ =~= void_bytes(total as nat));
    out
}

} // verus!
