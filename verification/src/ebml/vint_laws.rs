//! What holds of the two numbers of a header as they are read.

use vstd::prelude::*;

#[allow(unused_imports)]
use crate::ebml::bytes::{be, lemma_be_bound, lemma_be_first, lemma_pow256_table, pow256};
#[allow(unused_imports)]
use crate::ebml::value::{float_of, FloatBits};
#[allow(unused_imports)]
use crate::ebml::vint::{
    id_at, id_size, id_width, lemma_size_marker_table, size_at, size_marker, size_size, size_width, UNKNOWN,
};

verus! {

/// The first set bit of the first byte tells the width, of an ID up to four bytes
/// and of a size up to eight.
pub proof fn law_first_bit_tells_the_width(first: u8)
    ensures
        size_width(first) == Some(1usize) <==> first & 0x80 == 0x80,
        size_width(first) == Some(2usize) <==> first & 0xC0 == 0x40,
        size_width(first) == Some(3usize) <==> first & 0xE0 == 0x20,
        size_width(first) == Some(4usize) <==> first & 0xF0 == 0x10,
        size_width(first) == Some(5usize) <==> first & 0xF8 == 0x08,
        size_width(first) == Some(6usize) <==> first & 0xFC == 0x04,
        size_width(first) == Some(7usize) <==> first & 0xFE == 0x02,
        size_width(first) == Some(8usize) <==> first == 0x01,
        size_width(first) is None <==> first == 0,
        first & 0xF0 != 0 ==> id_width(first) == size_width(first),
        first & 0xF0 == 0 ==> id_width(first) is None,
{
    assert(first & 0x80 == 0x80 <==> first >= 0x80) by (bit_vector);
    assert(first & 0xC0 == 0x40 <==> 0x40 <= first < 0x80) by (bit_vector);
    assert(first & 0xE0 == 0x20 <==> 0x20 <= first < 0x40) by (bit_vector);
    assert(first & 0xF0 == 0x10 <==> 0x10 <= first < 0x20) by (bit_vector);
    assert(first & 0xF8 == 0x08 <==> 0x08 <= first < 0x10) by (bit_vector);
    assert(first & 0xFC == 0x04 <==> 0x04 <= first < 0x08) by (bit_vector);
    assert(first & 0xFE == 0x02 <==> 0x02 <= first < 0x04) by (bit_vector);
    assert(first & 0xF0 == 0 <==> first < 0x10) by (bit_vector);
}

/// A number that is one less than a multiple of a power of 256 ends in bytes that
/// are all ones.
proof fn lemma_all_ones(s: Seq<u8>, a: nat)
    requires
        s.len() > 0,
        a > 0,
    ensures
        be(s) == a * pow256((s.len() - 1) as nat) - 1 <==> s[0] == a - 1 && forall|i: int|
            1 <= i < s.len() ==> #[trigger] s[i] == 0xFF,
    decreases s.len(),
{
    let d = s.drop_last();
    if s.len() == 1 {
        assert(d =~= Seq::<u8>::empty());
        assert(be(s) == s[0]) by {
            assert(be(d) == 0);
        }
        assert(pow256(0) == 1);
        assert(a * pow256(0) == a) by (nonlinear_arith)
            requires
                pow256(0) == 1,
        ;
    } else {
        lemma_all_ones(d, a);
        let p = pow256((s.len() - 2) as nat);
        let q = pow256((s.len() - 1) as nat);
        assert(q == 256 * p);
        assert(a * q == 256 * (a * p)) by (nonlinear_arith)
            requires
                q == 256 * p,
        ;
        assert(be(s) == be(d) * 256 + s.last());
        let x = a * p;
        assert(be(s) == 256 * x - 1 <==> be(d) == x - 1 && s.last() == 0xFF);
        if s[0] == a - 1 && forall|i: int| 1 <= i < s.len() ==> #[trigger] s[i] == 0xFF {
            assert(s.last() == 0xFF);
            assert forall|i: int| 1 <= i < d.len() implies #[trigger] d[i] == 0xFF by {
                assert(d[i] == s[i]);
            }
        }
        if be(s) == a * q - 1 {
            assert forall|i: int| 1 <= i < s.len() implies #[trigger] s[i] == 0xFF by {
                if i < d.len() {
                    assert(d[i] == s[i]);
                }
            }
        }
    }
}

/// Twice the marker of a size of `n` bytes, as a multiple of a power of 256.
pub open spec fn ones(n: int) -> nat {
    if n == 1 {
        0x100
    } else if n == 2 {
        0x80
    } else if n == 3 {
        0x40
    } else if n == 4 {
        0x20
    } else if n == 5 {
        0x10
    } else if n == 6 {
        0x08
    } else if n == 7 {
        0x04
    } else {
        0x02
    }
}

/// A size is unknown where every bit behind the first that is set is set too, in
/// each width; any other size is the number that these bits spell.
pub proof fn law_size_is_what_the_bits_spell(buf: Seq<u8>, pos: int, n: usize)
    requires
        0 <= pos < buf.len(),
        size_width(buf[pos]) == Some(n),
        pos + n <= buf.len(),
    ensures
        ({
            let all_set = buf[pos] == ones(n as int) - 1 && forall|k: int| 1 <= k < n ==> #[trigger] buf[pos + k] == 0xFF;
            &&& size_at(buf, pos) matches Some((v, w)) && w == n && (v == UNKNOWN <==> all_set) && (!all_set ==> v
                == (buf[pos] - ones(n as int) / 2) * pow256((n - 1) as nat) + be(buf.subrange(pos + 1, pos + n)))
        }),
{
    let s = buf.subrange(pos, pos + n);
    let a = ones(n as int);
    let p = pow256((n - 1) as nat);
    lemma_pow256_table();
    lemma_size_marker_table();
    assert(2 * size_marker(n as nat) == a * p) by {
        if n == 1 {
        } else if n == 2 {
        } else if n == 3 {
        } else if n == 4 {
        } else if n == 5 {
        } else if n == 6 {
        } else if n == 7 {
        } else {
            assert(n == 8);
        }
    }
    lemma_all_ones(s, a);
    let all_set = buf[pos] == ones(n as int) - 1 && forall|k: int| 1 <= k < n ==> #[trigger] buf[pos + k] == 0xFF;
    let ends = forall|i: int| 1 <= i < s.len() ==> #[trigger] s[i] == 0xFF;
    assert(all_set <==> s[0] == a - 1 && ends) by {
        if ends {
            assert forall|k: int| 1 <= k < n implies #[trigger] buf[pos + k] == 0xFF by {
                assert(s[k] == 0xFF);
            }
        }
        if all_set {
            assert forall|i: int| 1 <= i < s.len() implies #[trigger] s[i] == 0xFF by {
                assert(buf[pos + i] == 0xFF);
            }
        }
    }
    lemma_be_first(s);
    assert(s.drop_first() =~= buf.subrange(pos + 1, pos + n));
    lemma_be_bound(s.drop_first());
    let f = buf[pos] as int;
    assert(f * p - (a / 2) * p == (f - a / 2) * p) by (nonlinear_arith);
    assert((a / 2) * p == size_marker(n as nat)) by (nonlinear_arith)
        requires
            2 * size_marker(n as nat) == a * p,
            a % 2 == 0,
    ;
    assert(f < a);
    assert(f * p + p <= a * p) by (nonlinear_arith)
        requires
            f + 1 <= a,
            p >= 0,
    ;
}

/// An ID is the number that its bytes spell, its first bit with them.
pub proof fn law_id_is_what_the_bytes_spell(buf: Seq<u8>, pos: int, n: usize)
    requires
        0 <= pos < buf.len(),
        id_width(buf[pos]) == Some(n),
        pos + n <= buf.len(),
    ensures
        id_at(buf, pos) matches Some((v, w)) && w == n && v == buf[pos] * pow256((n - 1) as nat) + be(
            buf.subrange(pos + 1, pos + n),
        ),
{
    let s = buf.subrange(pos, pos + n);
    lemma_pow256_table();
    lemma_be_first(s);
    lemma_be_bound(s);
    assert(s.drop_first() =~= buf.subrange(pos + 1, pos + n));
}

/// The widths that an ID and a size are written in. A size is written as short as
/// leaves a bit unset, so that it is not taken for one that is unknown.
pub proof fn law_written_widths(id: u64, v: u64)
    ensures
        id_size(id) == 1 <==> id < 0x100,
        id_size(id) == 2 <==> 0x100 <= id < 0x1_0000,
        id_size(id) == 3 <==> 0x1_0000 <= id < 0x100_0000,
        id_size(id) == 4 <==> 0x100_0000 <= id,
        size_size(v) == 1 <==> v < 0x7F,
        size_size(v) == 2 <==> 0x7F <= v < 0x3FFF,
        size_size(v) == 3 <==> 0x3FFF <= v < 0x1F_FFFF,
        size_size(v) == 4 <==> 0x1F_FFFF <= v < 0xFFF_FFFF,
        size_size(v) == 5 <==> 0xFFF_FFFF <= v < 0x7_FFFF_FFFF,
        size_size(v) == 6 <==> 0x7_FFFF_FFFF <= v < 0x3FF_FFFF_FFFF,
        size_size(v) == 7 <==> 0x3FF_FFFF_FFFF <= v < 0x1_FFFF_FFFF_FFFF,
        size_size(v) == 8 <==> 0x1_FFFF_FFFF_FFFF <= v,
{
    lemma_size_marker_table();
    reveal_with_fuel(crate::ebml::vint::size_size_from, 9);
}

/// A float is the bits of its four or eight bytes, the first byte the highest; one
/// of another length is zero.
pub proof fn law_float_is_its_bits(data: Seq<u8>)
    ensures
        data.len() == 4 ==> (float_of(data) matches FloatBits::Single(b) && b == data[0] * 0x100_0000 + data[1]
            * 0x1_0000 + data[2] * 0x100 + data[3]),
        data.len() == 8 ==> (float_of(data) matches FloatBits::Double(b) && b == data[0] * 0x100_0000_0000_0000
            + data[1] * 0x1_0000_0000_0000 + data[2] * 0x100_0000_0000 + data[3] * 0x1_0000_0000 + data[4]
            * 0x100_0000 + data[5] * 0x1_0000 + data[6] * 0x100 + data[7]),
        data.len() != 4 && data.len() != 8 ==> float_of(data) == FloatBits::Zero,
{
    lemma_be_bound(data);
    lemma_pow256_table();
    reveal_with_fuel(be, 9);
}

} // verus!
