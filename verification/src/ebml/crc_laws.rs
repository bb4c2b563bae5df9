//! What the checksum is good for.

use vstd::prelude::*;

#[allow(unused_imports)]
use crate::ebml::crc::{crc_of, le4, register, shift_bit, shift_bits};
#[allow(unused_imports)]
use crate::ebml::node::{encoded_all, has_checksum, payload, Node};

verus! {

/// One step of a division by the polynomial of IEEE 802.3, bits reversed.
spec fn divided(c: u32) -> u32 {
    if c & 1u32 == 1u32 {
        (c >> 1u32) ^ 0xEDB8_8320u32
    } else {
        c >> 1u32
    }
}

proof fn lemma_bit(a: u32, b: u32)
    ensures
        shift_bit(a ^ b) == shift_bit(a) ^ shift_bit(b),
        shift_bit(a) == shift_bit(b) ==> a == b,
        a < 0x8000_0000 ==> shift_bit(a << 1) == a,
{
    assert(divided(a ^ b) == divided(a) ^ divided(b)) by (bit_vector);
    assert(divided(a) == divided(b) ==> a == b) by (bit_vector);
    assert(a < 0x8000_0000 ==> divided(a << 1) == a) by (bit_vector);
}

/// Shifting keeps sums, and tells two registers apart.
proof fn lemma_bits(a: u32, b: u32, n: nat)
    ensures
        shift_bits(a ^ b, n) == shift_bits(a, n) ^ shift_bits(b, n),
        shift_bits(a, n) == shift_bits(b, n) ==> a == b,
    decreases n,
{
    if n > 0 {
        let m = (n - 1) as nat;
        lemma_bits(a, b, m);
        lemma_bit(shift_bits(a, m), shift_bits(b, m));
    }
}

proof fn lemma_bits_add(c: u32, n: nat, m: nat)
    ensures
        shift_bits(shift_bits(c, n), m) == shift_bits(c, n + m),
    decreases m,
{
    if m > 0 {
        lemma_bits_add(c, n, (m - 1) as nat);
        assert((n + m - 1) as nat == n + (m - 1) as nat);
    }
}

/// A byte that stands eight bits higher is the byte once these are out.
proof fn lemma_lower(x: u32)
    requires
        x < 0x100_0000,
    ensures
        shift_bits(x << 8, 8) == x,
{
    assert(divided(x << 8) == x << 7) by (bit_vector)
        requires
            x < 0x100_0000,
    ;
    assert(divided(x << 7) == x << 6 && divided(x << 6) == x << 5 && divided(x << 5) == x << 4 && divided(
        x << 4,
    ) == x << 3 && divided(x << 3) == x << 2 && divided(x << 2) == x << 1 && divided(x << 1) == x)
        by (bit_vector)
        requires
            x < 0x100_0000,
    ;
    reveal_with_fuel(shift_bits, 9);
}

proof fn lemma_all_ones()
    ensures
        shift_bits(0xFFFF_FFFFu32, 32) == 0xDEBB_20E3u32,
{
    assert({
        &&& divided(0xFFFF_FFFFu32) == 0x9247_7CDFu32
        &&& divided(0x9247_7CDFu32) == 0xA49B_3D4Fu32
        &&& divided(0xA49B_3D4Fu32) == 0xBFF5_1D87u32
        &&& divided(0xBFF5_1D87u32) == 0xB242_0DE3u32
        &&& divided(0xB242_0DE3u32) == 0xB499_85D1u32
        &&& divided(0xB499_85D1u32) == 0xB7F4_41C8u32
        &&& divided(0xB7F4_41C8u32) == 0x5BFA_20E4u32
        &&& divided(0x5BFA_20E4u32) == 0x2DFD_1072u32
        &&& divided(0x2DFD_1072u32) == 0x16FE_8839u32
        &&& divided(0x16FE_8839u32) == 0xE6C7_C73Cu32
        &&& divided(0xE6C7_C73Cu32) == 0x7363_E39Eu32
        &&& divided(0x7363_E39Eu32) == 0x39B1_F1CFu32
        &&& divided(0x39B1_F1CFu32) == 0xF160_7BC7u32
        &&& divided(0xF160_7BC7u32) == 0x9508_BEC3u32
        &&& divided(0x9508_BEC3u32) == 0xA73C_DC41u32
        &&& divided(0xA73C_DC41u32) == 0xBE26_ED00u32
        &&& divided(0xBE26_ED00u32) == 0x5F13_7680u32
        &&& divided(0x5F13_7680u32) == 0x2F89_BB40u32
        &&& divided(0x2F89_BB40u32) == 0x17C4_DDA0u32
        &&& divided(0x17C4_DDA0u32) == 0x0BE2_6ED0u32
        &&& divided(0x0BE2_6ED0u32) == 0x05F1_3768u32
        &&& divided(0x05F1_3768u32) == 0x02F8_9BB4u32
        &&& divided(0x02F8_9BB4u32) == 0x017C_4DDAu32
        &&& divided(0x017C_4DDAu32) == 0x00BE_26EDu32
        &&& divided(0x00BE_26EDu32) == 0xEDE7_9056u32
        &&& divided(0xEDE7_9056u32) == 0x76F3_C82Bu32
        &&& divided(0x76F3_C82Bu32) == 0xD6C1_6735u32
        &&& divided(0xD6C1_6735u32) == 0x86D8_30BAu32
        &&& divided(0x86D8_30BAu32) == 0x436C_185Du32
        &&& divided(0x436C_185Du32) == 0xCC0E_8F0Eu32
        &&& divided(0xCC0E_8F0Eu32) == 0x6607_4787u32
        &&& divided(0x6607_4787u32) == 0xDEBB_20E3u32
    }) by (bit_vector);
    assert(shift_bits(0xFFFF_FFFFu32, 0) == 0xFFFF_FFFFu32);
    assert(shift_bits(0xFFFF_FFFFu32, 1) == 0x9247_7CDFu32);
    assert(shift_bits(0xFFFF_FFFFu32, 2) == 0xA49B_3D4Fu32);
    assert(shift_bits(0xFFFF_FFFFu32, 3) == 0xBFF5_1D87u32);
    assert(shift_bits(0xFFFF_FFFFu32, 4) == 0xB242_0DE3u32);
    assert(shift_bits(0xFFFF_FFFFu32, 5) == 0xB499_85D1u32);
    assert(shift_bits(0xFFFF_FFFFu32, 6) == 0xB7F4_41C8u32);
    assert(shift_bits(0xFFFF_FFFFu32, 7) == 0x5BFA_20E4u32);
    assert(shift_bits(0xFFFF_FFFFu32, 8) == 0x2DFD_1072u32);
    assert(shift_bits(0xFFFF_FFFFu32, 9) == 0x16FE_8839u32);
    assert(shift_bits(0xFFFF_FFFFu32, 10) == 0xE6C7_C73Cu32);
    assert(shift_bits(0xFFFF_FFFFu32, 11) == 0x7363_E39Eu32);
    assert(shift_bits(0xFFFF_FFFFu32, 12) == 0x39B1_F1CFu32);
    assert(shift_bits(0xFFFF_FFFFu32, 13) == 0xF160_7BC7u32);
    assert(shift_bits(0xFFFF_FFFFu32, 14) == 0x9508_BEC3u32);
    assert(shift_bits(0xFFFF_FFFFu32, 15) == 0xA73C_DC41u32);
    assert(shift_bits(0xFFFF_FFFFu32, 16) == 0xBE26_ED00u32);
    assert(shift_bits(0xFFFF_FFFFu32, 17) == 0x5F13_7680u32);
    assert(shift_bits(0xFFFF_FFFFu32, 18) == 0x2F89_BB40u32);
    assert(shift_bits(0xFFFF_FFFFu32, 19) == 0x17C4_DDA0u32);
    assert(shift_bits(0xFFFF_FFFFu32, 20) == 0x0BE2_6ED0u32);
    assert(shift_bits(0xFFFF_FFFFu32, 21) == 0x05F1_3768u32);
    assert(shift_bits(0xFFFF_FFFFu32, 22) == 0x02F8_9BB4u32);
    assert(shift_bits(0xFFFF_FFFFu32, 23) == 0x017C_4DDAu32);
    assert(shift_bits(0xFFFF_FFFFu32, 24) == 0x00BE_26EDu32);
    assert(shift_bits(0xFFFF_FFFFu32, 25) == 0xEDE7_9056u32);
    assert(shift_bits(0xFFFF_FFFFu32, 26) == 0x76F3_C82Bu32);
    assert(shift_bits(0xFFFF_FFFFu32, 27) == 0xD6C1_6735u32);
    assert(shift_bits(0xFFFF_FFFFu32, 28) == 0x86D8_30BAu32);
    assert(shift_bits(0xFFFF_FFFFu32, 29) == 0x436C_185Du32);
    assert(shift_bits(0xFFFF_FFFFu32, 30) == 0xCC0E_8F0Eu32);
    assert(shift_bits(0xFFFF_FFFFu32, 31) == 0x6607_4787u32);
    assert(shift_bits(0xFFFF_FFFFu32, 32) == 0xDEBB_20E3u32);
}

/// The register after four bytes, that starts from `r`.
proof fn lemma_four(r: u32, b0: u8, b1: u8, b2: u8, b3: u8)
    ensures
        shift_bits(
            shift_bits(shift_bits(shift_bits(r ^ (b0 as u32), 8) ^ (b1 as u32), 8) ^ (b2 as u32), 8) ^ (b3 as u32),
            8,
        ) == shift_bits(r ^ (b0 as u32) ^ ((b1 as u32) << 8) ^ ((b2 as u32) << 16) ^ ((b3 as u32) << 24), 32),
{
    let x1 = b1 as u32;
    let x2 = b2 as u32;
    let x3 = b3 as u32;
    assert(x2 << 16 == (x2 << 8) << 8 && x2 << 8 < 0x100_0000 && x3 << 24 == (x3 << 16) << 8 && x3 << 16
        == (x3 << 8) << 8 && x3 << 16 < 0x100_0000 && x3 << 8 < 0x100_0000) by (bit_vector)
        requires
            x2 < 256,
            x3 < 256,
    ;
    lemma_lower(x1);
    lemma_lower(x2);
    lemma_lower(x2 << 8);
    lemma_lower(x3);
    lemma_lower(x3 << 8);
    lemma_lower(x3 << 16);
    lemma_bits_add(x2 << 16, 8, 8);
    lemma_bits_add(x3 << 24, 8, 8);
    lemma_bits_add(x3 << 24, 16, 8);
    let a = r ^ (b0 as u32);
    let b = a ^ (x1 << 8);
    let c = b ^ (x2 << 16);
    let d = c ^ (x3 << 24);
    lemma_bits(a, x1 << 8, 8);
    lemma_bits_add(b, 8, 8);
    lemma_bits(b, x2 << 16, 16);
    lemma_bits_add(c, 16, 8);
    lemma_bits(c, x3 << 24, 24);
    lemma_bits_add(d, 24, 8);
}

/// Data that its checksum stands behind always has the same checksum: this is how
/// a reader checks it.
pub proof fn law_checksum_checks(data: Seq<u8>)
    ensures
        crc_of(data + le4(crc_of(data))) == 0x2144_DF1C,
{
    let r = register(data);
    let v = crc_of(data);
    let s = le4(v);
    let one = data.push(s[0]);
    let two = one.push(s[1]);
    let three = two.push(s[2]);
    let four = three.push(s[3]);
    assert(data + s =~= four);
    assert(one.drop_last() =~= data);
    assert(two.drop_last() =~= one);
    assert(three.drop_last() =~= two);
    assert(four.drop_last() =~= three);
    assert(register(one) == shift_bits(r ^ (s[0] as u32), 8));
    assert(register(two) == shift_bits(register(one) ^ (s[1] as u32), 8));
    assert(register(three) == shift_bits(register(two) ^ (s[2] as u32), 8));
    assert(register(four) == shift_bits(register(three) ^ (s[3] as u32), 8));
    lemma_four(r, s[0], s[1], s[2], s[3]);
    let x0: u32 = s[0] as u32;
    let x1: u32 = s[1] as u32;
    let x2: u32 = s[2] as u32;
    let x3: u32 = s[3] as u32;
    assert(r ^ x0 ^ (x1 << 8u32) ^ (x2 << 16u32) ^ (x3 << 24u32) == 0xFFFF_FFFFu32) by (bit_vector)
        requires
            v == !r,
            x0 == v % 256u32,
            x1 == v / 256u32 % 256u32,
            x2 == v / 0x1_0000u32 % 256u32,
            x3 == v / 0x100_0000u32,
    ;
    lemma_all_ones();
    assert(!0xDEBB_20E3u32 == 0x2144_DF1Cu32) by (bit_vector);
}

/// Registers that differ still do behind the same bytes.
proof fn lemma_register_differs(a: Seq<u8>, b: Seq<u8>, k: int)
    requires
        a.len() == b.len(),
        0 <= k < a.len(),
        a[k] != b[k],
        forall|i: int| 0 <= i < a.len() && i != k ==> a[i] == b[i],
    ensures
        register(a) != register(b),
    decreases a.len(),
{
    let x: u32 = a.last() as u32;
    let y: u32 = b.last() as u32;
    let ra: u32 = register(a.drop_last());
    let rb: u32 = register(b.drop_last());
    if k == a.len() - 1 {
        assert(a.drop_last() =~= b.drop_last());
        assert(ra ^ x != ra ^ y) by (bit_vector)
            requires
                x != y,
        ;
    } else {
        lemma_register_differs(a.drop_last(), b.drop_last(), k);
        assert(ra ^ x != rb ^ x) by (bit_vector)
            requires
                ra != rb,
        ;
    }
    lemma_bits(ra ^ x, rb ^ y, 8);
}

/// A changed byte changes the checksum.
pub proof fn law_checksum_tells_a_changed_byte(a: Seq<u8>, b: Seq<u8>, k: int)
    requires
        a.len() == b.len(),
        0 <= k < a.len(),
        a[k] != b[k],
        forall|i: int| 0 <= i < a.len() && i != k ==> a[i] == b[i],
    ensures
        crc_of(a) != crc_of(b),
{
    lemma_register_differs(a, b, k);
    let x: u32 = register(a);
    let y: u32 = register(b);
    assert(!x != !y) by (bit_vector)
        requires
            x != y,
    ;
}

/// Children that are left out make no difference to what is written.
proof fn lemma_left_out(nodes: Seq<Node>, id: u64)
    requires
        id == 0xBF || id == 0xEC,
    ensures
        encoded_all(nodes.filter(|e: Node| e.id() != id)) == encoded_all(nodes),
    decreases nodes.len(),
{
    reveal(Seq::filter);
    let keep = |e: Node| e.id() != id;
    if nodes.len() > 0 {
        lemma_left_out(nodes.drop_last(), id);
        let front = nodes.drop_last().filter(keep);
        if keep(nodes.last()) {
            assert(nodes.filter(keep) =~= front.push(nodes.last()));
            assert(front.push(nodes.last()).drop_last() =~= front);
        }
    }
}

/// A master that has a checksum is written with one that checks: in front of the
/// others stands an element `BF` of four bytes, and what is behind it, with these
/// bytes at its end, checks. What is behind it is what is written of the master
/// without a checksum.
pub proof fn law_written_checksum_checks(n: Node)
    requires
        n is Master,
        exists|i: int| 0 <= i < n.children().len() && (#[trigger] n.children()[i]).id() == 0xBF,
    ensures
        ({
            let all = payload(n);
            &&& all.len() >= 6
            &&& all[0] == 0xBF && all[1] == 0x84
            &&& crc_of(all.skip(6) + all.subrange(2, 6)) == 0x2144_DF1C
            &&& all.skip(6) == payload(n.without(0xBF))
        }),
{
    let nodes = n.children();
    let body = encoded_all(nodes);
    assert(has_checksum(nodes));
    law_checksum_checks(body);
    let all = payload(n);
    assert(all.skip(6) =~= body);
    assert(all.subrange(2, 6) =~= le4(crc_of(body)));
    lemma_left_out(nodes, 0xBF);
    let keep = |e: Node| e.id() != 0xBF;
    let rest = nodes.filter(keep);
    assert(!has_checksum(rest)) by {
        assert forall|i: int| 0 <= i < rest.len() implies (#[trigger] rest[i]).id() != 0xBF by {
            nodes.lemma_filter_pred(keep, i);
            assert(keep(rest[i]));
        }
    }
}

/// Padding inside a master is not written again.
pub proof fn law_padding_is_dropped(n: Node)
    requires
        n is Master,
    ensures
        payload(n.without(0xEC)) == payload(n),
{
    let nodes = n.children();
    let keep = |e: Node| e.id() != 0xEC;
    let rest = nodes.filter(keep);
    lemma_left_out(nodes, 0xEC);
    if has_checksum(nodes) {
        let i = choose|i: int| 0 <= i < nodes.len() && (#[trigger] nodes[i]).id() == 0xBF;
        assert(keep(nodes[i]));
        nodes.lemma_filter_contains(keep, i);
        let j = choose|j: int| 0 <= j < rest.len() && rest[j] == nodes[i];
        assert(rest[j].id() == 0xBF);
        assert(has_checksum(rest));
    }
    if has_checksum(rest) {
        let j = choose|j: int| 0 <= j < rest.len() && (#[trigger] rest[j]).id() == 0xBF;
        assert(rest.contains(rest[j]));
        nodes.lemma_filter_contains_rev(keep, rest[j]);
        let i = choose|i: int| 0 <= i < nodes.len() && nodes[i] == rest[j];
        assert(nodes[i].id() == 0xBF);
    }
}

} // verus!
