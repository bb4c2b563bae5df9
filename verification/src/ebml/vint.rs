//! Element IDs and data sizes: the two variable length integers of an element
//! header.

use vstd::prelude::*;

use crate::ebml::bytes::{be_value, push_be};
#[allow(unused_imports)]
use crate::ebml::bytes::{
    be, be_bytes, lemma_be_bound, lemma_be_bytes_len, lemma_be_bytes_of_be, lemma_be_first, lemma_be_of_be_bytes,
    lemma_pow256_table, pow256,
};

verus! {

/// Marker for an element whose size is coded as "unknown" (all value bits set).
pub const UNKNOWN: u64 = u64::MAX;

// ---------------------------------------------------------------------------
// Widths
// ---------------------------------------------------------------------------

/// How many bytes an element ID takes, told by its first byte: one more than
/// the number of leading zero bits, and at most four.
pub open spec fn id_width(first: u8) -> Option<usize> {
    if first >= 0x80 {
        Some(1)
    } else if first >= 0x40 {
        Some(2)
    } else if first >= 0x20 {
        Some(3)
    } else if first >= 0x10 {
        Some(4)
    } else {
        None
    }
}

/// How many bytes a data size takes, told by its first byte: one more than the
/// number of leading zero bits.
pub open spec fn size_width(first: u8) -> Option<usize> {
    if first >= 0x80 {
        Some(1)
    } else if first >= 0x40 {
        Some(2)
    } else if first >= 0x20 {
        Some(3)
    } else if first >= 0x10 {
        Some(4)
    } else if first >= 0x08 {
        Some(5)
    } else if first >= 0x04 {
        Some(6)
    } else if first >= 0x02 {
        Some(7)
    } else if first >= 0x01 {
        Some(8)
    } else {
        None
    }
}

/// 128 to the power `len`: the value of the marker bit of a data size of
/// `len` bytes, which has seven value bits a byte.
pub open spec fn size_marker(len: nat) -> nat
    decreases len,
{
    if len == 0 {
        1
    } else {
        128 * size_marker((len - 1) as nat)
    }
}

pub proof fn lemma_size_marker_table()
    ensures
        size_marker(0) == 1,
        size_marker(1) == 0x80,
        size_marker(2) == 0x4000,
        size_marker(3) == 0x20_0000,
        size_marker(4) == 0x1000_0000,
        size_marker(5) == 0x8_0000_0000,
        size_marker(6) == 0x400_0000_0000,
        size_marker(7) == 0x2_0000_0000_0000,
        size_marker(8) == 0x100_0000_0000_0000,
{
    reveal_with_fuel(size_marker, 9);
}

/// The largest payload length that a data size can state.
pub const MAX_SIZE: u64 = 0xFF_FFFF_FFFF_FFFE;

/// Number of bytes an element ID occupies, from its first byte.
pub fn id_len_from_first(first: u8) -> (r: Option<usize>)
    ensures
        r == id_width(first),
{
    if first >= 0x80 {
        Some(1)
    } else if first >= 0x40 {
        Some(2)
    } else if first >= 0x20 {
        Some(3)
    } else if first >= 0x10 {
        Some(4)
    } else {
        None
    }
}

/// Number of bytes a size VINT occupies, from its first byte.
pub fn vint_len_from_first(first: u8) -> (r: Option<usize>)
    ensures
        r == size_width(first),
{
    if first >= 0x10 {
        id_len_from_first(first)
    } else if first >= 0x08 {
        Some(5)
    } else if first >= 0x04 {
        Some(6)
    } else if first >= 0x02 {
        Some(7)
    } else if first >= 0x01 {
        Some(8)
    } else {
        None
    }
}

// ---------------------------------------------------------------------------
// Reading
// ---------------------------------------------------------------------------

/// The element ID at `pos` and its width, if there is a whole one.
pub open spec fn id_at(buf: Seq<u8>, pos: int) -> Option<(u64, usize)> {
    if 0 <= pos < buf.len() {
        match id_width(buf[pos]) {
            Some(n) => if pos + n <= buf.len() {
                Some((be(buf.subrange(pos, pos + n)) as u64, n))
            } else {
                None
            },
            None => None,
        }
    } else {
        None
    }
}

/// The data size at `pos` and its width, if there is a whole one: the number
/// that the bytes spell without the marker bit, or `UNKNOWN` where every value
/// bit is set.
pub open spec fn size_at(buf: Seq<u8>, pos: int) -> Option<(u64, usize)> {
    if 0 <= pos < buf.len() {
        match size_width(buf[pos]) {
            Some(n) => if pos + n <= buf.len() {
                let v = be(buf.subrange(pos, pos + n)) - size_marker(n as nat);
                if v == size_marker(n as nat) - 1 {
                    Some((UNKNOWN, n))
                } else {
                    Some((v as u64, n))
                }
            } else {
                None
            },
            None => None,
        }
    } else {
        None
    }
}

pub fn read_id(buf: &[u8], pos: usize) -> (r: Option<(u64, usize)>)
    ensures
        r == id_at(buf@, pos as int),
{
    if pos >= buf.len() {
        return None;
    }
    match id_len_from_first(buf[pos]) {
        Some(len) => {
            if len > buf.len() - pos {
                return None;
            }
            Some((be_value(buf, pos, len), len))
        },
        None => None,
    }
}

/// The marker bit is worth the first byte of the field that holds only it.
pub proof fn lemma_marker_byte(len: nat)
    requires
        1 <= len <= 8,
    ensures
        marker_byte(len) as nat * pow256((len - 1) as nat) == size_marker(len),
{
    lemma_pow256_table();
    lemma_size_marker_table();
    let m = marker_byte(len) as nat;
    let p = pow256((len - 1) as nat);
    let k = size_marker(len);
    assert(m * p == k) by (nonlinear_arith)
        requires
            ({
                ||| m == 0x80 && p == 1 && k == 0x80
                ||| m == 0x40 && p == 0x100 && k == 0x4000
                ||| m == 0x20 && p == 0x1_0000 && k == 0x20_0000
                ||| m == 0x10 && p == 0x100_0000 && k == 0x1000_0000
                ||| m == 0x08 && p == 0x1_0000_0000 && k == 0x8_0000_0000
                ||| m == 0x04 && p == 0x100_0000_0000 && k == 0x400_0000_0000
                ||| m == 0x02 && p == 0x1_0000_0000_0000 && k == 0x2_0000_0000_0000
                ||| m == 0x01 && p == 0x100_0000_0000_0000 && k == 0x100_0000_0000_0000
            }),
    ;
}

/// A data size spells a number between its marker bit and twice that.
pub proof fn lemma_size_bytes_bound(s: Seq<u8>)
    requires
        0 < s.len() <= 8,
        size_width(s[0]) == Some(s.len() as usize),
    ensures
        size_marker(s.len()) <= be(s) < 2 * size_marker(s.len()),
{
    lemma_be_first(s);
    lemma_be_bound(s.drop_first());
    lemma_marker_byte(s.len());
    let a = s[0] as nat;
    let m = marker_byte(s.len()) as nat;
    let p = pow256((s.len() - 1) as nat);
    let r = be(s.drop_first());
    assert(m <= a < 2 * m);
    assert(m * p <= a * p + r < 2 * (m * p)) by (nonlinear_arith)
        requires
            m <= a,
            a + 1 <= 2 * m,
            0 <= r < p,
    ;
}

/// Reads a data-size VINT. Returns [`UNKNOWN`] when every value bit is set.
pub fn read_size(buf: &[u8], pos: usize) -> (r: Option<(u64, usize)>)
    ensures
        r == size_at(buf@, pos as int),
{
    if pos >= buf.len() {
        return None;
    }
    match vint_len_from_first(buf[pos]) {
        Some(len) => {
            if len > buf.len() - pos {
                return None;
            }
            let marker: u64 = marker_of(len);
            proof {
                lemma_size_bytes_bound(buf@.subrange(pos as int, pos + len));
            }
            let v: u64 = be_value(buf, pos, len) - marker;
            if v == marker - 1 {
                Some((UNKNOWN, len))
            } else {
                Some((v, len))
            }
        },
        None => None,
    }
}

/// The marker bit of a data size of `len` bytes.
fn marker_of(len: usize) -> (m: u64)
    requires
        1 <= len <= 8,
    ensures
        m == size_marker(len as nat),
        m >= 0x80,
{
    proof {
        lemma_size_marker_table();
    }
    match len {
        1 => 0x80,
        2 => 0x4000,
        3 => 0x20_0000,
        4 => 0x1000_0000,
        5 => 0x8_0000_0000,
        6 => 0x400_0000_0000,
        7 => 0x2_0000_0000_0000,
        _ => 0x100_0000_0000_0000,
    }
}

// ---------------------------------------------------------------------------
// Writing
// ---------------------------------------------------------------------------

/// Bytes needed to store an element ID.
pub open spec fn id_size(id: u64) -> usize {
    if id <= 0xFF {
        1
    } else if id <= 0xFFFF {
        2
    } else if id <= 0x00FF_FFFF {
        3
    } else {
        4
    }
}

/// How an element ID is stored: its low bytes, as many as [`id_size`] says.
pub open spec fn id_bytes(id: u64) -> Seq<u8> {
    be_bytes(id as nat, id_size(id) as nat)
}

/// An ID whose stored form says its own width, so that it can be read back.
pub open spec fn canonical_id(id: u64) -> bool {
    ||| 0x80 <= id <= 0xFF
    ||| 0x4000 <= id <= 0x7FFF
    ||| 0x20_0000 <= id <= 0x3F_FFFF
    ||| 0x1000_0000 <= id <= 0x1FFF_FFFF
}

/// The smallest width from `len` up to eight whose value bits can hold `v`
/// and are not then all set.
pub open spec fn size_size_from(v: u64, len: nat) -> nat
    decreases 8 - len,
{
    if len >= 8 || v <= size_marker(len) - 2 {
        len
    } else {
        size_size_from(v, len + 1)
    }
}

/// Bytes needed to store a data size.
pub open spec fn size_size(v: u64) -> usize {
    size_size_from(v, 1) as usize
}

/// How a data size is stored in `len` bytes: its low bytes, with the marker
/// bit set in the first.
pub open spec fn size_bytes(v: u64, len: nat) -> Seq<u8> {
    let low = be_bytes(v as nat, len);
    low.update(0, low[0] | marker_byte(len))
}

/// The first byte of a data size of `len` bytes whose value is zero.
pub open spec fn marker_byte(len: nat) -> u8 {
    if len == 1 {
        0x80
    } else if len == 2 {
        0x40
    } else if len == 3 {
        0x20
    } else if len == 4 {
        0x10
    } else if len == 5 {
        0x08
    } else if len == 6 {
        0x04
    } else if len == 7 {
        0x02
    } else {
        0x01
    }
}

/// The width of a stored size, by range.
pub proof fn lemma_size_size(v: u64)
    ensures
        1 <= size_size(v) <= 8,
        v <= MAX_SIZE ==> v <= size_marker(size_size(v) as nat) - 2,
        size_size(v) < 8 ==> v <= size_marker(size_size(v) as nat) - 2,
        forall|len: nat| 1 <= len < size_size(v) ==> v > #[trigger] size_marker(len) - 2,
{
    reveal_with_fuel(size_size_from, 9);
    lemma_size_marker_table();
    assert forall|len: nat| 1 <= len < size_size(v) implies v > #[trigger] size_marker(len) - 2 by {
        assert(len == 1 || len == 2 || len == 3 || len == 4 || len == 5 || len == 6 || len == 7);
    }
}

/// A wider field holds what a narrower one holds.
pub proof fn lemma_size_fits(v: u64, len: nat)
    requires
        size_size(v) <= len <= 8,
        v <= MAX_SIZE,
    ensures
        v <= size_marker(len) - 2,
{
    lemma_size_size(v);
    lemma_size_marker_table();
    let n = size_size(v) as nat;
    assert(n == 1 || n == 2 || n == 3 || n == 4 || n == 5 || n == 6 || n == 7 || n == 8);
    assert(len == 1 || len == 2 || len == 3 || len == 4 || len == 5 || len == 6 || len == 7 || len == 8);
}

pub proof fn lemma_size_bytes_len(v: u64, len: nat)
    requires
        len > 0,
    ensures
        size_bytes(v, len).len() == len,
{
    lemma_be_bytes_len(v as nat, len);
}

pub proof fn lemma_id_bytes_len(id: u64)
    ensures
        id_bytes(id).len() == id_size(id),
{
    lemma_be_bytes_len(id as nat, id_size(id) as nat);
}

/// Bytes needed to store an element ID.
pub fn id_len(id: u64) -> (n: usize)
    ensures
        n == id_size(id),
{
    if id <= 0xFF {
        1
    } else if id <= 0xFFFF {
        2
    } else if id <= 0x00FF_FFFF {
        3
    } else {
        4
    }
}

pub fn write_id(out: &mut Vec<u8>, id: u64)
    ensures
        final(out)@ == old(out)@ + id_bytes(id),
{
    push_be(out, id, id_len(id));
}

/// Smallest VINT width that can hold `v` without colliding with the
/// "unknown size" encoding.
pub fn size_len(v: u64) -> (n: usize)
    ensures
        n == size_size(v),
        1 <= n <= 8,
{
    proof {
        reveal_with_fuel(size_size_from, 9);
        lemma_size_marker_table();
    }
    if v <= 0x7E {
        1
    } else if v <= 0x3FFE {
        2
    } else if v <= 0x1F_FFFE {
        3
    } else if v <= 0xFFF_FFFE {
        4
    } else if v <= 0x7_FFFF_FFFE {
        5
    } else if v <= 0x3FF_FFFF_FFFE {
        6
    } else if v <= 0x1_FFFF_FFFF_FFFE {
        7
    } else {
        8
    }
}

/// Stores `v` in exactly `len` bytes, which may be more than it needs.
pub fn write_size_with_len(out: &mut Vec<u8>, v: u64, len: usize)
    requires
        size_size(v) <= len <= 8,
    ensures
        final(out)@ == old(out)@ + size_bytes(v, len as nat),
{
    let mut field: Vec<u8> = Vec::new();
    push_be(&mut field, v, len);
    proof {
        lemma_size_size(v);
        lemma_be_bytes_len(v as nat, len as nat);
        assert(field@ =~= be_bytes(v as nat, len as nat));
    }
    let marker: u8 = match len {
        1 => 0x80,
        2 => 0x40,
        3 => 0x20,
        4 => 0x10,
        5 => 0x08,
        6 => 0x04,
        7 => 0x02,
        _ => 0x01,
    };
    let first: u8 = field[0];
    field.set(0, first | marker);
    out.append(&mut field);
}

pub fn write_size(out: &mut Vec<u8>, v: u64)
    ensures
        final(out)@ == old(out)@ + size_bytes(v, size_size(v) as nat),
{
    let len: usize = size_len(v);
    write_size_with_len(out, v, len);
}

// ---------------------------------------------------------------------------
// What is written can be read
// ---------------------------------------------------------------------------

/// Where the bytes of a canonical ID stand, that ID is read.
pub proof fn lemma_id_at(buf: Seq<u8>, pos: int, id: u64)
    requires
        canonical_id(id),
        0 <= pos,
        pos + id_size(id) <= buf.len(),
        buf.subrange(pos, pos + id_size(id)) == id_bytes(id),
    ensures
        id_at(buf, pos) == Some((id, id_size(id))),
{
    let n = id_size(id) as nat;
    let s = id_bytes(id);
    lemma_pow256_table();
    lemma_be_bytes_len(id as nat, n);
    lemma_be_of_be_bytes(id as nat, n);
    lemma_be_first(s);
    lemma_be_bound(s.drop_first());
    let a = s[0] as nat;
    let p = pow256((n - 1) as nat);
    let r = be(s.drop_first());
    assert(a == buf.subrange(pos, pos + n)[0]);
    let v = id as nat;
    assert(({
        ||| n == 1 && 0x80 <= a
        ||| n == 2 && 0x40 <= a < 0x80
        ||| n == 3 && 0x20 <= a < 0x40
        ||| n == 4 && 0x10 <= a < 0x20
    })) by (nonlinear_arith)
        requires
            v == a * p + r,
            0 <= r < p,
            ({
                ||| n == 1 && p == 1 && 0x80 <= v
                ||| n == 2 && p == 0x100 && 0x4000 <= v <= 0x7FFF
                ||| n == 3 && p == 0x1_0000 && 0x20_0000 <= v <= 0x3F_FFFF
                ||| n == 4 && p == 0x100_0000 && 0x1000_0000 <= v <= 0x1FFF_FFFF
            }),
    ;
}

/// Every ID that is read is canonical, and its bytes are what is stored for it.
pub proof fn lemma_id_at_canonical(buf: Seq<u8>, pos: int)
    ensures
        match id_at(buf, pos) {
            Some((id, n)) => {
                &&& canonical_id(id)
                &&& n == id_size(id)
                &&& 0 <= pos
                &&& pos + n <= buf.len()
                &&& buf.subrange(pos, pos + n) == id_bytes(id)
            },
            None => true,
        },
{
    if let Some((id, n)) = id_at(buf, pos) {
        let s = buf.subrange(pos, pos + n);
        lemma_pow256_table();
        lemma_be_bound(s);
        lemma_be_first(s);
        lemma_be_bound(s.drop_first());
        let a = s[0] as nat;
        let p = pow256((n - 1) as nat);
        let r = be(s.drop_first());
        let v = be(s);
        assert(({
            ||| n == 1 && 0x80 <= v <= 0xFF
            ||| n == 2 && 0x4000 <= v <= 0x7FFF
            ||| n == 3 && 0x20_0000 <= v <= 0x3F_FFFF
            ||| n == 4 && 0x1000_0000 <= v <= 0x1FFF_FFFF
        })) by (nonlinear_arith)
            requires
                v == a * p + r,
                0 <= r < p,
                ({
                    ||| n == 1 && p == 1 && 0x80 <= a <= 0xFF
                    ||| n == 2 && p == 0x100 && 0x40 <= a < 0x80
                    ||| n == 3 && p == 0x1_0000 && 0x20 <= a < 0x40
                    ||| n == 4 && p == 0x100_0000 && 0x10 <= a < 0x20
                }),
        ;
        lemma_be_bytes_of_be(s);
    }
}

/// Setting the marker bit adds it, since the value leaves it free.
pub proof fn lemma_size_bytes_value(v: u64, len: nat)
    requires
        1 <= len <= 8,
        v < size_marker(len),
    ensures
        size_bytes(v, len).len() == len,
        be(size_bytes(v, len)) == v + size_marker(len),
        size_width(size_bytes(v, len)[0]) == Some(len as usize),
{
    let low = be_bytes(v as nat, len);
    let s = size_bytes(v, len);
    let p = pow256((len - 1) as nat);
    let m = marker_byte(len);
    lemma_marker_byte(len);
    lemma_be_bytes_len(v as nat, len);
    lemma_pow256_table();
    lemma_size_marker_table();
    assert(len == 1 || len == 2 || len == 3 || len == 4 || len == 5 || len == 6 || len == 7 || len == 8);
    lemma_be_of_be_bytes(v as nat, len);
    lemma_be_first(low);
    lemma_be_first(s);
    assert(s.drop_first() =~= low.drop_first());
    lemma_be_bound(low.drop_first());
    let x = low[0];
    let r = be(low.drop_first());
    assert(x < m) by (nonlinear_arith)
        requires
            x as nat * p + r < m as nat * p,
            0 <= r < p,
    ;
    assert(x | m == x + m && x + m < 2 * m) by (bit_vector)
        requires
            x < m,
            m == 0x80 || m == 0x40 || m == 0x20 || m == 0x10 || m == 0x08 || m == 0x04 || m == 0x02
                || m == 0x01,
    ;
    assert((x + m) * p == x as nat * p + m as nat * p) by (nonlinear_arith);
}

/// Where the bytes of a data size stand, that size is read, however wide its
/// field is.
pub proof fn lemma_size_at(buf: Seq<u8>, pos: int, v: u64, len: nat)
    requires
        v <= MAX_SIZE,
        size_size(v) <= len <= 8,
        0 <= pos,
        pos + len <= buf.len(),
        buf.subrange(pos, pos + len) == size_bytes(v, len),
    ensures
        size_at(buf, pos) == Some((v, len as usize)),
{
    lemma_size_size(v);
    lemma_size_fits(v, len);
    lemma_size_bytes_value(v, len);
    assert(buf[pos] == buf.subrange(pos, pos + len)[0]);
}

/// What a data size that was read says of its bytes.
pub proof fn lemma_size_at_bound(buf: Seq<u8>, pos: int)
    ensures
        match size_at(buf, pos) {
            Some((v, n)) => {
                &&& 1 <= n <= 8
                &&& 0 <= pos
                &&& pos + n <= buf.len()
                &&& v == UNKNOWN || v <= MAX_SIZE
                &&& v != UNKNOWN ==> v <= size_marker(n as nat) - 2
            },
            None => true,
        },
{
    if let Some((v, n)) = size_at(buf, pos) {
        lemma_size_bytes_bound(buf.subrange(pos, pos + n));
        lemma_size_marker_table();
        assert(n == 1 || n == 2 || n == 3 || n == 4 || n == 5 || n == 6 || n == 7 || n == 8);
    }
}

/// The bytes of a data size that was read are what is stored for it in as many
/// bytes.
pub proof fn lemma_size_at_is_written(buf: Seq<u8>, pos: int)
    ensures
        match size_at(buf, pos) {
            Some((v, n)) => v != UNKNOWN ==> buf.subrange(pos, pos + n) == size_bytes(v, n as nat),
            None => true,
        },
{
    lemma_size_at_bound(buf, pos);
    if let Some((v, n)) = size_at(buf, pos) {
        if v != UNKNOWN {
            let s = buf.subrange(pos, pos + n);
            lemma_size_bytes_bound(s);
            lemma_size_bytes_value(v, n as nat);
            lemma_size_marker_table();
            assert(n == 1 || n == 2 || n == 3 || n == 4 || n == 5 || n == 6 || n == 7 || n == 8);
            assert(be(s) == be(size_bytes(v, n as nat)));
            lemma_be_bytes_of_be(s);
            lemma_be_bytes_of_be(size_bytes(v, n as nat));
        }
    }
}

/// An ID depends on its own bytes alone.
pub proof fn lemma_id_at_local(a: Seq<u8>, b: Seq<u8>, p: int, q: int)
    requires
        id_at(a, p) is Some,
        0 <= q,
        q + (id_at(a, p)->0).1 <= b.len(),
        a.subrange(p, p + (id_at(a, p)->0).1) == b.subrange(q, q + (id_at(a, p)->0).1),
    ensures
        id_at(b, q) == id_at(a, p),
{
    let n = (id_at(a, p)->0).1;
    assert(a[p] == a.subrange(p, p + n)[0]);
    assert(b[q] == b.subrange(q, q + n)[0]);
}

/// A data size depends on its own bytes alone.
pub proof fn lemma_size_at_local(a: Seq<u8>, b: Seq<u8>, p: int, q: int)
    requires
        size_at(a, p) is Some,
        0 <= q,
        q + (size_at(a, p)->0).1 <= b.len(),
        a.subrange(p, p + (size_at(a, p)->0).1) == b.subrange(q, q + (size_at(a, p)->0).1),
    ensures
        size_at(b, q) == size_at(a, p),
{
    let n = (size_at(a, p)->0).1;
    assert(a[p] == a.subrange(p, p + n)[0]);
    assert(b[q] == b.subrange(q, q + n)[0]);
}

/// A canonical ID that was written is read back, wherever it stands.
pub proof fn law_id_reads_back(before: Seq<u8>, id: u64, after: Seq<u8>)
    requires
        canonical_id(id),
    ensures
        id_at(before + id_bytes(id) + after, before.len() as int) == Some((id, id_size(id))),
{
    let buf = before + id_bytes(id) + after;
    lemma_id_bytes_len(id);
    assert(buf.subrange(before.len() as int, before.len() + id_size(id)) =~= id_bytes(id));
    lemma_id_at(buf, before.len() as int, id);
}

/// A data size that was written is read back with its width, wherever it
/// stands and however much wider than necessary its field is.
pub proof fn law_size_reads_back(before: Seq<u8>, v: u64, len: nat, after: Seq<u8>)
    requires
        v <= MAX_SIZE,
        size_size(v) <= len <= 8,
    ensures
        size_at(before + size_bytes(v, len) + after, before.len() as int) == Some((v, len as usize)),
{
    let buf = before + size_bytes(v, len) + after;
    lemma_size_size(v);
    lemma_size_bytes_len(v, len);
    assert(buf.subrange(before.len() as int, (before.len() + len) as int) =~= size_bytes(v, len));
    lemma_size_at(buf, before.len() as int, v, len);
}

} // verus!
