//! The values that element payloads hold: unsigned integers, floats and
//! strings.

use vstd::prelude::*;

use crate::ebml::bytes::{be_value, push_be};
#[allow(unused_imports)]
use crate::ebml::bytes::{
    be, be_bytes, lemma_be_bound, lemma_be_bytes_len, lemma_be_bytes_of_be, lemma_be_leading_zeros,
    lemma_be_of_be_bytes, lemma_pow256_monotonic, lemma_pow256_table, pow256,
};

verus! {

// ---------------------------------------------------------------------------
// Unsigned integers
// ---------------------------------------------------------------------------

/// The unsigned integer in a payload: the number that its first eight bytes
/// spell, or all of them where there are fewer.
pub open spec fn uint_of(data: Seq<u8>) -> u64 {
    if data.len() <= 8 {
        be(data) as u64
    } else {
        be(data.take(8)) as u64
    }
}

/// How many bytes `v` needs; zero needs one.
pub open spec fn uint_width(v: nat) -> nat
    decreases v,
{
    if v < 256 {
        1
    } else {
        1 + uint_width(v / 256)
    }
}

/// `v` in as few bytes as possible.
pub open spec fn uint_data(v: u64) -> Seq<u8> {
    be_bytes(v as nat, uint_width(v as nat))
}

/// `v` in exactly `len` bytes, where it fits.
pub open spec fn uint_data_fixed(v: u64, len: nat) -> Option<Seq<u8>> {
    if uint_width(v as nat) <= len {
        Some(be_bytes(v as nat, len))
    } else {
        None
    }
}

/// The width of a number is the least that holds it.
pub proof fn lemma_uint_width(v: nat)
    ensures
        uint_width(v) >= 1,
        v < pow256(uint_width(v)),
        uint_width(v) > 1 ==> v >= pow256((uint_width(v) - 1) as nat),
    decreases v,
{
    if v < 256 {
        lemma_pow256_table();
    } else {
        lemma_uint_width(v / 256);
        lemma_pow256_table();
    }
}

/// A machine word needs at most eight bytes.
pub proof fn lemma_uint_width_word(v: u64)
    ensures
        1 <= uint_width(v as nat) <= 8,
        uint_data(v).len() == uint_width(v as nat),
{
    lemma_uint_width(v as nat);
    lemma_pow256_table();
    lemma_be_bytes_len(v as nat, uint_width(v as nat));
    if uint_width(v as nat) > 8 {
        lemma_pow256_monotonic(8, (uint_width(v as nat) - 1) as nat);
    }
}

/// An unsigned integer that was stored is read back.
pub proof fn law_uint_reads_back(v: u64)
    ensures
        uint_of(uint_data(v)) == v,
{
    lemma_uint_width_word(v);
    lemma_uint_width(v as nat);
    lemma_be_of_be_bytes(v as nat, uint_width(v as nat));
}

/// An unsigned integer that was stored in a field of up to eight bytes is read
/// back.
pub proof fn law_fixed_uint_reads_back(v: u64, len: nat)
    requires
        uint_width(v as nat) <= len <= 8,
    ensures
        uint_data_fixed(v, len) is Some,
        uint_data_fixed(v, len)->0.len() == len,
        uint_of(uint_data_fixed(v, len)->0) == v,
{
    lemma_uint_width(v as nat);
    lemma_pow256_monotonic(uint_width(v as nat), len);
    lemma_be_bytes_len(v as nat, len);
    lemma_be_of_be_bytes(v as nat, len);
}

pub fn read_uint(data: &[u8]) -> (v: u64)
    ensures
        v == uint_of(data@),
{
    let n: usize = if data.len() < 8 {
        data.len()
    } else {
        8
    };
    assert(data@.subrange(0, n as int) =~= data@.take(n as int));
    assert(data@.len() <= 8 ==> data@.take(n as int) =~= data@);
    be_value(data, 0, n)
}

/// Encodes `v` in as few bytes as possible.
pub fn uint_bytes(v: u64) -> (out: Vec<u8>)
    ensures
        out@ == uint_data(v),
        1 <= out@.len() <= 8,
{
    let mut n: usize = 1;
    let mut rest: u64 = v;
    proof {
        lemma_uint_width_word(v);
    }
    while rest >= 256
        invariant
            n + uint_width(rest as nat) == 1 + uint_width(v as nat),
            uint_width(v as nat) <= 8,
            1 <= n,
        decreases rest,
    {
        proof {
            lemma_uint_width((rest / 256) as nat);
        }
        rest = rest / 256;
        n += 1;
    }
    let mut out: Vec<u8> = Vec::new();
    push_be(&mut out, v, n);
    assert(out@ =~= uint_data(v));
    out
}

/// Encodes `v` in exactly `len` bytes, or `None` when it does not fit.
pub fn uint_bytes_fixed(v: u64, len: usize) -> (r: Option<Vec<u8>>)
    ensures
        match r {
            Some(out) => uint_data_fixed(v, len as nat) == Some(out@),
            None => uint_data_fixed(v, len as nat) is None,
        },
{
    let mut min: Vec<u8> = uint_bytes(v);
    proof {
        lemma_uint_width_word(v);
    }
    if min.len() > len {
        return None;
    }
    let mut out: Vec<u8> = Vec::new();
    let pad: usize = len - min.len();
    let mut i: usize = 0;
    while i < pad
        invariant
            i <= pad,
            out@.len() == i,
            forall|j: int| 0 <= j < i ==> out@[j] == 0,
        decreases pad - i,
    {
        out.push(0);
        i += 1;
    }
    let ghost zeros = out@;
    out.append(&mut min);
    proof {
        let n = uint_width(v as nat);
        lemma_uint_width(v as nat);
        lemma_be_of_be_bytes(v as nat, n);
        lemma_be_leading_zeros(zeros, uint_data(v));
        assert(out@ == zeros + uint_data(v));
        lemma_be_bytes_of_be(out@);
    }
    Some(out)
}

// ---------------------------------------------------------------------------
// Floats
// ---------------------------------------------------------------------------

/// The bit pattern of a floating point payload, which is four or eight bytes
/// long. A payload of any other length stands for zero.
#[derive(Clone, Copy, Debug, PartialEq, Eq, Structural)]
pub enum FloatBits {
    Single(u32),
    Double(u64),
    Zero,
}

/// The float in a payload, big-endian.
pub open spec fn float_of(data: Seq<u8>) -> FloatBits {
    if data.len() == 4 {
        FloatBits::Single(be(data) as u32)
    } else if data.len() == 8 {
        FloatBits::Double(be(data) as u64)
    } else {
        FloatBits::Zero
    }
}

pub fn read_float(data: &[u8]) -> (r: FloatBits)
    ensures
        r == float_of(data@),
{
    let n: usize = data.len();
    assert(data@.subrange(0, n as int) =~= data@);
    if n == 4 {
        proof {
            lemma_be_bound(data@);
            lemma_pow256_table();
        }
        FloatBits::Single(be_value(data, 0, 4) as u32)
    } else if n == 8 {
        FloatBits::Double(be_value(data, 0, 8))
    } else {
        FloatBits::Zero
    }
}

// ---------------------------------------------------------------------------
// Strings
// ---------------------------------------------------------------------------

/// The text that `String::from_utf8_lossy` of std makes of bytes that are not
/// valid UTF-8.
pub uninterp spec fn utf8_lossy(bytes: Seq<u8>) -> Seq<char>;

/// `String::from_utf8_lossy` of std. Bytes that are valid UTF-8 become the text
/// that they encode. What stands for the invalid parts of other bytes is left
/// unsaid: that result is named, as a function of the bytes alone.
#[verifier::external_body]
fn decode_lossy(bytes: &[u8]) -> (s: String)
    ensures
        vstd::utf8::valid_utf8(bytes@) ==> s@ == vstd::utf8::decode_utf8(bytes@),
        !vstd::utf8::valid_utf8(bytes@) ==> s@ == utf8_lossy(bytes@),
{
    String::from_utf8_lossy(bytes).into_owned()
}

/// The first index from `i` on whose byte is zero, or the length.
pub open spec fn zero_from(data: Seq<u8>, i: int) -> int
    decreases data.len() - i,
{
    if i >= data.len() || data[i] == 0 {
        i
    } else {
        zero_from(data, i + 1)
    }
}

/// The bytes of a payload before its first zero byte.
pub open spec fn until_zero(data: Seq<u8>) -> Seq<u8> {
    data.take(zero_from(data, 0))
}

/// The text in a payload: what stands before the first zero byte.
pub open spec fn string_of(data: Seq<u8>) -> Seq<char> {
    let bytes = until_zero(data);
    if vstd::utf8::valid_utf8(bytes) {
        vstd::utf8::decode_utf8(bytes)
    } else {
        utf8_lossy(bytes)
    }
}

proof fn lemma_zero_from(data: Seq<u8>, i: int)
    requires
        0 <= i <= data.len(),
    ensures
        i <= zero_from(data, i) <= data.len(),
        forall|j: int| i <= j < zero_from(data, i) ==> data[j] != 0,
    decreases data.len() - i,
{
    if i < data.len() && data[i] != 0 {
        lemma_zero_from(data, i + 1);
    }
}

/// A payload without a zero byte is text to its end.
pub proof fn lemma_until_zero_whole(data: Seq<u8>)
    requires
        forall|i: int| 0 <= i < data.len() ==> data[i] != 0,
    ensures
        until_zero(data) == data,
{
    lemma_zero_from(data, 0);
    let k = zero_from(data, 0);
    if k < data.len() {
        lemma_zero_stop(data, 0);
    }
    assert(data.take(data.len() as int) =~= data);
}

proof fn lemma_zero_stop(data: Seq<u8>, i: int)
    requires
        0 <= i <= data.len(),
    ensures
        zero_from(data, i) < data.len() ==> data[zero_from(data, i)] == 0,
    decreases data.len() - i,
{
    if i < data.len() && data[i] != 0 {
        lemma_zero_stop(data, i + 1);
    }
}

pub fn read_string(data: &[u8]) -> (s: String)
    ensures
        s@ == string_of(data@),
{
    let n: usize = data.len();
    let mut end: usize = 0;
    while end < n && data[end] != 0
        invariant
            end <= n,
            n == data@.len(),
            zero_from(data@, 0) == zero_from(data@, end as int),
        decreases n - end,
    {
        end += 1;
    }
    assert(data@.subrange(0, end as int) =~= until_zero(data@));
    decode_lossy(vstd::slice::slice_subrange(data, 0, end))
}

/// Only the character U+0000 is encoded with a zero byte.
proof fn lemma_encoded_char_nonzero(ch: char, c: u32)
    requires
        ch != '\0',
        c == ch as u32,
    ensures
        forall|i: int|
            0 <= i < vstd::utf8::encode_scalar(c).len() ==> vstd::utf8::encode_scalar(c)[i] != 0,
{
    vstd::utf8::char_is_scalar(ch);
    assert(c != 0);
    assert(c <= 0x7F && c != 0 ==> (c & 0x7F) as u8 != 0) by (bit_vector);
    let a: u8 = ((c >> 6) & 0x1F) as u8;
    let b: u8 = ((c >> 12) & 0x0F) as u8;
    let d: u8 = ((c >> 18) & 0x7) as u8;
    let e: u8 = (c & 0x3F) as u8;
    let f: u8 = ((c >> 6) & 0x3F) as u8;
    let g: u8 = ((c >> 12) & 0x3F) as u8;
    assert(0xC0 | a != 0 && 0xE0 | b != 0 && 0xF0 | d != 0 && 0x80 | e != 0 && 0x80 | f != 0 && 0x80
        | g != 0) by (bit_vector);
}

proof fn lemma_encoded_text_nonzero(s: Seq<char>)
    requires
        !s.contains('\0'),
    ensures
        forall|i: int|
            0 <= i < vstd::utf8::encode_utf8(s).len() ==> vstd::utf8::encode_utf8(s)[i] != 0,
    decreases s.len(),
{
    if s.len() > 0 {
        assert(s.contains(s[0]));
        lemma_encoded_char_nonzero(s[0], s[0] as u32);
        let rest = s.drop_first();
        assert forall|i: int| 0 <= i < rest.len() implies #[trigger] rest[i] != '\0' by {
            assert(s.contains(s[i + 1]));
        }
        lemma_encoded_text_nonzero(rest);
        let first = vstd::utf8::encode_scalar(s[0] as u32);
        let more = vstd::utf8::encode_utf8(rest);
        let all = vstd::utf8::encode_utf8(s);
        assert(all == first + more);
        assert forall|i: int| 0 <= i < all.len() implies all[i] != 0 by {
            if i < first.len() {
                assert(all[i] == first[i]);
            } else {
                assert(all[i] == more[i - first.len()]);
            }
        }
    }
}

/// A text that was stored is read back, unless it holds the character U+0000,
/// which ends a stored text.
pub proof fn law_string_reads_back(s: Seq<char>)
    requires
        !s.contains('\0'),
    ensures
        string_of(vstd::utf8::encode_utf8(s)) == s,
{
    let data = vstd::utf8::encode_utf8(s);
    lemma_encoded_text_nonzero(s);
    lemma_until_zero_whole(data);
    vstd::utf8::encode_utf8_valid_utf8(s);
    vstd::utf8::encode_utf8_decode_utf8(s);
}

} // verus!
