//! CRC-32 as used by Matroska: IEEE 802.3, stored little endian.

use vstd::prelude::*;

verus! {

/// The reversed generator polynomial.
pub const POLYNOMIAL: u32 = 0xEDB8_8320;

/// The register after one bit has been shifted out.
pub open spec fn shift_bit(c: u32) -> u32 {
    if c & 1 == 1 {
        (c >> 1) ^ POLYNOMIAL
    } else {
        c >> 1
    }
}

/// The register after `n` bits have been shifted out.
pub open spec fn shift_bits(c: u32, n: nat) -> u32
    decreases n,
{
    if n == 0 {
        c
    } else {
        shift_bit(shift_bits(c, (n - 1) as nat))
    }
}

/// The register after `data`, starting from all ones.
pub open spec fn register(data: Seq<u8>) -> u32
    decreases data.len(),
{
    if data.len() == 0 {
        0xFFFF_FFFFu32
    } else {
        shift_bits(register(data.drop_last()) ^ (data.last() as u32), 8)
    }
}

/// The checksum of `data`: the complement of the register.
pub open spec fn crc_of(data: Seq<u8>) -> u32 {
    !register(data)
}

/// The four bytes of `v`, least significant first.
pub open spec fn le4(v: u32) -> Seq<u8> {
    seq![
        (v % 256) as u8,
        (v / 256 % 256) as u8,
        (v / 0x1_0000 % 256) as u8,
        (v / 0x100_0000) as u8,
    ]
}

pub fn crc32(data: &[u8]) -> (r: u32)
    ensures
        r == crc_of(data@),
{
    let n: usize = data.len();
    let mut crc: u32 = 0xFFFF_FFFF;
    let mut i: usize = 0;
    while i < n
        invariant
            i <= n,
            n == data@.len(),
            crc == register(data@.take(i as int)),
        decreases n - i,
    {
        let ghost t = data@.take(i + 1);
        assert(t.drop_last() =~= data@.take(i as int));
        let ghost before = crc ^ (data@[i as int] as u32);
        crc = crc ^ (data[i] as u32);
        let mut k: usize = 0;
        while k < 8
            invariant
                k <= 8,
                crc == shift_bits(before, k as nat),
            decreases 8 - k,
        {
            crc = if crc & 1 == 1 {
                (crc >> 1) ^ POLYNOMIAL
            } else {
                crc >> 1
            };
            k += 1;
        }
        i += 1;
    }
    assert(data@.take(n as int) =~= data@);
    !crc
}

/// Appends `v` to `out`, least significant byte first.
pub fn push_le4(out: &mut Vec<u8>, v: u32)
    ensures
        final(out)@ == old(out)@ + le4(v),
{
    out.push((v % 256) as u8);
    out.push((v / 256 % 256) as u8);
    out.push((v / 0x1_0000 % 256) as u8);
    out.push((v / 0x100_0000) as u8);
    assert(out@ =~= old(out)@ + le4(v));
}

} // verus!
