//! Castagnoli CRC32C (reflected polynomial 0x82F63B78, initial value and
//! final XOR 0xFFFFFFFF), as used by the storage format.

use vstd::prelude::*;

verus! {

/// Reflected Castagnoli polynomial.
pub const CRC32C_POLY: u32 = 0x82F6_3B78;

/// One shift of the reflected CRC register.
pub open spec fn crc_shift(c: u32) -> u32 {
    if c & 1 != 0 {
        (c >> 1) ^ CRC32C_POLY
    } else {
        c >> 1
    }
}

/// `k` shifts of the reflected CRC register.
pub open spec fn crc_shifts(c: u32, k: nat) -> u32
    decreases k,
{
    if k == 0 {
        c
    } else {
        crc_shift(crc_shifts(c, (k - 1) as nat))
    }
}

/// Register after absorbing one byte.
pub open spec fn crc_absorb(c: u32, b: u8) -> u32 {
    crc_shifts(c ^ (b as u32), 8)
}

/// Register after absorbing every byte of `data`, first byte first.
pub open spec fn crc_register(c: u32, data: Seq<u8>) -> u32
    decreases data.len(),
{
    if data.len() == 0 {
        c
    } else {
        crc_absorb(crc_register(c, data.drop_last()), data.last())
    }
}

/// The CRC32C checksum of `data`.
pub open spec fn spec_crc32c(data: Seq<u8>) -> u32 {
    crc_register(0xFFFF_FFFF, data) ^ 0xFFFF_FFFF
}

fn absorb_byte(crc: u32, byte: u8) -> (r: u32)
    ensures
        r == crc_absorb(crc, byte),
{
    let mut c = crc ^ (byte as u32);
    let mut j: u32 = 0;
    while j < 8
        invariant
            j <= 8,
            c == crc_shifts(crc ^ (byte as u32), j as nat),
        decreases 8 - j,
    {
        if c & 1 != 0 {
            c = (c >> 1) ^ CRC32C_POLY;
        } else {
            c = c >> 1;
        }
        j = j + 1;
    }
    c
}

/// Computes the CRC32C checksum of `data`.
pub fn crc32c(data: &[u8]) -> (r: u32)
    ensures
        r == spec_crc32c(data@),
{
    let mut crc: u32 = 0xFFFF_FFFF;
    let mut i: usize = 0;
    while i < data.len()
        invariant
            i <= data.len(),
            crc == crc_register(0xFFFF_FFFF, data@.take(i as int)),
        decreases data.len() - i,
    {
        assert(data@.take(i as int + 1).drop_last() =~= data@.take(i as int));
        crc = absorb_byte(crc, data[i]);
        i = i + 1;
    }
    assert(data@.take(data.len() as int) =~= data@);
    crc ^ 0xFFFF_FFFF
}

} // verus!
