use vstd::prelude::*;

verus! {

/// One bit of the reflected CRC-32 (polynomial 0xEDB88320).
pub open spec fn crc_bit(crc: u32) -> u32 {
    if crc & 1u32 == 1u32 {
        (crc >> 1u32) ^ 0xedb8_8320u32
    } else {
        crc >> 1u32
    }
}

/// `k` bits of the CRC register.
pub open spec fn crc_bits(crc: u32, k: nat) -> u32
    decreases k,
{
    if k == 0 {
        crc
    } else {
        crc_bits(crc_bit(crc), (k - 1) as nat)
    }
}

/// The CRC register after one more byte.
pub open spec fn crc_byte(crc: u32, byte: u8) -> u32 {
    crc_bits(crc ^ (byte as u32), 8)
}

/// The CRC register after all of `s`, starting from all ones.
pub open spec fn crc_register(s: Seq<u8>) -> u32
    decreases s.len(),
{
    if s.len() == 0 {
        0xffff_ffffu32
    } else {
        crc_byte(crc_register(s.drop_last()), s.last())
    }
}

/// The CRC-32 (IEEE) of a byte string: the final register, inverted.
pub open spec fn crc32_spec(s: Seq<u8>) -> u32 {
    !crc_register(s)
}

pub open spec fn rotl64(x: u64, k: u64) -> u64 {
    (x << k) | (x >> (64u64 - k))
}

pub open spec fn wrap_mul64(x: u64, y: u64) -> u64 {
    ((x as nat * y as nat) % 0x1_0000_0000_0000_0000nat) as u64
}

/// One byte of the 64-bit fold: xor, multiply by the FNV prime, mix.
pub open spec fn fold_byte(seed: u64, b: u8) -> u64 {
    let x = wrap_mul64(seed ^ (b as u64), 0x1000_0000_01b3u64);
    x ^ rotl64(x, 17)
}

/// The 64-bit fold of `s` from `seed`.
pub open spec fn fold64_spec(seed: u64, s: Seq<u8>) -> u64
    decreases s.len(),
{
    if s.len() == 0 {
        seed
    } else {
        fold_byte(fold64_spec(seed, s.drop_last()), s.last())
    }
}

/// The seed that a station digest folds its payload from.
pub open spec fn station_seed(site_id: u32, port_id: u16) -> u64 {
    rotl64(0x9e37_79b9_7f4a_7c15u64 ^ (site_id as u64), 11) ^ ((port_id as u64) << 32u64)
}

pub open spec fn station_digest_spec(site_id: u32, port_id: u16, payload: Seq<u8>) -> u64 {
    fold64_spec(station_seed(site_id, port_id), payload)
}

/// The two Adler sums of `s`, modulo 65521.
pub open spec fn adler_sums(s: Seq<u8>) -> (u32, u32)
    decreases s.len(),
{
    if s.len() == 0 {
        (1, 0)
    } else {
        let (a, b) = adler_sums(s.drop_last());
        let a2 = ((a + s.last()) % 65521) as u32;
        (a2, ((b + a2) % 65521) as u32)
    }
}

/// The Adler-32 style score of a byte string.
pub open spec fn rolling_score_spec(s: Seq<u8>) -> u32 {
    let (a, b) = adler_sums(s);
    (b * 65536 + a) as u32
}

pub proof fn lemma_adler_bounds(s: Seq<u8>)
    ensures
        adler_sums(s).0 < 65521,
        adler_sums(s).1 < 65521,
    decreases s.len(),
{
    if s.len() > 0 {
        lemma_adler_bounds(s.drop_last());
    }
}

/// The CRC-32 (IEEE, reflected) of a byte string.
pub fn crc32(bytes: &[u8]) -> (r: u32)
    ensures
        r == crc32_spec(bytes@),
{
    let mut crc: u32 = 0xffff_ffff;
    let mut i: usize = 0;
    while i < bytes.len()
        invariant
            0 <= i <= bytes.len(),
            crc == crc_register(bytes@.take(i as int)),
        decreases bytes.len() - i,
    {
        let byte = bytes[i];
        let ghost start = crc ^ (byte as u32);
        crc = crc ^ (byte as u32);
        let mut k: usize = 0;
        while k < 8
            invariant
                0 <= k <= 8,
                crc_bits(crc, (8 - k) as nat) == crc_bits(start, 8),
            decreases 8 - k,
        {
            if crc & 1 == 1 {
                crc = (crc >> 1) ^ 0xedb8_8320;
            } else {
                crc = crc >> 1;
            }
            k = k + 1;
        }
        assert(bytes@.take(i + 1).drop_last() == bytes@.take(i as int));
        i = i + 1;
    }
    assert(bytes@.take(bytes.len() as int) == bytes@);
    !crc
}

/// Folds `bytes` into `seed` (FNV-1a style multiply with a rotation mix).
pub fn fold64(seed: u64, bytes: &[u8]) -> (r: u64)
    ensures
        r == fold64_spec(seed, bytes@),
{
    let mut acc = seed;
    let mut i: usize = 0;
    while i < bytes.len()
        invariant
            0 <= i <= bytes.len(),
            acc == fold64_spec(seed, bytes@.take(i as int)),
        decreases bytes.len() - i,
    {
        let b = bytes[i];
        acc = acc ^ (b as u64);
        acc = acc.wrapping_mul(0x1000_0000_01b3);
        acc = acc ^ ((acc << 17) | (acc >> 47));
        assert(bytes@.take(i + 1).drop_last() == bytes@.take(i as int));
        i = i + 1;
    }
    assert(bytes@.take(bytes.len() as int) == bytes@);
    acc
}

/// Digest of a payload keyed by the station it came from.
pub fn station_digest(site_id: u32, port_id: u16, payload: &[u8]) -> (r: u64)
    ensures
        r == station_digest_spec(site_id, port_id, payload@),
{
    let mut seed: u64 = 0x9e37_79b9_7f4a_7c15;
    seed = seed ^ (site_id as u64);
    seed = ((seed << 11) | (seed >> 53)) ^ ((port_id as u64) << 32);
    fold64(seed, payload)
}

/// Adler-32 style score: `(b << 16) | a` of the two running sums.
pub fn rolling_window_score(bytes: &[u8]) -> (r: u32)
    ensures
        r == rolling_score_spec(bytes@),
{
    let mut a: u32 = 1;
    let mut b: u32 = 0;
    let mut i: usize = 0;
    while i < bytes.len()
        invariant
            0 <= i <= bytes.len(),
            (a, b) == adler_sums(bytes@.take(i as int)),
            a < 65521,
            b < 65521,
        decreases bytes.len() - i,
    {
        assert(bytes@.take(i + 1).drop_last() == bytes@.take(i as int));
        a = (a + bytes[i] as u32) % 65521;
        b = (b + a) % 65521;
        i = i + 1;
    }
    assert(bytes@.take(bytes.len() as int) == bytes@);
    b * 65536 + a
}

} // verus!
