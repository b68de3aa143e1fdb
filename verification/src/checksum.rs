//! The CRC-64 checksum (the XZ variant) that guards on-disk structures.
use vstd::prelude::*;

verus! {

/// The reflected generator polynomial of CRC-64/XZ.
pub const CRC64_POLY: u64 = 0xC96C5795D7870F42u64;

/// One bit of the (reflected) CRC shift register.
pub open spec fn crc_bit(c: u64) -> u64 {
    if c & 1u64 == 1u64 {
        (c >> 1u64) ^ CRC64_POLY
    } else {
        c >> 1u64
    }
}

/// `n` bit steps of the shift register.
pub open spec fn crc_bits(c: u64, n: nat) -> u64
    decreases n,
{
    if n == 0 {
        c
    } else {
        crc_bit(crc_bits(c, (n - 1) as nat))
    }
}

/// Feeds one byte into the register.
pub open spec fn crc_byte(c: u64, b: u8) -> u64 {
    crc_bits(c ^ (b as u64), 8)
}

/// Feeds a sequence of bytes into the register, first byte first.
pub open spec fn crc_update(c: u64, data: Seq<u8>) -> u64
    decreases data.len(),
{
    if data.len() == 0 {
        c
    } else {
        crc_byte(crc_update(c, data.drop_last()), data.last())
    }
}

/// The initial register value.
pub open spec fn crc_init() -> u64 {
    0xFFFF_FFFF_FFFF_FFFFu64
}

/// The CRC-64/XZ checksum of `data`.
pub open spec fn crc64(data: Seq<u8>) -> u64 {
    !crc_update(crc_init(), data)
}

/// Feeding `a` and then `b` is feeding `a + b`.
pub proof fn lemma_crc_update_append(c: u64, a: Seq<u8>, b: Seq<u8>)
    ensures
        crc_update(crc_update(c, a), b) == crc_update(c, a + b),
    decreases b.len(),
{
    if b.len() == 0 {
        assert(a + b =~= a);
    } else {
        lemma_crc_update_append(c, a, b.drop_last());
        assert((a + b).drop_last() =~= a + b.drop_last());
        assert((a + b).last() == b.last());
    }
}

/// The register after feeding the chunks `cs` into it one by one, from `c`.
pub open spec fn feed_chunks(c: u64, cs: Seq<Seq<u8>>) -> u64
    decreases cs.len(),
{
    if cs.len() == 0 {
        c
    } else {
        crc_update(feed_chunks(c, cs.drop_last()), cs.last())
    }
}

/// The chunks `cs` joined in order.
pub open spec fn join_chunks(cs: Seq<Seq<u8>>) -> Seq<u8>
    decreases cs.len(),
{
    if cs.len() == 0 {
        Seq::empty()
    } else {
        join_chunks(cs.drop_last()) + cs.last()
    }
}

/// Feeding a stretch of bytes chunk by chunk, however it is cut, is feeding it whole. So
/// the checksum a tracked reader gives after tracked reads of `b1`, ..., `bk` since a reset
/// (untracked reads leave the register alone) is the checksum of `b1 + ... + bk`.
pub proof fn lemma_feed_chunks(c: u64, cs: Seq<Seq<u8>>)
    ensures
        feed_chunks(c, cs) == crc_update(c, join_chunks(cs)),
    decreases cs.len(),
{
    if cs.len() == 0 {
    } else {
        lemma_feed_chunks(c, cs.drop_last());
        lemma_crc_update_append(c, join_chunks(cs.drop_last()), cs.last());
    }
}

/// A running CRC-64/XZ digest.
pub struct SCrc64 {
    state: u64,
}

impl SCrc64 {
    /// The register value: the checksum so far is its bitwise complement.
    pub closed spec fn register(&self) -> u64 {
        self.state
    }

    /// A digest over no data.
    pub fn new() -> (r: Self)
        ensures
            r.register() == crc_init(),
    {
        SCrc64 { state: 0xFFFF_FFFF_FFFF_FFFFu64 }
    }

    /// Feeds `data` into the digest.
    pub fn update(&mut self, data: &[u8])
        ensures
            final(self).register() == crc_update(old(self).register(), data@),
    {
        let mut c = self.state;
        let mut i: usize = 0;
        while i < data.len()
            invariant
                i <= data.len(),
                c == crc_update(old(self).register(), data@.subrange(0, i as int)),
            decreases data.len() - i,
        {
            let ghost c0 = c;
            c = c ^ (data[i] as u64);
            let mut k: usize = 0;
            while k < 8
                invariant
                    k <= 8,
                    c == crc_bits(c0 ^ (data@[i as int] as u64), k as nat),
                decreases 8 - k,
            {
                if c & 1u64 == 1u64 {
                    c = (c >> 1u64) ^ CRC64_POLY;
                } else {
                    c = c >> 1u64;
                }
                k = k + 1;
            }
            proof {
                let s = data@.subrange(0, i + 1);
                assert(s.drop_last() =~= data@.subrange(0, i as int));
                assert(s.last() == data@[i as int]);
            }
            i = i + 1;
        }
        assert(data@.subrange(0, data.len() as int) =~= data@);
        self.state = c;
    }

    /// The checksum of everything fed so far.
    pub fn finish(self) -> (r: u64)
        ensures
            r == !self.register(),
    {
        !self.state
    }
}

/// The CRC-64/XZ checksum of `data` in one call.
pub fn checksum(data: &[u8]) -> (r: u64)
    ensures
        r == crc64(data@),
{
    let mut d = SCrc64::new();
    d.update(data);
    d.finish()
}

} // verus!
