//! Big-endian encoding and decoding of 32-bit integers, the number layout
//! used by every length and checksum field of the chunk format.

use vstd::prelude::*;

verus! {

/// The value of a 4-byte big-endian unsigned integer.
pub open spec fn be_u32(s: Seq<u8>) -> u32
    recommends
        s.len() == 4,
{
    ((s[0] as u32) << 24) | ((s[1] as u32) << 16) | ((s[2] as u32) << 8) | (s[3] as u32)
}

/// The 4-byte big-endian encoding of a 32-bit integer.
pub open spec fn u32_be_bytes(x: u32) -> Seq<u8> {
    seq![
        ((x >> 24) & 0xff) as u8,
        ((x >> 16) & 0xff) as u8,
        ((x >> 8) & 0xff) as u8,
        (x & 0xff) as u8,
    ]
}

/// Reads the big-endian 32-bit integer stored at `pos`.
pub fn read_be_u32(buffer: &[u8], pos: usize) -> (r: u32)
    requires
        pos + 4 <= buffer@.len(),
    ensures
        r == be_u32(buffer@.subrange(pos as int, pos as int + 4)),
{
    let r = ((buffer[pos] as u32) << 24) | ((buffer[pos + 1] as u32) << 16) | ((buffer[pos + 2]
        as u32) << 8) | (buffer[pos + 3] as u32);
    proof {
        let s = buffer@.subrange(pos as int, pos as int + 4);
        assert(s[0] == buffer@[pos as int]);
        assert(s[1] == buffer@[pos as int + 1]);
        assert(s[2] == buffer@[pos as int + 2]);
        assert(s[3] == buffer@[pos as int + 3]);
    }
    r
}

/// Appends the 4-byte big-endian encoding of `x` to `out`.
pub fn write_be_u32(out: &mut Vec<u8>, x: u32)
    ensures
        final(out)@ == old(out)@ + u32_be_bytes(x),
{
    proof {
        assert((x >> 24) & 0xff < 256 && (x >> 16) & 0xff < 256 && (x >> 8) & 0xff < 256 && x
            & 0xff < 256) by (bit_vector);
    }
    out.push(((x >> 24) & 0xff) as u8);
    out.push(((x >> 16) & 0xff) as u8);
    out.push(((x >> 8) & 0xff) as u8);
    out.push((x & 0xff) as u8);
    proof {
        assert(out@ =~= old(out)@ + u32_be_bytes(x));
    }
}

/// Decoding the encoding of a value gives the value back.
pub proof fn lemma_be_u32_of_bytes(x: u32)
    ensures
        be_u32(u32_be_bytes(x)) == x,
{
    assert(((((x >> 24) & 0xff) as u8 as u32) << 24) | ((((x >> 16) & 0xff) as u8 as u32) << 16)
        | ((((x >> 8) & 0xff) as u8 as u32) << 8) | ((x & 0xff) as u8 as u32) == x)
        by (bit_vector);
}

/// Encoding the value read from 4 bytes gives the bytes back; hence two
/// distinct 4-byte fields never decode to the same value.
pub proof fn lemma_u32_bytes_of_be(s: Seq<u8>)
    requires
        s.len() == 4,
    ensures
        u32_be_bytes(be_u32(s)) == s,
{
    let b0 = s[0];
    let b1 = s[1];
    let b2 = s[2];
    let b3 = s[3];
    let x = ((b0 as u32) << 24) | ((b1 as u32) << 16) | ((b2 as u32) << 8) | (b3 as u32);
    assert(((x >> 24) & 0xff) as u8 == b0 && ((x >> 16) & 0xff) as u8 == b1 && ((x >> 8) & 0xff)
        as u8 == b2 && (x & 0xff) as u8 == b3) by (bit_vector)
        requires
            x == ((b0 as u32) << 24) | ((b1 as u32) << 16) | ((b2 as u32) << 8) | (b3 as u32),
    ;
    assert(u32_be_bytes(be_u32(s)) =~= s);
}

} // verus!
