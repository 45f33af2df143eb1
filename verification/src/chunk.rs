//! One length-prefixed, checksummed binary record: a type tag plus a payload.
//! Serialized layout, big-endian throughout: 4-byte payload length, 4 type
//! bytes, the payload, and a 4-byte CRC-32/ISO-HDLC checksum computed over
//! the type bytes followed by the payload (the length field is not covered).

use vstd::prelude::*;
use vstd::slice::{slice_subrange, slice_to_vec};
use vstd::utf8::{decode_utf8, valid_utf8};
use crate::bytes_be::{
    be_u32, lemma_be_u32_of_bytes, lemma_u32_bytes_of_be, read_be_u32, u32_be_bytes, write_be_u32,
};
use crate::checksum::{crc32, crc32_of};
use crate::chunk_type::{valid_type_bytes, ChunkTypeCode};
use crate::errors::PNGMEErrors;

verus! {

/// The mathematical content of a chunk: its 4 type bytes and its payload.
pub ghost struct ChunkModel {
    pub ty: Seq<u8>,
    pub data: Seq<u8>,
}

/// The serialized form of a chunk: big-endian payload length, type bytes,
/// payload, big-endian checksum over type and payload.
pub open spec fn chunk_serial(m: ChunkModel) -> Seq<u8> {
    u32_be_bytes(m.data.len() as u32) + m.ty + m.data + u32_be_bytes(crc32_of(m.ty + m.data))
}

/// The payload length declared by the first 4 bytes of a serialized chunk.
pub open spec fn declared_len(b: Seq<u8>) -> int
    recommends
        b.len() >= 4,
{
    be_u32(b.take(4)) as int
}

/// The 4 type bytes of a serialized chunk.
pub open spec fn type_field(b: Seq<u8>) -> Seq<u8>
    recommends
        b.len() >= 8,
{
    b.subrange(4, 8)
}

/// The payload bytes of a serialized chunk.
pub open spec fn payload_field(b: Seq<u8>) -> Seq<u8>
    recommends
        b.len() >= 8 + declared_len(b),
{
    b.subrange(8, 8 + declared_len(b))
}

/// The total serialized size a chunk declares: 12 framing bytes plus the
/// declared payload length.
pub open spec fn chunk_span(b: Seq<u8>) -> int
    recommends
        b.len() >= 4,
{
    12 + declared_len(b)
}

/// The checksum stored in the last 4 bytes of a serialized chunk.
pub open spec fn stored_crc(b: Seq<u8>) -> u32
    recommends
        b.len() >= chunk_span(b),
{
    be_u32(b.subrange(8 + declared_len(b), 12 + declared_len(b)))
}

/// The checksum recomputed over the type and payload bytes of a serialized
/// chunk.
pub open spec fn computed_crc(b: Seq<u8>) -> u32
    recommends
        b.len() >= chunk_span(b),
{
    crc32_of(b.subrange(4, 8 + declared_len(b)))
}

/// Whether the front of `b` holds one well-formed chunk: enough bytes for
/// the declared framing, a valid type, and a stored checksum that equals the
/// recomputed one. Trailing bytes beyond the chunk's span are ignored.
pub open spec fn chunk_wf(b: Seq<u8>) -> bool {
    &&& b.len() >= 12
    &&& valid_type_bytes(type_field(b))
    &&& chunk_span(b) <= b.len()
    &&& stored_crc(b) == computed_crc(b)
}

/// The chunk described by the front of a well-formed serialized buffer.
pub open spec fn chunk_model_of(b: Seq<u8>) -> ChunkModel {
    ChunkModel { ty: type_field(b), data: payload_field(b) }
}

/// Which error parsing the front of `b` reports, checked in this order: too
/// few framing bytes, an invalid type, a payload longer than the buffer, a
/// checksum mismatch.
pub open spec fn chunk_parse_err(b: Seq<u8>, e: PNGMEErrors) -> bool {
    if b.len() < 12 {
        e == PNGMEErrors::InvalidChunkSize()
    } else if !valid_type_bytes(type_field(b)) {
        e matches PNGMEErrors::InvalidChunkType(t) && t@ == type_field(b)
    } else if b.len() < chunk_span(b) {
        e == PNGMEErrors::InvalidChunkSize()
    } else {
        e == PNGMEErrors::InvalidCrc(computed_crc(b), stored_crc(b))
    }
}

/// One chunk: a type tag and an owned payload. The length and checksum are
/// always recomputed from these two, never stored redundantly. Immutable
/// once constructed.
pub struct Chunk {
    chunk_type: ChunkTypeCode,
    data: Vec<u8>,
}

impl View for Chunk {
    type V = ChunkModel;

    closed spec fn view(&self) -> ChunkModel {
        ChunkModel { ty: self.chunk_type@, data: self.data@ }
    }
}

impl Chunk {
    /// The 4-byte length field forces every payload below 2^32 bytes.
    #[verifier::type_invariant]
    spec fn wf(self) -> bool {
        self.data@.len() <= u32::MAX
    }

    /// Builds a chunk from a type tag and a payload. Always succeeds. The
    /// format's length field forces the payload below 2^32 bytes; the PNG
    /// specification's stricter 2^31-1 limit is accepted but deliberately
    /// not enforced.
    pub fn new(chunk_type: ChunkTypeCode, data: Vec<u8>) -> (r: Chunk)
        requires
            data@.len() <= u32::MAX,
        ensures
            r@ == (ChunkModel { ty: chunk_type@, data: data@ }),
    {
        Chunk { chunk_type, data }
    }

    /// The payload byte count.
    pub fn length(&self) -> (r: u32)
        ensures
            r == self@.data.len(),
    {
        proof {
            use_type_invariant(self);
        }
        self.data.len() as u32
    }

    /// The chunk's type tag.
    pub fn chunk_type(&self) -> (r: &ChunkTypeCode)
        ensures
            r@ == self@.ty,
    {
        &self.chunk_type
    }

    /// The payload bytes.
    pub fn data(&self) -> (r: &[u8])
        ensures
            r@ == self@.data,
    {
        self.data.as_slice()
    }

    /// The CRC-32/ISO-HDLC checksum over the 4 type bytes followed by the
    /// payload bytes; the length field is not covered.
    pub fn crc(&self) -> (r: u32)
        ensures
            r == crc32_of(self@.ty + self@.data),
    {
        let mut joined: Vec<u8> = Vec::new();
        let tb = self.chunk_type.bytes();
        joined.push(tb[0]);
        joined.push(tb[1]);
        joined.push(tb[2]);
        joined.push(tb[3]);
        let mut rest = slice_to_vec(self.data.as_slice());
        joined.append(&mut rest);
        proof {
            assert(joined@ =~= self@.ty + self@.data);
        }
        crc32(joined.as_slice())
    }

    /// The payload interpreted as UTF-8 text, the textual hidden-message
    /// view. Fails with `EncodingError` exactly when the payload is not
    /// valid UTF-8; never panics.
    pub fn data_as_string(&self) -> (r: Result<String, PNGMEErrors>)
        ensures
            r is Ok <==> valid_utf8(self@.data),
            r matches Ok(s) ==> s@ == decode_utf8(self@.data),
            r is Err ==> r == Err::<String, PNGMEErrors>(PNGMEErrors::EncodingError()),
    {
        match utf8_to_string(self.data.as_slice()) {
            Some(s) => Ok(s),
            None => Err(PNGMEErrors::EncodingError()),
        }
    }

    /// Serializes the chunk: big-endian length, type bytes, payload,
    /// big-endian checksum.
    pub fn as_bytes(&self) -> (r: Vec<u8>)
        ensures
            r@ == chunk_serial(self@),
    {
        proof {
            use_type_invariant(self);
        }
        let mut out: Vec<u8> = Vec::new();
        write_be_u32(&mut out, self.length());
        let tb = self.chunk_type.bytes();
        out.push(tb[0]);
        out.push(tb[1]);
        out.push(tb[2]);
        out.push(tb[3]);
        let mut payload = slice_to_vec(self.data.as_slice());
        out.append(&mut payload);
        let checksum = self.crc();
        write_be_u32(&mut out, checksum);
        proof {
            assert(out@ =~= chunk_serial(self@));
        }
        out
    }

    /// Parses one chunk from the front of `buffer`, ignoring trailing
    /// bytes. Fails with `InvalidChunkSize` when fewer than the declared or
    /// minimum framing bytes remain, `InvalidChunkType` when the type is not
    /// valid, and `InvalidCrc` when the stored checksum differs from the
    /// recomputed one.
    pub fn parse(buffer: &[u8]) -> (r: Result<Chunk, PNGMEErrors>)
        ensures
            chunk_wf(buffer@) ==> (r matches Ok(c) && c@ == chunk_model_of(buffer@)),
            !chunk_wf(buffer@) ==> (r matches Err(e) && chunk_parse_err(buffer@, e)),
    {
        proof {
            assert(buffer@.skip(0) =~= buffer@);
        }
        match Chunk::parse_at(buffer, 0) {
            Ok((chunk, _consumed)) => Ok(chunk),
            Err(e) => Err(e),
        }
    }

    /// Parses one chunk starting at offset `start` of `buffer`, returning
    /// the chunk and its total serialized size. The container walks a file
    /// with this.
    pub fn parse_at(buffer: &[u8], start: usize) -> (r: Result<(Chunk, usize), PNGMEErrors>)
        requires
            start <= buffer@.len(),
        ensures
            ({
                let b = buffer@.skip(start as int);
                &&& chunk_wf(b) ==> (r matches Ok((c, n)) && c@ == chunk_model_of(b) && n
                    == chunk_span(b))
                &&& !chunk_wf(b) ==> (r matches Err(e) && chunk_parse_err(b, e))
            }),
    {
        let ghost b = buffer@.skip(start as int);
        let rem = buffer.len() - start;
        if rem < 12 {
            return Err(PNGMEErrors::InvalidChunkSize());
        }
        let length = read_be_u32(buffer, start);
        proof {
            assert(buffer@.subrange(start as int, start as int + 4) =~= b.take(4));
        }
        let tb: [u8; 4] = [buffer[start + 4], buffer[start + 5], buffer[start + 6], buffer[start
            + 7]];
        let code = ChunkTypeCode::parse_bytes(tb);
        proof {
            assert(tb@ =~= type_field(b));
        }
        if !code.is_valid() {
            return Err(PNGMEErrors::InvalidChunkType(code.bytes()));
        }
        let payload_len = length as usize;
        if rem - 12 < payload_len {
            return Err(PNGMEErrors::InvalidChunkSize());
        }
        let data = slice_to_vec(slice_subrange(buffer, start + 8, start + 8 + payload_len));
        proof {
            assert(data@ =~= payload_field(b));
        }
        let stored = read_be_u32(buffer, start + 8 + payload_len);
        proof {
            assert(buffer@.subrange(
                start as int + 8 + declared_len(b),
                start as int + 12 + declared_len(b),
            ) =~= b.subrange(8 + declared_len(b), 12 + declared_len(b)));
        }
        let chunk = Chunk { chunk_type: code, data };
        let actual = chunk.crc();
        proof {
            assert(chunk@.ty + chunk@.data =~= b.subrange(4, 8 + declared_len(b)));
        }
        if actual != stored {
            return Err(PNGMEErrors::InvalidCrc(actual, stored));
        }
        Ok((chunk, 12 + payload_len))
    }
}

/// Relies on std's `str::from_utf8`: it succeeds exactly on valid UTF-8
/// input and returns the decoded text.
#[verifier::external_body]
fn utf8_to_string(data: &[u8]) -> (r: Option<String>)
    ensures
        r is Some <==> valid_utf8(data@),
        r matches Some(s) ==> s@ == decode_utf8(data@),
{
    match std::str::from_utf8(data) {
        Ok(s) => Some(s.to_string()),
        Err(_) => None,
    }
}

/// Serialize-parse round trip: a serialized chunk with a valid type parses
/// as one well-formed chunk that spans the whole buffer and carries the same
/// type and payload.
pub proof fn lemma_chunk_round_trip(m: ChunkModel)
    requires
        m.ty.len() == 4,
        valid_type_bytes(m.ty),
        m.data.len() <= u32::MAX,
    ensures
        chunk_wf(chunk_serial(m)),
        chunk_model_of(chunk_serial(m)) == m,
        chunk_span(chunk_serial(m)) == chunk_serial(m).len(),
{
    let b = chunk_serial(m);
    let len32 = m.data.len() as u32;
    let check = crc32_of(m.ty + m.data);
    assert(b.take(4) =~= u32_be_bytes(len32));
    lemma_be_u32_of_bytes(len32);
    assert(declared_len(b) == m.data.len());
    assert(type_field(b) =~= m.ty);
    assert(payload_field(b) =~= m.data);
    assert(b.subrange(8 + declared_len(b), 12 + declared_len(b)) =~= u32_be_bytes(check));
    lemma_be_u32_of_bytes(check);
    assert(b.subrange(4, 8 + declared_len(b)) =~= m.ty + m.data);
}

/// Parse-serialize round trip: a well-formed chunk's model serializes back
/// to exactly the bytes it was read from.
pub proof fn lemma_chunk_reserialize(b: Seq<u8>)
    requires
        chunk_wf(b),
    ensures
        chunk_serial(chunk_model_of(b)) == b.take(chunk_span(b)),
{
    let m = chunk_model_of(b);
    lemma_u32_bytes_of_be(b.take(4));
    assert(m.data.len() == declared_len(b));
    assert(u32_be_bytes(m.data.len() as u32) == b.take(4));
    assert(m.ty + m.data =~= b.subrange(4, 8 + declared_len(b)));
    lemma_u32_bytes_of_be(b.subrange(8 + declared_len(b), 12 + declared_len(b)));
    assert(u32_be_bytes(crc32_of(m.ty + m.data)) == b.subrange(
        8 + declared_len(b),
        12 + declared_len(b),
    ));
    assert(chunk_serial(m) =~= b.take(chunk_span(b)));
}

/// Serializing a chunk and parsing it back in front of any trailing bytes
/// yields the same chunk, spanning exactly its own serialization.
pub proof fn lemma_chunk_parse_prefix(m: ChunkModel, tail: Seq<u8>)
    requires
        m.ty.len() == 4,
        valid_type_bytes(m.ty),
        m.data.len() <= u32::MAX,
    ensures
        ({
            let b = chunk_serial(m) + tail;
            &&& chunk_wf(b)
            &&& chunk_model_of(b) == m
            &&& chunk_span(b) == chunk_serial(m).len()
            &&& b.skip(chunk_span(b)) == tail
        }),
{
    let b = chunk_serial(m) + tail;
    let len32 = m.data.len() as u32;
    let check = crc32_of(m.ty + m.data);
    assert(b.take(4) =~= u32_be_bytes(len32));
    lemma_be_u32_of_bytes(len32);
    assert(declared_len(b) == m.data.len());
    assert(type_field(b) =~= m.ty);
    assert(payload_field(b) =~= m.data);
    assert(b.subrange(8 + declared_len(b), 12 + declared_len(b)) =~= u32_be_bytes(check));
    lemma_be_u32_of_bytes(check);
    assert(b.subrange(4, 8 + declared_len(b)) =~= m.ty + m.data);
    assert(b.skip(chunk_span(b)) =~= tail);
}

/// Flipping any single bit of a serialized chunk's checksum field leaves
/// the length, type and payload fields intact but makes the stored checksum
/// differ from the recomputed one, so parsing rejects the buffer with a
/// checksum mismatch.
pub proof fn lemma_checksum_bit_flip_rejected(m: ChunkModel, k: int)
    requires
        m.ty.len() == 4,
        valid_type_bytes(m.ty),
        m.data.len() <= u32::MAX,
        0 <= k < 32,
    ensures
        ({
            let b = chunk_serial(m);
            let pos = 8 + m.data.len() + k / 8;
            let flipped = b.update(pos as int, b[pos as int] ^ (1u8 << ((k % 8) as u8)));
            &&& !chunk_wf(flipped)
            &&& chunk_parse_err(
                flipped,
                PNGMEErrors::InvalidCrc(computed_crc(flipped), stored_crc(flipped)),
            )
            &&& computed_crc(flipped) == computed_crc(b)
        }),
{
    lemma_chunk_round_trip(m);
    let b = chunk_serial(m);
    let pos = 8 + m.data.len() + k / 8;
    let byte = b[pos as int];
    let shift = (k % 8) as u8;
    let flipped = b.update(pos as int, byte ^ (1u8 << shift));
    assert(8 <= pos < b.len() - 4 + 4);
    assert(flipped.take(4) =~= b.take(4));
    assert(declared_len(flipped) == declared_len(b));
    assert(type_field(flipped) =~= type_field(b));
    assert(flipped.subrange(4, 8 + declared_len(flipped)) =~= b.subrange(4, 8 + declared_len(b)));
    assert(computed_crc(flipped) == computed_crc(b));
    let olds = b.subrange(8 + declared_len(b), 12 + declared_len(b));
    let news = flipped.subrange(8 + declared_len(flipped), 12 + declared_len(flipped));
    assert(byte ^ (1u8 << shift) != byte) by (bit_vector)
        requires
            shift < 8,
    ;
    let j = pos - (8 + m.data.len());
    assert(0 <= j < 4);
    assert(news[j] != olds[j]);
    assert(news.len() == 4 && olds.len() == 4);
    if be_u32(news) == be_u32(olds) {
        lemma_u32_bytes_of_be(news);
        lemma_u32_bytes_of_be(olds);
        assert(news == olds);
        assert(false);
    }
    assert(stored_crc(flipped) != stored_crc(b));
}

} // verus!
