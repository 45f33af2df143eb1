//! The whole-file model: the fixed 8-byte signature followed by an ordered
//! sequence of chunks. Parsing consumes the entire buffer or fails as a
//! whole; serialization reproduces the signature and every chunk in order,
//! byte for byte.

use vstd::prelude::*;
use vstd::utf8::encode_utf8;
use crate::chunk::{
    chunk_model_of, chunk_parse_err, chunk_serial, chunk_span, chunk_wf, Chunk, ChunkModel,
};
use crate::chunk_type::valid_type_bytes;
use crate::errors::PNGMEErrors;
use crate::text::{dec_digits, push_char, push_decimal};

verus! {

/// The canonical 8-byte file signature.
pub open spec fn spec_signature() -> Seq<u8> {
    seq![0x89u8, 0x50u8, 0x4eu8, 0x47u8, 0x0du8, 0x0au8, 0x1au8, 0x0au8]
}

/// The canonical 8-byte file signature.
pub fn signature() -> (r: [u8; 8])
    ensures
        r@ == spec_signature(),
{
    let r: [u8; 8] = [0x89, 0x50, 0x4e, 0x47, 0x0d, 0x0a, 0x1a, 0x0a];
    proof {
        assert(r@ =~= spec_signature());
    }
    r
}

/// Whether `b` starts with the canonical signature.
pub open spec fn header_matches(b: Seq<u8>) -> bool {
    b.len() >= 8 && b.take(8) == spec_signature()
}

/// The 8 bytes a header error carries: the first 8 bytes of the buffer,
/// zero-padded when the buffer is shorter.
pub open spec fn header_err_bytes(b: Seq<u8>) -> Seq<u8> {
    Seq::new(8, |i: int| if i < b.len() { b[i] } else { 0u8 })
}

/// The models of a sequence of chunks.
pub open spec fn models_of(chunks: Seq<Chunk>) -> Seq<ChunkModel> {
    chunks.map_values(|c: Chunk| c@)
}

/// The concatenated serialization of a sequence of chunks.
pub open spec fn chunks_serial(cs: Seq<ChunkModel>) -> Seq<u8>
    decreases cs.len(),
{
    if cs.len() == 0 {
        Seq::empty()
    } else {
        chunk_serial(cs[0]) + chunks_serial(cs.drop_first())
    }
}

/// The serialization of a whole file: the signature, then every chunk in
/// order.
pub open spec fn png_serial(cs: Seq<ChunkModel>) -> Seq<u8> {
    spec_signature() + chunks_serial(cs)
}

/// Whether `b` is a gapless sequence of well-formed chunks down to its last
/// byte.
pub open spec fn chunks_wf_bytes(b: Seq<u8>) -> bool
    decreases b.len(),
{
    if b.len() == 0 {
        true
    } else if chunk_wf(b) {
        chunks_wf_bytes(b.skip(chunk_span(b)))
    } else {
        false
    }
}

/// The chunk models read off the front of `b`, up to the first byte that is
/// not part of a well-formed chunk.
pub open spec fn chunks_models_of(b: Seq<u8>) -> Seq<ChunkModel>
    decreases b.len(),
{
    if b.len() == 0 || !chunk_wf(b) {
        Seq::empty()
    } else {
        seq![chunk_model_of(b)] + chunks_models_of(b.skip(chunk_span(b)))
    }
}

/// The suffix of `b` at which chunk parsing first fails; `b` itself when
/// the whole buffer parses.
pub open spec fn first_bad_chunk(b: Seq<u8>) -> Seq<u8>
    decreases b.len(),
{
    if b.len() == 0 || !chunk_wf(b) {
        b
    } else {
        first_bad_chunk(b.skip(chunk_span(b)))
    }
}

/// One line of the debug rendering: the 4 type bytes as characters, a
/// colon and a space, the decimal payload length, and a line break.
pub open spec fn chunk_line(m: ChunkModel) -> Seq<char> {
    m.ty.map_values(|b: u8| b as char) + seq![':', ' '] + dec_digits(m.data.len()) + seq!['\n']
}

/// The debug rendering of a chunk sequence: one line per chunk, in order.
pub open spec fn display_of(cs: Seq<ChunkModel>) -> Seq<char>
    decreases cs.len(),
{
    if cs.len() == 0 {
        Seq::empty()
    } else {
        chunk_line(cs[0]) + display_of(cs.drop_first())
    }
}

/// Whether a chunk's type bytes equal the UTF-8 bytes of `code`.
pub open spec fn type_matches(m: ChunkModel, code: Seq<char>) -> bool {
    m.ty == encode_utf8(code)
}

/// The position of the first chunk whose type matches `code`; the sequence
/// length when none does.
pub open spec fn spec_find_idx(cs: Seq<ChunkModel>, code: Seq<char>) -> int
    decreases cs.len(),
{
    if cs.len() == 0 {
        0
    } else if type_matches(cs[0], code) {
        0
    } else {
        1 + spec_find_idx(cs.drop_first(), code)
    }
}

/// The found position is in range exactly when a match exists, it holds a
/// match, and nothing before it matches.
pub proof fn lemma_find_idx_props(cs: Seq<ChunkModel>, code: Seq<char>)
    ensures
        ({
            let i = spec_find_idx(cs, code);
            &&& 0 <= i <= cs.len()
            &&& i < cs.len() ==> type_matches(cs[i], code)
            &&& forall|j: int| 0 <= j < i ==> !type_matches(#[trigger] cs[j], code)
        }),
    decreases cs.len(),
{
    if cs.len() == 0 {
    } else if type_matches(cs[0], code) {
    } else {
        lemma_find_idx_props(cs.drop_first(), code);
        let i = spec_find_idx(cs, code);
        assert forall|j: int| 0 <= j < i implies !type_matches(#[trigger] cs[j], code) by {
            if j > 0 {
                assert(cs.drop_first()[j - 1] == cs[j]);
            }
        }
        if i < cs.len() {
            assert(cs.drop_first()[i - 1] == cs[i]);
        }
    }
}

/// One well-formed chunk at the front moves every whole-buffer question to
/// the remainder behind its span.
proof fn lemma_chunks_step(b: Seq<u8>)
    requires
        chunk_wf(b),
    ensures
        chunks_wf_bytes(b) == chunks_wf_bytes(b.skip(chunk_span(b))),
        chunks_models_of(b) == seq![chunk_model_of(b)] + chunks_models_of(b.skip(chunk_span(b))),
        first_bad_chunk(b) == first_bad_chunk(b.skip(chunk_span(b))),
{
}

/// Serializing a sequence extended by one chunk appends that chunk's bytes.
pub proof fn lemma_chunks_serial_snoc(cs: Seq<ChunkModel>, m: ChunkModel)
    ensures
        chunks_serial(cs.push(m)) == chunks_serial(cs) + chunk_serial(m),
    decreases cs.len(),
{
    if cs.len() == 0 {
        assert(cs.push(m)[0] == m);
        assert(cs.push(m).drop_first() =~= Seq::<ChunkModel>::empty());
        assert(chunks_serial(Seq::<ChunkModel>::empty()) == Seq::<u8>::empty());
        assert(chunks_serial(cs.push(m)) =~= chunks_serial(cs) + chunk_serial(m));
    } else {
        lemma_chunks_serial_snoc(cs.drop_first(), m);
        assert(cs.push(m)[0] == cs[0]);
        assert(cs.push(m).drop_first() =~= cs.drop_first().push(m));
        assert(chunks_serial(cs.push(m)) =~= chunks_serial(cs) + chunk_serial(m));
    }
}

/// Rendering a sequence extended by one chunk appends that chunk's line.
proof fn lemma_display_snoc(cs: Seq<ChunkModel>, m: ChunkModel)
    ensures
        display_of(cs.push(m)) == display_of(cs) + chunk_line(m),
    decreases cs.len(),
{
    if cs.len() == 0 {
        assert(cs.push(m)[0] == m);
        assert(cs.push(m).drop_first() =~= Seq::<ChunkModel>::empty());
        assert(display_of(Seq::<ChunkModel>::empty()) == Seq::<char>::empty());
        assert(display_of(cs.push(m)) =~= display_of(cs) + chunk_line(m));
    } else {
        lemma_display_snoc(cs.drop_first(), m);
        assert(cs.push(m)[0] == cs[0]);
        assert(cs.push(m).drop_first() =~= cs.drop_first().push(m));
        assert(display_of(cs.push(m)) =~= display_of(cs) + chunk_line(m));
    }
}

/// Serialization distributes over concatenation of chunk sequences.
pub proof fn lemma_chunks_serial_concat(a: Seq<ChunkModel>, b: Seq<ChunkModel>)
    ensures
        chunks_serial(a + b) == chunks_serial(a) + chunks_serial(b),
    decreases a.len(),
{
    if a.len() == 0 {
        assert(a + b =~= b);
        assert(chunks_serial(a + b) =~= chunks_serial(a) + chunks_serial(b));
    } else {
        lemma_chunks_serial_concat(a.drop_first(), b);
        assert((a + b)[0] == a[0]);
        assert((a + b).drop_first() =~= a.drop_first() + b);
        assert(chunks_serial(a + b) =~= chunks_serial(a) + chunks_serial(b));
    }
}

/// A buffer of well-formed chunks, parsed and serialized back, reproduces
/// the original byte stream.
#[verifier::rlimit(50)]
pub proof fn lemma_chunks_reserialize(b: Seq<u8>)
    requires
        chunks_wf_bytes(b),
    ensures
        chunks_serial(chunks_models_of(b)) == b,
    decreases b.len(),
{
    if b.len() == 0 {
        assert(chunks_models_of(b) =~= Seq::<ChunkModel>::empty());
        assert(chunks_serial(chunks_models_of(b)) =~= b);
    } else {
        let rest = b.skip(chunk_span(b));
        crate::chunk::lemma_chunk_reserialize(b);
        lemma_chunks_reserialize(rest);
        let ms = chunks_models_of(b);
        assert(ms[0] == chunk_model_of(b));
        assert(ms.drop_first() =~= chunks_models_of(rest));
        assert(chunks_serial(ms) == chunk_serial(ms[0]) + chunks_serial(ms.drop_first()));
        assert(b =~= b.take(chunk_span(b)) + rest);
    }
}

/// A whole file that parses serializes back byte for byte: the container
/// model loses nothing.
pub proof fn lemma_file_reserialize(b: Seq<u8>)
    requires
        header_matches(b),
        chunks_wf_bytes(b.skip(8)),
    ensures
        png_serial(chunks_models_of(b.skip(8))) == b,
{
    lemma_chunks_reserialize(b.skip(8));
    assert(png_serial(chunks_models_of(b.skip(8))) =~= b);
}

/// Serializing any sequence of chunks with valid types and parsing the
/// bytes back yields the same sequence.
pub proof fn lemma_chunks_parse_serial(cs: Seq<ChunkModel>)
    requires
        forall|i: int|
            0 <= i < cs.len() ==> (#[trigger] cs[i].ty).len() == 4 && valid_type_bytes(cs[i].ty)
                && cs[i].data.len() <= u32::MAX,
    ensures
        chunks_wf_bytes(chunks_serial(cs)),
        chunks_models_of(chunks_serial(cs)) == cs,
    decreases cs.len(),
{
    if cs.len() == 0 {
        assert(chunks_models_of(chunks_serial(cs)) =~= cs);
    } else {
        let m = cs[0];
        let rest = cs.drop_first();
        lemma_chunks_parse_serial(rest);
        let b = chunks_serial(cs);
        assert(b == chunk_serial(m) + chunks_serial(rest));
        crate::chunk::lemma_chunk_parse_prefix(m, chunks_serial(rest));
        assert(b.skip(chunk_span(b)) == chunks_serial(rest));
        assert(chunks_models_of(b) =~= cs);
    }
}

/// Removing the chunk at position `i` excises exactly its byte span from
/// the serialization: the bytes before and after the span are unchanged.
pub proof fn lemma_remove_excises_span(cs: Seq<ChunkModel>, i: int)
    requires
        0 <= i < cs.len(),
    ensures
        ({
            let pre = png_serial(cs);
            let start = 8 + chunks_serial(cs.take(i)).len() as int;
            let span = chunk_serial(cs[i]).len() as int;
            png_serial(cs.remove(i)) == pre.subrange(0, start) + pre.skip(start + span)
        }),
{
    let a = cs.take(i);
    let m = cs[i];
    let c = cs.skip(i + 1);
    let single = seq![m];
    assert(cs =~= a + (single + c));
    lemma_chunks_serial_concat(a, single + c);
    lemma_chunks_serial_concat(single, c);
    assert(single.drop_first() =~= Seq::<ChunkModel>::empty());
    assert(chunks_serial(Seq::<ChunkModel>::empty()) == Seq::<u8>::empty());
    assert(chunks_serial(single) =~= chunk_serial(m));
    assert(cs.remove(i) =~= a + c);
    lemma_chunks_serial_concat(a, c);
    let pre = png_serial(cs);
    let start = 8 + chunks_serial(a).len() as int;
    let span = chunk_serial(m).len() as int;
    assert(pre =~= spec_signature() + chunks_serial(a) + chunk_serial(m) + chunks_serial(c));
    assert(pre.subrange(0, start) =~= spec_signature() + chunks_serial(a));
    assert(pre.skip(start + span) =~= chunks_serial(c));
    assert(png_serial(cs.remove(i)) =~= pre.subrange(0, start) + pre.skip(start + span));
}

/// Removing the first chunk of a given type leaves a container whose
/// serialization equals the old one with that chunk's byte span excised.
pub proof fn lemma_remove_first_match_excises_bytes(cs: Seq<ChunkModel>, code: Seq<char>)
    requires
        spec_find_idx(cs, code) < cs.len(),
    ensures
        ({
            let i = spec_find_idx(cs, code);
            let pre = png_serial(cs);
            let start = 8 + chunks_serial(cs.take(i)).len() as int;
            let span = chunk_serial(cs[i]).len() as int;
            png_serial(cs.remove(i)) == pre.subrange(0, start) + pre.skip(start + span)
        }),
{
    lemma_find_idx_props(cs, code);
    lemma_remove_excises_span(cs, spec_find_idx(cs, code));
}

/// The whole-file model: the fixed signature and an ordered chunk
/// sequence, mirroring on-disk order. A container is owned by a single
/// caller; it is not safe for concurrent mutation without external locking.
pub struct PngContainer {
    chunks: Vec<Chunk>,
}

impl View for PngContainer {
    type V = Seq<ChunkModel>;

    closed spec fn view(&self) -> Seq<ChunkModel> {
        models_of(self.chunks@)
    }
}

/// Whether `buffer` starts with the canonical signature.
fn check_header(buffer: &[u8]) -> (r: bool)
    ensures
        r == header_matches(buffer@),
{
    if buffer.len() < 8 {
        return false;
    }
    let sig = signature();
    let mut i: usize = 0;
    while i < 8
        invariant
            0 <= i <= 8,
            buffer@.len() >= 8,
            sig@ == spec_signature(),
            forall|j: int| 0 <= j < i ==> buffer@[j] == spec_signature()[j],
        decreases 8 - i,
    {
        if buffer[i] != sig[i] {
            proof {
                if header_matches(buffer@) {
                    assert(buffer@.take(8)[i as int] == spec_signature()[i as int]);
                }
            }
            return false;
        }
        i += 1;
    }
    proof {
        assert(buffer@.take(8) =~= spec_signature());
    }
    true
}

/// The first 8 bytes of `buffer`, zero-padded when it is shorter.
fn header_error_bytes(buffer: &[u8]) -> (r: [u8; 8])
    ensures
        r@ == header_err_bytes(buffer@),
{
    let n = buffer.len();
    let b0 = if n > 0 { buffer[0] } else { 0 };
    let b1 = if n > 1 { buffer[1] } else { 0 };
    let b2 = if n > 2 { buffer[2] } else { 0 };
    let b3 = if n > 3 { buffer[3] } else { 0 };
    let b4 = if n > 4 { buffer[4] } else { 0 };
    let b5 = if n > 5 { buffer[5] } else { 0 };
    let b6 = if n > 6 { buffer[6] } else { 0 };
    let b7 = if n > 7 { buffer[7] } else { 0 };
    let r: [u8; 8] = [b0, b1, b2, b3, b4, b5, b6, b7];
    proof {
        assert(r@ =~= header_err_bytes(buffer@));
    }
    r
}

impl PngContainer {
    /// Builds a container directly from an explicit chunk list.
    pub fn from_chunks(chunks: Vec<Chunk>) -> (r: PngContainer)
        ensures
            r@ == models_of(chunks@),
    {
        PngContainer { chunks }
    }

    /// Parses a whole file. Fails with `InvalidHeader` unless the first 8
    /// bytes equal the canonical signature; then parses chunk after chunk
    /// until the buffer is exhausted, surfacing the first chunk failure and
    /// never building a partial container.
    pub fn from_bytes(buffer: &[u8]) -> (r: Result<PngContainer, PNGMEErrors>)
        ensures
            !header_matches(buffer@) ==> (r matches Err(e) && e matches PNGMEErrors::InvalidHeader(
                h,
            ) && h@ == header_err_bytes(buffer@)),
            header_matches(buffer@) && chunks_wf_bytes(buffer@.skip(8)) ==> (r matches Ok(p) && p@
                == chunks_models_of(buffer@.skip(8))),
            header_matches(buffer@) && !chunks_wf_bytes(buffer@.skip(8)) ==> (r matches Err(e)
                && chunk_parse_err(first_bad_chunk(buffer@.skip(8)), e)),
    {
        if !check_header(buffer) {
            return Err(PNGMEErrors::InvalidHeader(header_error_bytes(buffer)));
        }
        let ghost rest = buffer@.skip(8);
        let mut chunks: Vec<Chunk> = Vec::new();
        let mut pos: usize = 8;
        while pos < buffer.len()
            invariant
                8 <= pos <= buffer@.len(),
                header_matches(buffer@),
                chunks_wf_bytes(rest) == chunks_wf_bytes(buffer@.skip(pos as int)),
                chunks_models_of(rest) == models_of(chunks@) + chunks_models_of(
                    buffer@.skip(pos as int),
                ),
                first_bad_chunk(rest) == first_bad_chunk(buffer@.skip(pos as int)),
                rest == buffer@.skip(8),
            decreases buffer@.len() - pos,
        {
            let ghost tail = buffer@.skip(pos as int);
            match Chunk::parse_at(buffer, pos) {
                Ok((chunk, consumed)) => {
                    proof {
                        if !chunk_wf(tail) {
                            assert(false);
                        }
                        lemma_chunks_step(tail);
                        assert(tail.skip(chunk_span(tail)) =~= buffer@.skip(
                            pos as int + consumed as int,
                        ));
                        assert(models_of(chunks@.push(chunk)) =~= models_of(chunks@).push(chunk@));
                        assert(models_of(chunks@) + seq![chunk@] + chunks_models_of(
                            buffer@.skip(pos as int + consumed as int),
                        ) =~= models_of(chunks@) + (seq![chunk@] + chunks_models_of(
                            buffer@.skip(pos as int + consumed as int),
                        )));
                        assert(models_of(chunks@).push(chunk@) =~= models_of(chunks@) + seq![
                            chunk@,
                        ]);
                    }
                    chunks.push(chunk);
                    pos = pos + consumed;
                },
                Err(e) => {
                    proof {
                        if chunk_wf(tail) {
                            assert(false);
                        }
                        assert(first_bad_chunk(tail) == tail);
                        assert(!chunks_wf_bytes(tail));
                    }
                    return Err(e);
                },
            }
        }
        proof {
            assert(buffer@.skip(pos as int) =~= Seq::<u8>::empty());
            assert(models_of(chunks@) + chunks_models_of(buffer@.skip(pos as int)) =~= models_of(
                chunks@,
            ));
        }
        Ok(PngContainer { chunks })
    }

    /// Serializes the whole file: the signature, then every chunk in order.
    pub fn as_bytes(&self) -> (r: Vec<u8>)
        ensures
            r@ == png_serial(self@),
    {
        let mut out: Vec<u8> = Vec::new();
        let sig = signature();
        out.push(sig[0]);
        out.push(sig[1]);
        out.push(sig[2]);
        out.push(sig[3]);
        out.push(sig[4]);
        out.push(sig[5]);
        out.push(sig[6]);
        out.push(sig[7]);
        proof {
            assert(out@ =~= spec_signature());
            assert(self@.take(0) =~= Seq::<ChunkModel>::empty());
        }
        let mut i: usize = 0;
        while i < self.chunks.len()
            invariant
                0 <= i <= self.chunks@.len(),
                self@ == models_of(self.chunks@),
                out@ == spec_signature() + chunks_serial(self@.take(i as int)),
            decreases self.chunks@.len() - i,
        {
            let mut piece = self.chunks[i].as_bytes();
            out.append(&mut piece);
            proof {
                lemma_chunks_serial_snoc(self@.take(i as int), self.chunks@[i as int]@);
                assert(self@.take(i as int + 1) =~= self@.take(i as int).push(
                    self.chunks@[i as int]@,
                ));
                assert(out@ =~= spec_signature() + chunks_serial(self@.take(i as int + 1)));
            }
            i += 1;
        }
        proof {
            assert(self@.take(self.chunks@.len() as int) =~= self@);
        }
        out
    }

    /// Appends a chunk at the end of the sequence. Placement relative to
    /// any terminating marker chunk is deliberately left to the caller.
    pub fn append_chunk(&mut self, chunk: Chunk)
        ensures
            final(self)@ == old(self)@.push(chunk@),
    {
        let ghost m = chunk@;
        self.chunks.push(chunk);
        proof {
            assert(models_of(self.chunks@) =~= models_of(old(self).chunks@).push(m));
        }
    }

    /// The chunks, in file order.
    pub fn chunks(&self) -> (r: &[Chunk])
        ensures
            models_of(r@) == self@,
    {
        self.chunks.as_slice()
    }

    /// Returns the first chunk, in sequence order, whose type's string form
    /// equals `code`; `None` when no chunk matches.
    pub fn find_chunk_by_type(&self, code: &str) -> (r: Option<&Chunk>)
        ensures
            ({
                let i = spec_find_idx(self@, code@);
                &&& i < self@.len() ==> (r matches Some(c) && c@ == self@[i])
                &&& i >= self@.len() ==> r is None
            }),
    {
        proof {
            lemma_find_idx_props(self@, code@);
        }
        let mut j: usize = 0;
        while j < self.chunks.len()
            invariant
                0 <= j <= self.chunks@.len(),
                self@ == models_of(self.chunks@),
                forall|k: int| 0 <= k < j ==> !type_matches(#[trigger] self@[k], code@),
                ({
                    let i = spec_find_idx(self@, code@);
                    &&& 0 <= i <= self@.len()
                    &&& i < self@.len() ==> type_matches(self@[i], code@)
                    &&& forall|k: int| 0 <= k < i ==> !type_matches(#[trigger] self@[k], code@)
                }),
            decreases self.chunks@.len() - j,
        {
            if self.chunks[j].chunk_type().matches_str(code) {
                proof {
                    let i = spec_find_idx(self@, code@);
                    assert(type_matches(self@[j as int], code@));
                    if i < j {
                        assert(!type_matches(self@[i], code@));
                    }
                    if i > j {
                        assert(!type_matches(self@[j as int], code@));
                    }
                    assert(i == j);
                }
                return Some(&self.chunks[j]);
            }
            j += 1;
        }
        proof {
            let i = spec_find_idx(self@, code@);
            if i < self@.len() {
                assert(!type_matches(self@[i], code@));
            }
        }
        None
    }

    /// A debug rendering that enumerates each chunk's type and payload
    /// length, one line per chunk, in file order.
    pub fn to_display_string(&self) -> (r: String)
        ensures
            r@ == display_of(self@),
    {
        let mut s = String::new();
        proof {
            assert(self@.take(0) =~= Seq::<ChunkModel>::empty());
            assert(s@ + display_of(self@.take(0)) =~= s@);
        }
        let mut i: usize = 0;
        while i < self.chunks.len()
            invariant
                0 <= i <= self.chunks@.len(),
                self@ == models_of(self.chunks@),
                s@ == display_of(self@.take(i as int)),
            decreases self.chunks@.len() - i,
        {
            let ghost m = self.chunks@[i as int]@;
            let tb = self.chunks[i].chunk_type().bytes();
            push_char(&mut s, tb[0] as char);
            push_char(&mut s, tb[1] as char);
            push_char(&mut s, tb[2] as char);
            push_char(&mut s, tb[3] as char);
            push_char(&mut s, ':');
            push_char(&mut s, ' ');
            push_decimal(&mut s, self.chunks[i].length());
            push_char(&mut s, '\n');
            proof {
                assert(m.ty.map_values(|b: u8| b as char) =~= seq![
                    m.ty[0] as char,
                    m.ty[1] as char,
                    m.ty[2] as char,
                    m.ty[3] as char,
                ]);
                assert(s@ =~= display_of(self@.take(i as int)) + chunk_line(m));
                lemma_display_snoc(self@.take(i as int), m);
                assert(self@.take(i as int + 1) =~= self@.take(i as int).push(m));
            }
            i += 1;
        }
        proof {
            assert(self@.take(self.chunks@.len() as int) =~= self@);
        }
        s
    }

    /// Removes and returns the first chunk whose type's string form equals
    /// `code`; fails with `UnknownChunkType` and leaves the container
    /// unchanged when none matches. Later chunks of the same type remain.
    pub fn remove_chunk(&mut self, code: &str) -> (r: Result<Chunk, PNGMEErrors>)
        ensures
            ({
                let i = spec_find_idx(old(self)@, code@);
                &&& i < old(self)@.len() ==> (r matches Ok(c) && c@ == old(self)@[i] && final(self)@
                    == old(self)@.remove(i))
                &&& i >= old(self)@.len() ==> r == Err::<Chunk, PNGMEErrors>(
                    PNGMEErrors::UnknownChunkType(),
                ) && final(self)@ == old(self)@
            }),
    {
        proof {
            lemma_find_idx_props(old(self)@, code@);
        }
        let mut j: usize = 0;
        while j < self.chunks.len()
            invariant
                0 <= j <= self.chunks@.len(),
                self == old(self),
                forall|k: int| 0 <= k < j ==> !type_matches(#[trigger] self@[k], code@),
                ({
                    let i = spec_find_idx(self@, code@);
                    &&& 0 <= i <= self@.len()
                    &&& i < self@.len() ==> type_matches(self@[i], code@)
                    &&& forall|k: int| 0 <= k < i ==> !type_matches(#[trigger] self@[k], code@)
                }),
            decreases self.chunks@.len() - j,
        {
            if self.chunks[j].chunk_type().matches_str(code) {
                proof {
                    let i = spec_find_idx(self@, code@);
                    assert(type_matches(self@[j as int], code@));
                    if i < j {
                        assert(!type_matches(self@[i], code@));
                    }
                    if i > j {
                        assert(!type_matches(self@[j as int], code@));
                    }
                    assert(i == j);
                }
                let removed = self.chunks.remove(j);
                proof {
                    assert(models_of(self.chunks@) =~= models_of(old(self).chunks@).remove(
                        j as int,
                    ));
                }
                return Ok(removed);
            }
            j += 1;
        }
        proof {
            let i = spec_find_idx(self@, code@);
            if i < self@.len() {
                assert(!type_matches(self@[i], code@));
            }
        }
        Err(PNGMEErrors::UnknownChunkType())
    }
}

} // verus!
