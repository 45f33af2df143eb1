//! The decision core of the four user-facing operations. Each command is a
//! pure function from the loaded file bytes to an outcome: bytes to persist,
//! a decoded message, or a listing. Reading the file, writing it back and
//! printing are the surrounding command layer's business, not this one's.

use vstd::prelude::*;
use vstd::string::StrSliceExecFns;
use vstd::utf8::{decode_utf8, encode_utf8, valid_utf8};
use crate::chunk::{chunk_parse_err, Chunk, ChunkModel};
use crate::chunk_type::{all_letters, ChunkTypeCode};
use crate::errors::PNGMEErrors;
use crate::png::{
    chunks_models_of, chunks_wf_bytes, display_of, first_bad_chunk, header_err_bytes,
    header_matches, png_serial, spec_find_idx, PngContainer,
};

verus! {

/// One user-facing operation, with the path arguments the surrounding
/// command layer resolves.
pub enum Commands {
    /// Hide a message of the given chunk type in the file, persisting to
    /// `output` when given, else back to `file_path`.
    Encode { file_path: String, chunk_type: String, message: String, output: Option<String> },
    /// Show the message hidden under the given chunk type, if any.
    Decode { file_path: String, chunk_type: String },
    /// Remove the first chunk of the given type and persist the result.
    Remove { file_path: String, chunk_type: String },
    /// List every chunk's type and length.
    Print { file_path: String },
}

/// What a command asks the surrounding layer to do: write bytes to a path,
/// report a decoded message (or that none was found), or show a listing.
pub enum CommandOutcome {
    Persist { path: String, bytes: Vec<u8> },
    Message(Option<String>),
    Listing(String),
}

/// Whether `b` parses as a whole file: signature, then well-formed chunks
/// to the last byte.
pub open spec fn container_parses(b: Seq<u8>) -> bool {
    header_matches(b) && chunks_wf_bytes(b.skip(8))
}

/// The chunks of a whole file that parses.
pub open spec fn parsed_chunks(b: Seq<u8>) -> Seq<ChunkModel> {
    chunks_models_of(b.skip(8))
}

/// The error a failed whole-file parse reports: a header mismatch, or the
/// first chunk failure.
pub open spec fn container_err(b: Seq<u8>, e: PNGMEErrors) -> bool {
    if !header_matches(b) {
        e matches PNGMEErrors::InvalidHeader(h) && h@ == header_err_bytes(b)
    } else {
        chunk_parse_err(first_bad_chunk(b.skip(8)), e)
    }
}

impl Commands {
    /// Decides one operation over the loaded file bytes. Never reads or
    /// writes a file and never prints: the outcome says what to persist or
    /// report. Any parse failure of the input surfaces unchanged.
    pub fn run(self, input: &[u8]) -> (r: Result<CommandOutcome, PNGMEErrors>)
        ensures
            !container_parses(input@) ==> (r matches Err(e) && container_err(input@, e)),
            container_parses(input@) ==> ({
                let cs = parsed_chunks(input@);
                match self {
                    Commands::Encode { file_path, chunk_type, message, output } => {
                        let tb = encode_utf8(chunk_type@);
                        let mb = encode_utf8(message@);
                        &&& !(tb.len() == 4 && all_letters(tb)) ==> (r matches Err(e)
                            && e matches PNGMEErrors::InvalidChunkType(t) && t@ == (if tb.len()
                            == 4 {
                            tb
                        } else {
                            seq![0u8, 0u8, 0u8, 0u8]
                        }))
                        &&& tb.len() == 4 && all_letters(tb) && mb.len() > u32::MAX ==> r == Err::<
                            CommandOutcome,
                            PNGMEErrors,
                        >(PNGMEErrors::InvalidChunkSize())
                        &&& tb.len() == 4 && all_letters(tb) && mb.len() <= u32::MAX ==> (
                        r matches Ok(o) && o matches CommandOutcome::Persist { path, bytes }
                            && bytes@ == png_serial(cs.push(ChunkModel { ty: tb, data: mb }))
                            && path@ == (match output {
                            Some(out) => out@,
                            None => file_path@,
                        }))
                    },
                    Commands::Decode { file_path, chunk_type } => {
                        let i = spec_find_idx(cs, chunk_type@);
                        &&& i >= cs.len() ==> (r matches Ok(o) && o matches
                            CommandOutcome::Message(found) && found is None)
                        &&& i < cs.len() && valid_utf8(cs[i].data) ==> (r matches Ok(o)
                            && o matches CommandOutcome::Message(found) && found matches Some(text)
                            && text@ == decode_utf8(cs[i].data))
                        &&& i < cs.len() && !valid_utf8(cs[i].data) ==> r == Err::<
                            CommandOutcome,
                            PNGMEErrors,
                        >(PNGMEErrors::EncodingError())
                    },
                    Commands::Remove { file_path, chunk_type } => {
                        let i = spec_find_idx(cs, chunk_type@);
                        &&& i >= cs.len() ==> r == Err::<CommandOutcome, PNGMEErrors>(
                            PNGMEErrors::UnknownChunkType(),
                        )
                        &&& i < cs.len() ==> (r matches Ok(o) && o matches
                            CommandOutcome::Persist { path, bytes } && path@ == file_path@
                            && bytes@ == png_serial(cs.remove(i)))
                    },
                    Commands::Print { file_path } => r matches Ok(o) && o matches
                        CommandOutcome::Listing(text) && text@ == display_of(cs),
                }
            }),
    {
        match self {
            Commands::Encode { file_path, chunk_type, message, output } => {
                let mut png = match PngContainer::from_bytes(input) {
                    Ok(p) => p,
                    Err(e) => return Err(e),
                };
                let code = match ChunkTypeCode::parse_string(chunk_type.as_str()) {
                    Ok(c) => c,
                    Err(e) => return Err(e),
                };
                let data = message.as_str().as_bytes_vec();
                if data.len() > u32::MAX as usize {
                    return Err(PNGMEErrors::InvalidChunkSize());
                }
                png.append_chunk(Chunk::new(code, data));
                let bytes = png.as_bytes();
                let path = match output {
                    Some(out) => out,
                    None => file_path,
                };
                Ok(CommandOutcome::Persist { path, bytes })
            },
            Commands::Decode { file_path: _, chunk_type } => {
                let png = match PngContainer::from_bytes(input) {
                    Ok(p) => p,
                    Err(e) => return Err(e),
                };
                match png.find_chunk_by_type(chunk_type.as_str()) {
                    Some(chunk) => match chunk.data_as_string() {
                        Ok(text) => Ok(CommandOutcome::Message(Some(text))),
                        Err(e) => Err(e),
                    },
                    None => Ok(CommandOutcome::Message(None)),
                }
            },
            Commands::Remove { file_path, chunk_type } => {
                let mut png = match PngContainer::from_bytes(input) {
                    Ok(p) => p,
                    Err(e) => return Err(e),
                };
                match png.remove_chunk(chunk_type.as_str()) {
                    Ok(_removed) => {
                        let bytes = png.as_bytes();
                        Ok(CommandOutcome::Persist { path: file_path, bytes })
                    },
                    Err(e) => Err(e),
                }
            },
            Commands::Print { file_path: _ } => {
                let png = match PngContainer::from_bytes(input) {
                    Ok(p) => p,
                    Err(e) => return Err(e),
                };
                Ok(CommandOutcome::Listing(png.to_display_string()))
            },
        }
    }
}

} // verus!
