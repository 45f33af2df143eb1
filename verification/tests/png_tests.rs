use pngme::chunk::Chunk;
use pngme::chunk_type::ChunkTypeCode;
use pngme::commands::{CommandOutcome, Commands};
use pngme::errors::PNGMEErrors;
use pngme::png::PngContainer;

const SIGNATURE: [u8; 8] = [0x89, 0x50, 0x4e, 0x47, 0x0d, 0x0a, 0x1a, 0x0a];

fn chunk_of(type_text: &str, data: &[u8]) -> Chunk {
    let code = ChunkTypeCode::parse_string(type_text).unwrap();
    Chunk::new(code, data.to_vec())
}

fn file_bytes(chunks: &[Chunk]) -> Vec<u8> {
    let mut out = SIGNATURE.to_vec();
    for chunk in chunks {
        out.extend_from_slice(&chunk.as_bytes());
    }
    out
}

#[test]
fn type_bytes_round_trip_and_validity() {
    let code = ChunkTypeCode::parse_bytes([b'R', b'u', b'S', b't']);
    assert_eq!(code.bytes(), [b'R', b'u', b'S', b't']);
    assert!(code.is_valid());
    assert!(code.is_reserved_bit_valid());

    // Bit 5 of the third byte set: all letters, but not a valid type.
    let lower = ChunkTypeCode::parse_bytes([b'R', b'u', b's', b't']);
    assert_eq!(lower.bytes(), [b'R', b'u', b's', b't']);
    assert!(!lower.is_valid());
    assert!(!lower.is_reserved_bit_valid());

    // A non-letter byte is stored unchanged but never valid.
    let odd = ChunkTypeCode::parse_bytes([b'R', b'u', b'S', b'1']);
    assert_eq!(odd.bytes(), [b'R', b'u', b'S', b'1']);
    assert!(!odd.is_valid());
}

#[test]
fn type_property_bits() {
    let code = ChunkTypeCode::parse_bytes([b'R', b'u', b'S', b't']);
    assert!(code.is_critical());
    assert!(!code.is_public());
    assert!(code.is_private());
    assert!(code.is_safe_to_copy());

    let other = ChunkTypeCode::parse_bytes([b'b', b'L', b'O', b'B']);
    assert!(!other.is_critical());
    assert!(other.is_public());
    assert!(!other.is_private());
    assert!(!other.is_safe_to_copy());
}

#[test]
fn type_equality_is_byte_wise() {
    let a = ChunkTypeCode::parse_string("RuSt").unwrap();
    let b = ChunkTypeCode::parse_bytes([b'R', b'u', b'S', b't']);
    let c = ChunkTypeCode::parse_string("ruSt").unwrap();
    assert!(a.equals(&b));
    assert!(!a.equals(&c));
}

#[test]
fn parse_string_rejects_digits() {
    let r = ChunkTypeCode::parse_string("1234");
    assert!(matches!(
        r,
        Err(PNGMEErrors::InvalidChunkType([b'1', b'2', b'3', b'4']))
    ));
}

#[test]
fn parse_string_rejects_wrong_length() {
    assert!(matches!(
        ChunkTypeCode::parse_string("RuS"),
        Err(PNGMEErrors::InvalidChunkType([0, 0, 0, 0]))
    ));
    assert!(matches!(
        ChunkTypeCode::parse_string("RuSty"),
        Err(PNGMEErrors::InvalidChunkType([0, 0, 0, 0]))
    ));
}

#[test]
fn chunk_serialize_parse_round_trip() {
    let chunk = chunk_of("TeSt", &[1, 2, 3, 255, 0, 42]);
    let bytes = chunk.as_bytes();
    assert_eq!(bytes.len(), 12 + 6);
    let reparsed = Chunk::parse(&bytes).unwrap();
    assert_eq!(reparsed.chunk_type().bytes(), [b'T', b'e', b'S', b't']);
    assert_eq!(reparsed.data(), &[1, 2, 3, 255, 0, 42]);
    assert_eq!(reparsed.crc(), chunk.crc());
}

#[test]
fn chunk_round_trip_empty_payload() {
    let chunk = chunk_of("IEND", &[]);
    let bytes = chunk.as_bytes();
    assert_eq!(bytes.len(), 12);
    let reparsed = Chunk::parse(&bytes).unwrap();
    assert_eq!(reparsed.length(), 0);
    assert_eq!(reparsed.chunk_type().bytes(), [b'I', b'E', b'N', b'D']);
}

#[test]
fn checksum_bit_flip_is_rejected() {
    let chunk = chunk_of("TeSt", b"payload");
    let bytes = chunk.as_bytes();
    let crc_field_start = bytes.len() - 4;
    for bit in 0..32 {
        let mut flipped = bytes.clone();
        flipped[crc_field_start + bit / 8] ^= 1u8 << (bit % 8);
        let r = Chunk::parse(&flipped);
        assert!(matches!(r, Err(PNGMEErrors::InvalidCrc(_, _))));
    }
}

#[test]
fn crc_known_check_vector() {
    // The CRC-32/ISO-HDLC check value: the checksum of "123456789".
    let chunk = Chunk::new(
        ChunkTypeCode::parse_bytes([b'1', b'2', b'3', b'4']),
        b"56789".to_vec(),
    );
    assert_eq!(chunk.crc(), 0xCBF43926);
}

#[test]
fn chunk_parse_rejects_short_buffer() {
    let r = Chunk::parse(&[0u8; 5]);
    assert!(matches!(r, Err(PNGMEErrors::InvalidChunkSize())));
}

#[test]
fn chunk_parse_rejects_truncated_payload() {
    // Declares 100 payload bytes but carries none.
    let mut bytes = 100u32.to_be_bytes().to_vec();
    bytes.extend_from_slice(b"RuSt");
    bytes.extend_from_slice(&[0, 0, 0, 0]);
    let r = Chunk::parse(&bytes);
    assert!(matches!(r, Err(PNGMEErrors::InvalidChunkSize())));
}

#[test]
fn chunk_parse_rejects_invalid_type() {
    let mut bytes = 0u32.to_be_bytes().to_vec();
    bytes.extend_from_slice(b"Ru1t");
    bytes.extend_from_slice(&[0, 0, 0, 0]);
    let r = Chunk::parse(&bytes);
    assert!(matches!(
        r,
        Err(PNGMEErrors::InvalidChunkType([b'R', b'u', b'1', b't']))
    ));
}

#[test]
fn chunk_payload_not_utf8_is_encoding_error() {
    let chunk = chunk_of("TeSt", &[0xff, 0xfe, 0x41]);
    let r = chunk.data_as_string();
    assert!(matches!(r, Err(PNGMEErrors::EncodingError())));
}

#[test]
fn container_rejects_wrong_signature() {
    // A well-formed chunk behind a corrupted signature changes nothing.
    let mut bytes = file_bytes(&[chunk_of("IEND", &[])]);
    bytes[0] = 0x88;
    let r = PngContainer::from_bytes(&bytes);
    assert!(matches!(
        r,
        Err(PNGMEErrors::InvalidHeader([
            0x88, 0x50, 0x4e, 0x47, 0x0d, 0x0a, 0x1a, 0x0a
        ]))
    ));
}

#[test]
fn container_rejects_short_header_zero_padded() {
    let r = PngContainer::from_bytes(&[1, 2, 3]);
    assert!(matches!(
        r,
        Err(PNGMEErrors::InvalidHeader([1, 2, 3, 0, 0, 0, 0, 0]))
    ));
}

#[test]
fn container_serialization_round_trip() {
    let bytes = file_bytes(&[chunk_of("FrSt", b"first"), chunk_of("IEND", &[])]);
    let png = PngContainer::from_bytes(&bytes).unwrap();
    assert_eq!(png.as_bytes(), bytes);
    assert_eq!(png.chunks().len(), 2);
}

#[test]
fn container_surfaces_chunk_failure() {
    let mut bytes = file_bytes(&[chunk_of("FrSt", b"first"), chunk_of("IEND", &[])]);
    let last = bytes.len() - 1;
    bytes[last] ^= 0x01;
    let r = PngContainer::from_bytes(&bytes);
    assert!(matches!(r, Err(PNGMEErrors::InvalidCrc(_, _))));
}

#[test]
fn remove_chunk_without_match_fails() {
    let bytes = file_bytes(&[chunk_of("FrSt", b"first")]);
    let mut png = PngContainer::from_bytes(&bytes).unwrap();
    let r = png.remove_chunk("ruSt");
    assert!(matches!(r, Err(PNGMEErrors::UnknownChunkType())));
    assert_eq!(png.as_bytes(), bytes);
}

#[test]
fn remove_chunk_excises_exact_byte_span() {
    let first = chunk_of("FrSt", b"first");
    let middle = chunk_of("ruSt", b"hidden");
    let last = chunk_of("IEND", &[]);
    let pre = file_bytes(&[first, middle, last]);

    let start = 8 + chunk_of("FrSt", b"first").as_bytes().len();
    let span = chunk_of("ruSt", b"hidden").as_bytes().len();

    let mut png = PngContainer::from_bytes(&pre).unwrap();
    let removed = png.remove_chunk("ruSt").unwrap();
    assert_eq!(removed.data(), b"hidden");

    let mut expected = pre[..start].to_vec();
    expected.extend_from_slice(&pre[start + span..]);
    assert_eq!(png.as_bytes(), expected);
}

#[test]
fn remove_chunk_takes_first_match_only() {
    let bytes = file_bytes(&[chunk_of("ruSt", b"one"), chunk_of("ruSt", b"two")]);
    let mut png = PngContainer::from_bytes(&bytes).unwrap();
    let removed = png.remove_chunk("ruSt").unwrap();
    assert_eq!(removed.data(), b"one");
    let left = png.find_chunk_by_type("ruSt").unwrap();
    assert_eq!(left.data(), b"two");
}

#[test]
fn find_chunk_returns_first_match() {
    let bytes = file_bytes(&[chunk_of("ruSt", b"one"), chunk_of("ruSt", b"two")]);
    let png = PngContainer::from_bytes(&bytes).unwrap();
    let found = png.find_chunk_by_type("ruSt").unwrap();
    assert_eq!(found.data(), b"one");
    assert!(png.find_chunk_by_type("FrSt").is_none());
}

#[test]
fn append_chunk_goes_last() {
    let bytes = file_bytes(&[chunk_of("FrSt", b"first")]);
    let mut png = PngContainer::from_bytes(&bytes).unwrap();
    png.append_chunk(chunk_of("ruSt", b"hidden"));
    assert_eq!(png.chunks().len(), 2);
    assert_eq!(png.chunks()[1].data(), b"hidden");
    assert_eq!(png.as_bytes(), file_bytes(&[chunk_of("FrSt", b"first"), chunk_of("ruSt", b"hidden")]));
}

#[test]
fn display_lists_types_and_lengths() {
    let bytes = file_bytes(&[chunk_of("ruSt", b"hidden"), chunk_of("IEND", &[])]);
    let png = PngContainer::from_bytes(&bytes).unwrap();
    assert_eq!(png.to_display_string(), "ruSt: 6\nIEND: 0\n");
}

#[test]
fn encode_then_decode_end_to_end() {
    // An empty container: the signature plus one terminating chunk.
    let input = file_bytes(&[chunk_of("IEND", &[])]);
    let encode = Commands::Encode {
        file_path: String::from("image.png"),
        chunk_type: String::from("ruSt"),
        message: String::from("hello"),
        output: None,
    };
    let outcome = encode.run(&input).unwrap();
    let written = match outcome {
        CommandOutcome::Persist { path, bytes } => {
            assert_eq!(path, "image.png");
            bytes
        }
        _ => panic!("encode must persist"),
    };

    let reloaded = PngContainer::from_bytes(&written).unwrap();
    let found = reloaded.find_chunk_by_type("ruSt").unwrap();
    assert_eq!(found.data_as_string().unwrap(), "hello");

    let decode = Commands::Decode {
        file_path: String::from("image.png"),
        chunk_type: String::from("ruSt"),
    };
    let outcome = decode.run(&written).unwrap();
    match outcome {
        CommandOutcome::Message(Some(text)) => assert_eq!(text, "hello"),
        _ => panic!("decode must find the message"),
    }
}

#[test]
fn encode_honours_output_path() {
    let input = file_bytes(&[chunk_of("IEND", &[])]);
    let encode = Commands::Encode {
        file_path: String::from("image.png"),
        chunk_type: String::from("ruSt"),
        message: String::from("hello"),
        output: Some(String::from("copy.png")),
    };
    match encode.run(&input).unwrap() {
        CommandOutcome::Persist { path, .. } => assert_eq!(path, "copy.png"),
        _ => panic!("encode must persist"),
    }
}

#[test]
fn encode_rejects_bad_type_string() {
    let input = file_bytes(&[chunk_of("IEND", &[])]);
    let encode = Commands::Encode {
        file_path: String::from("image.png"),
        chunk_type: String::from("1234"),
        message: String::from("hello"),
        output: None,
    };
    assert!(matches!(
        encode.run(&input),
        Err(PNGMEErrors::InvalidChunkType(_))
    ));
}

#[test]
fn decode_reports_missing_message() {
    let input = file_bytes(&[chunk_of("IEND", &[])]);
    let decode = Commands::Decode {
        file_path: String::from("image.png"),
        chunk_type: String::from("ruSt"),
    };
    match decode.run(&input).unwrap() {
        CommandOutcome::Message(found) => assert!(found.is_none()),
        _ => panic!("decode must report"),
    }
}

#[test]
fn remove_command_persists_to_source_path() {
    let input = file_bytes(&[chunk_of("ruSt", b"hidden"), chunk_of("IEND", &[])]);
    let remove = Commands::Remove {
        file_path: String::from("image.png"),
        chunk_type: String::from("ruSt"),
    };
    match remove.run(&input).unwrap() {
        CommandOutcome::Persist { path, bytes } => {
            assert_eq!(path, "image.png");
            assert_eq!(bytes, file_bytes(&[chunk_of("IEND", &[])]));
        }
        _ => panic!("remove must persist"),
    }
}

#[test]
fn print_command_lists_chunks() {
    let input = file_bytes(&[chunk_of("ruSt", b"hidden"), chunk_of("IEND", &[])]);
    let print = Commands::Print {
        file_path: String::from("image.png"),
    };
    match print.run(&input).unwrap() {
        CommandOutcome::Listing(text) => assert_eq!(text, "ruSt: 6\nIEND: 0\n"),
        _ => panic!("print must list"),
    }
}

#[test]
fn command_surfaces_parse_failure() {
    let print = Commands::Print {
        file_path: String::from("image.png"),
    };
    assert!(matches!(
        print.run(&[1, 2, 3]),
        Err(PNGMEErrors::InvalidHeader([1, 2, 3, 0, 0, 0, 0, 0]))
    ));
}

#[test]
fn big_endian_round_trip() {
    let mut out: Vec<u8> = Vec::new();
    pngme::bytes_be::write_be_u32(&mut out, 0x01020304);
    assert_eq!(out, vec![1, 2, 3, 4]);
    assert_eq!(pngme::bytes_be::read_be_u32(&out, 0), 0x01020304);
    pngme::bytes_be::write_be_u32(&mut out, 4242);
    assert_eq!(pngme::bytes_be::read_be_u32(&out, 4), 4242);
}

#[test]
fn empty_container_from_chunks() {
    let png = PngContainer::from_chunks(Vec::new());
    assert_eq!(png.as_bytes(), SIGNATURE.to_vec());
    assert_eq!(png.to_display_string(), "");
}
