//! The 4-byte chunk type tag and its property bits. Each byte's bit 5 (0x20,
//! the ASCII case bit) carries one property: ancillary-vs-critical,
//! public-vs-private, reserved-bit validity, and safe-to-copy.

use vstd::prelude::*;
use vstd::string::StringSliceAdditionalSpecFns;
use crate::errors::PNGMEErrors;
use crate::text::push_char;

verus! {

/// Whether `b` is an ASCII letter (A-Z or a-z).
pub open spec fn is_ascii_letter(b: u8) -> bool {
    (0x41 <= b && b <= 0x5a) || (0x61 <= b && b <= 0x7a)
}

/// Whether every byte of `s` is an ASCII letter.
pub open spec fn all_letters(s: Seq<u8>) -> bool {
    forall|i: int| 0 <= i < s.len() ==> is_ascii_letter(#[trigger] s[i])
}

/// Whether 4 type bytes form a valid chunk type: all ASCII letters, and the
/// reserved bit (bit 5 of the third byte) clear.
pub open spec fn valid_type_bytes(s: Seq<u8>) -> bool
    recommends
        s.len() == 4,
{
    all_letters(s) && s[2] & 0x20 == 0
}

/// A validated 4-byte chunk type tag. Constructed once, from raw bytes or
/// from a 4-character string; immutable thereafter.
#[derive(Clone, Copy)]
pub struct ChunkTypeCode {
    bytes: [u8; 4],
}

impl View for ChunkTypeCode {
    type V = Seq<u8>;

    closed spec fn view(&self) -> Seq<u8> {
        self.bytes@
    }
}

/// Whether `b` is an ASCII letter.
fn letter(b: u8) -> (r: bool)
    ensures
        r == is_ascii_letter(b),
{
    (0x41 <= b && b <= 0x5a) || (0x61 <= b && b <= 0x7a)
}

impl ChunkTypeCode {
    /// Stores 4 raw bytes as a type tag. Always succeeds structurally;
    /// validity is a separate query, not a constructor precondition.
    pub fn parse_bytes(bytes: [u8; 4]) -> (r: ChunkTypeCode)
        ensures
            r@ == bytes@,
    {
        ChunkTypeCode { bytes }
    }

    /// Builds a type tag from text. Fails with `InvalidChunkType` unless the
    /// text is exactly 4 bytes long and every byte is an ASCII letter; the
    /// reserved bit is not checked here. A rejected 4-byte text is carried in
    /// the error; a text of any other length is carried as 4 zero bytes.
    pub fn parse_string(text: &str) -> (r: Result<ChunkTypeCode, PNGMEErrors>)
        ensures
            r matches Ok(c) ==> c@ == text.spec_bytes(),
            r is Ok <==> text.spec_bytes().len() == 4 && all_letters(text.spec_bytes()),
            r matches Err(e) ==> (e matches PNGMEErrors::InvalidChunkType(t) && t@ == (
            if text.spec_bytes().len() == 4 {
                text.spec_bytes()
            } else {
                seq![0u8, 0u8, 0u8, 0u8]
            })),
    {
        let b = text.as_bytes();
        if b.len() != 4 {
            let zero: [u8; 4] = [0, 0, 0, 0];
            proof {
                assert(zero@ =~= seq![0u8, 0u8, 0u8, 0u8]);
            }
            return Err(PNGMEErrors::InvalidChunkType(zero));
        }
        let bytes: [u8; 4] = [b[0], b[1], b[2], b[3]];
        proof {
            assert(bytes@ =~= text.spec_bytes());
        }
        if letter(b[0]) && letter(b[1]) && letter(b[2]) && letter(b[3]) {
            proof {
                assert forall|i: int| 0 <= i < 4 implies is_ascii_letter(
                    #[trigger] text.spec_bytes()[i],
                ) by {
                    assert(i == 0 || i == 1 || i == 2 || i == 3);
                }
            }
            Ok(ChunkTypeCode { bytes })
        } else {
            Err(PNGMEErrors::InvalidChunkType(bytes))
        }
    }

    /// The 4 raw type bytes.
    pub fn bytes(&self) -> (r: [u8; 4])
        ensures
            r@ == self@,
    {
        self.bytes
    }

    /// Whether this is a valid chunk type: all 4 bytes are ASCII letters and
    /// the reserved bit of the third byte is clear.
    pub fn is_valid(&self) -> (r: bool)
        ensures
            r == valid_type_bytes(self@),
    {
        let r = letter(self.bytes[0]) && letter(self.bytes[1]) && letter(self.bytes[2]) && letter(
            self.bytes[3],
        ) && self.bytes[2] & 0x20 == 0;
        proof {
            if r {
                assert forall|i: int| 0 <= i < 4 implies is_ascii_letter(#[trigger] self@[i]) by {
                    assert(i == 0 || i == 1 || i == 2 || i == 3);
                }
            }
        }
        r
    }

    /// Whether the chunk is critical: bit 5 of the first byte clear.
    pub fn is_critical(&self) -> (r: bool)
        ensures
            r == (self@[0] & 0x20 == 0),
    {
        self.bytes[0] & 0x20 == 0
    }

    /// Whether the chunk is public: bit 5 of the second byte clear.
    pub fn is_public(&self) -> (r: bool)
        ensures
            r == (self@[1] & 0x20 == 0),
    {
        self.bytes[1] & 0x20 == 0
    }

    /// Whether the chunk is private: bit 5 of the second byte set.
    pub fn is_private(&self) -> (r: bool)
        ensures
            r == (self@[1] & 0x20 != 0),
    {
        self.bytes[1] & 0x20 != 0
    }

    /// Whether the reserved bit is valid: bit 5 of the third byte clear.
    pub fn is_reserved_bit_valid(&self) -> (r: bool)
        ensures
            r == (self@[2] & 0x20 == 0),
    {
        self.bytes[2] & 0x20 == 0
    }

    /// Whether the chunk is safe to copy: bit 5 of the fourth byte set.
    pub fn is_safe_to_copy(&self) -> (r: bool)
        ensures
            r == (self@[3] & 0x20 != 0),
    {
        self.bytes[3] & 0x20 != 0
    }

    /// The 4 type bytes as text, one character per byte.
    pub fn to_text(&self) -> (r: String)
        ensures
            r@ == self@.map_values(|b: u8| b as char),
    {
        let mut s = String::new();
        push_char(&mut s, self.bytes[0] as char);
        push_char(&mut s, self.bytes[1] as char);
        push_char(&mut s, self.bytes[2] as char);
        push_char(&mut s, self.bytes[3] as char);
        proof {
            assert(s@ =~= self@.map_values(|b: u8| b as char));
        }
        s
    }

    /// Whether this tag's 4 bytes equal the UTF-8 bytes of `code`,
    /// case-sensitively.
    pub fn matches_str(&self, code: &str) -> (r: bool)
        ensures
            r == (self@ == code.spec_bytes()),
    {
        let cb = code.as_bytes();
        if cb.len() != 4 {
            return false;
        }
        let r = cb[0] == self.bytes[0] && cb[1] == self.bytes[1] && cb[2] == self.bytes[2] && cb[3]
            == self.bytes[3];
        proof {
            if r {
                assert(self@ =~= code.spec_bytes());
            }
        }
        r
    }

    /// Byte-wise equality: two type tags are equal exactly when all 4 bytes
    /// match, case-sensitively.
    pub fn equals(&self, other: &ChunkTypeCode) -> (r: bool)
        ensures
            r == (self@ == other@),
    {
        let r = self.bytes[0] == other.bytes[0] && self.bytes[1] == other.bytes[1] && self.bytes[2]
            == other.bytes[2] && self.bytes[3] == other.bytes[3];
        proof {
            if r {
                assert(self@ =~= other@);
            }
        }
        r
    }
}

/// Four letter bytes stored as a tag come back unchanged, and the tag is
/// valid exactly when bit 5 of the third byte is clear: with all bytes
/// letters, the reserved bit alone decides validity.
pub proof fn lemma_letters_valid_iff_reserved_bit_clear(s: Seq<u8>)
    requires
        s.len() == 4,
        all_letters(s),
    ensures
        valid_type_bytes(s) <==> s[2] & 0x20 == 0,
{
}

} // verus!
