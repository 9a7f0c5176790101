//! The 4-byte record type identifier and its bit-encoded classification
//! flags (critical, public, reserved, safe-to-copy).

use vstd::prelude::*;

use crate::error::ChunkError;
use crate::text::string_push;

verus! {

/// True of an ASCII letter (A–Z or a–z).
pub open spec fn is_ascii_alpha(b: u8) -> bool {
    (65 <= b && b <= 90) || (97 <= b && b <= 122)
}

/// A well-formed type code: exactly 4 ASCII letters, with the reserved
/// bit (bit 5) of the third byte clear.
pub open spec fn valid_type_code(tc: Seq<u8>) -> bool {
    &&& tc.len() == 4
    &&& forall|i: int| 0 <= i < 4 ==> is_ascii_alpha(#[trigger] tc[i])
    &&& tc[2] & 0x20 == 0
}

/// A character taken as its byte value (its low 8 bits).
pub open spec fn char_byte(c: char) -> u8 {
    ((c as u32) & 0xff) as u8
}

/// The bytes of a text form, character by character.
pub open spec fn text_bytes(s: Seq<char>) -> Seq<u8> {
    Seq::new(s.len(), |i: int| char_byte(s[i]))
}

/// A byte read back as a character.
pub open spec fn byte_char(b: u8) -> char {
    b as char
}

/// The text form of a type code, byte by byte.
pub open spec fn type_text(tc: Seq<u8>) -> Seq<char> {
    Seq::new(tc.len(), |i: int| byte_char(tc[i]))
}

/// A character's low 8 bits.
fn char_to_byte(c: char) -> (b: u8)
    ensures
        b == char_byte(c),
{
    let u: u32 = c as u32;
    proof {
        assert(u & 0xff < 256) by (bit_vector);
    }
    (u & 0xff) as u8
}

/// True iff the byte is an ASCII letter.
fn ascii_alpha(b: u8) -> (r: bool)
    ensures
        r == is_ascii_alpha(b),
{
    (65 <= b && b <= 90) || (97 <= b && b <= 122)
}

/// A 4-byte record type identifier. Any 4 bytes can be stored — decoding
/// possibly crafted data must not abort on bit-pattern issues alone — and
/// validity is a separate queryable property. Immutable once built;
/// compared by exact byte equality.
#[derive(Clone, Copy, Debug)]
pub struct TypeCode {
    bytes: [u8; 4],
}

impl View for TypeCode {
    type V = Seq<u8>;

    closed spec fn view(&self) -> Seq<u8> {
        self.bytes@
    }
}

/// A type code always views as exactly 4 bytes.
pub broadcast proof fn lemma_type_code_len(t: &TypeCode)
    ensures
        (#[trigger] t@).len() == 4,
{
}

impl PartialEq for TypeCode {
    /// Exact 4-byte equality.
    fn eq(&self, other: &TypeCode) -> (r: bool) {
        let r = self.bytes[0] == other.bytes[0] && self.bytes[1] == other.bytes[1] && self.bytes[2]
            == other.bytes[2] && self.bytes[3] == other.bytes[3];
        proof {
            if r {
                assert(self@ =~= other@);
            }
        }
        r
    }
}

impl vstd::std_specs::cmp::PartialEqSpecImpl for TypeCode {
    open spec fn obeys_eq_spec() -> bool {
        true
    }

    open spec fn eq_spec(&self, other: &TypeCode) -> bool {
        self@ == other@
    }
}

impl TypeCode {
    /// Stores 4 raw bytes as a type code; always succeeds structurally.
    pub fn parse(bytes: [u8; 4]) -> (t: TypeCode)
        ensures
            t@ == bytes@,
    {
        TypeCode { bytes }
    }

    /// Builds a type code from its text form: fails unless the text is
    /// exactly 4 characters; each character is taken as its byte value.
    pub fn parse_text(s: &str) -> (r: Result<TypeCode, ChunkError>)
        ensures
            s@.len() == 4 ==> (r matches Ok(t) && t@ == text_bytes(s@)),
            s@.len() != 4 ==> (r matches Err(e) && e == ChunkError::InvalidTypeCodeLength),
    {
        if s.unicode_len() != 4 {
            return Err(ChunkError::InvalidTypeCodeLength);
        }
        let b0 = char_to_byte(s.get_char(0));
        let b1 = char_to_byte(s.get_char(1));
        let b2 = char_to_byte(s.get_char(2));
        let b3 = char_to_byte(s.get_char(3));
        let t = TypeCode { bytes: [b0, b1, b2, b3] };
        proof {
            assert(t@ =~= text_bytes(s@));
        }
        Ok(t)
    }

    /// The 4 raw bytes.
    pub fn as_bytes(&self) -> (r: [u8; 4])
        ensures
            r@ == self@,
    {
        self.bytes
    }

    /// One raw byte of the code.
    pub fn byte_at(&self, i: usize) -> (b: u8)
        requires
            i < 4,
        ensures
            b == self@[i as int],
    {
        self.bytes[i]
    }

    /// True iff all 4 bytes are ASCII letters and the reserved bit of the
    /// third byte is clear.
    pub fn is_valid(&self) -> (r: bool)
        ensures
            r == valid_type_code(self@),
    {
        let r = ascii_alpha(self.bytes[0]) && ascii_alpha(self.bytes[1]) && ascii_alpha(
            self.bytes[2],
        ) && ascii_alpha(self.bytes[3]) && self.bytes[2] & 0x20 == 0;
        proof {
            if r {
                assert forall|i: int| 0 <= i < 4 implies is_ascii_alpha(#[trigger] self@[i]) by {
                    assert(i == 0 || i == 1 || i == 2 || i == 3);
                }
            }
        }
        r
    }

    /// True iff the record is critical: bit 5 of the first byte is clear.
    pub fn is_critical(&self) -> (r: bool)
        ensures
            r == (self@[0] & 0x20 == 0),
    {
        self.bytes[0] & 0x20 == 0
    }

    /// True iff the record is public: bit 5 of the second byte is clear.
    pub fn is_public(&self) -> (r: bool)
        ensures
            r == (self@[1] & 0x20 == 0),
    {
        self.bytes[1] & 0x20 == 0
    }

    /// True iff the reserved bit is valid: bit 5 of the third byte is clear.
    pub fn is_reserved_bit_valid(&self) -> (r: bool)
        ensures
            r == (self@[2] & 0x20 == 0),
    {
        self.bytes[2] & 0x20 == 0
    }

    /// True iff the record is safe to copy: bit 5 of the fourth byte is set.
    pub fn is_safe_to_copy(&self) -> (r: bool)
        ensures
            r == (self@[3] & 0x20 != 0),
    {
        self.bytes[3] & 0x20 != 0
    }

    /// The text form: each byte read back as a character. Meaningful when
    /// `is_valid` holds; still produced for diagnostics otherwise.
    pub fn to_text(&self) -> (r: String)
        ensures
            r@ == type_text(self@),
    {
        let mut out = String::new();
        string_push(&mut out, self.bytes[0] as char);
        string_push(&mut out, self.bytes[1] as char);
        string_push(&mut out, self.bytes[2] as char);
        string_push(&mut out, self.bytes[3] as char);
        proof {
            assert(out@ =~= type_text(self@));
        }
        out
    }

    /// Exact byte equality, usable where operator `==` is not.
    pub fn matches(&self, other: &TypeCode) -> (r: bool)
        ensures
            r == (self@ == other@),
    {
        let r = self.bytes[0] == other.bytes[0] && self.bytes[1] == other.bytes[1] && self.bytes[2]
            == other.bytes[2] && self.bytes[3] == other.bytes[3];
        proof {
            if r {
                assert(self@ =~= other@);
            }
        }
        r
    }
}

} // verus!
