use vstd::prelude::*;

use crate::error::PngError;
use vstd::string::StringSliceAdditionalSpecFns;

verus! {

/// The byte is an ASCII uppercase letter; for a type-code byte this means the
/// flag it carries is set.
pub open spec fn spec_is_upper(b: u8) -> bool {
    65 <= b && b <= 90
}

/// The byte is an ASCII lowercase letter; for a type-code byte this means the
/// flag it carries is clear.
pub open spec fn spec_is_lower(b: u8) -> bool {
    97 <= b && b <= 122
}

/// The byte is an ASCII alphabetic character.
pub open spec fn spec_is_alpha(b: u8) -> bool {
    spec_is_upper(b) || spec_is_lower(b)
}

/// A four-byte sequence is a valid type code: every byte alphabetic and the
/// reserved byte (index 2) uppercase.
pub open spec fn spec_valid_type(s: Seq<u8>) -> bool {
    &&& s.len() == 4
    &&& (forall|i: int| 0 <= i < 4 ==> spec_is_alpha(#[trigger] s[i]))
    &&& spec_is_upper(s[2])
}

/// Strict construction accepts exactly the valid codes and refuses the rest.
pub open spec fn spec_type_parse(s: Seq<u8>) -> Result<Seq<u8>, PngError> {
    if spec_valid_type(s) {
        Ok(s)
    } else {
        Err(PngError::InvalidFormat)
    }
}

/// A four-byte chunk type code. Any raw bytes may be held (a record re-read
/// from the wire keeps its bytes even when they fail validation); `is_valid`
/// is the strict predicate, and `parse` the strict constructor.
#[derive(Debug, PartialEq, Eq, Clone, Copy)]
pub struct ChunkType {
    pub name: [u8; 4],
}

impl View for ChunkType {
    type V = Seq<u8>;

    open spec fn view(&self) -> Seq<u8> {
        self.name@
    }
}

/// The byte is an ASCII uppercase letter.
fn is_upper(b: u8) -> (r: bool)
    ensures
        r == spec_is_upper(b),
{
    65 <= b && b <= 90
}

/// The byte is an ASCII alphabetic character.
fn is_alpha(b: u8) -> (r: bool)
    ensures
        r == spec_is_alpha(b),
{
    (65 <= b && b <= 90) || (97 <= b && b <= 122)
}

impl ChunkType {
    /// The raw four bytes of the code.
    pub fn bytes(&self) -> (r: [u8; 4])
        ensures
            r@ == self@,
    {
        self.name
    }

    /// Strict construction from four raw bytes: succeeds exactly on the valid
    /// codes and keeps their bytes; anything else is an `InvalidFormat` error.
    pub fn parse(bytes: [u8; 4]) -> (r: Result<ChunkType, PngError>)
        ensures
            match r {
                Ok(ct) => spec_type_parse(bytes@) == Ok::<Seq<u8>, PngError>(ct@),
                Err(e) => spec_type_parse(bytes@) == Err::<Seq<u8>, PngError>(e),
            },
    {
        let ct = ChunkType { name: bytes };
        if ct.is_valid() {
            Ok(ct)
        } else {
            Err(PngError::InvalidFormat)
        }
    }

    /// Construction from text: the text must be exactly four bytes long, and
    /// its bytes are taken as they stand, with no validity check.
    pub fn from_text(s: &str) -> (r: Result<ChunkType, PngError>)
        ensures
            match r {
                Ok(ct) => s.spec_bytes().len() == 4 && ct@ == s.spec_bytes(),
                Err(e) => e == PngError::InvalidLength && s.spec_bytes().len() != 4,
            },
    {
        let bs = s.as_bytes();
        if bs.len() == 4 {
            let name = [bs[0], bs[1], bs[2], bs[3]];
            proof {
                assert(name@ =~= s.spec_bytes());
            }
            Ok(ChunkType { name })
        } else {
            Err(PngError::InvalidLength)
        }
    }

    /// All four bytes are alphabetic and the reserved byte is uppercase.
    pub fn is_valid(&self) -> (r: bool)
        ensures
            r == spec_valid_type(self@),
    {
        let b = self.name;
        let all_alpha = is_alpha(b[0]) && is_alpha(b[1]) && is_alpha(b[2]) && is_alpha(b[3]);
        all_alpha && is_upper(b[2])
    }

    /// Byte 0 uppercase: the chunk is critical rather than ancillary.
    pub fn is_critical(&self) -> (r: bool)
        ensures
            r == spec_is_upper(self@[0]),
    {
        is_upper(self.name[0])
    }

    /// Byte 1 uppercase: the chunk type is public rather than private.
    pub fn is_public(&self) -> (r: bool)
        ensures
            r == spec_is_upper(self@[1]),
    {
        is_upper(self.name[1])
    }

    /// Byte 2 uppercase: the reserved flag holds, as validity demands.
    pub fn is_reserved_bit_valid(&self) -> (r: bool)
        ensures
            r == spec_is_upper(self@[2]),
    {
        is_upper(self.name[2])
    }

    /// Byte 3 lowercase: the chunk is safe to copy by an editor.
    pub fn is_safe_to_copy(&self) -> (r: bool)
        ensures
            r == spec_is_lower(self@[3]),
    {
        97 <= self.name[3] && self.name[3] <= 122
    }

    /// The code's text form, when its bytes are valid UTF-8; alphabetic bytes
    /// always are, so this fails only for raw out-of-range bytes.
    pub fn to_text(&self) -> (r: Result<String, PngError>)
        ensures
            match r {
                Ok(s) => vstd::utf8::valid_utf8(self@) && s@ == vstd::utf8::decode_utf8(self@),
                Err(e) => e == PngError::InvalidUtf8 && !vstd::utf8::valid_utf8(self@),
            },
    {
        let mut bytes: Vec<u8> = Vec::new();
        bytes.push(self.name[0]);
        bytes.push(self.name[1]);
        bytes.push(self.name[2]);
        bytes.push(self.name[3]);
        proof {
            assert(bytes@ =~= self@);
        }
        match crate::codec::bytes_to_utf8(&bytes) {
            Some(s) => Ok(s),
            None => Err(PngError::InvalidUtf8),
        }
    }
}

/// Strict parsing of the bytes a valid code exposes gives the code back:
/// round-trip identity for every valid type code.
pub proof fn lemma_type_code_round_trip(ct: ChunkType)
    requires
        spec_valid_type(ct@),
    ensures
        spec_type_parse(ct@) == Ok::<Seq<u8>, PngError>(ct@),
{
}

} // verus!
