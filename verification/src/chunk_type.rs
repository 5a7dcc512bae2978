//! The 4-byte type code of a record: four ASCII letters whose letter case
//! encodes four independent boolean flags (bit 5 of each byte).

use vstd::prelude::*;

verus! {

use crate::all_ascii_letters;
use crate::is_ascii_letter;
use crate::text::bytes_as_chars;
use crate::text::lemma_ascii_bytes_utf8;
use crate::text::string_from_utf8;
use vstd::string::StrSliceExecFns;

/// Why a type code could not be built.
#[derive(Clone, Copy, Debug, PartialEq, Eq, Structural)]
pub enum ChunkTypeError {
    /// The given text is not exactly 4 characters long.
    WrongLength,
    /// A byte or character is not an ASCII letter.
    InvalidCharacter,
}

/// A 4-byte record type code. Every byte is an ASCII letter; the case of
/// each byte carries one flag. Immutable once constructed.
#[derive(Debug)]
pub struct ChunkType {
    value: [u8; 4],
}

impl View for ChunkType {
    type V = Seq<u8>;

    closed spec fn view(&self) -> Seq<u8> {
        self.value@
    }
}

impl ChunkType {
    /// Well-formed: four bytes, all ASCII letters.
    pub open spec fn wf(self) -> bool {
        self@.len() == 4 && all_ascii_letters(self@)
    }

    /// Build a type code from 4 raw bytes; every byte must be an ASCII letter.
    pub fn try_from(value: [u8; 4]) -> (r: Result<ChunkType, ChunkTypeError>)
        ensures
            match r {
                Ok(t) => t@ == value@ && t.wf(),
                Err(e) => e == ChunkTypeError::InvalidCharacter && !all_ascii_letters(value@),
            },
    {
        let mut i: usize = 0;
        while i < 4
            invariant
                i <= 4,
                forall|j: int| 0 <= j < i ==> is_ascii_letter(#[trigger] value@[j]),
            decreases 4 - i,
        {
            let b = value[i];
            if !((65 <= b && b <= 90) || (97 <= b && b <= 122)) {
                return Err(ChunkTypeError::InvalidCharacter);
            }
            i = i + 1;
        }
        Ok(ChunkType { value })
    }

    /// Build a type code from text: exactly 4 characters, all ASCII letters.
    pub fn from_str(s: &str) -> (r: Result<ChunkType, ChunkTypeError>)
        ensures
            match r {
                Ok(t) => s@.len() == 4 && all_letter_chars(s@) && t@ == chars_as_bytes(s@)
                    && t.wf(),
                Err(ChunkTypeError::WrongLength) => s@.len() != 4,
                Err(ChunkTypeError::InvalidCharacter) => s@.len() == 4 && !all_letter_chars(s@),
            },
    {
        if s.unicode_len() != 4 {
            return Err(ChunkTypeError::WrongLength);
        }
        let mut value: [u8; 4] = [0; 4];
        let mut i: usize = 0;
        while i < 4
            invariant
                i <= 4,
                s@.len() == 4,
                forall|j: int| 0 <= j < i ==> is_letter_char(#[trigger] s@[j]),
                forall|j: int| 0 <= j < i ==> value@[j] == (#[trigger] s@[j] as u32) as u8,
            decreases 4 - i,
        {
            let c = s.get_char(i);
            let u = c as u32;
            if !((65 <= u && u <= 90) || (97 <= u && u <= 122)) {
                return Err(ChunkTypeError::InvalidCharacter);
            }
            value[i] = u as u8;
            i = i + 1;
        }
        proof {
            assert(value@ =~= chars_as_bytes(s@));
            assert forall|j: int| 0 <= j < 4 implies is_ascii_letter(#[trigger] value@[j]) by {
                assert(is_letter_char(s@[j]));
            }
        }
        Ok(ChunkType { value })
    }

    /// The raw 4 bytes.
    pub fn bytes(&self) -> (r: [u8; 4])
        ensures
            r@ == self@,
    {
        self.value
    }

    /// Validity of the code: only the reserved flag decides it. A code that
    /// fails this is still well-formed and decodable.
    pub fn is_valid(&self) -> (r: bool)
        ensures
            r == spec_is_reserved_bit_valid(self@),
    {
        self.is_reserved_bit_valid()
    }

    /// Critical flag: true when the first byte is uppercase (case bit clear).
    pub fn is_critical(&self) -> (r: bool)
        ensures
            r == spec_is_critical(self@),
    {
        (self.value[0] >> 5) & 1 == 0
    }

    /// Public flag: true when the second byte is uppercase (case bit clear).
    pub fn is_public(&self) -> (r: bool)
        ensures
            r == spec_is_public(self@),
    {
        (self.value[1] >> 5) & 1 == 0
    }

    /// Reserved flag: true when the third byte is uppercase (case bit clear).
    pub fn is_reserved_bit_valid(&self) -> (r: bool)
        ensures
            r == spec_is_reserved_bit_valid(self@),
    {
        (self.value[2] >> 5) & 1 == 0
    }

    /// Safe-to-copy flag, the one inverted flag: true when the fourth byte is
    /// lowercase (case bit set).
    pub fn is_safe_to_copy(&self) -> (r: bool)
        ensures
            r == spec_is_safe_to_copy(self@),
    {
        (self.value[3] >> 5) & 1 == 1
    }

    /// The 4 bytes rendered as text, preserving their exact case.
    pub fn to_string(&self) -> (r: String)
        requires
            self.wf(),
        ensures
            r@ == bytes_as_chars(self@),
    {
        let mut bytes: Vec<u8> = Vec::new();
        bytes.push(self.value[0]);
        bytes.push(self.value[1]);
        bytes.push(self.value[2]);
        bytes.push(self.value[3]);
        proof {
            assert(bytes@ =~= self@);
            lemma_ascii_bytes_utf8(bytes@);
        }
        match string_from_utf8(bytes) {
            Some(s) => {
                proof {
                    vstd::utf8::encode_utf8_decode_utf8(s@);
                    vstd::utf8::encode_utf8_decode_utf8(bytes_as_chars(self@));
                }
                s
            },
            None => unreached(),
        }
    }
}

/// The case bit decides each flag: for an ASCII letter, bit 5 is clear
/// exactly when the letter is uppercase.
pub proof fn lemma_case_bit_is_uppercase(b: u8)
    requires
        is_ascii_letter(b),
    ensures
        ((b >> 5) & 1 == 0) <==> (65 <= b <= 90),
{
    assert(((b >> 5) & 1 == 0) <==> (65 <= b <= 90)) by (bit_vector)
        requires
            (65 <= b <= 90) || (97 <= b <= 122),
    ;
}

/// Critical flag of a type code's bytes: case bit of the first byte clear.
pub open spec fn spec_is_critical(t: Seq<u8>) -> bool {
    (t[0] >> 5) & 1 == 0
}

/// Public flag of a type code's bytes: case bit of the second byte clear.
pub open spec fn spec_is_public(t: Seq<u8>) -> bool {
    (t[1] >> 5) & 1 == 0
}

/// Reserved flag of a type code's bytes: case bit of the third byte clear.
pub open spec fn spec_is_reserved_bit_valid(t: Seq<u8>) -> bool {
    (t[2] >> 5) & 1 == 0
}

/// Safe-to-copy flag of a type code's bytes: case bit of the fourth byte set.
pub open spec fn spec_is_safe_to_copy(t: Seq<u8>) -> bool {
    (t[3] >> 5) & 1 == 1
}

/// A character is an ASCII letter.
pub open spec fn is_letter_char(c: char) -> bool {
    (65 <= c as u32 <= 90) || (97 <= c as u32 <= 122)
}

/// Every character of the sequence is an ASCII letter.
pub open spec fn all_letter_chars(s: Seq<char>) -> bool {
    forall|i: int| 0 <= i < s.len() ==> is_letter_char(#[trigger] s[i])
}

/// The characters of an ASCII text, one byte per character.
pub open spec fn chars_as_bytes(s: Seq<char>) -> Seq<u8> {
    Seq::new(s.len(), |i: int| (s[i] as u32) as u8)
}

impl PartialEq for ChunkType {
    /// Equality is byte-wise over the 4 raw bytes.
    fn eq(&self, other: &ChunkType) -> (r: bool) {
        let r = self.value[0] == other.value[0] && self.value[1] == other.value[1] && self.value[2]
            == other.value[2] && self.value[3] == other.value[3];
        proof {
            if r {
                assert(self@ =~= other@);
            }
        }
        r
    }
}

impl vstd::std_specs::cmp::PartialEqSpecImpl for ChunkType {
    open spec fn obeys_eq_spec() -> bool {
        true
    }

    open spec fn eq_spec(&self, other: &ChunkType) -> bool {
        self@ == other@
    }
}

} // verus!
