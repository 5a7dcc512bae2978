//! One record of the container: a type code and a data buffer. Length and
//! checksum are always derived from the data, never stored, so they cannot
//! fall out of step with it.
//!
//! Wire form, big-endian and without padding: a 4-byte length (of the data
//! field alone), the 4 type bytes, the data, and a 4-byte CRC computed over
//! the type bytes followed by the data bytes.

use vstd::prelude::*;

verus! {

use crate::all_ascii_letters;
use crate::chunk_type::ChunkType;
use crate::chunk_type::ChunkTypeError;
use crate::codec::push_u32_be;
use crate::codec::read_u32_be;
use crate::codec::spec_u32_from_be_bytes;
use crate::codec::spec_u32_to_be_bytes;
use crate::codec::lemma_u32_be_bytes_round_trip;
use crate::text::string_from_utf8;
use vstd::utf8::encode_utf8;
use vstd::utf8::valid_utf8;

broadcast use vstd::slice::group_slice_axioms;

/// Why bytes could not be decoded into a record, or its data rendered.
#[derive(Clone, Copy, Debug, PartialEq, Eq, Structural)]
pub enum ChunkError {
    /// Fewer than the 12 bytes of length, type and checksum fields.
    TooSmall,
    /// The declared length does not match the span between the type field
    /// and the trailing checksum field.
    DataLengthMismatch,
    /// The recomputed checksum differs from the trailing checksum field.
    CrcMismatch,
    /// The data is not valid UTF-8 (text rendering only).
    EncodingError,
    /// The type field is not a well-formed type code.
    ChunkType(ChunkTypeError),
}

/// The mathematical content of a record: its type bytes and its data bytes.
#[verifier::ext_equal]
pub struct ChunkModel {
    pub type_bytes: Seq<u8>,
    pub data: Seq<u8>,
}

/// Well-formed record content: a 4-letter type code, and data short enough
/// for its length to fit the 4-byte length field.
pub open spec fn chunk_wf(m: ChunkModel) -> bool {
    &&& m.type_bytes.len() == 4
    &&& all_ascii_letters(m.type_bytes)
    &&& m.data.len() <= 0xffff_ffff
}

/// The checksum that the `crc` crate computes over a byte sequence with the
/// CRC-32/ISO-HDLC algorithm. The result depends on the bytes alone.
pub uninterp spec fn crc32_of(bytes: Seq<u8>) -> u32;

/// Relies on `crc::Crc::<u32>::checksum` with `CRC_32_ISO_HDLC`: a pure
/// table-driven computation over the given bytes.
#[verifier::external_body]
fn crc32_checksum(bytes: &[u8]) -> (r: u32)
    ensures
        r == crc32_of(bytes@),
{
    crc::Crc::<u32>::new(&crc::CRC_32_ISO_HDLC).checksum(bytes)
}

/// The wire form of a record: length, type, data, then the checksum over
/// type and data.
pub open spec fn spec_chunk_bytes(m: ChunkModel) -> Seq<u8> {
    spec_u32_to_be_bytes(m.data.len() as u32) + m.type_bytes + m.data + spec_u32_to_be_bytes(
        crc32_of(m.type_bytes + m.data),
    )
}

/// Decoding one complete record from a buffer, failing on the first
/// malformed field: too few bytes for the fixed fields, a type byte that is
/// not a letter, a declared length that does not equal the span between type
/// field and trailing checksum, or a checksum mismatch, in that order.
pub open spec fn spec_decode_chunk(bytes: Seq<u8>) -> Result<ChunkModel, ChunkError> {
    if bytes.len() < 12 {
        Err(ChunkError::TooSmall)
    } else {
        let type_bytes = bytes.subrange(4, 8);
        if !all_ascii_letters(type_bytes) {
            Err(ChunkError::ChunkType(ChunkTypeError::InvalidCharacter))
        } else if spec_u32_from_be_bytes(bytes.subrange(0, 4)) != bytes.len() - 12 {
            Err(ChunkError::DataLengthMismatch)
        } else {
            let data = bytes.subrange(8, bytes.len() - 4);
            if crc32_of(type_bytes + data) != spec_u32_from_be_bytes(
                bytes.subrange(bytes.len() - 4, bytes.len() as int),
            ) {
                Err(ChunkError::CrcMismatch)
            } else {
                Ok(ChunkModel { type_bytes, data })
            }
        }
    }
}

/// A record: a type code and a data buffer, immutable once built.
#[derive(Debug)]
pub struct Chunk {
    chunk_type: ChunkType,
    data: Vec<u8>,
}

impl View for Chunk {
    type V = ChunkModel;

    closed spec fn view(&self) -> ChunkModel {
        ChunkModel { type_bytes: self.chunk_type@, data: self.data@ }
    }
}

impl Chunk {
    /// Well-formed record.
    pub open spec fn wf(self) -> bool {
        chunk_wf(self@)
    }

    /// Build a record from a type code and a data buffer, stored verbatim.
    pub fn new(chunk_type: ChunkType, data: Vec<u8>) -> (r: Chunk)
        requires
            data@.len() <= 0xffff_ffff,
        ensures
            r@ == (ChunkModel { type_bytes: chunk_type@, data: data@ }),
            chunk_type.wf() ==> r.wf(),
    {
        Chunk { chunk_type, data }
    }

    /// The length of the data buffer; always derived, never stored.
    pub fn length(&self) -> (r: u32)
        requires
            self.wf(),
        ensures
            r == self@.data.len(),
    {
        self.data.len() as u32
    }

    /// The record's type code.
    pub fn chunk_type(&self) -> (r: &ChunkType)
        ensures
            r@ == self@.type_bytes,
    {
        &self.chunk_type
    }

    /// The record's data bytes.
    pub fn data(&self) -> (r: &[u8])
        ensures
            r@ == self@.data,
    {
        self.data.as_slice()
    }

    /// The CRC-32/ISO-HDLC checksum over the type bytes followed by the data
    /// bytes; always recomputed, never cached.
    pub fn crc(&self) -> (r: u32)
        ensures
            r == crc32_of(self@.type_bytes + self@.data),
    {
        let type_bytes = self.chunk_type.bytes();
        let mut bytes: Vec<u8> = Vec::new();
        bytes.extend_from_slice(type_bytes.as_slice());
        bytes.extend_from_slice(self.data.as_slice());
        proof {
            assert(bytes@ =~= self@.type_bytes + self@.data);
        }
        crc32_checksum(bytes.as_slice())
    }

    /// The data rendered as text; fails when it is not valid UTF-8.
    pub fn data_as_string(&self) -> (r: Result<String, ChunkError>)
        ensures
            match r {
                Ok(s) => valid_utf8(self@.data) && encode_utf8(s@) == self@.data,
                Err(e) => e == ChunkError::EncodingError && !valid_utf8(self@.data),
            },
    {
        match string_from_utf8(self.data.clone()) {
            Some(s) => Ok(s),
            None => Err(ChunkError::EncodingError),
        }
    }

    /// The record's wire form.
    pub fn as_bytes(&self) -> (r: Vec<u8>)
        requires
            self.wf(),
        ensures
            r@ == spec_chunk_bytes(self@),
    {
        let mut out: Vec<u8> = Vec::new();
        push_u32_be(&mut out, self.data.len() as u32);
        let type_bytes = self.chunk_type.bytes();
        out.extend_from_slice(type_bytes.as_slice());
        out.extend_from_slice(self.data.as_slice());
        let crc = self.crc();
        push_u32_be(&mut out, crc);
        proof {
            assert(out@ =~= spec_chunk_bytes(self@));
        }
        out
    }

    /// Decode one complete record from a buffer: the buffer must hold exactly
    /// this record, its declared length accounting for every byte between the
    /// type field and the trailing checksum.
    pub fn try_from(value: &[u8]) -> (r: Result<Chunk, ChunkError>)
        ensures
            match r {
                Ok(c) => spec_decode_chunk(value@) == Ok::<ChunkModel, ChunkError>(c@) && c.wf(),
                Err(e) => spec_decode_chunk(value@) == Err::<ChunkModel, ChunkError>(e),
            },
    {
        let n: usize = value.len();
        if n < 12 {
            return Err(ChunkError::TooSmall);
        }
        let type_arr: [u8; 4] = [
            *vstd::slice::slice_index_get(value, 4),
            *vstd::slice::slice_index_get(value, 5),
            *vstd::slice::slice_index_get(value, 6),
            *vstd::slice::slice_index_get(value, 7),
        ];
        proof {
            assert(type_arr@ =~= value@.subrange(4, 8));
        }
        let chunk_type = match ChunkType::try_from(type_arr) {
            Ok(t) => t,
            Err(e) => {
                return Err(ChunkError::ChunkType(e));
            },
        };
        let declared = read_u32_be(value, 0);
        if declared as usize != n - 12 {
            return Err(ChunkError::DataLengthMismatch);
        }
        let data = vstd::slice::slice_to_vec(vstd::slice::slice_subrange(value, 8, n - 4));
        let crc_field = read_u32_be(value, n - 4);
        let chunk = Chunk { chunk_type, data };
        let computed = chunk.crc();
        proof {
            assert(value@.subrange(n - 4, n as int) == value@.subrange(
                value@.len() - 4,
                value@.len() as int,
            ));
        }
        if computed != crc_field {
            return Err(ChunkError::CrcMismatch);
        }
        Ok(chunk)
    }
}

/// A record decoded from a buffer re-encodes to exactly that buffer: the
/// declared length and trailing checksum a successful decode saw are the ones
/// encoding recomputes.
pub proof fn lemma_decode_chunk_round_trip(bytes: Seq<u8>)
    requires
        spec_decode_chunk(bytes) is Ok,
    ensures
        chunk_wf(spec_decode_chunk(bytes).unwrap()),
        spec_chunk_bytes(spec_decode_chunk(bytes).unwrap()) == bytes,
        bytes.len() == 12 + spec_decode_chunk(bytes).unwrap().data.len(),
{
    let m = spec_decode_chunk(bytes).unwrap();
    lemma_u32_be_bytes_round_trip();
    assert(spec_u32_to_be_bytes(m.data.len() as u32) =~= bytes.subrange(0, 4));
    assert(spec_u32_to_be_bytes(crc32_of(m.type_bytes + m.data)) =~= bytes.subrange(
        bytes.len() - 4,
        bytes.len() as int,
    ));
    assert(spec_chunk_bytes(m) =~= bytes);
}

/// Corrupting any single byte of a record's trailing checksum field makes
/// decoding fail with a checksum mismatch.
pub proof fn lemma_crc_corruption(bytes: Seq<u8>, i: int, v: u8)
    requires
        spec_decode_chunk(bytes) is Ok,
        bytes.len() - 4 <= i < bytes.len(),
        v != bytes[i],
    ensures
        spec_decode_chunk(bytes.update(i, v)) == Err::<ChunkModel, ChunkError>(
            ChunkError::CrcMismatch,
        ),
{
    let corrupted = bytes.update(i, v);
    lemma_u32_be_bytes_round_trip();
    assert(corrupted.subrange(0, 4) =~= bytes.subrange(0, 4));
    assert(corrupted.subrange(4, 8) =~= bytes.subrange(4, 8));
    assert(corrupted.subrange(8, corrupted.len() - 4) =~= bytes.subrange(8, bytes.len() - 4));
    let old_field = bytes.subrange(bytes.len() - 4, bytes.len() as int);
    let new_field = corrupted.subrange(corrupted.len() - 4, corrupted.len() as int);
    assert(new_field =~= old_field.update(i - (bytes.len() - 4), v));
    assert(new_field != old_field);
    assert(spec_u32_to_be_bytes(spec_u32_from_be_bytes(new_field)) =~= new_field);
    assert(spec_u32_to_be_bytes(spec_u32_from_be_bytes(old_field)) =~= old_field);
    assert(spec_u32_from_be_bytes(new_field) != spec_u32_from_be_bytes(old_field));
}

} // verus!
