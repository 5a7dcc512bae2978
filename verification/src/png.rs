//! The container: a fixed 8-byte signature followed by an ordered sequence of
//! records. Parsing walks the buffer one record at a time, advancing by each
//! record's exact wire size, and must consume the buffer completely;
//! serializing concatenates the signature with each record's wire form in
//! sequence order, and is the exact left-inverse of parsing.

use vstd::prelude::*;

verus! {

use crate::chunk::Chunk;
use crate::chunk::ChunkError;
use crate::chunk_type::ChunkType;
use crate::chunk::ChunkModel;
use crate::chunk::chunk_wf;
use crate::chunk::spec_chunk_bytes;
use crate::chunk::spec_decode_chunk;
use crate::chunk::lemma_decode_chunk_round_trip;
use crate::codec::read_u32_be;
use crate::codec::spec_u32_from_be_bytes;
use crate::text::bytes_as_chars;
use crate::text::lemma_ascii_bytes_utf8;
use vstd::utf8::encode_utf8_decode_utf8;

broadcast use vstd::slice::group_slice_axioms;

/// Why a buffer could not be parsed as a container, or a removal found
/// nothing.
#[derive(Clone, Copy, Debug, PartialEq, Eq, Structural)]
pub enum PngError {
    /// Fewer than the 8 bytes of the signature.
    TooSmall,
    /// The first 8 bytes are not the fixed signature.
    InvalidHeader,
    /// Bytes remain after the last record, but too few to begin another.
    TrailingBytes,
    /// No record of the requested type (removal only).
    NotFound,
    /// A record failed to decode mid-walk.
    Chunk(ChunkError),
}

/// The fixed 8-byte signature that every container starts with.
pub open spec fn spec_signature() -> Seq<u8> {
    seq![137u8, 80u8, 78u8, 71u8, 13u8, 10u8, 26u8, 10u8]
}

/// Parsing the record stream that follows the signature: zero or more
/// complete records with nothing left over. A nonzero residue too small to
/// begin a record is a hard error, never silently dropped; a record that
/// claims more data than the buffer holds, or fails to decode, fails the
/// whole parse at once.
pub open spec fn spec_parse_chunks(bytes: Seq<u8>) -> Result<Seq<ChunkModel>, PngError>
    decreases bytes.len(),
{
    if bytes.len() == 0 {
        Ok(Seq::<ChunkModel>::empty())
    } else if bytes.len() < 12 {
        Err(PngError::TrailingBytes)
    } else {
        let size = 12 + spec_u32_from_be_bytes(bytes.subrange(0, 4)) as int;
        if bytes.len() < size {
            Err(PngError::Chunk(ChunkError::DataLengthMismatch))
        } else {
            match spec_decode_chunk(bytes.subrange(0, size)) {
                Ok(m) => match spec_parse_chunks(bytes.subrange(size, bytes.len() as int)) {
                    Ok(rest) => Ok(seq![m] + rest),
                    Err(e) => Err(e),
                },
                Err(e) => Err(PngError::Chunk(e)),
            }
        }
    }
}

/// Parsing a whole buffer: the signature, then the record stream.
pub open spec fn spec_parse_png(bytes: Seq<u8>) -> Result<Seq<ChunkModel>, PngError> {
    if bytes.len() < 8 {
        Err(PngError::TooSmall)
    } else if bytes.subrange(0, 8) != spec_signature() {
        Err(PngError::InvalidHeader)
    } else {
        spec_parse_chunks(bytes.subrange(8, bytes.len() as int))
    }
}

/// The wire form of a record sequence: each record's wire form, in order.
pub open spec fn spec_chunks_bytes(s: Seq<ChunkModel>) -> Seq<u8>
    decreases s.len(),
{
    if s.len() == 0 {
        Seq::<u8>::empty()
    } else {
        spec_chunk_bytes(s[0]) + spec_chunks_bytes(s.drop_first())
    }
}

/// The wire form of a container: the signature, then its records.
pub open spec fn spec_png_bytes(s: Seq<ChunkModel>) -> Seq<u8> {
    spec_signature() + spec_chunks_bytes(s)
}

/// The record models of a record vector, in order.
pub open spec fn chunks_view(v: Seq<Chunk>) -> Seq<ChunkModel> {
    Seq::new(v.len(), |i: int| v[i]@)
}

/// The index of the first record whose type code renders as `name`, in
/// document order.
pub open spec fn spec_find_chunk(s: Seq<ChunkModel>, name: Seq<char>) -> Option<int>
    decreases s.len(),
{
    if s.len() == 0 {
        None
    } else if bytes_as_chars(s[0].type_bytes) == name {
        Some(0)
    } else {
        match spec_find_chunk(s.drop_first(), name) {
            Some(i) => Some(i + 1),
            None => None,
        }
    }
}

/// What the first-match index means: it carries a match, nothing before it
/// matches, and when there is none, nothing matches at all.
pub proof fn lemma_find_chunk_first(s: Seq<ChunkModel>, name: Seq<char>)
    ensures
        match spec_find_chunk(s, name) {
            Some(i) => 0 <= i < s.len() && bytes_as_chars(s[i].type_bytes) == name && forall|j: int|
                0 <= j < i ==> bytes_as_chars(#[trigger] s[j].type_bytes) != name,
            None => forall|j: int|
                0 <= j < s.len() ==> bytes_as_chars(#[trigger] s[j].type_bytes) != name,
        },
    decreases s.len(),
{
    if s.len() > 0 && bytes_as_chars(s[0].type_bytes) != name {
        lemma_find_chunk_first(s.drop_first(), name);
        match spec_find_chunk(s.drop_first(), name) {
            Some(i) => {
                assert(s.drop_first()[i] == s[i + 1]);
                assert forall|j: int| 0 <= j < i + 1 implies bytes_as_chars(
                    #[trigger] s[j].type_bytes,
                ) != name by {
                    if j > 0 {
                        assert(s.drop_first()[j - 1] == s[j]);
                    }
                }
            },
            None => {
                assert forall|j: int| 0 <= j < s.len() implies bytes_as_chars(
                    #[trigger] s[j].type_bytes,
                ) != name by {
                    if j > 0 {
                        assert(s.drop_first()[j - 1] == s[j]);
                    }
                }
            },
        }
    }
}

/// Splice a parsed prefix in front of the outcome of parsing the rest.
pub open spec fn prepend_parsed(
    prefix: Seq<ChunkModel>,
    rest: Result<Seq<ChunkModel>, PngError>,
) -> Result<Seq<ChunkModel>, PngError> {
    match rest {
        Ok(s) => Ok(prefix + s),
        Err(e) => Err(e),
    }
}

/// The container: an ordered sequence of records, exclusively owned, mutated
/// only through its own operations.
#[derive(Debug)]
pub struct Png {
    chunks: Vec<Chunk>,
}

impl View for Png {
    type V = Seq<ChunkModel>;

    closed spec fn view(&self) -> Seq<ChunkModel> {
        chunks_view(self.chunks@)
    }
}

impl Png {
    /// Well-formed container: every record is well-formed.
    pub open spec fn wf(self) -> bool {
        forall|i: int| 0 <= i < self@.len() ==> chunk_wf(#[trigger] self@[i])
    }

    /// An empty container, with no records.
    pub fn new() -> (r: Png)
        ensures
            r@ == Seq::<ChunkModel>::empty(),
            r.wf(),
    {
        Png { chunks: Vec::new() }
    }

    /// Parse a complete buffer: the signature, then records until the buffer
    /// ends exactly. The first malformed field fails the parse, with no
    /// partial result.
    pub fn try_from(value: &[u8]) -> (r: Result<Png, PngError>)
        ensures
            match r {
                Ok(p) => spec_parse_png(value@) == Ok::<Seq<ChunkModel>, PngError>(p@) && p.wf(),
                Err(e) => spec_parse_png(value@) == Err::<Seq<ChunkModel>, PngError>(e),
            },
    {
        let n: usize = value.len();
        if n < 8 {
            return Err(PngError::TooSmall);
        }
        if !(*vstd::slice::slice_index_get(value, 0) == 137 && *vstd::slice::slice_index_get(
            value,
            1,
        ) == 80 && *vstd::slice::slice_index_get(value, 2) == 78 && *vstd::slice::slice_index_get(
            value,
            3,
        ) == 71 && *vstd::slice::slice_index_get(value, 4) == 13 && *vstd::slice::slice_index_get(
            value,
            5,
        ) == 10 && *vstd::slice::slice_index_get(value, 6) == 26 && *vstd::slice::slice_index_get(
            value,
            7,
        ) == 10) {
            proof {
                assert(value@.subrange(0, 8) != spec_signature());
            }
            return Err(PngError::InvalidHeader);
        }
        proof {
            assert(value@.subrange(0, 8) =~= spec_signature());
        }
        let ghost tail = value@.subrange(8, n as int);
        let mut chunks: Vec<Chunk> = Vec::new();
        let mut cursor: usize = 8;
        while cursor < n
            invariant
                8 <= cursor <= n,
                n == value@.len(),
                value@.subrange(0, 8) == spec_signature(),
                forall|i: int| 0 <= i < chunks@.len() ==> (#[trigger] chunks@[i]).wf(),
                tail == value@.subrange(8, n as int),
                spec_parse_chunks(tail) == prepend_parsed(
                    chunks_view(chunks@),
                    spec_parse_chunks(value@.subrange(cursor as int, n as int)),
                ),
            decreases n - cursor,
        {
            let ghost rem_bytes = value@.subrange(cursor as int, n as int);
            let rem = n - cursor;
            if rem < 12 {
                return Err(PngError::TrailingBytes);
            }
            let declared = read_u32_be(value, cursor);
            proof {
                assert(rem_bytes.subrange(0, 4) =~= value@.subrange(
                    cursor as int,
                    cursor as int + 4,
                ));
            }
            if declared as usize > rem - 12 {
                return Err(PngError::Chunk(ChunkError::DataLengthMismatch));
            }
            let end = cursor + 12 + declared as usize;
            let sub = vstd::slice::slice_subrange(value, cursor, end);
            proof {
                assert(sub@ =~= rem_bytes.subrange(0, 12 + declared as int));
            }
            let chunk = match Chunk::try_from(sub) {
                Ok(c) => c,
                Err(e) => {
                    return Err(PngError::Chunk(e));
                },
            };
            proof {
                assert(rem_bytes.subrange(12 + declared as int, rem_bytes.len() as int)
                    =~= value@.subrange(end as int, n as int));
                assert(chunks_view(chunks@.push(chunk)) =~= chunks_view(chunks@) + seq![chunk@]);
                if spec_parse_chunks(value@.subrange(end as int, n as int)) is Ok {
                    let rest = spec_parse_chunks(value@.subrange(end as int, n as int)).unwrap();
                    assert((chunks_view(chunks@) + (seq![chunk@] + rest)) =~= (chunks_view(
                        chunks@,
                    ) + seq![chunk@]) + rest);
                }
            }
            chunks.push(chunk);
            cursor = end;
        }
        proof {
            assert(value@.subrange(cursor as int, n as int) =~= Seq::<u8>::empty());
            assert(chunks_view(chunks@) + Seq::<ChunkModel>::empty() =~= chunks_view(chunks@));
            assert forall|i: int|
                0 <= i < chunks_view(chunks@).len() implies chunk_wf(
                #[trigger] chunks_view(chunks@)[i],
            ) by {
                assert(chunks@[i].wf());
            }
        }
        Ok(Png { chunks })
    }

    /// The container's wire form: the signature, then each record's wire
    /// form in sequence order. Computed on demand, never cached.
    pub fn as_bytes(&self) -> (r: Vec<u8>)
        requires
            self.wf(),
        ensures
            r@ == spec_png_bytes(self@),
    {
        let mut out: Vec<u8> = Vec::new();
        out.push(137);
        out.push(80);
        out.push(78);
        out.push(71);
        out.push(13);
        out.push(10);
        out.push(26);
        out.push(10);
        proof {
            assert(out@ =~= spec_signature());
        }
        let mut k: usize = 0;
        while k < self.chunks.len()
            invariant
                k <= self.chunks@.len(),
                self.wf(),
                out@ == spec_signature() + spec_chunks_bytes(self@.take(k as int)),
            decreases self.chunks@.len() - k,
        {
            proof {
                assert(self.chunks@[k as int]@ == self@[k as int]);
            }
            let chunk_bytes = self.chunks[k].as_bytes();
            out.extend_from_slice(chunk_bytes.as_slice());
            proof {
                assert(self@.take(k as int + 1) =~= self@.take(k as int).push(self@[k as int]));
                lemma_chunks_bytes_push(self@.take(k as int), self@[k as int]);
            }
            k = k + 1;
        }
        proof {
            assert(self@.take(self@.len() as int) =~= self@);
        }
        out
    }

    /// Append a record at the end, unconditionally: no deduplication, and
    /// records of equal type may coexist.
    pub fn append_chunk(&mut self, chunk: Chunk)
        ensures
            final(self)@ == old(self)@.push(chunk@),
    {
        proof {
            assert(chunks_view(old(self).chunks@.push(chunk)) =~= chunks_view(old(self).chunks@)
                + seq![chunk@]);
            assert(chunks_view(old(self).chunks@) + seq![chunk@] =~= old(self)@.push(chunk@));
        }
        self.chunks.push(chunk);
    }

    /// The records, in document order.
    pub fn chunks(&self) -> (r: &Vec<Chunk>)
        ensures
            r@.len() == self@.len(),
            forall|i: int| 0 <= i < r@.len() ==> (#[trigger] r@[i])@ == self@[i],
    {
        &self.chunks
    }

    /// Find the first record whose type code renders as `target`, scanning
    /// in document order; non-mutating.
    pub fn chunk_by_type(&self, target: &str) -> (r: Option<&Chunk>)
        requires
            self.wf(),
        ensures
            match r {
                Some(c) => spec_find_chunk(self@, target@) is Some && c@ == self@[
                    spec_find_chunk(self@, target@).unwrap()
                ],
                None => spec_find_chunk(self@, target@) is None,
            },
    {
        match self.find_index(target) {
            Some(i) => {
                proof {
                    assert(self.chunks@[i as int]@ == self@[i as int]);
                }
                Some(&self.chunks[i])
            },
            None => None,
        }
    }

    /// Remove and return the first record whose type code renders as
    /// `target`; later records of the same type stay untouched. With no
    /// match, the container is unchanged.
    pub fn remove_chunk(&mut self, target: &str) -> (r: Result<Chunk, PngError>)
        requires
            old(self).wf(),
        ensures
            match r {
                Ok(c) => {
                    &&& spec_find_chunk(old(self)@, target@) is Some
                    &&& c@ == old(self)@[spec_find_chunk(old(self)@, target@).unwrap()]
                    &&& final(self)@ == old(self)@.remove(
                        spec_find_chunk(old(self)@, target@).unwrap(),
                    )
                },
                Err(e) => {
                    &&& e == PngError::NotFound
                    &&& spec_find_chunk(old(self)@, target@) is None
                    &&& final(self)@ == old(self)@
                },
            },
            final(self).wf(),
    {
        match self.find_index(target) {
            Some(i) => {
                let c = self.chunks.remove(i);
                proof {
                    assert(chunks_view(old(self).chunks@.remove(i as int)) =~= old(
                        self,
                    )@.remove(i as int));
                }
                Ok(c)
            },
            None => Err(PngError::NotFound),
        }
    }

    /// The index of the first record whose type code renders as `target`.
    fn find_index(&self, target: &str) -> (r: Option<usize>)
        requires
            self.wf(),
        ensures
            match r {
                Some(i) => i < self@.len() && spec_find_chunk(self@, target@) == Some(i as int),
                None => spec_find_chunk(self@, target@) is None,
            },
    {
        let mut k: usize = 0;
        proof {
            assert(self@.skip(0) =~= self@);
        }
        while k < self.chunks.len()
            invariant
                k <= self@.len(),
                self.wf(),
                spec_find_chunk(self@, target@) == (match spec_find_chunk(
                    self@.skip(k as int),
                    target@,
                ) {
                    Some(i) => Some(i + k),
                    None => None::<int>,
                }),
            decreases self@.len() - k,
        {
            proof {
                assert(self@[k as int] == self.chunks@[k as int]@);
                assert(self@.skip(k as int)[0] == self@[k as int]);
                assert(self@.skip(k as int).drop_first() =~= self@.skip(k as int + 1));
            }
            if type_matches(self.chunks[k].chunk_type(), target) {
                return Some(k);
            }
            k = k + 1;
        }
        proof {
            assert(self@.skip(k as int).len() == 0);
        }
        None
    }
}

/// True when the type code's 4 bytes render as exactly the given text.
fn type_matches(t: &ChunkType, target: &str) -> (r: bool)
    requires
        t.wf(),
    ensures
        r == (bytes_as_chars(t@) == target@),
{
    proof {
        lemma_ascii_bytes_utf8(t@);
        encode_utf8_decode_utf8(target@);
        encode_utf8_decode_utf8(bytes_as_chars(t@));
    }
    let target_bytes = target.as_bytes();
    if target_bytes.len() != 4 {
        return false;
    }
    let tb = t.bytes();
    let r = *vstd::slice::slice_index_get(target_bytes, 0) == tb[0]
        && *vstd::slice::slice_index_get(target_bytes, 1) == tb[1]
        && *vstd::slice::slice_index_get(target_bytes, 2) == tb[2]
        && *vstd::slice::slice_index_get(target_bytes, 3) == tb[3];
    proof {
        if r {
            assert(target_bytes@ =~= t@);
        } else {
            assert(target_bytes@ != t@);
        }
    }
    r
}

/// Appending one record to a sequence appends its wire form to the
/// sequence's wire form.
proof fn lemma_chunks_bytes_push(s: Seq<ChunkModel>, m: ChunkModel)
    ensures
        spec_chunks_bytes(s.push(m)) == spec_chunks_bytes(s) + spec_chunk_bytes(m),
    decreases s.len(),
{
    if s.len() == 0 {
        assert(s.push(m)[0] == m);
        assert(s.push(m).drop_first() =~= Seq::<ChunkModel>::empty());
        assert(spec_chunks_bytes(Seq::<ChunkModel>::empty()) == Seq::<u8>::empty());
        assert(spec_chunks_bytes(s.push(m)) == spec_chunk_bytes(m) + Seq::<u8>::empty());
        assert(spec_chunk_bytes(m) + Seq::<u8>::empty() =~= Seq::<u8>::empty() + spec_chunk_bytes(
            m,
        ));
    } else {
        assert(s.push(m)[0] == s[0]);
        assert(s.push(m).drop_first() =~= s.drop_first().push(m));
        lemma_chunks_bytes_push(s.drop_first(), m);
        let a = spec_chunk_bytes(s[0]);
        let b = spec_chunks_bytes(s.drop_first());
        let c = spec_chunk_bytes(m);
        assert(spec_chunks_bytes(s.push(m)) == a + (b + c));
        assert(a + (b + c) =~= (a + b) + c);
    }
}

/// Every record a successful parse of the stream yields is well-formed, and
/// re-encoding them in order gives back exactly the parsed bytes.
#[verifier::spinoff_prover]
#[verifier::rlimit(100)]
pub proof fn lemma_parse_chunks_round_trip(bytes: Seq<u8>)
    requires
        spec_parse_chunks(bytes) is Ok,
    ensures
        forall|i: int| 0 <= i < spec_parse_chunks(bytes).unwrap().len() ==> chunk_wf(
            #[trigger] spec_parse_chunks(bytes).unwrap()[i],
        ),
        spec_chunks_bytes(spec_parse_chunks(bytes).unwrap()) == bytes,
    decreases bytes.len(),
{
    if bytes.len() == 0 {
        assert(spec_chunks_bytes(spec_parse_chunks(bytes).unwrap()) =~= bytes);
    } else {
        let size = 12 + spec_u32_from_be_bytes(bytes.subrange(0, 4)) as int;
        let head = bytes.subrange(0, size);
        let rest = bytes.subrange(size, bytes.len() as int);
        let m = spec_decode_chunk(head).unwrap();
        lemma_decode_chunk_round_trip(head);
        lemma_parse_chunks_round_trip(rest);
        let rest_s = spec_parse_chunks(rest).unwrap();
        let s = spec_parse_chunks(bytes).unwrap();
        assert(s == seq![m] + rest_s);
        assert(s[0] == m);
        assert(s.drop_first() =~= rest_s);
        assert(spec_chunks_bytes(s) == spec_chunk_bytes(s[0]) + spec_chunks_bytes(s.drop_first()));
        assert(spec_chunks_bytes(s) == head + spec_chunks_bytes(rest_s));
        assert(head + rest =~= bytes);
        assert forall|i: int| 0 <= i < s.len() implies chunk_wf(#[trigger] s[i]) by {
            if i > 0 {
                assert(s[i] == rest_s[i - 1]);
            }
        }
    }
}

/// Round trip: any buffer the parser accepts serializes back byte for byte,
/// and every record it yields is well-formed.
pub proof fn lemma_parse_png_round_trip(bytes: Seq<u8>)
    requires
        spec_parse_png(bytes) is Ok,
    ensures
        forall|i: int| 0 <= i < spec_parse_png(bytes).unwrap().len() ==> chunk_wf(
            #[trigger] spec_parse_png(bytes).unwrap()[i],
        ),
        spec_png_bytes(spec_parse_png(bytes).unwrap()) == bytes,
{
    let tail = bytes.subrange(8, bytes.len() as int);
    lemma_parse_chunks_round_trip(tail);
    let s = spec_parse_png(bytes).unwrap();
    assert(spec_png_bytes(s) == spec_signature() + spec_chunks_bytes(s));
    assert(spec_chunks_bytes(s) == tail);
    assert(bytes.subrange(0, 8) == spec_signature());
    assert(bytes.subrange(0, 8) + tail =~= bytes);
}

} // verus!
