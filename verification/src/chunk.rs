use vstd::prelude::*;
use vstd::slice::{slice_subrange, slice_to_vec};
use vstd::utf8::{decode_utf8, valid_utf8};

use crate::byte_order::{lemma_u32_be_round_trip, push_u32_be, read_u32_be, u32_from_be, u32_to_be};
use crate::checksum::{crc32, crc32_of};
use crate::chunk_type::{chunk_type_wf, ChunkType};
use crate::error::PngError;
use crate::text::utf8_to_string;

verus! {

/// The mathematical content of a chunk: its 4 type bytes and its payload.
/// The checksum is derived from these, so it is no part of the view.
pub struct ChunkView {
    pub ty: Seq<u8>,
    pub payload: Seq<u8>,
}

impl ChunkView {
    /// The views a chunk may hold: a well-formed type, and a payload whose
    /// byte count fits the 4-byte length field.
    pub open spec fn wf(self) -> bool {
        &&& chunk_type_wf(self.ty)
        &&& self.payload.len() <= u32::MAX
    }

    /// The wire encoding: payload length (big-endian), type bytes, payload,
    /// then the CRC-32 checksum over type ++ payload (big-endian).
    pub open spec fn encoding(self) -> Seq<u8> {
        u32_to_be(self.payload.len() as u32) + self.ty + self.payload + u32_to_be(
            crc32_of(self.ty + self.payload),
        )
    }
}

/// Decoding one chunk from the front of `bytes`: the chunk's content and the
/// number of bytes consumed, `12 + payload length`; or the first error, in
/// the order the fields are read.
pub open spec fn chunk_decode(bytes: Seq<u8>) -> Result<(ChunkView, int), PngError> {
    if bytes.len() < 12 {
        Err(PngError::TruncatedInput)
    } else {
        let len = u32_from_be(bytes.subrange(0, 4)) as int;
        if bytes.len() < 12 + len {
            Err(PngError::TruncatedInput)
        } else {
            let ty = bytes.subrange(4, 8);
            if !chunk_type_wf(ty) {
                Err(PngError::InvalidType)
            } else {
                let payload = bytes.subrange(8, 8 + len);
                let stored = u32_from_be(bytes.subrange(8 + len, 12 + len));
                if stored != crc32_of(ty + payload) {
                    Err(PngError::ChecksumMismatch)
                } else {
                    Ok((ChunkView { ty, payload }, 12 + len))
                }
            }
        }
    }
}

/// One record of the container format: a chunk type, an opaque payload, and
/// the CRC-32 checksum over type ++ payload. A chunk whose stored checksum
/// disagrees with its content is not constructible: decoding fails instead.
#[derive(Debug)]
pub struct Chunk {
    chunk_type: ChunkType,
    data: Vec<u8>,
    crc: u32,
}

impl View for Chunk {
    type V = ChunkView;

    closed spec fn view(&self) -> ChunkView {
        ChunkView { ty: self.chunk_type@, payload: self.data@ }
    }
}

impl Chunk {
    /// The stored checksum.
    pub closed spec fn spec_crc(&self) -> u32 {
        self.crc
    }

    /// Always holds: the view is well formed and the stored checksum equals
    /// the checksum recomputed over type ++ payload. Obtain it with
    /// `use_type_invariant`.
    #[verifier::type_invariant]
    pub open spec fn wf(self) -> bool {
        &&& self@.wf()
        &&& self.spec_crc() == crc32_of(self@.ty + self@.payload)
    }

    /// Builds a chunk from a type and a payload, computing the checksum over
    /// type ++ payload; always succeeds.
    pub fn new(chunk_type: ChunkType, data: Vec<u8>) -> (c: Chunk)
        requires
            data@.len() <= u32::MAX,
        ensures
            c@ == (ChunkView { ty: chunk_type@, payload: data@ }),
    {
        let mut buf: Vec<u8> = Vec::new();
        let tb = chunk_type.bytes();
        buf.push(tb[0]);
        buf.push(tb[1]);
        buf.push(tb[2]);
        buf.push(tb[3]);
        proof {
            assert(buf@ =~= chunk_type@ + data@.subrange(0, 0));
        }
        let mut i: usize = 0;
        while i < data.len()
            invariant
                i <= data@.len(),
                buf@ == chunk_type@ + data@.subrange(0, i as int),
            decreases data@.len() - i,
        {
            buf.push(data[i]);
            i = i + 1;
            proof {
                assert(buf@ =~= chunk_type@ + data@.subrange(0, i as int));
            }
        }
        proof {
            assert(data@.subrange(0, data@.len() as int) =~= data@);
            use_type_invariant(&chunk_type);
        }
        let crc = crc32(buf.as_slice());
        Chunk { chunk_type, data, crc }
    }

    /// The payload byte count: it excludes the 4 type and 4 checksum bytes.
    pub fn length(&self) -> (r: usize)
        ensures
            r == self@.payload.len(),
    {
        self.data.len()
    }

    /// The chunk's type tag.
    pub fn chunk_type(&self) -> (r: &ChunkType)
        ensures
            r@ == self@.ty,
    {
        &self.chunk_type
    }

    /// A read-only view of the payload.
    pub fn data(&self) -> (r: &[u8])
        ensures
            r@ == self@.payload,
    {
        self.data.as_slice()
    }

    /// The stored checksum: always the CRC-32 over type ++ payload.
    pub fn crc(&self) -> (r: u32)
        ensures
            r == crc32_of(self@.ty + self@.payload),
    {
        proof {
            use_type_invariant(self);
        }
        self.crc
    }

    /// The payload read as UTF-8 text; fails with `Encoding` if and only if
    /// the payload is not valid UTF-8.
    pub fn data_as_string(&self) -> (r: Result<String, PngError>)
        ensures
            r is Ok <==> valid_utf8(self@.payload),
            r matches Ok(s) ==> s@ == decode_utf8(self@.payload),
            r is Err ==> r == Err::<String, PngError>(PngError::Encoding),
    {
        match utf8_to_string(&self.data) {
            Some(s) => Ok(s),
            None => Err(PngError::Encoding),
        }
    }

    /// Encodes the chunk: length, type, payload, checksum.
    pub fn as_bytes(&self) -> (r: Vec<u8>)
        ensures
            r@ == self@.encoding(),
    {
        proof {
            use_type_invariant(self);
        }
        let mut out: Vec<u8> = Vec::new();
        push_u32_be(&mut out, self.data.len() as u32);
        let tb = self.chunk_type.bytes();
        out.push(tb[0]);
        out.push(tb[1]);
        out.push(tb[2]);
        out.push(tb[3]);
        proof {
            assert(out@ =~= u32_to_be(self.data@.len() as u32) + self.chunk_type@
                + self.data@.subrange(0, 0));
        }
        let mut i: usize = 0;
        while i < self.data.len()
            invariant
                i <= self.data@.len(),
                out@ == u32_to_be(self.data@.len() as u32) + self.chunk_type@ + self.data@.subrange(
                    0,
                    i as int,
                ),
            decreases self.data@.len() - i,
        {
            out.push(self.data[i]);
            i = i + 1;
            proof {
                assert(out@ =~= u32_to_be(self.data@.len() as u32) + self.chunk_type@
                    + self.data@.subrange(0, i as int));
            }
        }
        proof {
            use_type_invariant(self);
        }
        push_u32_be(&mut out, self.crc);
        proof {
            assert(self.data@.subrange(0, self.data@.len() as int) =~= self.data@);
            assert(out@ =~= self@.encoding());
        }
        out
    }

    /// Decodes one chunk from the front of `value`, returning it with the
    /// number of bytes consumed; all-or-nothing, as `chunk_decode` says.
    pub fn try_from(value: &[u8]) -> (r: Result<(Chunk, usize), PngError>)
        ensures
            match r {
                Ok((c, used)) => chunk_decode(value@) == Ok::<(ChunkView, int), PngError>(
                    (c@, used as int),
                ),
                Err(e) => chunk_decode(value@) == Err::<(ChunkView, int), PngError>(e),
            },
    {
        if value.len() < 12 {
            return Err(PngError::TruncatedInput);
        }
        let len_field = read_u32_be(value, 0);
        let l = len_field as usize;
        if value.len() - 12 < l {
            return Err(PngError::TruncatedInput);
        }
        let t = [value[4], value[5], value[6], value[7]];
        proof {
            assert(t@ =~= value@.subrange(4, 8));
        }
        let chunk_type = match ChunkType::try_from(t) {
            Ok(ct) => ct,
            Err(_) => {
                return Err(PngError::InvalidType);
            },
        };
        let payload = slice_to_vec(slice_subrange(value, 8, 8 + l));
        let computed = crc32(slice_subrange(value, 4, 8 + l));
        proof {
            assert(value@.subrange(4, 8 + l as int) =~= value@.subrange(4, 8) + value@.subrange(
                8,
                8 + l as int,
            ));
        }
        let stored = read_u32_be(value, 8 + l);
        if stored != computed {
            return Err(PngError::ChecksumMismatch);
        }
        Ok((Chunk { chunk_type, data: payload, crc: stored }, l + 12))
    }
}

/// Round trip, stated with an arbitrary continuation: decoding a well-formed
/// chunk's encoding, whatever bytes follow it, yields exactly that chunk and
/// consumes `12 + payload length` bytes.
pub proof fn lemma_chunk_round_trip_prefix(cv: ChunkView, rest: Seq<u8>)
    requires
        cv.wf(),
    ensures
        chunk_decode(cv.encoding() + rest) == Ok::<(ChunkView, int), PngError>(
            (cv, 12 + cv.payload.len() as int),
        ),
{
    let e = cv.encoding() + rest;
    let l = cv.payload.len() as int;
    assert(cv.encoding().len() == 12 + l);
    assert(e.subrange(0, 4) =~= u32_to_be(cv.payload.len() as u32));
    lemma_u32_be_round_trip(cv.payload.len() as u32);
    assert(e.subrange(4, 8) =~= cv.ty);
    assert(e.subrange(8, 8 + l) =~= cv.payload);
    assert(e.subrange(8 + l, 12 + l) =~= u32_to_be(crc32_of(cv.ty + cv.payload)));
    lemma_u32_be_round_trip(crc32_of(cv.ty + cv.payload));
    assert(chunk_decode(e) == Ok::<(ChunkView, int), PngError>((cv, 12 + l)));
}

/// Round trip: for every well-formed chunk content,
/// `chunk_decode(encoding) == Ok((content, 12 + payload length))`.
pub proof fn lemma_chunk_round_trip(cv: ChunkView)
    requires
        cv.wf(),
    ensures
        chunk_decode(cv.encoding()) == Ok::<(ChunkView, int), PngError>(
            (cv, 12 + cv.payload.len() as int),
        ),
{
    lemma_chunk_round_trip_prefix(cv, Seq::empty());
    assert(cv.encoding() + Seq::<u8>::empty() =~= cv.encoding());
}

/// Checksum sensitivity: altering a chunk's type or payload bytes in place —
/// a single flipped bit included — while holding the declared length and the
/// trailing checksum fixed makes decoding fail with `ChecksumMismatch`,
/// whenever the checksum recomputed over the altered content differs from the
/// stored one. That a given alteration changes the CRC-32 value is a property
/// of the checksum function itself, which this crate does not axiomatise; the
/// hypothesis states it.
pub proof fn lemma_checksum_guards_content(cv: ChunkView, ty2: Seq<u8>, payload2: Seq<u8>)
    requires
        cv.wf(),
        chunk_type_wf(ty2),
        payload2.len() == cv.payload.len(),
        crc32_of(ty2 + payload2) != crc32_of(cv.ty + cv.payload),
    ensures
        chunk_decode(
            u32_to_be(cv.payload.len() as u32) + ty2 + payload2 + u32_to_be(
                crc32_of(cv.ty + cv.payload),
            ),
        ) == Err::<(ChunkView, int), PngError>(PngError::ChecksumMismatch),
{
    let e = u32_to_be(cv.payload.len() as u32) + ty2 + payload2 + u32_to_be(
        crc32_of(cv.ty + cv.payload),
    );
    let l = cv.payload.len() as int;
    assert(e.len() == 12 + l);
    assert(e.subrange(0, 4) =~= u32_to_be(cv.payload.len() as u32));
    lemma_u32_be_round_trip(cv.payload.len() as u32);
    assert(e.subrange(4, 8) =~= ty2);
    assert(e.subrange(8, 8 + l) =~= payload2);
    assert(e.subrange(8 + l, 12 + l) =~= u32_to_be(crc32_of(cv.ty + cv.payload)));
    lemma_u32_be_round_trip(crc32_of(cv.ty + cv.payload));
}

} // verus!
