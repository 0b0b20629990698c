use vstd::prelude::*;
use vstd::slice::slice_subrange;
use vstd::string::StringSliceAdditionalSpecFns;

use crate::chunk::{chunk_decode, lemma_chunk_round_trip_prefix, Chunk, ChunkView};
use crate::chunk_type::{chunk_type_wf, ChunkType};
use crate::error::PngError;

verus! {

/// The fixed 8-byte magic header that opens every container byte stream.
pub open spec fn magic() -> Seq<u8> {
    seq![137u8, 80u8, 78u8, 71u8, 13u8, 10u8, 26u8, 10u8]
}

/// The concatenation of the encodings of a chunk sequence, in order.
pub open spec fn chunks_encoding(cs: Seq<ChunkView>) -> Seq<u8>
    decreases cs.len(),
{
    if cs.len() == 0 {
        Seq::empty()
    } else {
        cs[0].encoding() + chunks_encoding(cs.drop_first())
    }
}

/// The wire form of a container: the magic header, then every chunk.
pub open spec fn png_encoding(cs: Seq<ChunkView>) -> Seq<u8> {
    magic() + chunks_encoding(cs)
}

/// Decoding a headerless byte stream as a chunk sequence: chunks are read
/// one after the other until the bytes are exhausted; the first failure
/// aborts the whole decode.
pub open spec fn chunks_decode(bytes: Seq<u8>) -> Result<Seq<ChunkView>, PngError>
    decreases bytes.len(),
{
    if bytes.len() == 0 {
        Ok(Seq::empty())
    } else {
        match chunk_decode(bytes) {
            Err(e) => Err(e),
            Ok((cv, n)) => match chunks_decode(bytes.skip(n)) {
                Err(e) => Err(e),
                Ok(rest) => Ok(seq![cv] + rest),
            },
        }
    }
}

/// Decoding a container: the first 8 bytes must equal the magic header
/// exactly, else `InvalidHeader`; the rest is the chunk stream.
pub open spec fn png_decode(bytes: Seq<u8>) -> Result<Seq<ChunkView>, PngError> {
    if bytes.len() < 8 || bytes.subrange(0, 8) != magic() {
        Err(PngError::InvalidHeader)
    } else {
        chunks_decode(bytes.skip(8))
    }
}

/// A container: the fixed magic header (validated on decode, not stored)
/// plus an ordered chunk list that the container owns; insertion order is
/// significant and preserved.
#[derive(Debug)]
pub struct Png {
    chunks: Vec<Chunk>,
}

impl View for Png {
    type V = Seq<ChunkView>;

    closed spec fn view(&self) -> Seq<ChunkView> {
        self.chunks@.map_values(|c: Chunk| c@)
    }
}

impl Png {
    /// Wraps a caller-supplied ordered chunk list; the chunks themselves are
    /// valid by construction and are not re-validated.
    pub fn from_chunks(chunks: Vec<Chunk>) -> (p: Png)
        ensures
            p@ == chunks@.map_values(|c: Chunk| c@),
    {
        Png { chunks }
    }

    /// Appends a chunk at the end of the list.
    pub fn append_chunk(&mut self, chunk: Chunk)
        ensures
            final(self)@ == old(self)@.push(chunk@),
    {
        self.chunks.push(chunk);
        proof {
            assert(self@ =~= old(self)@.push(chunk@));
        }
    }

    /// The fixed magic header.
    pub fn header(&self) -> (r: [u8; 8])
        ensures
            r@ == magic(),
    {
        let r = [137u8, 80u8, 78u8, 71u8, 13u8, 10u8, 26u8, 10u8];
        proof {
            assert(r@ =~= magic());
        }
        r
    }

    /// The chunks stored in this container, in order.
    pub fn chunks(&self) -> (r: &[Chunk])
        ensures
            r@.len() == self@.len(),
            forall|i: int| 0 <= i < r@.len() ==> (#[trigger] r@[i])@ == self@[i],
    {
        self.chunks.as_slice()
    }

    /// Removes and returns the first chunk whose type equals `chunk_type`,
    /// scanning left to right (stable with respect to duplicates). Succeeds
    /// if and only if the type text is well formed and some chunk matches;
    /// fails with `InvalidType` on malformed type text and with `NotFound`
    /// when no chunk matches; every failure leaves the list unchanged.
    pub fn remove_chunk(&mut self, chunk_type: &str) -> (r: Result<Chunk, PngError>)
        ensures
            r is Ok <==> chunk_type_wf(chunk_type.spec_bytes()) && (exists|k: int|
                0 <= k < old(self)@.len() && (#[trigger] old(self)@[k]).ty
                    == chunk_type.spec_bytes()),
            match r {
                Ok(c) => {
                    &&& chunk_type_wf(chunk_type.spec_bytes())
                    &&& exists|k: int|
                        {
                            &&& 0 <= k < old(self)@.len()
                            &&& (#[trigger] old(self)@[k]).ty == chunk_type.spec_bytes()
                            &&& (forall|j: int|
                                0 <= j < k ==> old(self)@[j].ty != chunk_type.spec_bytes())
                            &&& c@ == old(self)@[k]
                            &&& final(self)@ == old(self)@.remove(k)
                        }
                },
                Err(e) => {
                    &&& final(self)@ == old(self)@
                    &&& (e == PngError::InvalidType <==> !chunk_type_wf(chunk_type.spec_bytes()))
                    &&& (e == PngError::NotFound <==> chunk_type_wf(chunk_type.spec_bytes())
                        && (forall|j: int|
                        0 <= j < old(self)@.len() ==> old(self)@[j].ty != chunk_type.spec_bytes()))
                },
            },
    {
        let target = match ChunkType::from_str(chunk_type) {
            Ok(t) => t,
            Err(_) => {
                return Err(PngError::InvalidType);
            },
        };
        let mut i: usize = 0;
        while i < self.chunks.len()
            invariant
                i <= self.chunks@.len(),
                target@ == chunk_type.spec_bytes(),
                chunk_type_wf(chunk_type.spec_bytes()),
                self@ == old(self)@,
                forall|j: int| 0 <= j < i ==> old(self)@[j].ty != chunk_type.spec_bytes(),
            decreases self.chunks@.len() - i,
        {
            if self.chunks[i].chunk_type().eq(&target) {
                proof {
                    assert(self@[i as int] == self.chunks@[i as int]@);
                    assert(old(self)@[i as int].ty == chunk_type.spec_bytes());
                }
                let c = self.chunks.remove(i);
                proof {
                    assert(self@ =~= old(self)@.remove(i as int));
                    assert(c@ == old(self)@[i as int]);
                }
                return Ok(c);
            }
            i = i + 1;
        }
        Err(PngError::NotFound)
    }

    /// Returns the first chunk whose type equals `chunk_type`, or none;
    /// fails with `InvalidType` if and only if the type text is malformed.
    pub fn chunk_by_type(&self, chunk_type: &str) -> (r: Result<Option<&Chunk>, PngError>)
        ensures
            match r {
                Ok(found) => {
                    &&& chunk_type_wf(chunk_type.spec_bytes())
                    &&& match found {
                        Some(c) => exists|k: int|
                            {
                                &&& 0 <= k < self@.len()
                                &&& (#[trigger] self@[k]).ty == chunk_type.spec_bytes()
                                &&& (forall|j: int|
                                    0 <= j < k ==> self@[j].ty != chunk_type.spec_bytes())
                                &&& c@ == self@[k]
                            },
                        None => forall|j: int|
                            0 <= j < self@.len() ==> self@[j].ty != chunk_type.spec_bytes(),
                    }
                },
                Err(e) => {
                    &&& e == PngError::InvalidType
                    &&& !chunk_type_wf(chunk_type.spec_bytes())
                },
            },
    {
        let target = match ChunkType::from_str(chunk_type) {
            Ok(t) => t,
            Err(_) => {
                return Err(PngError::InvalidType);
            },
        };
        let mut i: usize = 0;
        while i < self.chunks.len()
            invariant
                i <= self.chunks@.len(),
                target@ == chunk_type.spec_bytes(),
                chunk_type_wf(chunk_type.spec_bytes()),
                forall|j: int| 0 <= j < i ==> self@[j].ty != chunk_type.spec_bytes(),
            decreases self.chunks@.len() - i,
        {
            if self.chunks[i].chunk_type().eq(&target) {
                proof {
                    assert(self@[i as int] == self.chunks@[i as int]@);
                    assert(self@[i as int].ty == chunk_type.spec_bytes());
                }
                return Ok(Some(&self.chunks[i]));
            }
            i = i + 1;
        }
        Ok(None)
    }

    /// Encodes the container: the magic header followed by every chunk's
    /// encoding, in list order.
    pub fn as_bytes(&self) -> (r: Vec<u8>)
        ensures
            r@ == png_encoding(self@),
    {
        let mut out: Vec<u8> = Vec::new();
        out.push(137u8);
        out.push(80u8);
        out.push(78u8);
        out.push(71u8);
        out.push(13u8);
        out.push(10u8);
        out.push(26u8);
        out.push(10u8);
        proof {
            assert(self@.take(0) =~= Seq::<ChunkView>::empty());
            assert(out@ =~= magic() + chunks_encoding(self@.take(0)));
        }
        let mut i: usize = 0;
        while i < self.chunks.len()
            invariant
                i <= self.chunks@.len(),
                out@ == magic() + chunks_encoding(self@.take(i as int)),
            decreases self.chunks@.len() - i,
        {
            let mut piece = self.chunks[i].as_bytes();
            let mut j: usize = 0;
            let ghost out_before = out@;
            while j < piece.len()
                invariant
                    j <= piece@.len(),
                    out@ == out_before + piece@.take(j as int),
                    piece@ == self@[i as int].encoding(),
                    i < self.chunks@.len(),
                decreases piece@.len() - j,
            {
                out.push(piece[j]);
                j = j + 1;
                proof {
                    assert(out@ =~= out_before + piece@.take(j as int));
                }
            }
            proof {
                assert(piece@.take(piece@.len() as int) =~= piece@);
                lemma_chunks_encoding_snoc(self@.take(i as int), self@[i as int]);
                assert(self@.take(i as int).push(self@[i as int]) =~= self@.take(i + 1));
                assert(out@ =~= magic() + chunks_encoding(self@.take(i + 1)));
            }
            i = i + 1;
        }
        proof {
            assert(self@.take(self@.len() as int) =~= self@);
        }
        out
    }

    /// Decodes a container from raw bytes: header check, then the chunk
    /// decode loop; all-or-nothing, as `png_decode` says.
    pub fn try_from(bytes: &[u8]) -> (r: Result<Png, PngError>)
        ensures
            match r {
                Ok(p) => png_decode(bytes@) == Ok::<Seq<ChunkView>, PngError>(p@),
                Err(e) => png_decode(bytes@) == Err::<Seq<ChunkView>, PngError>(e),
            },
    {
        if bytes.len() < 8 {
            return Err(PngError::InvalidHeader);
        }
        if !(bytes[0] == 137 && bytes[1] == 80 && bytes[2] == 78 && bytes[3] == 71 && bytes[4]
            == 13 && bytes[5] == 10 && bytes[6] == 26 && bytes[7] == 10) {
            proof {
                assert(bytes@.subrange(0, 8) != magic()) by {
                    let h = bytes@.subrange(0, 8);
                    if h == magic() {
                        assert(h[0] == 137 && h[1] == 80 && h[2] == 78 && h[3] == 71 && h[4] == 13
                            && h[5] == 10 && h[6] == 26 && h[7] == 10);
                    }
                }
            }
            return Err(PngError::InvalidHeader);
        }
        proof {
            assert(bytes@.subrange(0, 8) =~= magic());
        }
        let ghost tail = bytes@.skip(8);
        let mut chunks: Vec<Chunk> = Vec::new();
        let mut i: usize = 8;
        while i < bytes.len()
            invariant
                8 <= i <= bytes@.len(),
                tail == bytes@.skip(8),
                bytes@.subrange(0, 8) == magic(),
                match chunks_decode(bytes@.skip(i as int)) {
                    Ok(rest) => chunks_decode(tail) == Ok::<Seq<ChunkView>, PngError>(
                        chunks@.map_values(|c: Chunk| c@) + rest,
                    ),
                    Err(e) => chunks_decode(tail) == Err::<Seq<ChunkView>, PngError>(e),
                },
            decreases bytes@.len() - i,
        {
            let sub = slice_subrange(bytes, i, bytes.len());
            proof {
                assert(sub@ =~= bytes@.skip(i as int));
            }
            match Chunk::try_from(sub) {
                Err(e) => {
                    return Err(e);
                },
                Ok((c, used)) => {
                    proof {
                        assert(bytes@.skip(i as int).skip(used as int) =~= bytes@.skip(
                            i + used as int,
                        ));
                        let cmap = chunks@.map_values(|ch: Chunk| ch@);
                        assert(cmap.push(c@) =~= chunks@.push(c).map_values(|ch: Chunk| ch@));
                        match chunks_decode(bytes@.skip(i + used as int)) {
                            Ok(rest) => {
                                assert(seq![c@] + rest =~= cmap.push(c@).skip(cmap.len() as int)
                                    + rest);
                                assert(cmap + (seq![c@] + rest) =~= cmap.push(c@) + rest);
                            },
                            Err(_) => {},
                        }
                    }
                    chunks.push(c);
                    i = i + used;
                },
            }
        }
        proof {
            assert(bytes@.skip(i as int) =~= Seq::<u8>::empty());
            assert(chunks@.map_values(|c: Chunk| c@) + Seq::<ChunkView>::empty() =~= chunks@
                .map_values(|c: Chunk| c@));
        }
        Ok(Png { chunks })
    }
}

/// Appending one chunk to a sequence appends its encoding to the stream.
pub proof fn lemma_chunks_encoding_snoc(cs: Seq<ChunkView>, cv: ChunkView)
    ensures
        chunks_encoding(cs.push(cv)) == chunks_encoding(cs) + cv.encoding(),
    decreases cs.len(),
{
    if cs.len() == 0 {
        assert(cs.push(cv)[0] == cv);
        assert(cs.push(cv).drop_first() =~= Seq::<ChunkView>::empty());
        assert(chunks_encoding(cs.push(cv)) == cv.encoding() + chunks_encoding(
            Seq::<ChunkView>::empty(),
        ));
        assert(cv.encoding() + Seq::<u8>::empty() =~= cv.encoding());
        assert(chunks_encoding(cs) + cv.encoding() =~= cv.encoding());
    } else {
        assert(cs.push(cv)[0] == cs[0]);
        assert(cs.push(cv).drop_first() =~= cs.drop_first().push(cv));
        assert(chunks_encoding(cs.push(cv)) == cs[0].encoding() + chunks_encoding(
            cs.drop_first().push(cv),
        ));
        lemma_chunks_encoding_snoc(cs.drop_first(), cv);
        assert((cs[0].encoding() + chunks_encoding(cs.drop_first())) + cv.encoding() =~= cs[0]
            .encoding() + (chunks_encoding(cs.drop_first()) + cv.encoding()));
        assert(chunks_encoding(cs) == cs[0].encoding() + chunks_encoding(cs.drop_first()));
    }
}

/// Round trip for the chunk stream: the concatenated encodings of
/// well-formed chunk contents decode back to exactly those contents.
/// Dropping a concatenation's whole first operand leaves its second.
proof fn lemma_skip_of_concat(a: Seq<u8>, b: Seq<u8>)
    ensures
        (a + b).skip(a.len() as int) == b,
{
    assert((a + b).skip(a.len() as int) =~= b);
}

/// One step of the chunk-stream decode: when one chunk decodes from the
/// front and consumes exactly the prefix `a`, decoding the stream decodes
/// that chunk, then the rest.
#[verifier::spinoff_prover]
proof fn lemma_chunks_decode_step(a: Seq<u8>, b: Seq<u8>, head: ChunkView)
    requires
        a.len() > 0,
        chunk_decode(a + b) == Ok::<(ChunkView, int), PngError>((head, a.len() as int)),
    ensures
        chunks_decode(a + b) == (match chunks_decode(b) {
            Ok(rest) => Ok::<Seq<ChunkView>, PngError>(seq![head] + rest),
            Err(e) => Err::<Seq<ChunkView>, PngError>(e),
        }),
{
    lemma_skip_of_concat(a, b);
    assert((a + b).len() > 0);
    assert((a + b).skip(a.len() as int) == b);
}

#[verifier::spinoff_prover]
#[verifier::rlimit(100)]
pub proof fn lemma_chunks_round_trip(cs: Seq<ChunkView>)
    requires
        forall|i: int| 0 <= i < cs.len() ==> (#[trigger] cs[i]).wf(),
    ensures
        chunks_decode(chunks_encoding(cs)) == Ok::<Seq<ChunkView>, PngError>(cs),
    decreases cs.len(),
{
    if cs.len() == 0 {
        assert(cs =~= Seq::<ChunkView>::empty());
    } else {
        let head = cs[0];
        let rest = cs.drop_first();
        let rest_enc = chunks_encoding(rest);
        assert(head.wf());
        assert forall|i: int| 0 <= i < rest.len() implies (#[trigger] rest[i]).wf() by {
            assert(rest[i] == cs[i + 1]);
        }
        lemma_chunks_round_trip(rest);
        lemma_chunk_round_trip_prefix(head, rest_enc);
        assert(head.encoding().len() == 12 + head.payload.len() as int);
        lemma_chunks_decode_step(head.encoding(), rest_enc, head);
        assert(chunks_encoding(cs) == head.encoding() + rest_enc);
        assert(seq![head] + rest =~= cs);
    }
}

/// Round trip: a container encoded from well-formed chunk contents decodes
/// to exactly those contents, order preserved.
pub proof fn lemma_png_round_trip(cs: Seq<ChunkView>)
    requires
        forall|i: int| 0 <= i < cs.len() ==> (#[trigger] cs[i]).wf(),
    ensures
        png_decode(png_encoding(cs)) == Ok::<Seq<ChunkView>, PngError>(cs),
{
    let e = png_encoding(cs);
    assert(e.subrange(0, 8) =~= magic());
    assert(e.skip(8) =~= chunks_encoding(cs));
    lemma_chunks_round_trip(cs);
}

/// Header check: a buffer shorter than 8 bytes, or whose first 8 bytes
/// differ from the fixed magic header, fails to decode with
/// `InvalidHeader`, regardless of what follows.
pub proof fn lemma_bad_header(bytes: Seq<u8>)
    requires
        bytes.len() < 8 || bytes.subrange(0, 8) != magic(),
    ensures
        png_decode(bytes) == Err::<Seq<ChunkView>, PngError>(PngError::InvalidHeader),
{
}

} // verus!
