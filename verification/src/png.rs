//! The container: an ordered chunk sequence behind the fixed 8-byte magic
//! header, with whole-buffer decode and encode and tag-based lookup,
//! append, and removal.

use vstd::prelude::*;

verus! {

use crate::chunk::{Chunk, ChunkError, ChunkModel, chunk_bytes, chunk_text, chunk_wf,
    lemma_chunk_round_trip, push_slice, window_chunk, window_crc_ok, window_len_ok};
use crate::chunk_type::ChunkType;
use crate::text::chars_of;
use crate::wire::be_val;
use crate::wire::read_be_u32;
use vstd::string::StringExecFns;

/// The fixed 8-byte magic header that opens every container.
pub open spec fn magic() -> Seq<u8> {
    seq![0x89u8, 0x50u8, 0x4Eu8, 0x47u8, 0x0Du8, 0x0Au8, 0x1Au8, 0x0Au8]
}

/// The input begins with the magic header.
pub open spec fn header_ok(b: Seq<u8>) -> bool {
    b.len() >= 8 && b.subrange(0, 8) == magic()
}

/// Why decoding a container failed.
#[derive(Debug)]
pub enum PngErrorKind {
    /// The input does not begin with the magic header; carries the bytes
    /// found in its place (fewer than 8 when the input was shorter). The
    /// expected bytes are the fixed header, [`Png::header`].
    BadHeader { received: Vec<u8> },
    /// The input ended inside a chunk: a declared length promised more
    /// payload or checksum bytes than remained.
    Truncated,
    /// A chunk window was rejected by the chunk decoder.
    InvalidChunk(ChunkError),
}

/// A container-level decode failure.
#[derive(Debug)]
pub struct PngDecodeError {
    pub kind: PngErrorKind,
}

impl PngDecodeError {
    /// Boxes a decode failure, for callers that pass errors around by box.
    pub fn boxed(kind: PngErrorKind) -> (r: Box<PngDecodeError>)
        ensures
            r.kind == kind,
    {
        Box::new(PngDecodeError { kind })
    }
}

/// A removal failure: no chunk bears the requested tag, rendered here as
/// text.
#[derive(Debug)]
pub struct ChunkNotFoundError {
    pub chunk_type: String,
}

/// The result of parsing the chunk region that follows the header: the
/// chunk sequence in stream order, or the first failure. Parsing stops
/// cleanly when fewer than 4 bytes remain for a declared length.
pub open spec fn parse_chunks(t: Seq<u8>) -> Result<Seq<ChunkModel>, PngErrorKind>
    decreases t.len(),
{
    if t.len() < 4 {
        Ok(Seq::empty())
    } else {
        let l = be_val(t.subrange(0, 4)) as int;
        if t.len() < 12 + l {
            Err(PngErrorKind::Truncated)
        } else {
            let w = t.subrange(0, 12 + l);
            if !window_crc_ok(w) {
                Err(PngErrorKind::InvalidChunk(ChunkError::ChecksumMismatch))
            } else {
                match parse_chunks(t.skip(12 + l)) {
                    Ok(rest) => Ok(seq![window_chunk(w)] + rest),
                    Err(e) => Err(e),
                }
            }
        }
    }
}

/// The index of the first chunk bearing `tag`, if any.
pub open spec fn first_match(s: Seq<ChunkModel>, tag: Seq<u8>) -> Option<int>
    decreases s.len(),
{
    if s.len() == 0 {
        None
    } else if s[0].tag == tag {
        Some(0)
    } else {
        match first_match(s.skip(1), tag) {
            Some(i) => Some(i + 1),
            None => None,
        }
    }
}

/// What [`first_match`] returns: `None` exactly when no chunk bears the
/// tag, and otherwise the position of the earliest one.
pub proof fn lemma_first_match_spec(s: Seq<ChunkModel>, tag: Seq<u8>)
    ensures
        match first_match(s, tag) {
            None => forall|j: int| 0 <= j < s.len() ==> s[j].tag != tag,
            Some(i) => 0 <= i < s.len() && s[i].tag == tag && (forall|j: int|
                0 <= j < i ==> s[j].tag != tag),
        },
    decreases s.len(),
{
    if s.len() == 0 {
    } else if s[0].tag == tag {
    } else {
        lemma_first_match_spec(s.skip(1), tag);
        match first_match(s.skip(1), tag) {
            None => {
                assert forall|j: int| 0 <= j < s.len() implies s[j].tag != tag by {
                    if j > 0 {
                        assert(s.skip(1)[j - 1] == s[j]);
                    }
                }
            },
            Some(i) => {
                assert(s.skip(1)[i] == s[i + 1]);
                assert forall|j: int| 0 <= j < i + 1 implies s[j].tag != tag by {
                    if j > 0 {
                        assert(s.skip(1)[j - 1] == s[j]);
                    }
                }
            },
        }
    }
}

/// The converse direction: a position that matches, with no match before
/// it, is the one [`first_match`] returns.
pub proof fn lemma_first_match_at(s: Seq<ChunkModel>, tag: Seq<u8>, i: int)
    requires
        0 <= i < s.len(),
        s[i].tag == tag,
        forall|j: int| 0 <= j < i ==> s[j].tag != tag,
    ensures
        first_match(s, tag) == Some(i),
    decreases s.len(),
{
    if i == 0 {
    } else {
        assert(s[0].tag != tag);
        assert(s.skip(1)[i - 1] == s[i]);
        assert forall|j: int| 0 <= j < i - 1 implies s.skip(1)[j].tag != tag by {
            assert(s.skip(1)[j] == s[j + 1]);
        }
        lemma_first_match_at(s.skip(1), tag, i - 1);
    }
}

/// An ordered sequence of chunks, serialized behind the magic header.
#[derive(Debug)]
pub struct Png {
    chunks: Vec<Chunk>,
}

impl View for Png {
    type V = Seq<ChunkModel>;

    closed spec fn view(&self) -> Seq<ChunkModel> {
        self.chunks@.map_values(|c: Chunk| c@)
    }
}

/// The concatenated wire bytes of a chunk sequence.
pub open spec fn chunks_bytes(s: Seq<ChunkModel>) -> Seq<u8>
    decreases s.len(),
{
    if s.len() == 0 {
        Seq::empty()
    } else {
        chunk_bytes(s[0]) + chunks_bytes(s.skip(1))
    }
}

/// A whole container's wire bytes: the magic header, then each chunk.
pub open spec fn png_bytes(s: Seq<ChunkModel>) -> Seq<u8> {
    magic() + chunks_bytes(s)
}

/// Serializing one more chunk appends its bytes at the end.
pub proof fn lemma_chunks_bytes_push(s: Seq<ChunkModel>, c: ChunkModel)
    ensures
        chunks_bytes(s.push(c)) == chunks_bytes(s) + chunk_bytes(c),
    decreases s.len(),
{
    if s.len() == 0 {
        assert(s.push(c)[0] == c);
        assert(s.push(c).skip(1) =~= s);
        assert(chunks_bytes(s.push(c)) == chunk_bytes(c) + chunks_bytes(s));
        assert(chunks_bytes(s).len() == 0);
        assert(chunk_bytes(c) + chunks_bytes(s) =~= chunks_bytes(s) + chunk_bytes(c));
    } else {
        assert(s.push(c)[0] == s[0]);
        assert(s.push(c).skip(1) =~= s.skip(1).push(c));
        lemma_chunks_bytes_push(s.skip(1), c);
        assert(chunks_bytes(s.push(c)) == chunk_bytes(s[0]) + (chunks_bytes(s.skip(1))
            + chunk_bytes(c)));
        assert(chunk_bytes(s[0]) + (chunks_bytes(s.skip(1)) + chunk_bytes(c)) =~= (chunk_bytes(
            s[0],
        ) + chunks_bytes(s.skip(1))) + chunk_bytes(c));
    }
}

/// The container's diagnostic text: each chunk's rendering, concatenated
/// in order.
pub open spec fn png_text(s: Seq<ChunkModel>) -> Seq<char>
    decreases s.len(),
{
    if s.len() == 0 {
        Seq::empty()
    } else {
        chunk_text(s[0]) + png_text(s.skip(1))
    }
}

/// Rendering one more chunk appends its text at the end.
pub proof fn lemma_png_text_push(s: Seq<ChunkModel>, c: ChunkModel)
    ensures
        png_text(s.push(c)) == png_text(s) + chunk_text(c),
    decreases s.len(),
{
    if s.len() == 0 {
        assert(s.push(c)[0] == c);
        assert(s.push(c).skip(1) =~= s);
        assert(png_text(s.push(c)) == chunk_text(c) + png_text(s));
        assert(png_text(s).len() == 0);
        assert(chunk_text(c) + png_text(s) =~= png_text(s) + chunk_text(c));
    } else {
        assert(s.push(c)[0] == s[0]);
        assert(s.push(c).skip(1) =~= s.skip(1).push(c));
        lemma_png_text_push(s.skip(1), c);
        assert(png_text(s.push(c)) == chunk_text(s[0]) + (png_text(s.skip(1)) + chunk_text(c)));
        assert(chunk_text(s[0]) + (png_text(s.skip(1)) + chunk_text(c)) =~= (chunk_text(s[0])
            + png_text(s.skip(1))) + chunk_text(c));
    }
}

/// Compares two 4-byte tags for byte-wise equality.
fn tags_equal(a: &[u8; 4], b: &[u8; 4]) -> (r: bool)
    ensures
        r == (a@ == b@),
{
    let r = a[0] == b[0] && a[1] == b[1] && a[2] == b[2] && a[3] == b[3];
    proof {
        if r {
            assert(a@ =~= b@);
        }
    }
    r
}

impl Png {
    /// Wraps a caller-supplied chunk sequence; no validation beyond what
    /// chunk construction already guarantees.
    pub fn from_chunks(chunks: Vec<Chunk>) -> (r: Png)
        ensures
            r@ == chunks@.map_values(|c: Chunk| c@),
    {
        Png { chunks }
    }

    /// The fixed 8-byte magic header.
    pub fn header(&self) -> (r: [u8; 8])
        ensures
            r@ == magic(),
    {
        let h: [u8; 8] = [0x89, 0x50, 0x4E, 0x47, 0x0D, 0x0A, 0x1A, 0x0A];
        proof {
            assert(h@ =~= magic());
        }
        h
    }

    /// Appends a chunk at the end of the sequence.
    pub fn append_chunk(&mut self, chunk: Chunk)
        ensures
            final(self)@ == old(self)@.push(chunk@),
    {
        self.chunks.push(chunk);
        proof {
            assert(self.chunks@.map_values(|c: Chunk| c@) =~= old(self)@.push(chunk@));
        }
    }

    /// Removes and returns the first chunk bearing `chunk_type`; later
    /// chunks shift down one position. When none matches, the container
    /// is unchanged and the error carries the tag's text.
    pub fn remove_chunk(&mut self, chunk_type: ChunkType) -> (r: Result<Chunk, ChunkNotFoundError>)
        ensures
            match first_match(old(self)@, chunk_type@) {
                Some(i) => r matches Ok(c) && c@ == old(self)@[i] && final(self)@ == old(
                    self,
                )@.remove(i),
                None => r matches Err(e) && e.chunk_type@ == chars_of(chunk_type@) && final(self)@
                    == old(self)@,
            },
    {
        let tb = chunk_type.bytes();
        let mut i: usize = 0;
        while i < self.chunks.len()
            invariant
                i <= self.chunks@.len(),
                *self == *old(self),
                tb@ == chunk_type@,
                forall|j: int| 0 <= j < i ==> old(self)@[j].tag != chunk_type@,
            decreases self.chunks@.len() - i,
        {
            if tags_equal(&self.chunks[i].chunk_type, &tb) {
                proof {
                    lemma_first_match_at(self@, chunk_type@, i as int);
                }
                let c = self.chunks.remove(i);
                proof {
                    assert(self.chunks@.map_values(|c: Chunk| c@) =~= old(self)@.remove(i as int));
                }
                return Ok(c);
            }
            i += 1;
        }
        proof {
            lemma_first_match_spec(self@, chunk_type@);
            match first_match(self@, chunk_type@) {
                Some(k) => {
                    assert(old(self)@[k].tag != chunk_type@);
                },
                None => {},
            }
        }
        Err(ChunkNotFoundError { chunk_type: chunk_type.to_text() })
    }

    /// The full ordered chunk sequence, as a read-only view.
    pub fn chunks(&self) -> (r: &[Chunk])
        ensures
            r@.map_values(|c: Chunk| c@) == self@,
    {
        self.chunks.as_slice()
    }

    /// A reference to the first chunk bearing `chunk_type`, if any.
    pub fn chunk_by_type(&self, chunk_type: ChunkType) -> (r: Option<&Chunk>)
        ensures
            match first_match(self@, chunk_type@) {
                Some(i) => r matches Some(c) && c@ == self@[i],
                None => r is None,
            },
    {
        let tb = chunk_type.bytes();
        let mut i: usize = 0;
        while i < self.chunks.len()
            invariant
                i <= self.chunks@.len(),
                tb@ == chunk_type@,
                forall|j: int| 0 <= j < i ==> self@[j].tag != chunk_type@,
            decreases self.chunks@.len() - i,
        {
            if tags_equal(&self.chunks[i].chunk_type, &tb) {
                proof {
                    lemma_first_match_at(self@, chunk_type@, i as int);
                }
                return Some(&self.chunks[i]);
            }
            i += 1;
        }
        proof {
            lemma_first_match_spec(self@, chunk_type@);
            match first_match(self@, chunk_type@) {
                Some(k) => {
                    assert(self@[k].tag != chunk_type@);
                },
                None => {},
            }
        }
        None
    }

    /// Serializes the container: the magic header, then each chunk's own
    /// encoding, in sequence order. Recomputed in full on every call.
    pub fn as_bytes(&self) -> (r: Vec<u8>)
        ensures
            r@ == png_bytes(self@),
    {
        let mut out: Vec<u8> = Vec::new();
        let h = self.header();
        push_slice(&mut out, h.as_slice());
        proof {
            assert(out@ =~= magic() + chunks_bytes(self@.take(0)));
        }
        let mut i: usize = 0;
        while i < self.chunks.len()
            invariant
                i <= self.chunks@.len(),
                out@ == magic() + chunks_bytes(self@.take(i as int)),
            decreases self.chunks@.len() - i,
        {
            let cb = self.chunks[i].as_bytes();
            push_slice(&mut out, cb.as_slice());
            proof {
                assert(self@.take(i + 1) =~= self@.take(i as int).push(self@[i as int]));
                lemma_chunks_bytes_push(self@.take(i as int), self@[i as int]);
                assert(out@ =~= magic() + chunks_bytes(self@.take(i + 1)));
            }
            i += 1;
        }
        proof {
            assert(self@.take(self@.len() as int) =~= self@);
        }
        out
    }

    /// Renders every chunk's diagnostic text, concatenated in order.
    pub fn to_text(&self) -> (r: String)
        ensures
            r@ == png_text(self@),
    {
        let mut s = String::new();
        proof {
            assert(s@ =~= png_text(self@.take(0)));
        }
        let mut i: usize = 0;
        while i < self.chunks.len()
            invariant
                i <= self.chunks@.len(),
                s@ == png_text(self@.take(i as int)),
            decreases self.chunks@.len() - i,
        {
            let t = self.chunks[i].to_text();
            s.append(t.as_str());
            proof {
                assert(self@.take(i + 1) =~= self@.take(i as int).push(self@[i as int]));
                lemma_png_text_push(self@.take(i as int), self@[i as int]);
                assert(s@ =~= png_text(self@.take(i + 1)));
            }
            i += 1;
        }
        proof {
            assert(self@.take(self@.len() as int) =~= self@);
        }
        s
    }

    /// Decodes a whole container: validates the magic header, then
    /// repeatedly slices one window per chunk and hands it to the chunk
    /// decoder, until fewer than 4 bytes remain for a declared length.
    /// All-or-nothing: the first failure aborts the decode.
    pub fn decode(bytes: &[u8]) -> (r: Result<Png, PngDecodeError>)
        ensures
            r is Ok <==> header_ok(bytes@) && parse_chunks(bytes@.skip(8)) is Ok,
            r matches Ok(p) ==> p@ == parse_chunks(bytes@.skip(8))->Ok_0,
            !header_ok(bytes@) ==> (r matches Err(e) && e.kind matches PngErrorKind::BadHeader {
                received,
            } && received@ == (if bytes@.len() < 8 {
                bytes@
            } else {
                bytes@.subrange(0, 8)
            })),
            header_ok(bytes@) ==> match parse_chunks(bytes@.skip(8)) {
                Ok(_) => r is Ok,
                Err(pe) => r matches Err(e) && e.kind == pe,
            },
    {
        let n = bytes.len();
        let hdr: [u8; 8] = [0x89, 0x50, 0x4E, 0x47, 0x0D, 0x0A, 0x1A, 0x0A];
        proof {
            assert(hdr@ =~= magic());
        }
        if n < 8 {
            let mut received: Vec<u8> = Vec::new();
            push_slice(&mut received, bytes);
            proof {
                assert(received@ =~= bytes@);
            }
            return Err(PngDecodeError { kind: PngErrorKind::BadHeader { received } });
        }
        let mut k: usize = 0;
        while k < 8
            invariant
                k <= 8,
                n == bytes@.len(),
                8 <= n,
                hdr@ == magic(),
                forall|j: int| 0 <= j < k ==> bytes@[j] == magic()[j],
            decreases 8 - k,
        {
            if bytes[k] != hdr[k] {
                proof {
                    assert(bytes@.subrange(0, 8)[k as int] == bytes@[k as int]);
                    assert(bytes@.subrange(0, 8) != magic());
                }
                let mut received: Vec<u8> = Vec::new();
                let mut m: usize = 0;
                while m < 8
                    invariant
                        m <= 8,
                        n == bytes@.len(),
                        8 <= n,
                        received@ == bytes@.subrange(0, m as int),
                    decreases 8 - m,
                {
                    received.push(bytes[m]);
                    m += 1;
                    proof {
                        assert(received@ =~= bytes@.subrange(0, m as int));
                    }
                }
                return Err(PngDecodeError { kind: PngErrorKind::BadHeader { received } });
            }
            k += 1;
        }
        proof {
            assert(bytes@.subrange(0, 8) =~= magic());
        }
        let mut chunks: Vec<Chunk> = Vec::new();
        let mut idx: usize = 8;
        proof {
            assert(chunks@.map_values(|c: Chunk| c@) + parse_chunks(bytes@.skip(8))->Ok_0
                =~= parse_chunks(bytes@.skip(8))->Ok_0);
        }
        while n - idx >= 4
            invariant
                8 <= idx <= n,
                n == bytes@.len(),
                header_ok(bytes@),
                match parse_chunks(bytes@.skip(idx as int)) {
                    Ok(rest) => parse_chunks(bytes@.skip(8)) == Ok::<Seq<ChunkModel>, PngErrorKind>(
                        chunks@.map_values(|c: Chunk| c@) + rest,
                    ),
                    Err(e) => parse_chunks(bytes@.skip(8)) == Err::<Seq<ChunkModel>, PngErrorKind>(
                        e,
                    ),
                },
            decreases n - idx,
        {
            let ghost t = bytes@.skip(idx as int);
            let length = read_be_u32(bytes[idx], bytes[idx + 1], bytes[idx + 2], bytes[idx + 3]);
            proof {
                assert(seq![bytes@[idx as int], bytes@[idx as int + 1], bytes@[idx as int + 2],
                    bytes@[idx as int + 3]] =~= t.subrange(0, 4));
            }
            let avail = n - idx - 4;
            if avail < 8 || avail - 8 < length as usize {
                proof {
                    assert(t.len() < 12 + be_val(t.subrange(0, 4)) as int);
                }
                return Err(PngDecodeError { kind: PngErrorKind::Truncated });
            }
            let wlen = 12 + length as usize;
            let mut window: Vec<u8> = Vec::new();
            let mut j: usize = 0;
            while j < wlen
                invariant
                    j <= wlen,
                    n == bytes@.len(),
                    idx + wlen <= n,
                    window@ == bytes@.subrange(idx as int, idx as int + j as int),
                decreases wlen - j,
            {
                window.push(bytes[idx + j]);
                j += 1;
                proof {
                    assert(window@ =~= bytes@.subrange(idx as int, idx as int + j as int));
                }
            }
            proof {
                assert(window@ =~= t.subrange(0, 12 + length as int));
                assert(window@.subrange(0, 4) =~= t.subrange(0, 4));
                assert(window_len_ok(window@));
            }
            match Chunk::decode(window.as_slice()) {
                Ok(c) => {
                    proof {
                        assert(t.skip(12 + length as int) =~= bytes@.skip(
                            idx as int + wlen as int,
                        ));
                        assert(chunks@.push(c).map_values(|ch: Chunk| ch@) =~= chunks@.map_values(
                            |ch: Chunk| ch@,
                        ).push(c@));
                        match parse_chunks(t.skip(12 + length as int)) {
                            Ok(rest) => {
                                assert(chunks@.map_values(|ch: Chunk| ch@) + (seq![window_chunk(
                                    window@,
                                )] + rest) =~= chunks@.map_values(|ch: Chunk| ch@).push(c@)
                                    + rest);
                            },
                            Err(_) => {},
                        }
                    }
                    chunks.push(c);
                    idx = idx + wlen;
                },
                Err(e) => {
                    proof {
                        assert(e == ChunkError::ChecksumMismatch);
                        assert(parse_chunks(t) == Err::<Seq<ChunkModel>, PngErrorKind>(
                            PngErrorKind::InvalidChunk(ChunkError::ChecksumMismatch),
                        ));
                    }
                    return Err(PngDecodeError { kind: PngErrorKind::InvalidChunk(e) });
                },
            }
        }
        proof {
            assert(parse_chunks(bytes@.skip(idx as int)) == Ok::<Seq<ChunkModel>, PngErrorKind>(
                Seq::empty(),
            ));
            assert(chunks@.map_values(|c: Chunk| c@) + Seq::<ChunkModel>::empty()
                =~= chunks@.map_values(|c: Chunk| c@));
        }
        Ok(Png { chunks })
    }
}

/// Serializing a sequence of well-formed chunks and parsing the result
/// yields the same sequence: the round-trip identity behind
/// [`Png::as_bytes`] and [`Png::decode`].
pub proof fn lemma_parse_chunks_bytes(s: Seq<ChunkModel>)
    requires
        forall|i: int| 0 <= i < s.len() ==> chunk_wf(#[trigger] s[i]),
    ensures
        parse_chunks(chunks_bytes(s)) == Ok::<Seq<ChunkModel>, PngErrorKind>(s),
    decreases s.len(),
{
    if s.len() == 0 {
        assert(chunks_bytes(s).len() == 0);
        assert(parse_chunks(chunks_bytes(s)) == Ok::<Seq<ChunkModel>, PngErrorKind>(Seq::empty()));
        assert(s =~= Seq::<ChunkModel>::empty());
    } else {
        let c = s[0];
        assert(chunk_wf(c));
        lemma_chunk_round_trip(c);
        let cb = chunk_bytes(c);
        let t = chunks_bytes(s);
        assert(t == cb + chunks_bytes(s.skip(1)));
        assert(cb.len() == 12 + c.length as int);
        assert(t.subrange(0, 4) =~= cb.subrange(0, 4));
        assert(be_val(t.subrange(0, 4)) == c.length);
        assert(t.len() >= 12 + c.length as int);
        assert(t.subrange(0, 12 + c.length as int) =~= cb);
        assert(t.skip(12 + c.length as int) =~= chunks_bytes(s.skip(1)));
        assert forall|i: int| 0 <= i < s.skip(1).len() implies chunk_wf(#[trigger] s.skip(1)[i]) by {
            assert(s.skip(1)[i] == s[i + 1]);
        }
        lemma_parse_chunks_bytes(s.skip(1));
        assert(seq![window_chunk(cb)] + s.skip(1) =~= s);
    }
}

/// Round-trip identity: decoding an encoded container yields the same
/// chunk sequence, whenever every chunk is well formed — as freshly
/// constructed and successfully decoded chunks always are.
pub proof fn lemma_round_trip(s: Seq<ChunkModel>)
    requires
        forall|i: int| 0 <= i < s.len() ==> chunk_wf(#[trigger] s[i]),
    ensures
        header_ok(png_bytes(s)),
        parse_chunks(png_bytes(s).skip(8)) == Ok::<Seq<ChunkModel>, PngErrorKind>(s),
{
    assert(png_bytes(s).subrange(0, 8) =~= magic());
    assert(png_bytes(s).skip(8) =~= chunks_bytes(s));
    lemma_parse_chunks_bytes(s);
}

/// Removal and lookup are consistent: after removing the first chunk
/// bearing a tag, looking the tag up finds exactly the next match that
/// followed the removed one, or nothing when no later chunk matches.
pub proof fn lemma_remove_then_lookup(s: Seq<ChunkModel>, tag: Seq<u8>, i: int)
    requires
        first_match(s, tag) == Some(i),
    ensures
        0 <= i < s.len(),
        s[i].tag == tag,
        match first_match(s.remove(i), tag) {
            None => forall|k: int| i < k < s.len() ==> s[k].tag != tag,
            Some(j) => i <= j < s.len() - 1 && s.remove(i)[j] == s[j + 1] && s[j + 1].tag == tag
                && (forall|k: int| i < k < j + 1 ==> s[k].tag != tag),
        },
{
    lemma_first_match_spec(s, tag);
    let s2 = s.remove(i);
    lemma_first_match_spec(s2, tag);
    assert(forall|m: int| 0 <= m < i ==> s2[m] == s[m]);
    assert(forall|m: int| i <= m < s2.len() ==> s2[m] == s[m + 1]);
    match first_match(s2, tag) {
        None => {
            assert forall|k: int| i < k < s.len() implies s[k].tag != tag by {
                assert(s2[k - 1] == s[k]);
            }
        },
        Some(j) => {
            assert(j >= i) by {
                if j < i {
                    assert(s2[j] == s[j]);
                }
            }
            assert(s2[j] == s[j + 1]);
            assert forall|k: int| i < k < j + 1 implies s[k].tag != tag by {
                assert(s2[k - 1] == s[k]);
            }
        },
    }
}

} // verus!
