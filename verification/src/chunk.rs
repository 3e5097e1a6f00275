//! One container segment: a big-endian declared length, a 4-byte tag, the
//! payload, and a trailing checksum, decoded from and encoded to a byte
//! window of exactly `8 + length + 4` bytes.

use vstd::prelude::*;

verus! {

use crate::chunk_type::ChunkType;
use crate::crc::{crc32, crc32_of};
use crate::text::{byte_list_chars, chars_of, dec_chars, push_byte_list, push_chars_of,
    push_dec_u32};
use vstd::string::StringExecFns;
use crate::wire::{be_bytes, be_val, lemma_be_bytes_of_be_val, lemma_be_val_of_be_bytes,
    push_be_u32, read_be_u32};

/// One chunk of the container.
#[derive(Debug, PartialEq, Eq)]
pub struct Chunk {
    /// Declared payload size; equals `message.len()` for every chunk this
    /// crate constructs.
    pub length: u32,
    /// The raw 4 tag bytes.
    pub chunk_type: [u8; 4],
    /// The payload, exactly `length` bytes.
    pub message: Vec<u8>,
    /// The 32-bit checksum carried after the payload.
    pub crc: u32,
}

/// The mathematical content of a [`Chunk`].
pub struct ChunkModel {
    pub length: u32,
    pub tag: Seq<u8>,
    pub payload: Seq<u8>,
    pub crc: u32,
}

impl View for Chunk {
    type V = ChunkModel;

    open spec fn view(&self) -> ChunkModel {
        ChunkModel {
            length: self.length,
            tag: self.chunk_type@,
            payload: self.message@,
            crc: self.crc,
        }
    }
}

/// A chunk's wire bytes: length, tag, payload, checksum.
pub open spec fn chunk_bytes(c: ChunkModel) -> Seq<u8> {
    be_bytes(c.length) + c.tag + c.payload + be_bytes(c.crc)
}

/// Well-formed chunk: the declared length matches the payload, and the
/// checksum is the one computed over tag and payload. Freshly constructed
/// and successfully decoded chunks are both well formed.
pub open spec fn chunk_wf(c: ChunkModel) -> bool {
    &&& c.tag.len() == 4
    &&& c.payload.len() == c.length as int
    &&& c.crc == crc32_of(c.tag + c.payload)
}

/// The window is long enough for its fixed fields and holds exactly as
/// many payload bytes as its declared length announces.
pub open spec fn window_len_ok(w: Seq<u8>) -> bool {
    w.len() >= 12 && w.len() - 12 == be_val(w.subrange(0, 4)) as int
}

/// The window's trailing 4 bytes equal the checksum computed over its tag
/// and payload bytes.
pub open spec fn window_crc_ok(w: Seq<u8>) -> bool
    recommends
        w.len() >= 12,
{
    be_val(w.subrange(w.len() - 4, w.len() as int)) == crc32_of(
        w.subrange(4, w.len() - 4),
    )
}

/// The chunk a well-formed window denotes.
pub open spec fn window_chunk(w: Seq<u8>) -> ChunkModel
    recommends
        w.len() >= 12,
{
    ChunkModel {
        length: be_val(w.subrange(0, 4)),
        tag: w.subrange(4, 8),
        payload: w.subrange(8, w.len() - 4),
        crc: be_val(w.subrange(w.len() - 4, w.len() as int)),
    }
}

/// Why decoding a chunk window failed.
#[derive(Clone, Copy, PartialEq, Eq, Structural, Debug)]
pub enum ChunkError {
    /// The window does not hold exactly the declared number of payload
    /// bytes (it is truncated, padded, or shorter than the fixed fields).
    LengthMismatch,
    /// The stored checksum differs from the one computed over tag and
    /// payload.
    ChecksumMismatch,
}

/// Appends all of `data` to `out`.
pub fn push_slice(out: &mut Vec<u8>, data: &[u8])
    ensures
        final(out)@ == old(out)@ + data@,
{
    let mut i: usize = 0;
    while i < data.len()
        invariant
            i <= data@.len(),
            out@ == old(out)@ + data@.subrange(0, i as int),
        decreases data@.len() - i,
    {
        out.push(data[i]);
        i += 1;
        proof {
            assert(out@ =~= old(out)@ + data@.subrange(0, i as int));
        }
    }
    proof {
        assert(old(out)@ + data@.subrange(0, data@.len() as int) =~= old(out)@ + data@);
    }
}

impl Chunk {
    /// Builds a fresh chunk from a tag and a payload, computing the
    /// checksum over the tag bytes followed by the payload bytes.
    pub fn new(chunk_type: ChunkType, message: Vec<u8>) -> (r: Chunk)
        requires
            message@.len() <= u32::MAX,
        ensures
            r@.length as int == message@.len(),
            r@.tag == chunk_type@,
            r@.payload == message@,
            r@.crc == crc32_of(chunk_type@ + message@),
            chunk_wf(r@),
    {
        let tag = chunk_type.bytes();
        let mut buf: Vec<u8> = Vec::new();
        push_slice(&mut buf, tag.as_slice());
        push_slice(&mut buf, message.as_slice());
        proof {
            assert(Seq::<u8>::empty() + tag@ + message@ =~= chunk_type@ + message@);
        }
        let crc = crc32(buf.as_slice());
        Chunk { length: message.len() as u32, chunk_type: tag, message, crc }
    }

    /// Decodes one chunk from a byte window laid out as length, tag,
    /// payload, checksum. Fails with [`ChunkError::LengthMismatch`] when
    /// the window does not hold exactly the declared number of payload
    /// bytes, and with [`ChunkError::ChecksumMismatch`] when the stored
    /// checksum is not the one computed over tag and payload.
    pub fn decode(window: &[u8]) -> (r: Result<Chunk, ChunkError>)
        ensures
            r is Ok <==> window_len_ok(window@) && window_crc_ok(window@),
            r matches Ok(c) ==> c@ == window_chunk(window@) && chunk_wf(c@),
            !window_len_ok(window@) ==> r == Err::<Chunk, ChunkError>(ChunkError::LengthMismatch),
            window_len_ok(window@) && !window_crc_ok(window@) ==> r == Err::<Chunk, ChunkError>(
                ChunkError::ChecksumMismatch,
            ),
    {
        let n = window.len();
        if n < 12 {
            return Err(ChunkError::LengthMismatch);
        }
        let length = read_be_u32(window[0], window[1], window[2], window[3]);
        proof {
            assert(seq![window@[0], window@[1], window@[2], window@[3]] =~= window@.subrange(0, 4));
        }
        if n - 12 != length as usize {
            return Err(ChunkError::LengthMismatch);
        }
        let tag: [u8; 4] = [window[4], window[5], window[6], window[7]];
        let mut message: Vec<u8> = Vec::new();
        let mut i: usize = 0;
        while i < length as usize
            invariant
                i <= length as usize,
                n as int == window@.len(),
                window@.len() == 12 + length as int,
                message@ == window@.subrange(8, 8 + i as int),
            decreases length as usize - i,
        {
            message.push(window[8 + i]);
            i += 1;
            proof {
                assert(message@ =~= window@.subrange(8, 8 + i as int));
            }
        }
        let stored = read_be_u32(window[n - 4], window[n - 3], window[n - 2], window[n - 1]);
        proof {
            assert(seq![window@[n - 4], window@[n - 3], window@[n - 2], window@[n - 1]]
                =~= window@.subrange(n - 4, n as int));
        }
        let mut buf: Vec<u8> = Vec::new();
        push_slice(&mut buf, tag.as_slice());
        push_slice(&mut buf, message.as_slice());
        proof {
            assert(Seq::<u8>::empty() + tag@ + message@ =~= window@.subrange(4, n - 4));
        }
        let computed = crc32(buf.as_slice());
        if stored != computed {
            return Err(ChunkError::ChecksumMismatch);
        }
        let c = Chunk { length, chunk_type: tag, message, crc: stored };
        proof {
            assert(c@.tag =~= window_chunk(window@).tag);
            assert(c@.payload =~= window_chunk(window@).payload);
        }
        Ok(c)
    }

    /// Serializes the chunk: length, tag, payload, checksum, each
    /// multi-byte field big-endian.
    pub fn as_bytes(&self) -> (r: Vec<u8>)
        ensures
            r@ == chunk_bytes(self@),
    {
        let mut out: Vec<u8> = Vec::new();
        push_be_u32(&mut out, self.length);
        push_slice(&mut out, self.chunk_type.as_slice());
        push_slice(&mut out, self.message.as_slice());
        push_be_u32(&mut out, self.crc);
        proof {
            assert(out@ =~= chunk_bytes(self@));
        }
        out
    }
}

/// A chunk's diagnostic text rendering: length, tag characters, payload
/// bytes in decimal, and checksum. Not part of the wire contract.
pub open spec fn chunk_text(c: ChunkModel) -> Seq<char> {
    "Chunk { length: "@ + dec_chars(c.length as int) + ", type: "@ + chars_of(c.tag)
        + ", data: ["@ + byte_list_chars(c.payload) + "], crc: "@ + dec_chars(c.crc as int)
        + " }"@
}

impl Chunk {
    /// Renders the chunk for diagnostics: its length, tag characters,
    /// payload bytes in decimal, and checksum.
    pub fn to_text(&self) -> (r: String)
        ensures
            r@ == chunk_text(self@),
    {
        let mut s = String::new();
        s.append("Chunk { length: ");
        push_dec_u32(&mut s, self.length);
        s.append(", type: ");
        push_chars_of(&mut s, self.chunk_type.as_slice(), 0);
        s.append(", data: [");
        push_byte_list(&mut s, self.message.as_slice(), 0);
        s.append("], crc: ");
        push_dec_u32(&mut s, self.crc);
        s.append(" }");
        proof {
            assert(self.chunk_type@.skip(0) =~= self@.tag);
            assert(self.message@.skip(0) =~= self@.payload);
            assert(s@ =~= chunk_text(self@));
        }
        s
    }
}

/// A well-formed chunk decodes back from its own encoding: the window is
/// accepted and denotes the chunk itself.
pub proof fn lemma_chunk_round_trip(c: ChunkModel)
    requires
        chunk_wf(c),
    ensures
        chunk_bytes(c).len() == 12 + c.length as int,
        window_len_ok(chunk_bytes(c)),
        window_crc_ok(chunk_bytes(c)),
        window_chunk(chunk_bytes(c)) == c,
{
    let w = chunk_bytes(c);
    assert(w.subrange(0, 4) =~= be_bytes(c.length));
    lemma_be_val_of_be_bytes(c.length);
    assert(w.subrange(4, 8) =~= c.tag);
    assert(w.subrange(8, w.len() - 4) =~= c.payload);
    assert(w.subrange(w.len() - 4, w.len() as int) =~= be_bytes(c.crc));
    lemma_be_val_of_be_bytes(c.crc);
    assert(w.subrange(4, w.len() - 4) =~= c.tag + c.payload);
    assert(window_chunk(w) == c);
}

/// Re-encoding the chunk a window denotes reproduces the window exactly.
pub proof fn lemma_window_bytes(w: Seq<u8>)
    requires
        window_len_ok(w),
    ensures
        chunk_bytes(window_chunk(w)) == w,
{
    let c = window_chunk(w);
    lemma_be_bytes_of_be_val(w.subrange(0, 4));
    lemma_be_bytes_of_be_val(w.subrange(w.len() - 4, w.len() as int));
    assert(chunk_bytes(c) =~= w);
}

} // verus!
