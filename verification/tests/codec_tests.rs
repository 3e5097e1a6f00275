use png_codec::chunk::{Chunk, ChunkError};
use png_codec::chunk_type::{ChunkType, TagError};
use png_codec::crc::crc32;
use png_codec::png::{Png, PngDecodeError, PngErrorKind};
use png_codec::wire::push_be_u32;

const MAGIC: [u8; 8] = [0x89, 0x50, 0x4E, 0x47, 0x0D, 0x0A, 0x1A, 0x0A];

fn chunk_window(length: u32, tag: &[u8], message: &[u8], crc: u32) -> Vec<u8> {
    length
        .to_be_bytes()
        .iter()
        .chain(tag.iter())
        .chain(message.iter())
        .chain(crc.to_be_bytes().iter())
        .copied()
        .collect()
}

fn tag(s: &str) -> ChunkType {
    ChunkType::from_str(s).unwrap()
}

#[test]
fn test_invalid_chunk_from_bytes() {
    let data_length: u32 = 42;
    let chunk_type = "RuSt".as_bytes();
    let message_bytes = "This is where your secret message will be!".as_bytes();
    let crc: u32 = 2882656333;

    let chunk_data: Vec<u8> = data_length
        .to_be_bytes()
        .iter()
        .chain(chunk_type.iter())
        .chain(message_bytes.iter())
        .chain(crc.to_be_bytes().iter())
        .copied()
        .collect();

    let chunk = Chunk::decode(chunk_data.as_ref());

    assert!(chunk.is_err());
}

#[test]
pub fn test_chunk_trait_impls() {
    let data_length: u32 = 42;
    let chunk_type = "RuSt".as_bytes();
    let message_bytes = "This is where your secret message will be!".as_bytes();
    let crc: u32 = 2882656334;

    let chunk_data: Vec<u8> = data_length
        .to_be_bytes()
        .iter()
        .chain(chunk_type.iter())
        .chain(message_bytes.iter())
        .chain(crc.to_be_bytes().iter())
        .copied()
        .collect();

    let chunk: Chunk = Chunk::decode(chunk_data.as_ref()).unwrap();

    let _chunk_string = chunk.to_text();
}

#[test]
fn test_valid_chunk_fields() {
    let message = "This is where your secret message will be!".as_bytes();
    let window = chunk_window(42, b"RuSt", message, 2882656334);
    let chunk = Chunk::decode(&window).unwrap();
    assert_eq!(chunk.length, 42);
    assert_eq!(chunk.chunk_type, *b"RuSt");
    assert_eq!(chunk.message, message.to_vec());
    assert_eq!(chunk.crc, 2882656334);
}

#[test]
fn test_checksum_mismatch_error_kind() {
    let message = "This is where your secret message will be!".as_bytes();
    let window = chunk_window(42, b"RuSt", message, 2882656333);
    assert_eq!(Chunk::decode(&window), Err(ChunkError::ChecksumMismatch));
}

#[test]
fn test_length_mismatch_rejection() {
    // Declared length larger than the available payload.
    let window = chunk_window(6, b"RuSt", b"hello", 0);
    assert_eq!(Chunk::decode(&window), Err(ChunkError::LengthMismatch));
    // Declared length smaller than the available payload.
    let window = chunk_window(4, b"RuSt", b"hello", 0);
    assert_eq!(Chunk::decode(&window), Err(ChunkError::LengthMismatch));
    // Window too short to even hold the fixed fields.
    assert_eq!(Chunk::decode(&[0, 0, 0, 0]), Err(ChunkError::LengthMismatch));
    // A trailing padding byte after the checksum is a mismatch too.
    let mut window = chunk_window(5, b"RuSt", b"hello", 0);
    window.push(0);
    assert_eq!(Chunk::decode(&window), Err(ChunkError::LengthMismatch));
}

#[test]
fn test_crc_known_values() {
    // The standard check value for this checksum.
    assert_eq!(crc32(b"123456789"), 0xCBF43926);
    assert_eq!(crc32(b""), 0);
    let message = "This is where your secret message will be!".as_bytes();
    let data: Vec<u8> = b"RuSt".iter().chain(message.iter()).copied().collect();
    assert_eq!(crc32(&data), 2882656334);
}

#[test]
fn test_chunk_new_computes_crc() {
    let message = "This is where your secret message will be!".as_bytes();
    let chunk = Chunk::new(tag("RuSt"), message.to_vec());
    assert_eq!(chunk.length, 42);
    assert_eq!(chunk.crc, 2882656334);
}

#[test]
fn test_chunk_encode_decode_round_trip() {
    let chunk = Chunk::new(tag("TeSt"), vec![7, 8, 9]);
    let bytes = chunk.as_bytes();
    let back = Chunk::decode(&bytes).unwrap();
    assert_eq!(back.length, chunk.length);
    assert_eq!(back.chunk_type, chunk.chunk_type);
    assert_eq!(back.message, chunk.message);
    assert_eq!(back.crc, chunk.crc);
}

#[test]
fn test_empty_payload_chunk() {
    let chunk = Chunk::new(tag("TeSt"), vec![]);
    assert_eq!(chunk.length, 0);
    let bytes = chunk.as_bytes();
    assert_eq!(bytes.len(), 12);
    let back = Chunk::decode(&bytes).unwrap();
    assert_eq!(back.message, Vec::<u8>::new());
}

#[test]
fn test_tag_from_bytes_partition() {
    let t = ChunkType::try_from_bytes(*b"RuSt").unwrap();
    assert_eq!(t.bytes(), *b"RuSt");
    assert_eq!(
        ChunkType::try_from_bytes([82, 117, 49, 116]).unwrap_err(),
        TagError::NotAlphabetic
    );
    assert_eq!(
        ChunkType::try_from_bytes([0, 0, 0, 0]).unwrap_err(),
        TagError::NotAlphabetic
    );
}

#[test]
fn test_tag_from_str() {
    assert_eq!(tag("RuSt").bytes(), *b"RuSt");
    assert_eq!(ChunkType::from_str("RuS").unwrap_err(), TagError::WrongLength);
    assert_eq!(ChunkType::from_str("RuStX").unwrap_err(), TagError::WrongLength);
    assert_eq!(ChunkType::from_str("Ru1t").unwrap_err(), TagError::NotAlphabetic);
}

#[test]
fn test_tag_validity() {
    assert!(tag("RuSt").is_valid());
    // Lower-case third byte: constructible, but the reserved bit is wrong.
    assert!(!tag("Rust").is_valid());
}

#[test]
fn test_tag_classification() {
    let t = tag("RuSt");
    assert!(t.is_critical());
    assert!(!t.is_public());
    assert!(t.is_reserved_bit_valid());
    assert!(t.is_safe_to_copy());
    let t = tag("rUsT");
    assert!(!t.is_critical());
    assert!(t.is_public());
    assert!(!t.is_reserved_bit_valid());
    assert!(!t.is_safe_to_copy());
}

#[test]
fn test_tag_classification_independent_bytes() {
    // Flipping the case of the other three bytes leaves each predicate alone.
    assert_eq!(tag("RuSt").is_critical(), tag("RUst").is_critical());
    assert_eq!(tag("RuSt").is_public(), tag("rust").is_public());
    assert_eq!(tag("RuSt").is_reserved_bit_valid(), tag("ruST").is_reserved_bit_valid());
    assert_eq!(tag("RuSt").is_safe_to_copy(), tag("RUSt").is_safe_to_copy());
}

#[test]
fn test_tag_to_text() {
    assert_eq!(tag("RuSt").to_text(), "RuSt");
}

#[test]
fn test_chunk_to_text_exact() {
    let chunk = Chunk::new(tag("TeSt"), vec![1, 2]);
    let expected = format!("Chunk {{ length: 2, type: TeSt, data: [1, 2], crc: {} }}", chunk.crc);
    assert_eq!(chunk.to_text(), expected);
}

#[test]
fn test_png_decode_header_only() {
    let png = Png::decode(&MAGIC).unwrap();
    assert_eq!(png.chunks().len(), 0);
    assert_eq!(png.as_bytes(), MAGIC.to_vec());
}

#[test]
fn test_png_header_gate() {
    let mut bytes = MAGIC.to_vec();
    bytes[0] = 0x88;
    match Png::decode(&bytes).unwrap_err().kind {
        PngErrorKind::BadHeader { received } => {
            assert_eq!(received, vec![0x88, 0x50, 0x4E, 0x47, 0x0D, 0x0A, 0x1A, 0x0A]);
        }
        _ => panic!("expected a bad-header failure"),
    }
    // A short input cannot begin with the 8-byte header either.
    match Png::decode(&[0x89, 0x50]).unwrap_err().kind {
        PngErrorKind::BadHeader { received } => assert_eq!(received, vec![0x89, 0x50]),
        _ => panic!("expected a bad-header failure"),
    }
}

#[test]
fn test_png_truncated_stream() {
    let mut bytes = MAGIC.to_vec();
    // Declares 5 payload bytes but the input ends after the tag.
    bytes.extend_from_slice(&[0, 0, 0, 5]);
    bytes.extend_from_slice(b"RuSt");
    assert!(matches!(
        Png::decode(&bytes).unwrap_err().kind,
        PngErrorKind::Truncated
    ));
}

#[test]
fn test_png_invalid_chunk() {
    let mut bytes = MAGIC.to_vec();
    bytes.extend_from_slice(&chunk_window(5, b"RuSt", b"hello", 12345));
    assert!(matches!(
        Png::decode(&bytes).unwrap_err().kind,
        PngErrorKind::InvalidChunk(ChunkError::ChecksumMismatch)
    ));
}

#[test]
fn test_png_round_trip() {
    let chunks = vec![
        Chunk::new(tag("FrSt"), b"first chunk".to_vec()),
        Chunk::new(tag("miDl"), vec![]),
        Chunk::new(tag("LaSt"), b"last".to_vec()),
    ];
    let png = Png::from_chunks(chunks);
    let bytes = png.as_bytes();
    let back = Png::decode(&bytes).unwrap();
    assert_eq!(back.chunks().len(), 3);
    for (a, b) in png.chunks().iter().zip(back.chunks().iter()) {
        assert_eq!(a.length, b.length);
        assert_eq!(a.chunk_type, b.chunk_type);
        assert_eq!(a.message, b.message);
        assert_eq!(a.crc, b.crc);
    }
    assert_eq!(back.as_bytes(), bytes);
}

#[test]
fn test_png_trailing_short_tail_is_end_of_stream() {
    let mut bytes = MAGIC.to_vec();
    let chunk = Chunk::new(tag("TeSt"), vec![1]);
    bytes.extend_from_slice(&chunk.as_bytes());
    // Fewer than 4 bytes remain: decoding stops at end of stream.
    bytes.extend_from_slice(&[9, 9, 9]);
    let png = Png::decode(&bytes).unwrap();
    assert_eq!(png.chunks().len(), 1);
}

#[test]
fn test_png_append_chunk() {
    let mut png = Png::from_chunks(vec![Chunk::new(tag("FrSt"), vec![1])]);
    png.append_chunk(Chunk::new(tag("LaSt"), vec![2]));
    assert_eq!(png.chunks().len(), 2);
    assert_eq!(png.chunks()[1].chunk_type, *b"LaSt");
}

#[test]
fn test_remove_then_lookup() {
    let mut png = Png::from_chunks(vec![
        Chunk::new(tag("DupE"), b"one".to_vec()),
        Chunk::new(tag("miDl"), b"mid".to_vec()),
        Chunk::new(tag("DupE"), b"two".to_vec()),
    ]);
    let removed = png.remove_chunk(tag("DupE")).unwrap();
    assert_eq!(removed.message, b"one".to_vec());
    // The lookup now finds the next remaining match.
    let found = png.chunk_by_type(tag("DupE")).unwrap();
    assert_eq!(found.message, b"two".to_vec());
    assert_eq!(png.chunks().len(), 2);
    let removed = png.remove_chunk(tag("DupE")).unwrap();
    assert_eq!(removed.message, b"two".to_vec());
    assert!(png.chunk_by_type(tag("DupE")).is_none());
}

#[test]
fn test_remove_chunk_not_found() {
    let mut png = Png::from_chunks(vec![Chunk::new(tag("FrSt"), vec![1])]);
    let err = png.remove_chunk(tag("RuSt")).unwrap_err();
    assert_eq!(err.chunk_type, "RuSt");
    assert_eq!(png.chunks().len(), 1);
}

#[test]
fn test_chunk_by_type_first_match() {
    let png = Png::from_chunks(vec![
        Chunk::new(tag("DupE"), b"one".to_vec()),
        Chunk::new(tag("DupE"), b"two".to_vec()),
    ]);
    assert_eq!(png.chunk_by_type(tag("DupE")).unwrap().message, b"one".to_vec());
    assert!(png.chunk_by_type(tag("NoNe")).is_none());
}

#[test]
fn test_png_to_text() {
    let png = Png::from_chunks(vec![
        Chunk::new(tag("TeSt"), vec![1, 2]),
        Chunk::new(tag("TeSt"), vec![3]),
    ]);
    let expected = format!(
        "{}{}",
        png.chunks()[0].to_text(),
        png.chunks()[1].to_text()
    );
    assert_eq!(png.to_text(), expected);
}

#[test]
fn test_boxed_decode_error() {
    let boxed = PngDecodeError::boxed(PngErrorKind::Truncated);
    assert!(matches!(boxed.kind, PngErrorKind::Truncated));
}

#[test]
fn test_push_be_u32() {
    let mut out = Vec::new();
    push_be_u32(&mut out, 0x01020304);
    assert_eq!(out, vec![1, 2, 3, 4]);
    let mut out = Vec::new();
    push_be_u32(&mut out, u32::MAX);
    assert_eq!(out, vec![255, 255, 255, 255]);
}
