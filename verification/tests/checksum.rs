use fingerprints::checksum::{
    checksum_bytes, digest_chunks, ChecksumEngine, ReadStep, CHUNK_SIZE, EMPTY_DIGEST,
};

const KNOWN_INPUT: &[u8] = b"123456789";
const KNOWN_DIGEST: u64 = 0x6c40df5f0b497347;

#[test]
fn checksum_of_a_known_input() {
    assert_eq!(checksum_bytes(KNOWN_INPUT), KNOWN_DIGEST);
}

#[test]
fn checksum_matches_the_crc_crate() {
    let crc = crc::Crc::<u64>::new(&crc::CRC_64_ECMA_182);
    assert_eq!(checksum_bytes(b"hello"), crc.checksum(b"hello"));
    assert_ne!(checksum_bytes(b"hello"), checksum_bytes(b"hellp"));
}

#[test]
fn empty_input_has_the_constant_digest() {
    assert_eq!(EMPTY_DIGEST, 0);
    assert_eq!(checksum_bytes(b""), EMPTY_DIGEST);
    assert_eq!(ChecksumEngine::new().finalize(), EMPTY_DIGEST);
    assert_eq!(digest_chunks(&Vec::new()), EMPTY_DIGEST);
    assert_eq!(digest_chunks(&vec![Vec::new(), Vec::new()]), EMPTY_DIGEST);
}

#[test]
fn engine_in_one_update_equals_checksum() {
    let mut engine = ChecksumEngine::new();
    engine.update(KNOWN_INPUT);
    assert_eq!(engine.finalize(), KNOWN_DIGEST);
}

#[test]
fn engine_byte_by_byte_equals_checksum() {
    let mut engine = ChecksumEngine::new();
    for byte in KNOWN_INPUT {
        engine.update(&[*byte]);
    }
    assert_eq!(engine.finalize(), KNOWN_DIGEST);
}

#[test]
fn engine_ignores_empty_updates() {
    let mut engine = ChecksumEngine::new();
    engine.update(b"");
    engine.update(b"1234");
    engine.update(b"");
    engine.update(b"56789");
    engine.update(b"");
    assert_eq!(engine.finalize(), KNOWN_DIGEST);
}

#[test]
fn engine_depends_on_the_earlier_chunks() {
    let mut first = ChecksumEngine::new();
    first.update(b"abc");
    first.update(b"def");
    let mut second = ChecksumEngine::new();
    second.update(b"xyz");
    second.update(b"def");
    let only_last = checksum_bytes(b"def");
    let whole = first.finalize();
    assert_eq!(whole, checksum_bytes(b"abcdef"));
    assert_ne!(whole, only_last);
    assert_ne!(whole, second.finalize());
}

#[test]
fn every_two_way_split_gives_the_same_digest() {
    let content: Vec<u8> = (0..200u32).map(|i| (i * 7 + 3) as u8).collect();
    let whole = checksum_bytes(&content);
    for cut in 0..=content.len() {
        let chunks = vec![content[..cut].to_vec(), content[cut..].to_vec()];
        assert_eq!(digest_chunks(&chunks), whole);
    }
}

#[test]
fn tiny_chunks_give_the_same_digest_as_one_chunk() {
    let content: Vec<u8> = (0..1000u32).map(|i| (i % 251) as u8).collect();
    let tiny: Vec<Vec<u8>> = content.iter().map(|b| vec![*b]).collect();
    let threes: Vec<Vec<u8>> = content.chunks(3).map(|c| c.to_vec()).collect();
    let one = vec![content.clone()];
    assert_eq!(digest_chunks(&tiny), digest_chunks(&one));
    assert_eq!(digest_chunks(&threes), digest_chunks(&one));
    assert_eq!(digest_chunks(&one), checksum_bytes(&content));
}

#[test]
fn absorb_read_feeds_only_the_filled_part() {
    let mut engine = ChecksumEngine::new();
    let mut buffer = [0u8; 16];
    buffer[..9].copy_from_slice(KNOWN_INPUT);
    assert_eq!(engine.absorb_read(&buffer, 4), ReadStep::Continue);
    buffer.copy_within(4..9, 0);
    assert_eq!(engine.absorb_read(&buffer, 5), ReadStep::Continue);
    assert_eq!(engine.absorb_read(&buffer, 0), ReadStep::Finished);
    assert_eq!(engine.finalize(), KNOWN_DIGEST);
}

#[test]
fn absorb_read_of_nothing_ends_the_stream() {
    let mut engine = ChecksumEngine::new();
    let buffer = [7u8; 8];
    assert_eq!(engine.absorb_read(&buffer, 0), ReadStep::Finished);
    assert_eq!(engine.finalize(), EMPTY_DIGEST);
}

#[test]
fn chunk_size_is_a_multiple_of_the_block_size() {
    assert_eq!(CHUNK_SIZE, 64 * 4096);
}
