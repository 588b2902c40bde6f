use streaming_shape_tools::iff::read_chunks;
use streaming_shape_tools::{Chunk, ChunkParser, ChunkWriter, IffError};

fn record(tag: u32, data: &[u8]) -> Vec<u8> {
    let mut v = tag.to_le_bytes().to_vec();
    v.extend_from_slice(&((data.len() + 8) as u32).to_le_bytes());
    v.extend_from_slice(data);
    v
}

fn three_records() -> Vec<u8> {
    let mut v = record(0x4652_4d31, &[1, 2, 3]);
    v.extend(record(7, &[]));
    v.extend(record(0x0102_0304, &[9; 20]));
    v
}

#[test]
fn parser_yields_records_in_order() {
    let mut p = ChunkParser::new(three_records());
    assert_eq!(p.next(), Ok(Some(Chunk { fcc: 0x4652_4d31, data: vec![1, 2, 3] })));
    assert_eq!(p.next(), Ok(Some(Chunk { fcc: 7, data: vec![] })));
    assert_eq!(p.next(), Ok(Some(Chunk { fcc: 0x0102_0304, data: vec![9; 20] })));
    assert_eq!(p.next(), Ok(None));
    assert_eq!(p.next(), Ok(None));
}

#[test]
fn zero_size_header_ends_stream() {
    let mut bytes = three_records();
    bytes.extend_from_slice(&[0u8; 8]);
    bytes.extend(record(5, &[1, 1, 1]));
    let chunks = read_chunks(bytes).unwrap();
    assert_eq!(chunks.len(), 3);
    assert_eq!(chunks[2].data, vec![9; 20]);
}

#[test]
fn zero_size_with_nonzero_tag_ends_stream() {
    let mut bytes = record(1, &[4]);
    bytes.extend_from_slice(&[0xAA, 0xBB, 0xCC, 0xDD, 0, 0, 0, 0]);
    assert_eq!(read_chunks(bytes).unwrap().len(), 1);
}

#[test]
fn short_tail_ends_stream() {
    let mut bytes = record(1, &[4]);
    bytes.extend_from_slice(&[1, 2, 3, 4, 5, 6, 7]);
    assert_eq!(read_chunks(bytes).unwrap().len(), 1);
    assert_eq!(read_chunks(vec![]).unwrap().len(), 0);
}

#[test]
fn truncated_payload_is_an_error() {
    let mut bytes = record(1, &[4, 5, 6, 7]);
    bytes.truncate(10);
    let mut p = ChunkParser::new(bytes.clone());
    assert_eq!(p.next(), Err(IffError::TruncatedPayload));
    assert_eq!(p.next(), Ok(None));
    assert_eq!(read_chunks(bytes), Err(IffError::TruncatedPayload));
}

#[test]
fn size_below_header_is_an_error() {
    let bytes = vec![1, 0, 0, 0, 5, 0, 0, 0, 0, 0];
    assert_eq!(read_chunks(bytes), Err(IffError::SizeBelowHeader));
}

#[test]
fn rereading_gives_same_records() {
    let bytes = three_records();
    let first = read_chunks(bytes.clone()).unwrap();
    let second = read_chunks(bytes).unwrap();
    assert_eq!(first, second);
    assert_eq!(first.len(), 3);
}

#[test]
fn writer_output_reads_back() {
    let mut w = ChunkWriter::new();
    let chunks = vec![
        Chunk { fcc: 0x5353_5346, data: vec![1, 2, 3, 4, 5] },
        Chunk { fcc: 0, data: vec![] },
        Chunk { fcc: u32::MAX, data: vec![0xFF; 33] },
    ];
    for c in chunks.clone() {
        assert_eq!(w.append_chunk(c), Ok(()));
    }
    let bytes = w.into_bytes();
    assert_eq!(&bytes[0..8], &[0x46, 0x53, 0x53, 0x53, 13, 0, 0, 0]);
    assert_eq!(bytes.len(), 13 + 8 + 41);
    assert_eq!(read_chunks(bytes).unwrap(), chunks);
}
