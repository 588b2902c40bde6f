use streaming_shape_tools::frame::str_from_c_string;
use streaming_shape_tools::{extract_frames, read_sssf_frame, ExtractError, FrameError, IffError};

fn image_sub_chunk(w: u16, h: u16, payload: &[u8], next: u32) -> Vec<u8> {
    let mut v = vec![0x60];
    v.extend_from_slice(&next.to_le_bytes()[..3]);
    v.extend_from_slice(&w.to_le_bytes());
    v.extend_from_slice(&h.to_le_bytes());
    v.extend_from_slice(&[0u8; 8]);
    v.extend_from_slice(payload);
    v.extend_from_slice(&[0u8; 12]);
    v
}

fn name_sub_chunk(name: &[u8; 12]) -> Vec<u8> {
    let mut v = vec![0x70, 0, 0, 0];
    v.extend_from_slice(name);
    v
}

fn frame(w: u16, h: u16, payload: &[u8], name: &[u8; 12]) -> Vec<u8> {
    let mut v = image_sub_chunk(w, h, payload, payload.len() as u32 + 24);
    v.extend(name_sub_chunk(name));
    v
}

fn record(tag: u32, data: &[u8]) -> Vec<u8> {
    let mut v = tag.to_le_bytes().to_vec();
    v.extend_from_slice(&((data.len() + 8) as u32).to_le_bytes());
    v.extend_from_slice(data);
    v
}

#[test]
fn nul_padded_name_is_cut() {
    assert_eq!(str_from_c_string(b"HERO\0\0\0\0\0\0\0\0"), Some("HERO".to_string()));
}

#[test]
fn name_without_nul_is_whole_buffer() {
    assert_eq!(str_from_c_string(b"ABCDEFGHIJKL"), Some("ABCDEFGHIJKL".to_string()));
}

#[test]
fn name_keeps_utf8_before_nul() {
    let mut b = "é-x".as_bytes().to_vec();
    b.resize(12, 0);
    assert_eq!(str_from_c_string(&b), Some("é-x".to_string()));
    assert_eq!(str_from_c_string(&[0u8; 12]), Some(String::new()));
}

#[test]
fn name_not_utf8_is_refused() {
    assert_eq!(str_from_c_string(&[b'A', 0xFF, 0, 0, 0, 0, 0, 0, 0, 0, 0, 0]), None);
    assert_eq!(str_from_c_string(&[b'A', 0, 0xC3, 0, 0, 0, 0, 0, 0, 0, 0, 0]), None);
}

#[test]
fn decodes_image_then_name() {
    let payload: Vec<u8> = (0..32).collect();
    let bytes = frame(8, 8, &payload, b"HERO\0\0\0\0\0\0\0\0");
    let f = read_sssf_frame(&bytes).unwrap();
    assert_eq!((f.width, f.height), (8, 8));
    assert_eq!(f.data, payload);
    assert_eq!(f.name, Some("HERO".to_string()));
}

#[test]
fn offset_skips_bytes_between_sub_chunks() {
    let payload = [7u8; 8];
    let mut bytes = image_sub_chunk(3, 2, &payload, 12 + 8 + 12 + 5);
    bytes.extend_from_slice(&[0xEE; 5]);
    bytes.extend(name_sub_chunk(b"ABCDEFGHIJKL"));
    let f = read_sssf_frame(&bytes).unwrap();
    assert_eq!((f.width, f.height), (3, 2));
    assert_eq!(f.data, payload.to_vec());
    assert_eq!(f.name, Some("ABCDEFGHIJKL".to_string()));
}

#[test]
fn last_image_without_name_is_anonymous() {
    let bytes = image_sub_chunk(4, 4, &[1; 8], 0);
    let f = read_sssf_frame(&bytes).unwrap();
    assert_eq!(f.data, vec![1; 8]);
    assert_eq!(f.name, None);
}

#[test]
fn unknown_sub_chunk_type_is_an_error() {
    let mut bytes = frame(4, 4, &[0; 8], b"HERO\0\0\0\0\0\0\0\0");
    bytes[0] = 0xFF;
    assert_eq!(read_sssf_frame(&bytes).unwrap_err(), FrameError::UnknownSubChunkType(0xFF));
}

#[test]
fn unknown_type_after_image_is_an_error() {
    let mut bytes = frame(4, 4, &[0; 8], b"HERO\0\0\0\0\0\0\0\0");
    let at = bytes.len() - 16;
    bytes[at] = 0x61;
    assert_eq!(read_sssf_frame(&bytes).unwrap_err(), FrameError::UnknownSubChunkType(0x61));
}

#[test]
fn name_before_image_is_an_error() {
    let mut bytes = name_sub_chunk(b"HERO\0\0\0\0\0\0\0\0");
    bytes[1] = 16;
    bytes.extend(image_sub_chunk(4, 4, &[0; 8], 0));
    assert_eq!(read_sssf_frame(&bytes).unwrap_err(), FrameError::MissingImageBeforeName);
}

#[test]
fn second_image_is_an_error() {
    let mut bytes = image_sub_chunk(4, 4, &[0; 8], 32);
    bytes.extend(image_sub_chunk(4, 4, &[0; 8], 0));
    assert_eq!(read_sssf_frame(&bytes).unwrap_err(), FrameError::MultipleImages);
}

#[test]
fn truncated_sub_chunks_are_errors() {
    let bytes = frame(8, 4, &[0; 16], b"HERO\0\0\0\0\0\0\0\0");
    for cut in [0usize, 3, 10, 20, 40, 47, 52, 59] {
        assert_eq!(read_sssf_frame(&bytes[..cut]).unwrap_err(), FrameError::Truncated, "cut {cut}");
    }
    let mut far = image_sub_chunk(4, 4, &[0; 8], 1000);
    far.extend(name_sub_chunk(b"HERO\0\0\0\0\0\0\0\0"));
    assert_eq!(read_sssf_frame(&far).unwrap_err(), FrameError::Truncated);
}

#[test]
fn malformed_name_is_an_error() {
    let bytes = frame(4, 4, &[0; 8], &[0xFF; 12]);
    assert_eq!(read_sssf_frame(&bytes).unwrap_err(), FrameError::MalformedName);
}

#[test]
fn container_of_frames_round_trips() {
    let names: [&[u8; 12]; 3] = [b"A\0\0\0\0\0\0\0\0\0\0\0", b"WALK_01\0\0\0\0\0", b"RUNNINGFRAME"];
    let dims = [(4u16, 4u16), (5, 9), (16, 2)];
    let mut bytes = Vec::new();
    for i in 0..3 {
        let (w, h) = dims[i];
        let n = ((w as usize + 3) / 4) * ((h as usize + 3) / 4) * 8;
        bytes.extend(record(i as u32, &frame(w, h, &vec![i as u8; n], names[i])));
    }
    bytes.extend_from_slice(&[0u8; 8]);
    let frames = extract_frames(bytes).unwrap();
    assert_eq!(frames.len(), 3);
    assert_eq!((frames[1].width, frames[1].height), (5, 9));
    assert_eq!(frames[1].data.len(), 48);
    assert_eq!(frames[0].name.as_deref(), Some("A"));
    assert_eq!(frames[1].name.as_deref(), Some("WALK_01"));
    assert_eq!(frames[2].name.as_deref(), Some("RUNNINGFRAME"));
}

#[test]
fn extraction_reports_failing_record() {
    let mut bytes = record(0, &frame(4, 4, &[0; 8], b"OK\0\0\0\0\0\0\0\0\0\0"));
    let mut bad = frame(4, 4, &[0; 8], b"BAD\0\0\0\0\0\0\0\0\0");
    bad[0] = 0xFF;
    bytes.extend(record(1, &bad));
    assert_eq!(
        extract_frames(bytes).unwrap_err(),
        ExtractError::Frame(1, FrameError::UnknownSubChunkType(0xFF))
    );
    let mut cut = record(0, &[1, 2, 3]);
    cut.pop();
    assert_eq!(
        extract_frames(cut).unwrap_err(),
        ExtractError::Container(IffError::TruncatedPayload)
    );
}
