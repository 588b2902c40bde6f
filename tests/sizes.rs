use streaming_shape_tools::sss_structs::{block_count, byte_size, decompress_bc1};

#[test]
fn byte_size_of_one_tile() {
    assert_eq!(byte_size(4, 4), 8);
}

#[test]
fn byte_size_rounds_partial_tiles_up() {
    assert_eq!(byte_size(5, 4), 16);
    assert_eq!(byte_size(1, 1), 8);
    assert_eq!(byte_size(4096, 4096), 1024 * 1024 * 8);
}

#[test]
fn byte_size_of_two_by_two_tiles() {
    assert_eq!(byte_size(8, 8), 32);
}

#[test]
fn block_count_is_product_of_tile_counts() {
    assert_eq!(block_count(4, 4), 1);
    assert_eq!(block_count(5, 9), 6);
    assert_eq!(block_count(13, 1), 4);
    assert_eq!(block_count(0, 7), 0);
    assert_eq!(block_count(65535, 65535), 16384 * 16384);
}

#[test]
fn byte_size_is_eight_per_block() {
    for w in [1u16, 3, 4, 5, 17, 100, 4096] {
        for h in [1u16, 2, 4, 7, 64, 4095] {
            let tiles = ((w as usize + 3) / 4) * ((h as usize + 3) / 4);
            assert_eq!(block_count(w, h), tiles);
            assert_eq!(byte_size(w, h), tiles * 8);
        }
    }
}

#[test]
fn decompress_white_block() {
    let block = [0xFFu8, 0xFF, 0x00, 0x00, 0, 0, 0, 0];
    let pixels = decompress_bc1(&block, 4, 4).unwrap();
    assert_eq!(pixels.len(), 64);
    assert!(pixels.iter().all(|&b| b == 255));
}

#[test]
fn decompress_black_block_crops_to_image() {
    let block = [0xFFu8, 0xFF, 0x00, 0x00, 0x55, 0x55, 0x55, 0x55];
    let pixels = decompress_bc1(&block, 3, 2).unwrap();
    assert_eq!(pixels.len(), 3 * 2 * 4);
    for px in pixels.chunks(4) {
        assert_eq!(px, &[0, 0, 0, 255]);
    }
}

#[test]
fn decompress_refuses_short_payload() {
    assert!(decompress_bc1(&[0u8; 8], 8, 4).is_none());
    assert!(decompress_bc1(&[0u8; 16], 8, 4).is_some());
}
