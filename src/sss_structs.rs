//! Low-level SSSF format chunks, decoded field by field from little-endian bytes.
use vstd::prelude::*;

verus! {

/// A DXT1 (BC1) compressed image sub-chunk.
pub const CHUNK_TYPE_DXT1: u8 = 0x60;

/// A full name sub-chunk, which closes a frame.
pub const CHUNK_TYPE_FULL_NAME: u8 = 0x70;

/// Width in bytes of an encoded [`SssfChunkHeader`].
pub const SSSF_CHUNK_HEADER_SIZE: usize = 4;

/// Width in bytes of an encoded [`SssfFrameChunkHeader`].
pub const SSSF_FRAME_HEADER_SIZE: usize = 12;

/// Width in bytes of an encoded [`SssfImageChunkFooter`].
pub const SSSF_IMAGE_FOOTER_SIZE: usize = 12;

/// Width in bytes of an encoded [`SssfFullNameChunk`].
pub const SSSF_NAME_SIZE: usize = 12;

/// Little-endian 16-bit value of `s[i..i + 2]`.
pub open spec fn le16(s: Seq<u8>, i: int) -> int {
    s[i] as int + 256 * s[i + 1] as int
}

/// Little-endian 24-bit value of `s[i..i + 3]`.
pub open spec fn le24(s: Seq<u8>, i: int) -> int {
    s[i] as int + 256 * s[i + 1] as int + 65536 * s[i + 2] as int
}

/// Little-endian 32-bit value of `s[i..i + 4]`.
pub open spec fn le32(s: Seq<u8>, i: int) -> int {
    s[i] as int + 256 * s[i + 1] as int + 65536 * s[i + 2] as int + 16777216 * s[i + 3] as int
}

/// Reads a little-endian `u16` at `at`.
pub fn read_u16_le(b: &[u8], at: usize) -> (r: u16)
    requires
        at + 2 <= b@.len(),
    ensures
        r == le16(b@, at as int),
{
    b[at] as u16 + 256 * (b[at + 1] as u16)
}

/// Reads a little-endian `u32` at `at`.
pub fn read_u32_le(b: &[u8], at: usize) -> (r: u32)
    requires
        at + 4 <= b@.len(),
    ensures
        r == le32(b@, at as int),
{
    b[at] as u32 + 256 * (b[at + 1] as u32) + 65536 * (b[at + 2] as u32) + 16777216 * (
    b[at + 3] as u32)
}

/// Relies on u24::u24::from_le_bytes and u24::u24::into_u32: the three bytes
/// read as a little-endian unsigned value, zero-extended to 32 bits.
#[verifier::external_body]
fn u24_le_to_u32(bytes: [u8; 3]) -> (r: u32)
    ensures
        r == le24(bytes@, 0),
{
    u24::u24::from_le_bytes(bytes).into_u32()
}

/// Number of 4-pixel tiles that cover `n` pixels: `ceil(n / 4)`.
pub open spec fn tiles(n: int) -> int {
    (n + 3) / 4
}

/// Number of 4x4 tiles that cover a `width` x `height` image.
pub open spec fn block_count_spec(width: int, height: int) -> int {
    tiles(width) * tiles(height)
}

/// Bytes of BC1 payload for a `width` x `height` image: eight per tile.
pub open spec fn byte_size_spec(width: int, height: int) -> int {
    block_count_spec(width, height) * 8
}

/// What a BC1 decoder produces from `data` for a `width` x `height` image:
/// four bytes (RGBA) per pixel.
pub uninterp spec fn bc1_pixels(data: Seq<u8>, width: int, height: int) -> Seq<u8>;

/// Relies on squish::num_blocks: `(size + 3) / 4` tiles cover `size` pixels.
#[verifier::external_body]
fn num_blocks(size: usize) -> (r: usize)
    requires
        size <= 65535,
    ensures
        r == tiles(size as int),
{
    squish::num_blocks(size)
}

/// Relies on squish::Format::compressed_size for Format::Bc1: the tile count
/// times the eight-byte BC1 block.
#[verifier::external_body]
fn bc1_compressed_size(width: usize, height: usize) -> (r: usize)
    requires
        width <= 65535,
        height <= 65535,
    ensures
        r == byte_size_spec(width as int, height as int),
{
    squish::Format::Bc1.compressed_size(width, height)
}

/// Relies on squish::Format::decompress for Format::Bc1: it fills an RGBA
/// buffer of `out_len == width * height * 4` bytes from the first
/// `byte_size_spec(width, height)` bytes of `data`.
#[verifier::external_body]
fn bc1_decompress(data: &[u8], width: u16, height: u16, out_len: usize) -> (r: Vec<u8>)
    requires
        data@.len() >= byte_size_spec(width as int, height as int),
        out_len == width * height * 4,
    ensures
        r@.len() == out_len,
        r@ == bc1_pixels(data@, width as int, height as int),
{
    let mut out = vec![0u8; out_len];
    squish::Format::Bc1.decompress(data, width as usize, height as usize, &mut out);
    out
}

proof fn lemma_tiles_bounds(n: int)
    requires
        0 <= n <= 65535,
    ensures
        0 <= tiles(n) <= 16384,
        4 * tiles(n) - 4 < n <= 4 * tiles(n),
{
}

proof fn lemma_byte_size_bounds(width: int, height: int)
    requires
        0 <= width <= 65535,
        0 <= height <= 65535,
    ensures
        0 <= block_count_spec(width, height) <= 268435456,
        0 <= byte_size_spec(width, height) <= 2147483648,
{
    lemma_tiles_bounds(width);
    lemma_tiles_bounds(height);
    let a = tiles(width);
    let b = tiles(height);
    assert(0 <= a * b <= 268435456) by (nonlinear_arith)
        requires
            0 <= a <= 16384,
            0 <= b <= 16384,
    ;
}

/// The tile count is `ceil(width / 4) * ceil(height / 4)`, each factor the
/// least `c` with `4 * c >= n`, and the BC1 payload is eight bytes per tile.
pub proof fn lemma_block_geometry(width: int, height: int)
    requires
        1 <= width <= 4096,
        1 <= height <= 4096,
    ensures
        block_count_spec(width, height) == tiles(width) * tiles(height),
        4 * tiles(width) >= width && 4 * (tiles(width) - 1) < width,
        4 * tiles(height) >= height && 4 * (tiles(height) - 1) < height,
        byte_size_spec(width, height) == block_count_spec(width, height) * 8,
        1 <= block_count_spec(width, height) <= 1048576,
{
    lemma_tiles_bounds(width);
    lemma_tiles_bounds(height);
    let a = tiles(width);
    let b = tiles(height);
    assert(1 <= a * b <= 1048576) by (nonlinear_arith)
        requires
            1 <= a <= 1024,
            1 <= b <= 1024,
    ;
}

/// Number of 4x4 tiles that cover a `width` x `height` image.
pub fn block_count(width: u16, height: u16) -> (r: usize)
    ensures
        r == block_count_spec(width as int, height as int),
{
    proof {
        lemma_byte_size_bounds(width as int, height as int);
    }
    num_blocks(width as usize) * num_blocks(height as usize)
}

/// Bytes of BC1 payload stored for a `width` x `height` image.
pub fn byte_size(width: u16, height: u16) -> (r: usize)
    ensures
        r == byte_size_spec(width as int, height as int),
        r == block_count_spec(width as int, height as int) * 8,
{
    bc1_compressed_size(width as usize, height as usize)
}

/// Decompresses a BC1 payload into `width * height` RGBA pixels, or `None`
/// when `data` is shorter than [`byte_size`] of the dimensions or the pixel
/// buffer would not fit in memory.
pub fn decompress_bc1(data: &[u8], width: u16, height: u16) -> (r: Option<Vec<u8>>)
    ensures
        r is Some <==> data@.len() >= byte_size_spec(width as int, height as int) && width
            * height * 4 <= usize::MAX,
        r matches Some(p) ==> p@.len() == width * height * 4 && p@ == bc1_pixels(
            data@,
            width as int,
            height as int,
        ),
{
    let need = byte_size(width, height);
    if data.len() < need {
        return None;
    }
    assert(0 <= width * height <= 65535 * 65535) by (nonlinear_arith)
        requires
            0 <= width <= 65535,
            0 <= height <= 65535,
    ;
    let total: u64 = width as u64 * height as u64 * 4;
    if total > usize::MAX as u64 {
        return None;
    }
    let out_len = total as usize;
    Some(bc1_decompress(data, width, height, out_len))
}

/// The header of an SSSF sub-chunk: a type byte and a 24-bit offset.
#[derive(Debug, Clone, Copy)]
pub struct SssfChunkHeader {
    /// The sub-chunk type; see [`CHUNK_TYPE_DXT1`] and [`CHUNK_TYPE_FULL_NAME`].
    pub chunk_type: u8,
    /// Offset, from the end of this header, to the next sub-chunk's header.
    pub next: [u8; 3],
}

impl SssfChunkHeader {
    /// The offset to the next sub-chunk. Zero marks the last sub-chunk of a frame.
    pub fn next(&self) -> (r: u32)
        ensures
            r == le24(self.next@, 0),
            r < 16777216,
    {
        u24_le_to_u32(self.next)
    }

    /// Decodes the header stored at `at`, or `None` when fewer than
    /// four bytes remain there.
    pub fn read(b: &[u8], at: usize) -> (r: Option<Self>)
        ensures
            r is Some <==> at + SSSF_CHUNK_HEADER_SIZE <= b@.len(),
            r matches Some(h) ==> h.chunk_type == b@[at as int] && h.next@ == b@.subrange(
                at + 1,
                at + 4,
            ),
    {
        if at > b.len() || b.len() - at < SSSF_CHUNK_HEADER_SIZE {
            return None;
        }
        let h = SssfChunkHeader { chunk_type: b[at], next: [b[at + 1], b[at + 2], b[at + 3]] };
        assert(h.next@ =~= b@.subrange(at + 1, at + 4));
        Some(h)
    }
}

/// The fixed header of an image sub-chunk.
#[derive(Debug, Clone, Copy)]
pub struct SssfFrameChunkHeader {
    /// The width of this frame.
    pub width: u16,
    /// The height of this frame.
    pub height: u16,
    /// Padding.
    pub padding: [u32; 2],
}

impl SssfFrameChunkHeader {
    /// Decodes the image header stored at `at`, or `None` when fewer than
    /// twelve bytes remain there.
    pub fn read(b: &[u8], at: usize) -> (r: Option<Self>)
        ensures
            r is Some <==> at + SSSF_FRAME_HEADER_SIZE <= b@.len(),
            r matches Some(h) ==> h.width == le16(b@, at as int) && h.height == le16(
                b@,
                at + 2,
            ) && h.padding@ == seq![le32(b@, at + 4) as u32, le32(b@, at + 8) as u32],
    {
        if at > b.len() || b.len() - at < SSSF_FRAME_HEADER_SIZE {
            return None;
        }
        let h = SssfFrameChunkHeader {
            width: read_u16_le(b, at),
            height: read_u16_le(b, at + 2),
            padding: [read_u32_le(b, at + 4), read_u32_le(b, at + 8)],
        };
        assert(h.padding@ =~= seq![le32(b@, at + 4) as u32, le32(b@, at + 8) as u32]);
        Some(h)
    }
}

/// The reserved footer that follows an image's compressed payload.
#[derive(Debug, Clone, Copy)]
pub struct SssfImageChunkFooter {
    pub padding: [u16; 6],
}

impl SssfImageChunkFooter {
    /// Decodes the footer stored at `at`, or `None` when fewer than
    /// twelve bytes remain there.
    pub fn read(b: &[u8], at: usize) -> (r: Option<Self>)
        ensures
            r is Some <==> at + SSSF_IMAGE_FOOTER_SIZE <= b@.len(),
            r matches Some(f) ==> forall|i: int|
                0 <= i < 6 ==> #[trigger] f.padding@[i] == le16(b@, at + 2 * i),
    {
        if at > b.len() || b.len() - at < SSSF_IMAGE_FOOTER_SIZE {
            return None;
        }
        let f = SssfImageChunkFooter {
            padding: [
                read_u16_le(b, at),
                read_u16_le(b, at + 2),
                read_u16_le(b, at + 4),
                read_u16_le(b, at + 6),
                read_u16_le(b, at + 8),
                read_u16_le(b, at + 10),
            ],
        };
        Some(f)
    }
}

/// The name sub-chunk's body: a NUL-padded name.
#[derive(Debug, Clone, Copy)]
pub struct SssfFullNameChunk {
    /// The name of this chunk's frame.
    pub name: [u8; 12],
}

impl SssfFullNameChunk {
    /// Decodes the name buffer stored at `at`, or `None` when fewer than
    /// twelve bytes remain there.
    pub fn read(b: &[u8], at: usize) -> (r: Option<Self>)
        ensures
            r is Some <==> at + SSSF_NAME_SIZE <= b@.len(),
            r matches Some(n) ==> n.name@ == b@.subrange(at as int, at + 12),
    {
        if at > b.len() || b.len() - at < SSSF_NAME_SIZE {
            return None;
        }
        let n = SssfFullNameChunk {
            name: [
                b[at],
                b[at + 1],
                b[at + 2],
                b[at + 3],
                b[at + 4],
                b[at + 5],
                b[at + 6],
                b[at + 7],
                b[at + 8],
                b[at + 9],
                b[at + 10],
                b[at + 11],
            ],
        };
        assert(n.name@ =~= b@.subrange(at as int, at + 12));
        Some(n)
    }
}

} // verus!
