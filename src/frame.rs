//! Decoding of one frame record: a chain of typed sub-chunks, an image
//! followed by a name, walked by the offsets stored in their headers.
//!
//! Navigation is offset-based: the 24-bit `next` field of a sub-chunk header
//! gives the distance from the end of that header to the next header, and a
//! `next` of zero marks the last sub-chunk of the frame. An image sub-chunk
//! must hold its whole payload and its reserved footer; a name sub-chunk
//! always closes the frame, and needs an image before it.
use vstd::prelude::*;
use vstd::string::StringSliceAdditionalSpecFns;
use vstd::utf8::*;

use crate::sss_structs::{
    byte_size, byte_size_spec, le16, le24, SssfChunkHeader, SssfFrameChunkHeader,
    SssfFullNameChunk, SssfImageChunkFooter, CHUNK_TYPE_DXT1, CHUNK_TYPE_FULL_NAME,
    SSSF_CHUNK_HEADER_SIZE, SSSF_FRAME_HEADER_SIZE,
};

verus! {

/// Why a frame record could not be decoded.
#[derive(Debug, Clone, Copy, PartialEq, Eq, Structural)]
pub enum FrameError {
    /// A sub-chunk, or the offset to the next one, runs past the record's end.
    Truncated,
    /// A sub-chunk type outside the known set; the byte is kept.
    UnknownSubChunkType(u8),
    /// A name sub-chunk came before any image sub-chunk.
    MissingImageBeforeName,
    /// A second image sub-chunk came before the name.
    MultipleImages,
    /// The name buffer is not valid UTF-8.
    MalformedName,
}

/// One decoded frame.
#[derive(Debug, Clone)]
pub struct SssfData {
    pub width: u16,
    pub height: u16,
    /// The BC1 payload, [`crate::sss_structs::byte_size`] bytes long.
    pub data: Vec<u8>,
    /// The frame's name; `None` when the chain ended without a name sub-chunk.
    pub name: Option<String>,
}

/// The plain content of a decoded frame: width, height, payload, name.
pub type FrameModel = (u16, u16, Seq<u8>, Option<Seq<char>>);

impl View for SssfData {
    type V = FrameModel;

    open spec fn view(&self) -> FrameModel {
        (
            self.width,
            self.height,
            self.data@,
            match self.name {
                Some(n) => Some(n@),
                None => None,
            },
        )
    }
}

/// The length of the NUL-terminated string at the front of `b`: the index
/// of its first zero byte, or its whole length when it holds none.
pub open spec fn c_string_len(b: Seq<u8>) -> int
    decreases b.len(),
{
    if b.len() == 0 || b[0] == 0 {
        0
    } else {
        1 + c_string_len(b.subrange(1, b.len() as int))
    }
}

/// The name held by a name buffer: when the whole buffer is valid UTF-8, the
/// characters before its first NUL; otherwise nothing.
pub open spec fn decode_name(b: Seq<u8>) -> Option<Seq<char>> {
    if valid_utf8(b) {
        Some(decode_utf8(b.subrange(0, c_string_len(b))))
    } else {
        None
    }
}

/// The result of walking the sub-chunk chain of `s` from the header at `pos`,
/// where `img` holds the image sub-chunk met so far, if any.
pub open spec fn walk(s: Seq<u8>, pos: int, img: Option<(u16, u16, Seq<u8>)>) -> Result<
    FrameModel,
    FrameError,
>
    decreases s.len() - pos,
{
    if pos < 0 || pos + 4 > s.len() {
        Err(FrameError::Truncated)
    } else {
        let t = s[pos];
        let next = le24(s, pos + 1);
        let body = pos + 4;
        if t == CHUNK_TYPE_DXT1 {
            if img is Some {
                Err(FrameError::MultipleImages)
            } else if body + 12 > s.len() {
                Err(FrameError::Truncated)
            } else {
                let w = le16(s, body) as u16;
                let h = le16(s, body + 2) as u16;
                let pay_end = body + 12 + byte_size_spec(w as int, h as int);
                if pay_end + 12 > s.len() {
                    Err(FrameError::Truncated)
                } else if next == 0 {
                    Ok((w, h, s.subrange(body + 12, pay_end), None))
                } else if body + next > s.len() {
                    Err(FrameError::Truncated)
                } else {
                    walk(s, body + next, Some((w, h, s.subrange(body + 12, pay_end))))
                }
            }
        } else if t == CHUNK_TYPE_FULL_NAME {
            match img {
                None => Err(FrameError::MissingImageBeforeName),
                Some(im) => if body + 12 > s.len() {
                    Err(FrameError::Truncated)
                } else {
                    match decode_name(s.subrange(body, body + 12)) {
                        None => Err(FrameError::MalformedName),
                        Some(n) => Ok((im.0, im.1, im.2, Some(n))),
                    }
                },
            }
        } else {
            Err(FrameError::UnknownSubChunkType(t))
        }
    }
}

/// The frame held by the bytes of one record, whose first sub-chunk header
/// starts at offset zero.
pub open spec fn decode_frame(s: Seq<u8>) -> Result<FrameModel, FrameError> {
    walk(s, 0, None)
}

/// Relies on std::str::from_utf8: `Ok` exactly when the bytes are valid
/// UTF-8, holding a string slice over those same bytes.
#[verifier::external_body]
fn utf8_str(b: &[u8]) -> (r: Option<&str>)
    ensures
        r is Some <==> valid_utf8(b@),
        r matches Some(s) ==> s.spec_bytes() == b@,
{
    std::str::from_utf8(b).ok()
}

proof fn lemma_c_string_len(b: Seq<u8>, k: int)
    requires
        0 <= k <= b.len(),
        forall|j: int| 0 <= j < k ==> b[j] != 0,
        k < b.len() ==> b[k] == 0,
    ensures
        c_string_len(b) == k,
    decreases k,
{
    if k > 0 {
        let t = b.subrange(1, b.len() as int);
        assert forall|j: int| 0 <= j < k - 1 implies t[j] != 0 by {
            assert(t[j] == b[j + 1]);
        }
        lemma_c_string_len(t, k - 1);
    }
}

/// Reads a NUL-padded name buffer: the text before the first NUL byte, or
/// the whole buffer when it holds no NUL. `None` when the buffer is not
/// valid UTF-8.
pub fn str_from_c_string(slice: &[u8]) -> (r: Option<String>)
    ensures
        match r {
            Some(s) => decode_name(slice@) == Some(s@),
            None => decode_name(slice@) is None,
        },
{
    let s = match utf8_str(slice) {
        None => return None,
        Some(s) => s,
    };
    let mut k: usize = 0;
    while k < slice.len() && slice[k] != 0
        invariant
            k <= slice@.len(),
            forall|j: int| 0 <= j < k ==> slice@[j] != 0,
        decreases slice@.len() - k,
    {
        k = k + 1;
    }
    proof {
        lemma_c_string_len(slice@, k as int);
        if k < slice@.len() {
            is_char_boundary_iff_not_is_continuation_byte(slice@, k as int);
        } else {
            is_char_boundary_start_end_of_seq(slice@);
        }
    }
    let (head, _) = s.split_at(k);
    let name = head.to_owned();
    proof {
        encode_utf8_decode_utf8(head@);
        assert(head.spec_bytes() =~= slice@.subrange(0, k as int));
    }
    Some(name)
}

/// Copies `b[from..to]` into a new vector.
fn copy_range(b: &[u8], from: usize, to: usize) -> (r: Vec<u8>)
    requires
        from <= to <= b@.len(),
    ensures
        r@ == b@.subrange(from as int, to as int),
{
    let mut v: Vec<u8> = Vec::with_capacity(to - from);
    let mut i = from;
    while i < to
        invariant
            from <= i <= to <= b@.len(),
            v@ == b@.subrange(from as int, i as int),
        decreases to - i,
    {
        v.push(b[i]);
        assert(v@ =~= b@.subrange(from as int, i + 1));
        i = i + 1;
    }
    v
}

/// The plain content of the image met so far.
pub open spec fn image_model(img: Option<(u16, u16, Vec<u8>)>) -> Option<(u16, u16, Seq<u8>)> {
    match img {
        Some(im) => Some((im.0, im.1, im.2@)),
        None => None,
    }
}

/// Decodes the frame held by the payload of one container record.
pub fn read_sssf_frame(data: &[u8]) -> (r: Result<SssfData, FrameError>)
    ensures
        match r {
            Ok(f) => decode_frame(data@) == Ok::<_, FrameError>(f@),
            Err(e) => decode_frame(data@) == Err::<FrameModel, _>(e),
        },
{
    let len = data.len();
    let mut pos: usize = 0;
    let mut image: Option<(u16, u16, Vec<u8>)> = None;
    loop
        invariant
            pos <= data@.len() == len,
            decode_frame(data@) == walk(data@, pos as int, image_model(image)),
        decreases data@.len() - pos,
    {
        let hdr = match SssfChunkHeader::read(data, pos) {
            None => return Err(FrameError::Truncated),
            Some(h) => h,
        };
        let next = hdr.next();
        let body = pos + SSSF_CHUNK_HEADER_SIZE;
        assert(hdr.next@ == data@.subrange(pos + 1, pos + 4));
        assert(le24(hdr.next@, 0) == le24(data@, pos + 1));
        if hdr.chunk_type == CHUNK_TYPE_DXT1 {
            if image.is_some() {
                return Err(FrameError::MultipleImages);
            }
            let fh = match SssfFrameChunkHeader::read(data, body) {
                None => return Err(FrameError::Truncated),
                Some(f) => f,
            };
            let n = byte_size(fh.width, fh.height);
            let pay_start = body + SSSF_FRAME_HEADER_SIZE;
            if data.len() - pay_start < n {
                return Err(FrameError::Truncated);
            }
            let pay_end = pay_start + n;
            if SssfImageChunkFooter::read(data, pay_end).is_none() {
                return Err(FrameError::Truncated);
            }
            let payload = copy_range(data, pay_start, pay_end);
            if next == 0 {
                return Ok(SssfData { width: fh.width, height: fh.height, data: payload, name: None });
            }
            if next as usize > data.len() - body {
                return Err(FrameError::Truncated);
            }
            pos = body + next as usize;
            image = Some((fh.width, fh.height, payload));
        } else if hdr.chunk_type == CHUNK_TYPE_FULL_NAME {
            match image {
                None => return Err(FrameError::MissingImageBeforeName),
                Some((w, h, p)) => {
                    let nc = match SssfFullNameChunk::read(data, body) {
                        None => return Err(FrameError::Truncated),
                        Some(nc) => nc,
                    };
                    return match str_from_c_string(&nc.name) {
                        None => Err(FrameError::MalformedName),
                        Some(name) => Ok(SssfData { width: w, height: h, data: p, name: Some(name) }),
                    };
                },
            }
        } else {
            return Err(FrameError::UnknownSubChunkType(hdr.chunk_type));
        }
    }
}

/// A sub-chunk type other than image and name stops the walk with an error
/// that carries the type byte, wherever in the chain the sub-chunk stands.
pub proof fn lemma_unknown_sub_chunk_type(
    s: Seq<u8>,
    pos: int,
    img: Option<(u16, u16, Seq<u8>)>,
)
    requires
        0 <= pos,
        pos + 4 <= s.len(),
        s[pos] != CHUNK_TYPE_DXT1,
        s[pos] != CHUNK_TYPE_FULL_NAME,
    ensures
        walk(s, pos, img) == Err::<FrameModel, _>(FrameError::UnknownSubChunkType(s[pos])),
{
}

/// A name sub-chunk met before any image sub-chunk is an error.
pub proof fn lemma_name_before_image(s: Seq<u8>, pos: int)
    requires
        0 <= pos,
        pos + 4 <= s.len(),
        s[pos] == CHUNK_TYPE_FULL_NAME,
    ensures
        walk(s, pos, None) == Err::<FrameModel, _>(FrameError::MissingImageBeforeName),
{
}

/// The two little-endian bytes of `v`.
pub open spec fn le16_bytes(v: int) -> Seq<u8> {
    seq![(v % 256) as u8, ((v / 256) % 256) as u8]
}

/// The three little-endian bytes of `v`.
pub open spec fn le24_bytes(v: int) -> Seq<u8> {
    seq![(v % 256) as u8, ((v / 256) % 256) as u8, ((v / 65536) % 256) as u8]
}

/// An image sub-chunk whose header points `next` bytes ahead, with zeroed
/// padding and footer.
pub open spec fn encode_image_sub_chunk(w: u16, h: u16, payload: Seq<u8>, next: int) -> Seq<u8> {
    seq![CHUNK_TYPE_DXT1] + le24_bytes(next) + le16_bytes(w as int) + le16_bytes(h as int)
        + Seq::new(8, |i: int| 0u8) + payload + Seq::new(12, |i: int| 0u8)
}

/// A name sub-chunk that closes the chain.
pub open spec fn encode_name_sub_chunk(name: Seq<u8>) -> Seq<u8> {
    seq![CHUNK_TYPE_FULL_NAME, 0u8, 0u8, 0u8] + name
}

/// A frame record: an image sub-chunk pointing at the name sub-chunk
/// that follows it.
pub open spec fn encode_frame(w: u16, h: u16, payload: Seq<u8>, name: Seq<u8>) -> Seq<u8> {
    encode_image_sub_chunk(w, h, payload, payload.len() + 24int) + encode_name_sub_chunk(name)
}

/// True when `encode_frame(w, h, payload, name)` is well formed: the payload
/// has the BC1 size of the dimensions, the offset fits in 24 bits, and the
/// name buffer has its fixed width.
pub open spec fn frame_fields_fit(w: u16, h: u16, payload: Seq<u8>, name: Seq<u8>) -> bool {
    &&& payload.len() == byte_size_spec(w as int, h as int)
    &&& payload.len() + 24 < 16777216
    &&& name.len() == 12
}

proof fn lemma_le16_bytes(v: int)
    requires
        0 <= v <= 65535,
    ensures
        le16(le16_bytes(v), 0) == v,
{
    assert(v % 256 + 256 * ((v / 256) % 256) == v) by (nonlinear_arith)
        requires
            0 <= v <= 65535,
    ;
}

proof fn lemma_le24_bytes(v: int)
    requires
        0 <= v < 16777216,
    ensures
        le24(le24_bytes(v), 0) == v,
{
    assert(v % 256 + 256 * ((v / 256) % 256) + 65536 * ((v / 65536) % 256) == v)
        by (nonlinear_arith)
        requires
            0 <= v < 16777216,
    ;
}

/// The length of a frame record: 44 bytes of headers, padding, footer and
/// name around the payload.
pub proof fn lemma_encode_frame_len(w: u16, h: u16, payload: Seq<u8>, name: Seq<u8>)
    requires
        name.len() == 12,
    ensures
        encode_frame(w, h, payload, name).len() == payload.len() + 44,
{
}

/// A well-formed synthetic frame record decodes to its own dimensions,
/// payload and name; a name buffer that is not UTF-8 is reported as such.
pub proof fn lemma_frame_round_trip(w: u16, h: u16, payload: Seq<u8>, name: Seq<u8>)
    requires
        frame_fields_fit(w, h, payload, name),
    ensures
        decode_frame(encode_frame(w, h, payload, name)) == match decode_name(name) {
            Some(n) => Ok::<FrameModel, FrameError>((w, h, payload, Some(n))),
            None => Err(FrameError::MalformedName),
        },
{
    let n = payload.len() as int;
    let s = encode_frame(w, h, payload, name);
    let next = n + 24;
    lemma_le24_bytes(next);
    lemma_le16_bytes(w as int);
    lemma_le16_bytes(h as int);
    assert(s.len() == n + 44);
    assert(s[0] == CHUNK_TYPE_DXT1);
    assert(s.subrange(1, 4) =~= le24_bytes(next));
    assert(le24(s, 1) == le24(s.subrange(1, 4), 0));
    assert(s.subrange(4, 6) =~= le16_bytes(w as int));
    assert(le16(s, 4) == le16(s.subrange(4, 6), 0));
    assert(s.subrange(6, 8) =~= le16_bytes(h as int));
    assert(le16(s, 6) == le16(s.subrange(6, 8), 0));
    assert(s.subrange(16, 16 + n) =~= payload);
    assert(s[n + 28] == CHUNK_TYPE_FULL_NAME);
    assert(s.subrange(n + 32, n + 44) =~= name);
    assert(walk(s, 0, None) == walk(s, n + 28, Some((w, h, payload))));
}

} // verus!
