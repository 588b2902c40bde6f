//! The IFF-style container: a flat run of records, each an eight-byte header
//! (a four-byte tag, then a little-endian `u32` size that counts the header
//! itself) followed by its payload. A size of zero ends the stream.
use vstd::prelude::*;

use crate::sss_structs::{le32, read_u32_le};

verus! {

/// The width in bytes of a record header.
pub const CHUNK_HEADER_SIZE: usize = 8;

/// One container record.
#[derive(Debug, Clone, PartialEq, Eq)]
pub struct Chunk {
    /// The record's tag, read as a little-endian `u32`.
    pub fcc: u32,
    /// The record's payload.
    pub data: Vec<u8>,
}

impl View for Chunk {
    type V = (u32, Seq<u8>);

    open spec fn view(&self) -> (u32, Seq<u8>) {
        (self.fcc, self.data@)
    }
}

/// Why reading or writing the container failed.
#[derive(Debug, Clone, Copy, PartialEq, Eq, Structural)]
pub enum IffError {
    /// A header declares more payload than the input holds.
    TruncatedPayload,
    /// A header declares a nonzero size smaller than the header itself.
    SizeBelowHeader,
    /// A payload too long for its size to fit in the `u32` size field.
    ChunkTooLarge,
}

/// The declared size of the record whose header starts `s`.
pub open spec fn declared_size(s: Seq<u8>) -> int {
    le32(s, 4)
}

/// True when `s` holds no further record: too short for a header, or a
/// header whose declared size is zero.
pub open spec fn at_stream_end(s: Seq<u8>) -> bool {
    s.len() < 8 || declared_size(s) == 0
}

/// What reading one record from the front of `s` gives, and the bytes
/// left after it.
pub open spec fn read_step(s: Seq<u8>) -> (Result<Option<(u32, Seq<u8>)>, IffError>, Seq<u8>) {
    if at_stream_end(s) {
        (Ok(None), seq![])
    } else if declared_size(s) < 8 {
        (Err(IffError::SizeBelowHeader), seq![])
    } else if declared_size(s) > s.len() {
        (Err(IffError::TruncatedPayload), seq![])
    } else {
        (
            Ok(Some((le32(s, 0) as u32, s.subrange(8, declared_size(s))))),
            s.subrange(declared_size(s), s.len() as int),
        )
    }
}

/// Every record of `s` in order, up to the end of the stream, or the first
/// error met on the way.
pub open spec fn parse_chunks(s: Seq<u8>) -> Result<Seq<(u32, Seq<u8>)>, IffError>
    decreases s.len(),
{
    if at_stream_end(s) {
        Ok(seq![])
    } else if declared_size(s) < 8 {
        Err(IffError::SizeBelowHeader)
    } else if declared_size(s) > s.len() {
        Err(IffError::TruncatedPayload)
    } else {
        match parse_chunks(s.subrange(declared_size(s), s.len() as int)) {
            Ok(rest) => Ok(seq![(le32(s, 0) as u32, s.subrange(8, declared_size(s)))] + rest),
            Err(e) => Err(e),
        }
    }
}

proof fn lemma_parse_step(s: Seq<u8>)
    ensures
        parse_chunks(s) == match read_step(s).0 {
            Ok(Some(c)) => match parse_chunks(read_step(s).1) {
                Ok(rest) => Ok(seq![c] + rest),
                Err(e) => Err(e),
            },
            Ok(None) => Ok(seq![]),
            Err(e) => Err(e),
        },
{
}

/// The four little-endian bytes of `v`.
pub open spec fn le32_bytes(v: int) -> Seq<u8> {
    seq![
        (v % 256) as u8,
        ((v / 256) % 256) as u8,
        ((v / 65536) % 256) as u8,
        ((v / 16777216) % 256) as u8,
    ]
}

/// The bytes of one record: tag, size (header included), payload.
pub open spec fn encode_chunk(c: (u32, Seq<u8>)) -> Seq<u8> {
    le32_bytes(c.0 as int) + le32_bytes(c.1.len() + 8int) + c.1
}

/// The bytes of a run of records, in order.
pub open spec fn encode_chunks(cs: Seq<(u32, Seq<u8>)>) -> Seq<u8>
    decreases cs.len(),
{
    if cs.len() == 0 {
        seq![]
    } else {
        encode_chunk(cs[0]) + encode_chunks(cs.subrange(1, cs.len() as int))
    }
}

/// True when each payload is short enough for its record's size to fit in a `u32`.
pub open spec fn sizes_fit(cs: Seq<(u32, Seq<u8>)>) -> bool {
    forall|i: int| 0 <= i < cs.len() ==> #[trigger] cs[i].1.len() + 8 <= u32::MAX
}

/// The views of a run of chunks.
pub open spec fn views(v: Seq<Chunk>) -> Seq<(u32, Seq<u8>)> {
    v.map_values(|c: Chunk| c@)
}

/// Yields the records of an in-memory container, front to back.
pub struct ChunkParser {
    data: Vec<u8>,
    pos: usize,
}

impl ChunkParser {
    /// The bytes not yet read.
    pub closed spec fn remaining(&self) -> Seq<u8> {
        if self.pos <= self.data@.len() {
            self.data@.subrange(self.pos as int, self.data@.len() as int)
        } else {
            seq![]
        }
    }

    /// Creates a parser over the bytes of a whole container.
    pub fn new(r: Vec<u8>) -> (p: Self)
        ensures
            p.remaining() == r@,
    {
        let p = ChunkParser { data: r, pos: 0 };
        assert(p.data@.subrange(0, p.data@.len() as int) =~= p.data@);
        p
    }

    /// Reads the next record. `Ok(None)` marks the normal end of the stream:
    /// fewer than eight bytes left, or a header whose size is zero. After
    /// the end or an error, nothing further is read.
    pub fn next(&mut self) -> (r: Result<Option<Chunk>, IffError>)
        ensures
            ({
                let (res, rest) = read_step(old(self).remaining());
                &&& final(self).remaining() == rest
                &&& match r {
                    Ok(Some(c)) => res == Ok::<_, IffError>(Some(c@)),
                    Ok(None) => res == Ok::<_, IffError>(None::<(u32, Seq<u8>)>),
                    Err(e) => res == Err::<Option<(u32, Seq<u8>)>, _>(e),
                }
            }),
    {
        let len = self.data.len();
        if self.pos > len || len - self.pos < CHUNK_HEADER_SIZE {
            self.pos = len;
            assert(self.remaining() =~= seq![]);
            return Ok(None);
        }
        let ghost s = self.remaining();
        let start = self.pos;
        assert(forall|i: int| 0 <= i < s.len() ==> s[i] == self.data@[start + i]);
        let fcc = read_u32_le(self.data.as_slice(), start);
        let size = read_u32_le(self.data.as_slice(), start + 4);
        assert(le32(s, 0) == fcc && declared_size(s) == size);
        self.pos = len;
        assert(self.remaining() =~= seq![]);
        if size == 0 {
            return Ok(None);
        }
        if (size as usize) < CHUNK_HEADER_SIZE {
            return Err(IffError::SizeBelowHeader);
        }
        if size as usize > len - start {
            return Err(IffError::TruncatedPayload);
        }
        let end = start + size as usize;
        let mut data: Vec<u8> = Vec::with_capacity(size as usize - CHUNK_HEADER_SIZE);
        let mut i = start + CHUNK_HEADER_SIZE;
        while i < end
            invariant
                start + CHUNK_HEADER_SIZE <= i <= end <= len == self.data@.len(),
                data@ == self.data@.subrange(start + 8, i as int),
            decreases end - i,
        {
            data.push(self.data[i]);
            assert(data@ =~= self.data@.subrange(start + 8, i + 1));
            i = i + 1;
        }
        self.pos = end;
        assert(data@ =~= s.subrange(8, declared_size(s)));
        assert(self.remaining() =~= s.subrange(declared_size(s), s.len() as int));
        Ok(Some(Chunk { fcc, data }))
    }
}

/// Reads every record of a container up to the end of its stream.
/// The result depends on the bytes alone, so reading the same bytes again
/// gives the same records.
pub fn read_chunks(bytes: Vec<u8>) -> (r: Result<Vec<Chunk>, IffError>)
    ensures
        match r {
            Ok(v) => parse_chunks(bytes@) == Ok::<_, IffError>(views(v@)),
            Err(e) => parse_chunks(bytes@) == Err::<Seq<(u32, Seq<u8>)>, _>(e),
        },
{
    let ghost whole = bytes@;
    let mut p = ChunkParser::new(bytes);
    let mut out: Vec<Chunk> = Vec::new();
    loop
        invariant
            whole == bytes@,
            parse_chunks(whole) == match parse_chunks(p.remaining()) {
                Ok(rest) => Ok(views(out@) + rest),
                Err(e) => Err::<Seq<(u32, Seq<u8>)>, _>(e),
            },
        decreases p.remaining().len(),
    {
        let ghost before = p.remaining();
        proof {
            lemma_parse_step(before);
        }
        match p.next() {
            Ok(Some(c)) => {
                proof {
                    let rest = before.subrange(declared_size(before), before.len() as int);
                    assert(p.remaining() == rest);
                    match parse_chunks(rest) {
                        Ok(tail) => {
                            assert(views(out@.push(c)) =~= views(out@) + seq![c@]);
                            assert(views(out@) + seq![c@] + tail
                                =~= views(out@) + (seq![c@] + tail));
                        },
                        Err(_) => {},
                    }
                }
                out.push(c);
            },
            Ok(None) => {
                assert(views(out@) + seq![] =~= views(out@));
                return Ok(out);
            },
            Err(e) => {
                return Err(e);
            },
        }
    }
}

proof fn lemma_le32_bytes(v: int)
    requires
        0 <= v <= u32::MAX,
    ensures
        le32(le32_bytes(v), 0) == v,
{
    let b = le32_bytes(v);
    assert(b[0] == v % 256 && b[1] == (v / 256) % 256 && b[2] == (v / 65536) % 256 && b[3] == (v
        / 16777216) % 256);
    assert(v % 256 + 256 * ((v / 256) % 256) + 65536 * ((v / 65536) % 256) + 16777216 * ((v
        / 16777216) % 256) == v) by (nonlinear_arith)
        requires
            0 <= v <= u32::MAX,
    ;
}

proof fn lemma_parse_concat(cs: Seq<(u32, Seq<u8>)>, t: Seq<u8>)
    requires
        sizes_fit(cs),
    ensures
        parse_chunks(encode_chunks(cs) + t) == match parse_chunks(t) {
            Ok(rest) => Ok(cs + rest),
            Err(e) => Err::<Seq<(u32, Seq<u8>)>, IffError>(e),
        },
    decreases cs.len(),
{
    if cs.len() == 0 {
        assert(encode_chunks(cs) + t =~= t);
        assert(forall|r: Seq<(u32, Seq<u8>)>| cs + r =~= r);
    } else {
        let c = cs[0];
        let tl = cs.subrange(1, cs.len() as int);
        assert(sizes_fit(tl)) by {
            assert forall|i: int| 0 <= i < tl.len() implies #[trigger] tl[i].1.len() + 8
                <= u32::MAX by {
                assert(tl[i] == cs[i + 1]);
            }
        }
        lemma_parse_concat(tl, t);
        let e = encode_chunk(c);
        let after = encode_chunks(tl) + t;
        let s = encode_chunks(cs) + t;
        assert(s =~= e + after);
        assert(c.1.len() + 8 <= u32::MAX) by {
            assert(cs[0] == c);
        }
        let size: int = c.1.len() as int + 8;
        lemma_le32_bytes(c.0 as int);
        lemma_le32_bytes(size);
        assert(s.subrange(0, 4) =~= le32_bytes(c.0 as int));
        assert(s.subrange(4, 8) =~= le32_bytes(size));
        assert(le32(s, 0) == le32(s.subrange(0, 4), 0));
        assert(le32(s, 4) == le32(s.subrange(4, 8), 0));
        assert(declared_size(s) == size);
        assert(s.subrange(8, size) =~= c.1);
        assert(s.subrange(size, s.len() as int) =~= after);
        match parse_chunks(t) {
            Ok(rest) => {
                assert(seq![c] + (tl + rest) =~= cs + rest);
            },
            Err(_) => {},
        }
    }
}

/// Writing a run of records and reading the bytes back yields the same
/// records, in the same order.
pub proof fn lemma_round_trip(cs: Seq<(u32, Seq<u8>)>)
    requires
        sizes_fit(cs),
    ensures
        parse_chunks(encode_chunks(cs)) == Ok::<_, IffError>(cs),
{
    lemma_parse_concat(cs, seq![]);
    assert(encode_chunks(cs) + seq![] =~= encode_chunks(cs));
    assert(cs + seq![] =~= cs);
}

/// A header whose size is zero ends the stream without an error: the records
/// before it are read, and nothing after it.
pub proof fn lemma_zero_size_ends_stream(cs: Seq<(u32, Seq<u8>)>, t: Seq<u8>)
    requires
        sizes_fit(cs),
        t.len() >= 8,
        declared_size(t) == 0,
    ensures
        parse_chunks(encode_chunks(cs) + t) == Ok::<_, IffError>(cs),
{
    lemma_parse_concat(cs, t);
    assert(cs + seq![] =~= cs);
}

/// Appends the four little-endian bytes of `v`.
fn push_u32_le(out: &mut Vec<u8>, v: u32)
    ensures
        final(out)@ == old(out)@ + le32_bytes(v as int),
{
    out.push((v % 256) as u8);
    out.push(((v / 256) % 256) as u8);
    out.push(((v / 65536) % 256) as u8);
    out.push(((v / 16777216) % 256) as u8);
    assert(out@ =~= old(out)@ + le32_bytes(v as int));
}

/// Builds the bytes of a container, one record at a time.
pub struct ChunkWriter {
    out: Vec<u8>,
}

impl ChunkWriter {
    /// The bytes written so far.
    pub closed spec fn written(&self) -> Seq<u8> {
        self.out@
    }

    /// Creates a writer that holds no bytes yet.
    pub fn new() -> (w: Self)
        ensures
            w.written() == Seq::<u8>::empty(),
    {
        ChunkWriter { out: Vec::new() }
    }

    /// Appends a record: its tag, its size counting the eight-byte header,
    /// then its payload. A payload too long for that size to fit in a `u32`
    /// is refused and nothing is written.
    pub fn append_chunk(&mut self, chunk: Chunk) -> (r: Result<(), IffError>)
        ensures
            chunk.data@.len() + 8 <= u32::MAX ==> r is Ok && final(self).written() == old(
                self,
            ).written() + encode_chunk(chunk@),
            chunk.data@.len() + 8 > u32::MAX ==> r == Err::<(), IffError>(
                IffError::ChunkTooLarge,
            ) && final(self).written() == old(self).written(),
    {
        let len = chunk.data.len();
        if len > u32::MAX as usize - CHUNK_HEADER_SIZE {
            return Err(IffError::ChunkTooLarge);
        }
        push_u32_le(&mut self.out, chunk.fcc);
        push_u32_le(&mut self.out, (len + CHUNK_HEADER_SIZE) as u32);
        let ghost head = self.out@;
        let mut i: usize = 0;
        while i < len
            invariant
                len == chunk.data@.len(),
                i <= len,
                self.out@ == head + chunk.data@.subrange(0, i as int),
            decreases len - i,
        {
            self.out.push(chunk.data[i]);
            assert(self.out@ =~= head + chunk.data@.subrange(0, i + 1));
            i = i + 1;
        }
        assert(chunk.data@.subrange(0, len as int) =~= chunk.data@);
        assert(self.out@ =~= old(self).written() + encode_chunk(chunk@));
        Ok(())
    }

    /// The bytes written so far, handed over.
    pub fn into_bytes(self) -> (r: Vec<u8>)
        ensures
            r@ == self.written(),
    {
        self.out
    }
}

} // verus!
