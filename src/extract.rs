//! Decoding a whole container: every record is read, then decoded as one
//! frame, in file order. Any failure aborts the whole extraction.
use vstd::prelude::*;

use crate::frame::{
    decode_frame, decode_name, encode_frame, frame_fields_fit, lemma_encode_frame_len,
    lemma_frame_round_trip, read_sssf_frame, FrameError, FrameModel, SssfData,
};
use crate::iff::{
    encode_chunks, lemma_round_trip, parse_chunks, read_chunks, sizes_fit, views, IffError,
};
use vstd::utf8::valid_utf8;

verus! {

/// Why a container could not be decoded.
#[derive(Debug, Clone, Copy, PartialEq, Eq, Structural)]
pub enum ExtractError {
    /// The container's records could not be read.
    Container(IffError),
    /// The record at this index (counted from zero) holds no valid frame.
    Frame(usize, FrameError),
}

/// The frames held by records `cs`, the first of which has index `base`,
/// or the first failure met, with its record's index.
pub open spec fn decode_records(cs: Seq<(u32, Seq<u8>)>, base: int) -> Result<
    Seq<FrameModel>,
    ExtractError,
>
    decreases cs.len(),
{
    if cs.len() == 0 {
        Ok(seq![])
    } else {
        match decode_frame(cs[0].1) {
            Err(e) => Err(ExtractError::Frame(base as usize, e)),
            Ok(f) => match decode_records(cs.subrange(1, cs.len() as int), base + 1) {
                Ok(rest) => Ok(seq![f] + rest),
                Err(e) => Err(e),
            },
        }
    }
}

/// The frames held by the container `bytes`, in file order.
pub open spec fn extract_spec(bytes: Seq<u8>) -> Result<Seq<FrameModel>, ExtractError> {
    match parse_chunks(bytes) {
        Err(e) => Err(ExtractError::Container(e)),
        Ok(cs) => decode_records(cs, 0),
    }
}

/// The plain content of a run of decoded frames.
pub open spec fn frame_views(v: Seq<SssfData>) -> Seq<FrameModel> {
    v.map_values(|f: SssfData| f@)
}

proof fn lemma_decode_records_step(cs: Seq<(u32, Seq<u8>)>, i: int)
    requires
        0 <= i < cs.len(),
    ensures
        decode_records(cs.subrange(i, cs.len() as int), i) == match decode_frame(cs[i].1) {
            Err(e) => Err(ExtractError::Frame(i as usize, e)),
            Ok(f) => match decode_records(cs.subrange(i + 1, cs.len() as int), i + 1) {
                Ok(rest) => Ok(seq![f] + rest),
                Err(e) => Err(e),
            },
        },
{
    let t = cs.subrange(i, cs.len() as int);
    assert(t[0] == cs[i]);
    assert(t.subrange(1, t.len() as int) =~= cs.subrange(i + 1, cs.len() as int));
}

/// Reads every record of a container and decodes each as one frame.
pub fn extract_frames(bytes: Vec<u8>) -> (r: Result<Vec<SssfData>, ExtractError>)
    ensures
        match r {
            Ok(v) => extract_spec(bytes@) == Ok::<_, ExtractError>(frame_views(v@)),
            Err(e) => extract_spec(bytes@) == Err::<Seq<FrameModel>, _>(e),
        },
{
    let chunks = match read_chunks(bytes) {
        Err(e) => return Err(ExtractError::Container(e)),
        Ok(c) => c,
    };
    let ghost cs = views(chunks@);
    assert(cs.subrange(0, cs.len() as int) =~= cs);
    let mut out: Vec<SssfData> = Vec::new();
    let mut i: usize = 0;
    while i < chunks.len()
        invariant
            i <= chunks@.len() == cs.len(),
            cs == views(chunks@),
            decode_records(cs, 0) == match decode_records(
                cs.subrange(i as int, cs.len() as int),
                i as int,
            ) {
                Ok(rest) => Ok(frame_views(out@) + rest),
                Err(e) => Err::<Seq<FrameModel>, _>(e),
            },
            parse_chunks(bytes@) == Ok::<_, IffError>(cs),
        decreases chunks@.len() - i,
    {
        proof {
            lemma_decode_records_step(cs, i as int);
            assert(cs[i as int] == chunks@[i as int]@);
        }
        match read_sssf_frame(chunks[i].data.as_slice()) {
            Err(e) => {
                return Err(ExtractError::Frame(i, e));
            },
            Ok(f) => {
                proof {
                    match decode_records(cs.subrange(i + 1, cs.len() as int), i + 1) {
                        Ok(tail) => {
                            assert(frame_views(out@.push(f)) =~= frame_views(out@) + seq![f@]);
                            assert(frame_views(out@) + seq![f@] + tail =~= frame_views(out@) + (
                            seq![f@] + tail));
                        },
                        Err(_) => {},
                    }
                }
                out.push(f);
            },
        }
        i = i + 1;
    }
    assert(cs.subrange(i as int, cs.len() as int) =~= Seq::<(u32, Seq<u8>)>::empty());
    assert(frame_views(out@) + seq![] =~= frame_views(out@));
    Ok(out)
}

/// The fields of a synthetic frame record: tag, width, height, payload and
/// name buffer.
pub type SyntheticFrame = (u32, u16, u16, Seq<u8>, Seq<u8>);

/// The container records that hold synthetic frames `fs`.
pub open spec fn synthetic_records(fs: Seq<SyntheticFrame>) -> Seq<(u32, Seq<u8>)> {
    fs.map_values(|f: SyntheticFrame| (f.0, encode_frame(f.1, f.2, f.3, f.4)))
}

/// What decoding synthetic frames `fs` should give back.
pub open spec fn synthetic_models(fs: Seq<SyntheticFrame>) -> Seq<FrameModel> {
    fs.map_values(|f: SyntheticFrame| (f.1, f.2, f.3, decode_name(f.4)))
}

/// True when every synthetic frame is well formed and its name is UTF-8.
pub open spec fn synthetic_well_formed(fs: Seq<SyntheticFrame>) -> bool {
    forall|i: int|
        0 <= i < fs.len() ==> frame_fields_fit(#[trigger] fs[i].1, fs[i].2, fs[i].3, fs[i].4)
            && valid_utf8(fs[i].4)
}

proof fn lemma_decode_synthetic(fs: Seq<SyntheticFrame>, base: int)
    requires
        synthetic_well_formed(fs),
    ensures
        decode_records(synthetic_records(fs), base) == Ok::<_, ExtractError>(
            synthetic_models(fs),
        ),
    decreases fs.len(),
{
    let cs = synthetic_records(fs);
    if fs.len() > 0 {
        let tl = fs.subrange(1, fs.len() as int);
        assert(synthetic_well_formed(tl)) by {
            assert forall|i: int| 0 <= i < tl.len() implies frame_fields_fit(
                #[trigger] tl[i].1,
                tl[i].2,
                tl[i].3,
                tl[i].4,
            ) && valid_utf8(tl[i].4) by {
                assert(tl[i] == fs[i + 1]);
            }
        }
        lemma_decode_synthetic(tl, base + 1);
        let f = fs[0];
        assert(frame_fields_fit(f.1, f.2, f.3, f.4) && valid_utf8(f.4));
        lemma_frame_round_trip(f.1, f.2, f.3, f.4);
        assert(cs[0] == (f.0, encode_frame(f.1, f.2, f.3, f.4)));
        assert(cs.subrange(1, cs.len() as int) =~= synthetic_records(tl));
        assert(seq![(f.1, f.2, f.3, decode_name(f.4))] + synthetic_models(tl) =~= synthetic_models(
            fs,
        ));
    } else {
        assert(synthetic_models(fs) =~= Seq::<FrameModel>::empty());
    }
}

/// A container written from N well-formed synthetic frames decodes to exactly
/// N frames, in file order, each with its own dimensions, payload and name.
pub proof fn lemma_container_round_trip(fs: Seq<SyntheticFrame>)
    requires
        synthetic_well_formed(fs),
    ensures
        extract_spec(encode_chunks(synthetic_records(fs))) == Ok::<_, ExtractError>(
            synthetic_models(fs),
        ),
        synthetic_models(fs).len() == fs.len(),
{
    let cs = synthetic_records(fs);
    assert(sizes_fit(cs)) by {
        assert forall|i: int| 0 <= i < cs.len() implies #[trigger] cs[i].1.len() + 8
            <= u32::MAX by {
            assert(frame_fields_fit(fs[i].1, fs[i].2, fs[i].3, fs[i].4));
            lemma_encode_frame_len(fs[i].1, fs[i].2, fs[i].3, fs[i].4);
        }
    }
    lemma_round_trip(cs);
    lemma_decode_synthetic(fs, 0);
}

} // verus!
