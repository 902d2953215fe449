//! The stream probe: reads the total frame count and the source audio codec
//! from the diagnostic text of the transcoder's dry run.
use vstd::prelude::*;
use vstd::slice::{slice_subrange, slice_to_vec};
use crate::text::{parse_count, parse_u64, trim, trim_bounds};

verus! {

/// Matches a frame counter in diagnostic text; group 1 is the count.
pub const FRAME_PATTERN: &'static str = r"frame=\s*(\d+)";

/// Matches an audio stream description; group 1 is the codec description.
pub const AUDIO_PATTERN: &'static str = r"Audio:\s*([^,]+)";

/// For each successive match of the regular expression `pattern` in `text`,
/// the bytes of its first capture group, if that group took part.
pub uninterp spec fn regex_groups(pattern: Seq<char>, text: Seq<char>) -> Seq<Option<Seq<u8>>>;

/// Relies on regex::Regex::new and Regex::captures_iter: each match of the
/// pattern, in order, with the text of its first group. A pattern that does
/// not compile gives no match.
#[verifier::external_body]
fn first_groups(pattern: &str, text: &str) -> (r: Vec<Option<Vec<u8>>>)
    ensures
        r.deep_view() == regex_groups(pattern@, text@),
{
    match regex::Regex::new(pattern) {
        Ok(re) => re
            .captures_iter(text)
            .map(|c| c.get(1).map(|m| m.as_str().as_bytes().to_vec()))
            .collect(),
        Err(_) => Vec::new(),
    }
}

/// The largest frame count among the groups that read as one (after
/// trimming); `None` if none does.
pub open spec fn max_frame_count(gs: Seq<Option<Seq<u8>>>) -> Option<u64>
    decreases gs.len(),
{
    if gs.len() == 0 {
        None
    } else {
        let earlier = max_frame_count(gs.drop_last());
        let here = match gs.last() {
            Some(g) => parse_count(trim(g)),
            None => None,
        };
        match (earlier, here) {
            (Some(a), Some(b)) => Some(if a >= b { a } else { b }),
            (Some(a), None) => Some(a),
            (None, h) => h,
        }
    }
}

/// The first group that took part, trimmed.
pub open spec fn first_codec(gs: Seq<Option<Seq<u8>>>) -> Option<Seq<u8>>
    decreases gs.len(),
{
    if gs.len() == 0 {
        None
    } else {
        match gs[0] {
            Some(g) => Some(trim(g)),
            None => first_codec(gs.drop_first()),
        }
    }
}

/// What the probe learns about the source streams.
#[derive(Debug)]
pub struct StreamInfo {
    pub total_frames: u64,
    /// The audio codec description, as UTF-8 text.
    pub audio_codec: Vec<u8>,
}

/// Why the probe failed.
#[derive(Clone, Copy, Debug, PartialEq, Eq, Structural)]
pub enum ProbeError {
    /// No frame count in the diagnostic text.
    NoFrameCount,
    /// No audio codec in the diagnostic text.
    NoAudioCodec,
}

/// The probe's result, given the frame-count groups and the codec groups.
pub open spec fn probe_result(
    info: Result<StreamInfo, ProbeError>,
    frames: Seq<Option<Seq<u8>>>,
    codecs: Seq<Option<Seq<u8>>>,
) -> bool {
    match max_frame_count(frames) {
        None => info == Err::<StreamInfo, ProbeError>(ProbeError::NoFrameCount),
        Some(n) => match first_codec(codecs) {
            None => info == Err::<StreamInfo, ProbeError>(ProbeError::NoAudioCodec),
            Some(c) => info matches Ok(i) && i.total_frames == n && i.audio_codec@ == c,
        },
    }
}

/// A copy of `g` without surrounding whitespace.
fn trimmed(g: &Vec<u8>) -> (r: Vec<u8>)
    ensures
        r@ == trim(g@),
{
    let (lo, hi) = trim_bounds(g.as_slice(), 0, g.len());
    assert(g@.subrange(0, g@.len() as int) =~= g@);
    slice_to_vec(slice_subrange(g.as_slice(), lo, hi))
}

/// The largest frame count among `frame_groups`, and the first codec among
/// `codec_groups`.
pub fn stream_info_from_groups(
    frame_groups: &Vec<Option<Vec<u8>>>,
    codec_groups: &Vec<Option<Vec<u8>>>,
) -> (r: Result<StreamInfo, ProbeError>)
    ensures
        probe_result(r, frame_groups.deep_view(), codec_groups.deep_view()),
{
    let ghost fs = frame_groups.deep_view();
    let mut best: Option<u64> = None;
    let mut i: usize = 0;
    while i < frame_groups.len()
        invariant
            i <= frame_groups@.len(),
            fs == frame_groups.deep_view(),
            best == max_frame_count(fs.subrange(0, i as int)),
        decreases frame_groups@.len() - i,
    {
        let ghost prefix = fs.subrange(0, i + 1);
        assert(prefix.drop_last() =~= fs.subrange(0, i as int));
        assert(prefix.last() == fs[i as int]);
        let here = match &frame_groups[i] {
            Some(g) => {
                assert(g.deep_view() =~= g@);
                assert(fs[i as int] == Some(g@));
                parse_u64(trimmed(g).as_slice())
            },
            None => None,
        };
        best = match (best, here) {
            (Some(a), Some(b)) => Some(if a >= b { a } else { b }),
            (Some(a), None) => Some(a),
            (None, h) => h,
        };
        i = i + 1;
    }
    assert(fs.subrange(0, fs.len() as int) =~= fs);
    let total_frames = match best {
        Some(n) => n,
        None => return Err(ProbeError::NoFrameCount),
    };
    let ghost cs = codec_groups.deep_view();
    let mut j: usize = 0;
    assert(cs.subrange(0, cs.len() as int) =~= cs);
    while j < codec_groups.len()
        invariant
            j <= codec_groups@.len(),
            cs == codec_groups.deep_view(),
            first_codec(cs) == first_codec(cs.subrange(j as int, cs.len() as int)),
            fs == frame_groups.deep_view(),
            max_frame_count(fs) == Some(total_frames),
        decreases codec_groups@.len() - j,
    {
        let ghost rest = cs.subrange(j as int, cs.len() as int);
        assert(rest.drop_first() =~= cs.subrange(j + 1, cs.len() as int));
        match &codec_groups[j] {
            Some(g) => {
                assert(g.deep_view() =~= g@);
                assert(rest[0] == Some(g@));
                let audio_codec = trimmed(g);
                assert(first_codec(rest) == Some(audio_codec@));
                return Ok(StreamInfo { total_frames, audio_codec });
            },
            None => {},
        }
        j = j + 1;
    }
    Err(ProbeError::NoAudioCodec)
}

/// Scans the dry run's diagnostic text for the largest reported frame count
/// and the first reported audio codec.
pub fn parse_stream_info(diagnostics: &str) -> (r: Result<StreamInfo, ProbeError>)
    ensures
        probe_result(
            r,
            regex_groups(FRAME_PATTERN@, diagnostics@),
            regex_groups(AUDIO_PATTERN@, diagnostics@),
        ),
{
    let frames = first_groups(FRAME_PATTERN, diagnostics);
    let codecs = first_groups(AUDIO_PATTERN, diagnostics);
    stream_info_from_groups(&frames, &codecs)
}

} // verus!
