//! The decisions of the merge job: which tracks to combine, how to treat the
//! audio, and how the transcoder's exit and the log tailer's outcome combine
//! into one result.
use vstd::prelude::*;
use vstd::utf8::encode_utf8;
use crate::probe::ProbeError;
use crate::tailer::TaskKind;
use crate::telemetry::DecodeError;
use crate::text::bytes_equal;

verus! {

/// One source track of a job.
#[derive(Debug)]
pub struct SourceTrack {
    pub kind: TaskKind,
    pub path: Option<String>,
    pub group_id: Option<String>,
}

/// The tracks that a merge works on.
#[derive(Debug)]
pub struct MergeInputs {
    /// The first two tracks' paths, in the job's order: the transcoder's inputs.
    pub first: String,
    pub second: String,
    /// The first video track's path and the first audio track's path: the probe's inputs.
    pub video: String,
    pub audio: String,
    /// The first video track's group id, or empty.
    pub group_id: String,
}

/// Why a merge failed.
#[derive(Clone, Copy, Debug, PartialEq, Eq, Structural)]
pub enum MergeError {
    /// Fewer than two source tracks; carries how many there were.
    TooFewInputs(usize),
    MissingVideoTrack,
    MissingAudioTrack,
    /// A track that the merge needs has no path.
    MissingPath,
    Probe(ProbeError),
    /// The transcoder exited unsuccessfully, with this code (-1 when it has none).
    ProcessFailed(i32),
    /// The log tailer could not decode a snapshot.
    Monitor(DecodeError),
}

/// `i` is the first track of kind `k`.
pub open spec fn is_first_of_kind(s: Seq<SourceTrack>, k: TaskKind, i: int) -> bool {
    &&& 0 <= i < s.len()
    &&& s[i].kind == k
    &&& forall|j: int| 0 <= j < i ==> s[j].kind != k
}

pub open spec fn has_kind(s: Seq<SourceTrack>, k: TaskKind) -> bool {
    exists|i: int| 0 <= i < s.len() && (#[trigger] s[i]).kind == k
}

/// The index of the first track of kind `k` (meaningful when there is one).
pub open spec fn first_of_kind(s: Seq<SourceTrack>, k: TaskKind) -> int {
    choose|i: int| is_first_of_kind(s, k, i)
}

proof fn lemma_first_of_kind(s: Seq<SourceTrack>, k: TaskKind, i: int)
    requires
        is_first_of_kind(s, k, i),
    ensures
        first_of_kind(s, k) == i,
{
    let j = first_of_kind(s, k);
    assert(is_first_of_kind(s, k, j));
    if j < i {
        assert(s[j].kind != k);
    } else if i < j {
        assert(s[i].kind != k);
    }
}

/// The index of the first track of kind `k`.
fn find_kind(tracks: &Vec<SourceTrack>, k: TaskKind) -> (r: Option<usize>)
    ensures
        match r {
            Some(i) => is_first_of_kind(tracks@, k, i as int) && first_of_kind(tracks@, k) == i,
            None => !has_kind(tracks@, k),
        },
{
    let mut i: usize = 0;
    while i < tracks.len()
        invariant
            i <= tracks@.len(),
            forall|j: int| 0 <= j < i ==> tracks@[j].kind != k,
        decreases tracks@.len() - i,
    {
        if tracks[i].kind == k {
            proof {
                lemma_first_of_kind(tracks@, k, i as int);
            }
            return Some(i);
        }
        i = i + 1;
    }
    None
}

/// Every track that the merge reads has a path.
pub open spec fn paths_present(s: Seq<SourceTrack>) -> bool {
    &&& s[0].path.is_some()
    &&& s[1].path.is_some()
    &&& s[first_of_kind(s, TaskKind::Video)].path.is_some()
    &&& s[first_of_kind(s, TaskKind::Audio)].path.is_some()
}

/// The outcome of choosing the merge inputs.
pub open spec fn plan_result(s: Seq<SourceTrack>, r: Result<MergeInputs, MergeError>) -> bool {
    if s.len() < 2 {
        r == Err::<MergeInputs, MergeError>(MergeError::TooFewInputs(s.len() as usize))
    } else if !has_kind(s, TaskKind::Video) {
        r == Err::<MergeInputs, MergeError>(MergeError::MissingVideoTrack)
    } else if !has_kind(s, TaskKind::Audio) {
        r == Err::<MergeInputs, MergeError>(MergeError::MissingAudioTrack)
    } else if !paths_present(s) {
        r == Err::<MergeInputs, MergeError>(MergeError::MissingPath)
    } else {
        let v = s[first_of_kind(s, TaskKind::Video)];
        let a = s[first_of_kind(s, TaskKind::Audio)];
        &&& r matches Ok(m)
        &&& m.first == s[0].path.unwrap()
        &&& m.second == s[1].path.unwrap()
        &&& m.video == v.path.unwrap()
        &&& m.audio == a.path.unwrap()
        &&& m.group_id@ == match v.group_id {
            Some(g) => g@,
            None => Seq::<char>::empty(),
        }
    }
}

fn cloned_path(p: &Option<String>) -> (r: Option<String>)
    ensures
        r == *p,
{
    match p {
        Some(s) => Some(s.clone()),
        None => None,
    }
}

/// Chooses the tracks of a merge. This is the first step of a merge: with
/// fewer than two tracks it fails at once, before any process is started.
pub fn plan_merge(tracks: &Vec<SourceTrack>) -> (r: Result<MergeInputs, MergeError>)
    ensures
        plan_result(tracks@, r),
        tracks@.len() < 2 ==> r == Err::<MergeInputs, MergeError>(
            MergeError::TooFewInputs(tracks@.len() as usize),
        ),
{
    if tracks.len() < 2 {
        return Err(MergeError::TooFewInputs(tracks.len()));
    }
    let vi = match find_kind(tracks, TaskKind::Video) {
        Some(i) => i,
        None => return Err(MergeError::MissingVideoTrack),
    };
    let ai = match find_kind(tracks, TaskKind::Audio) {
        Some(i) => i,
        None => return Err(MergeError::MissingAudioTrack),
    };
    let first = cloned_path(&tracks[0].path);
    let second = cloned_path(&tracks[1].path);
    let video = cloned_path(&tracks[vi].path);
    let audio = cloned_path(&tracks[ai].path);
    match (first, second, video, audio) {
        (Some(first), Some(second), Some(video), Some(audio)) => {
            let group_id = match &tracks[vi].group_id {
                Some(g) => g.clone(),
                None => String::new(),
            };
            Ok(MergeInputs { first, second, video, audio, group_id })
        },
        _ => Err(MergeError::MissingPath),
    }
}

/// The input of an audio extraction: the first audio track's path.
pub fn flac_source(tracks: &Vec<SourceTrack>) -> (r: Result<String, MergeError>)
    ensures
        !has_kind(tracks@, TaskKind::Audio) ==> r == Err::<String, MergeError>(
            MergeError::MissingAudioTrack,
        ),
        has_kind(tracks@, TaskKind::Audio) ==> match tracks@[first_of_kind(
            tracks@,
            TaskKind::Audio,
        )].path {
            Some(p) => r == Ok::<String, MergeError>(p),
            None => r == Err::<String, MergeError>(MergeError::MissingPath),
        },
{
    match find_kind(tracks, TaskKind::Audio) {
        None => Err(MergeError::MissingAudioTrack),
        Some(i) => match cloned_path(&tracks[i].path) {
            Some(p) => Ok(p),
            None => Err(MergeError::MissingPath),
        },
    }
}

/// How the merged output treats the source audio.
#[derive(Clone, Copy, Debug, PartialEq, Eq, Structural)]
pub enum AudioMode {
    /// Copy the audio stream unchanged.
    PassThrough,
    /// Re-encode the audio to the default codec, `aac`.
    Reencode,
}

pub open spec fn utf8_of(s: &str) -> Seq<u8> {
    encode_utf8(s@)
}

/// Containers that accept only a few audio codecs.
pub open spec fn is_strict_container(c: Seq<u8>) -> bool {
    c == utf8_of("mp4") || c == utf8_of("flv")
}

/// Audio codecs that the strict containers accept.
pub open spec fn is_compatible_codec(c: Seq<u8>) -> bool {
    c == utf8_of("aac") || c == utf8_of("mp3")
}

pub open spec fn audio_mode_for(container: Seq<u8>, codec: Seq<u8>) -> AudioMode {
    if is_strict_container(container) && !is_compatible_codec(codec) {
        AudioMode::Reencode
    } else {
        AudioMode::PassThrough
    }
}

/// The audio handling for an output container (its file extension) and a
/// source audio codec, both as UTF-8 bytes.
pub fn audio_mode(container: &[u8], codec: &[u8]) -> (r: AudioMode)
    ensures
        r == audio_mode_for(container@, codec@),
{
    let strict = bytes_equal(container, "mp4".as_bytes()) || bytes_equal(container, "flv".as_bytes());
    let compatible = bytes_equal(codec, "aac".as_bytes()) || bytes_equal(codec, "mp3".as_bytes());
    if strict && !compatible {
        AudioMode::Reencode
    } else {
        AudioMode::PassThrough
    }
}

/// The outcome of a transcoder run with this exit status.
pub open spec fn exit_result(success: bool, code: Option<i32>) -> Result<(), MergeError> {
    if success {
        Ok(())
    } else {
        Err(
            MergeError::ProcessFailed(
                match code {
                    Some(c) => c,
                    None => -1i32,
                },
            ),
        )
    }
}

/// Maps a transcoder's exit status to a result.
pub fn exit_outcome(success: bool, code: Option<i32>) -> (r: Result<(), MergeError>)
    ensures
        r == exit_result(success, code),
{
    if success {
        Ok(())
    } else {
        Err(
            MergeError::ProcessFailed(
                match code {
                    Some(c) => c,
                    None => -1i32,
                },
            ),
        )
    }
}

/// What happened to one of the two concurrent tasks of a merge.
#[derive(Clone, Copy, Debug, PartialEq, Eq, Structural)]
pub enum JoinEvent {
    /// The transcoder exited.
    ProcessExited { success: bool, code: Option<i32> },
    /// The log tailer saw the final snapshot.
    MonitorFinished,
    /// The log tailer failed.
    MonitorFailed(DecodeError),
}

/// Joins the transcoder and the log tailer: the merge succeeds once both
/// have succeeded, and fails with the first failure of either.
pub struct MergeJoin {
    pub process_done: bool,
    pub monitor_done: bool,
    pub outcome: Option<Result<(), MergeError>>,
}

/// The join after `ev`: a decided outcome stays; a failure decides it; a
/// success decides it once the other task has succeeded too.
pub open spec fn join_step(pre: MergeJoin, ev: JoinEvent, post: MergeJoin) -> bool {
    if pre.outcome.is_some() {
        post == pre
    } else {
        match ev {
            JoinEvent::ProcessExited { success, code } => if success {
                &&& post.process_done
                &&& post.monitor_done == pre.monitor_done
                &&& post.outcome == if pre.monitor_done {
                    Some(Ok::<(), MergeError>(()))
                } else {
                    None
                }
            } else {
                &&& post.process_done == pre.process_done
                &&& post.monitor_done == pre.monitor_done
                &&& post.outcome == Some(exit_result(false, code))
            },
            JoinEvent::MonitorFinished => {
                &&& post.monitor_done
                &&& post.process_done == pre.process_done
                &&& post.outcome == if pre.process_done {
                    Some(Ok::<(), MergeError>(()))
                } else {
                    None
                }
            },
            JoinEvent::MonitorFailed(e) => {
                &&& post.process_done == pre.process_done
                &&& post.monitor_done == pre.monitor_done
                &&& post.outcome == Some(Err::<(), MergeError>(MergeError::Monitor(e)))
            },
        }
    }
}

impl MergeJoin {
    pub fn new() -> (r: MergeJoin)
        ensures
            !r.process_done,
            !r.monitor_done,
            r.outcome.is_none(),
    {
        MergeJoin { process_done: false, monitor_done: false, outcome: None }
    }

    /// Records what one task did and returns the merge's outcome once it is
    /// decided.
    pub fn on_event(&mut self, ev: JoinEvent) -> (r: Option<Result<(), MergeError>>)
        ensures
            join_step(*old(self), ev, *final(self)),
            r == final(self).outcome,
    {
        if self.outcome.is_none() {
            match ev {
                JoinEvent::ProcessExited { success, code } => {
                    if success {
                        self.process_done = true;
                        if self.monitor_done {
                            self.outcome = Some(Ok(()));
                        }
                    } else {
                        self.outcome = Some(exit_outcome(false, code));
                    }
                },
                JoinEvent::MonitorFinished => {
                    self.monitor_done = true;
                    if self.process_done {
                        self.outcome = Some(Ok(()));
                    }
                },
                JoinEvent::MonitorFailed(e) => {
                    self.outcome = Some(Err(MergeError::Monitor(e)));
                },
            }
        }
        self.outcome
    }
}

/// A transcoder that exits unsuccessfully while the tailer has not yet seen
/// the final snapshot fails the merge with the exit code, with no
/// `Finished` required.
pub proof fn lemma_process_failure_fails_merge(
    pre: MergeJoin,
    post: MergeJoin,
    code: Option<i32>,
)
    requires
        pre.outcome.is_none(),
        !pre.monitor_done,
        join_step(pre, JoinEvent::ProcessExited { success: false, code }, post),
    ensures
        post.outcome == Some(
            Err::<(), MergeError>(
                MergeError::ProcessFailed(
                    match code {
                        Some(c) => c,
                        None => -1i32,
                    },
                ),
            ),
        ),
        !post.monitor_done,
{
}

} // verus!
