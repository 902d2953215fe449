//! The log tailer: a state machine that turns the growing progress log of one
//! job into `Started`, `Progress` and `Finished` events.
//!
//! The caller performs the waiting and the reading: it reports whether the
//! log file exists yet, and hands over the bytes appended since `cursor()`.
use vstd::prelude::*;
use vstd::utf8::{encode_utf8, encode_utf8_decode_utf8};
use crate::telemetry::{
    clean_value, decodable, decode, field_count, field_key, field_kind, field_ok, field_text,
    lemma_snapshot_decodes, lemma_snapshot_lines_unbroken, reports_bad_field, snapshot_lines, value_fits, DecodeError, Field,
};
use crate::text::{
    bytes_equal, complete_len, complete_lines, join_lines, lemma_complete_lines_of_join, parse_count,
};
use crate::window::{
    apply_lines, lemma_lookup_some_nonempty, lemma_window_is_latest_fields, FieldEntry, FieldWindow,
};

verus! {

/// Interval between checks for the log file, in milliseconds.
pub const FILE_WAIT_INTERVAL_MS: u64 = 250;

/// Interval between reads of the log file, in milliseconds.
pub const POLL_INTERVAL_MS: u64 = 200;

/// The kind of work that an event reports on.
#[derive(Clone, Copy, Debug, PartialEq, Eq, Structural)]
pub enum TaskKind {
    Video,
    Audio,
    Merge,
}

/// Which job the events belong to.
#[derive(Debug)]
pub struct JobIdentity {
    pub job_id: String,
    pub group_id: String,
    pub task_kind: TaskKind,
}

/// An event for the consumer of a job's progress.
#[derive(Debug)]
pub enum ProgressEvent {
    Started { job_id: String, group_id: String, task_kind: TaskKind },
    Progress { job_id: String, group_id: String, current_units: u64, total_units: u64 },
    Finished { job_id: String, group_id: String },
}

/// An event with its payload left out.
#[derive(Clone, Copy, Debug, PartialEq, Eq, Structural)]
pub enum EventKind {
    Started,
    Progress,
    Finished,
}

/// Where the tailer stands.
#[derive(Clone, Copy, Debug, PartialEq, Eq, Structural)]
pub enum TailPhase {
    /// The log file does not exist yet.
    AwaitingFile,
    /// `Started` was emitted; the log is being read.
    Tailing,
    /// `Finished` was emitted.
    Finished,
    /// A snapshot failed to decode.
    Failed,
    /// The log file did not appear within the allowed number of checks.
    TimedOut,
}

/// The phases in which nothing has been emitted yet.
pub open spec fn before_start(p: TailPhase) -> bool {
    p == TailPhase::AwaitingFile || p == TailPhase::TimedOut
}

/// An event sequence that obeys the protocol: `Started` first and only
/// once, nothing after `Finished`.
pub open spec fn protocol_ok(h: Seq<EventKind>) -> bool {
    &&& h.len() > 0 ==> h[0] == EventKind::Started
    &&& forall|i: int| 0 < i < h.len() ==> h[i] != EventKind::Started
    &&& forall|i: int| 0 <= i < h.len() - 1 ==> h[i] != EventKind::Finished
}

/// The `progress` value of an ongoing snapshot.
pub open spec fn continue_marker() -> Seq<u8> {
    encode_utf8("continue"@)
}

/// The `progress` value of the final snapshot.
pub open spec fn end_marker() -> Seq<u8> {
    encode_utf8("end"@)
}

pub open spec fn started_event(job: JobIdentity) -> ProgressEvent {
    ProgressEvent::Started { job_id: job.job_id, group_id: job.group_id, task_kind: job.task_kind }
}

pub open spec fn progress_event(job: JobIdentity, current: u64, total: u64) -> ProgressEvent {
    ProgressEvent::Progress {
        job_id: job.job_id,
        group_id: job.group_id,
        current_units: current,
        total_units: total,
    }
}

pub open spec fn finished_event(job: JobIdentity) -> ProgressEvent {
    ProgressEvent::Finished { job_id: job.job_id, group_id: job.group_id }
}

/// What a file check does: the first time the file exists, `Started` is
/// emitted and tailing begins; otherwise nothing changes.
pub open spec fn file_check_step(
    pre: LogTailer,
    post: LogTailer,
    exists: bool,
    r: Option<ProgressEvent>,
) -> bool {
    if pre.phase() == TailPhase::AwaitingFile && exists {
        &&& r == Some(started_event(pre.job()))
        &&& post.phase() == TailPhase::Tailing
        &&& post.history() == pre.history().push(EventKind::Started)
        &&& post.file_checks() == pre.file_checks()
    } else if pre.phase() == TailPhase::AwaitingFile {
        &&& r.is_none()
        &&& post.file_checks() == pre.file_checks() + 1
        &&& post.phase() == if pre.file_checks() + 1 >= pre.file_check_limit() {
            TailPhase::TimedOut
        } else {
            TailPhase::AwaitingFile
        }
        &&& post.history() == pre.history()
    } else {
        &&& post.file_checks() == pre.file_checks()
        &&& r.is_none()
        &&& post.phase() == pre.phase()
        &&& post.history() == pre.history()
    }
}

/// What reading new log data leads to, given the window `post.fields()`
/// after the read: nothing while it is empty, an error when it does not
/// decode, else an event chosen by the snapshot's `progress` value.
pub open spec fn log_step(
    pre: LogTailer,
    post: LogTailer,
    r: Result<Option<ProgressEvent>, DecodeError>,
) -> bool {
    let w = post.fields();
    let h = pre.history();
    if w.len() == 0 {
        &&& r == Ok::<Option<ProgressEvent>, DecodeError>(None)
        &&& post.phase() == TailPhase::Tailing
        &&& post.history() == h
    } else if !decodable(w) {
        &&& r matches Err(e) && reports_bad_field(w, e)
        &&& post.phase() == TailPhase::Failed
        &&& post.history() == h
    } else if field_text(w, Field::Progress) == continue_marker() {
        &&& r == Ok::<Option<ProgressEvent>, DecodeError>(
            Some(progress_event(pre.job(), field_count(w, Field::Frame), pre.total_units())),
        )
        &&& post.phase() == TailPhase::Tailing
        &&& post.history() == h.push(EventKind::Progress)
    } else if field_text(w, Field::Progress) == end_marker() {
        &&& r == Ok::<Option<ProgressEvent>, DecodeError>(Some(finished_event(pre.job())))
        &&& post.phase() == TailPhase::Finished
        &&& post.history() == h.push(EventKind::Finished)
    } else {
        &&& r == Ok::<Option<ProgressEvent>, DecodeError>(None)
        &&& post.phase() == TailPhase::Tailing
        &&& post.history() == h
    }
}

/// Follows the progress log of one job.
pub struct LogTailer {
    job: JobIdentity,
    total_units: u64,
    phase: TailPhase,
    file_checks: u64,
    file_check_limit: u64,
    cursor: u64,
    window: FieldWindow,
    emitted: Ghost<Seq<EventKind>>,
}

impl LogTailer {
    pub closed spec fn job(&self) -> JobIdentity {
        self.job
    }

    pub closed spec fn total_units(&self) -> u64 {
        self.total_units
    }

    pub closed spec fn phase(&self) -> TailPhase {
        self.phase
    }

    /// How many times the log file was found missing.
    pub closed spec fn file_checks(&self) -> u64 {
        self.file_checks
    }

    /// How many missing-file checks end the wait with `TimedOut`.
    pub closed spec fn file_check_limit(&self) -> u64 {
        self.file_check_limit
    }

    /// The offset in the log file up to which it has been read.
    pub closed spec fn cursor(&self) -> u64 {
        self.cursor
    }

    /// The rolling field window.
    pub closed spec fn fields(&self) -> Seq<FieldEntry> {
        self.window@
    }

    /// The kinds of the events emitted so far, in order.
    pub closed spec fn history(&self) -> Seq<EventKind> {
        self.emitted@
    }

    pub closed spec fn wf(&self) -> bool {
        &&& self.window.wf()
        &&& protocol_ok(self.emitted@)
        &&& (before_start(self.phase) <==> self.emitted@.len() == 0)
        &&& (before_start(self.phase) ==> self.cursor == 0 && self.window@.len() == 0)
        &&& (self.phase == TailPhase::AwaitingFile ==> self.file_checks < self.file_check_limit)
        &&& (self.phase == TailPhase::Finished <==> (self.emitted@.len() > 0
            && self.emitted@.last() == EventKind::Finished))
    }

    /// A tailer for the log of `job`, which expects `total_units` frames and
    /// waits for the log file as long as it takes.
    pub fn new(job: JobIdentity, total_units: u64) -> (r: LogTailer)
        ensures
            r.wf(),
            r.job() == job,
            r.total_units() == total_units,
            r.phase() == TailPhase::AwaitingFile,
            r.file_checks() == 0,
            r.file_check_limit() == u64::MAX,
            r.cursor() == 0,
            r.fields().len() == 0,
            r.history().len() == 0,
    {
        LogTailer::with_file_check_limit(job, total_units, u64::MAX)
    }

    /// A tailer that gives up with `TimedOut` once the log file has been
    /// found missing `limit` times (at once, for a limit of zero).
    pub fn with_file_check_limit(job: JobIdentity, total_units: u64, limit: u64) -> (r: LogTailer)
        ensures
            r.wf(),
            r.job() == job,
            r.total_units() == total_units,
            r.phase() == if limit == 0 {
                TailPhase::TimedOut
            } else {
                TailPhase::AwaitingFile
            },
            r.file_checks() == 0,
            r.file_check_limit() == limit,
            r.cursor() == 0,
            r.fields().len() == 0,
            r.history().len() == 0,
    {
        LogTailer {
            job,
            total_units,
            phase: if limit == 0 {
                TailPhase::TimedOut
            } else {
                TailPhase::AwaitingFile
            },
            file_checks: 0,
            file_check_limit: limit,
            cursor: 0,
            window: FieldWindow::new(),
            emitted: Ghost(Seq::empty()),
        }
    }

    pub fn get_phase(&self) -> (r: TailPhase)
        ensures
            r == self.phase(),
    {
        self.phase
    }

    /// The offset from which the next read of the log must start.
    pub fn get_cursor(&self) -> (r: u64)
        ensures
            r == self.cursor(),
    {
        self.cursor
    }

    /// Reports whether the log file exists. The first time it does, the
    /// tailer starts reading and emits `Started`.
    pub fn on_file_check(&mut self, exists: bool) -> (r: Option<ProgressEvent>)
        requires
            old(self).wf(),
        ensures
            final(self).wf(),
            final(self).job() == old(self).job(),
            final(self).total_units() == old(self).total_units(),
            final(self).cursor() == old(self).cursor(),
            final(self).fields() == old(self).fields(),
            final(self).file_check_limit() == old(self).file_check_limit(),
            file_check_step(*old(self), *final(self), exists, r),
    {
        if self.phase == TailPhase::AwaitingFile && exists {
            self.phase = TailPhase::Tailing;
            self.emitted = Ghost(self.emitted@.push(EventKind::Started));
            Some(
                ProgressEvent::Started {
                    job_id: self.job.job_id.clone(),
                    group_id: self.job.group_id.clone(),
                    task_kind: self.job.task_kind,
                },
            )
        } else {
            if self.phase == TailPhase::AwaitingFile {
                self.file_checks = self.file_checks + 1;
                if self.file_checks >= self.file_check_limit {
                    self.phase = TailPhase::TimedOut;
                }
            }
            None
        }
    }

    /// Hands over the bytes appended to the log since `cursor()`. The complete
    /// lines among them are read into the window and the cursor moves past
    /// them; a trailing partial line is left for the next read. Then the
    /// window is decoded: a `continue` snapshot gives `Progress` with its
    /// frame count and the expected total, an `end` snapshot gives
    /// `Finished`, and a window that does not decode is an error.
    pub fn on_log_data(&mut self, data: &[u8]) -> (r: Result<Option<ProgressEvent>, DecodeError>)
        requires
            old(self).wf(),
            old(self).phase() == TailPhase::Tailing,
            old(self).cursor() + data@.len() <= u64::MAX,
        ensures
            final(self).wf(),
            final(self).job() == old(self).job(),
            final(self).total_units() == old(self).total_units(),
            final(self).file_checks() == old(self).file_checks(),
            final(self).file_check_limit() == old(self).file_check_limit(),
            final(self).cursor() == old(self).cursor() + complete_len(data@),
            final(self).fields() == apply_lines(old(self).fields(), complete_lines(data@)),
            log_step(*old(self), *final(self), r),
    {
        let consumed = self.window.absorb(data);
        self.cursor = self.cursor + consumed as u64;
        if self.window.is_empty() {
            return Ok(None);
        }
        let record = match decode(&self.window) {
            Ok(rec) => rec,
            Err(e) => {
                self.phase = TailPhase::Failed;
                return Err(e);
            },
        };
        if bytes_equal(record.progress.as_slice(), "continue".as_bytes()) {
            self.emitted = Ghost(self.emitted@.push(EventKind::Progress));
            Ok(
                Some(
                    ProgressEvent::Progress {
                        job_id: self.job.job_id.clone(),
                        group_id: self.job.group_id.clone(),
                        current_units: record.frame,
                        total_units: self.total_units,
                    },
                ),
            )
        } else if bytes_equal(record.progress.as_slice(), "end".as_bytes()) {
            self.phase = TailPhase::Finished;
            self.emitted = Ghost(self.emitted@.push(EventKind::Finished));
            Ok(
                Some(
                    ProgressEvent::Finished {
                        job_id: self.job.job_id.clone(),
                        group_id: self.job.group_id.clone(),
                    },
                ),
            )
        } else {
            Ok(None)
        }
    }

    /// Whatever the job and whatever the log holds, the events a tailer emits
    /// begin with exactly one `Started`: no `Progress` or `Finished` comes
    /// before it, and nothing comes after `Finished`.
    pub proof fn lemma_started_comes_first(&self)
        requires
            self.wf(),
        ensures
            protocol_ok(self.history()),
            !before_start(self.phase()) ==> self.history().len() > 0 && self.history()[0]
                == EventKind::Started,
            before_start(self.phase()) ==> self.history().len() == 0,
    {
    }
}

/// Reading a `continue` snapshot and then an `end` snapshot emits exactly
/// one `Progress`, with the first snapshot's frame number and the expected
/// total, followed by one `Finished`, and leaves the tailer finished.
pub proof fn lemma_continue_then_end(
    t0: LogTailer,
    t1: LogTailer,
    t2: LogTailer,
    r1: Result<Option<ProgressEvent>, DecodeError>,
    r2: Result<Option<ProgressEvent>, DecodeError>,
)
    requires
        t0.wf(),
        t0.phase() == TailPhase::Tailing,
        log_step(t0, t1, r1),
        t1.job() == t0.job(),
        t1.total_units() == t0.total_units(),
        log_step(t1, t2, r2),
        decodable(t1.fields()),
        field_text(t1.fields(), Field::Progress) == continue_marker(),
        decodable(t2.fields()),
        field_text(t2.fields(), Field::Progress) == end_marker(),
    ensures
        r1 == Ok::<Option<ProgressEvent>, DecodeError>(
            Some(progress_event(t0.job(), field_count(t1.fields(), Field::Frame), t0.total_units())),
        ),
        r2 == Ok::<Option<ProgressEvent>, DecodeError>(Some(finished_event(t0.job()))),
        t2.history() == t0.history().push(EventKind::Progress).push(EventKind::Finished),
        t2.phase() == TailPhase::Finished,
{
    assert(t1.fields().len() > 0) by {
        assert(field_ok(t1.fields(), Field::Progress));
        lemma_lookup_some_nonempty(t1.fields(), field_key(Field::Progress));
    }
    assert(t2.fields().len() > 0) by {
        assert(field_ok(t2.fields(), Field::Progress));
        lemma_lookup_some_nonempty(t2.fields(), field_key(Field::Progress));
    }
    assert(continue_marker() != end_marker()) by {
        reveal_strlit("continue");
        reveal_strlit("end");
        encode_utf8_decode_utf8("continue"@);
        encode_utf8_decode_utf8("end"@);
        assert("continue"@.len() != "end"@.len());
    }
}

/// Round trip: a log that holds one full snapshot with `progress=continue`,
/// to which one with `progress=end` is then appended, yields exactly
/// one `Progress` carrying the first snapshot's frame number and the
/// expected total, then one `Finished`.
pub proof fn lemma_snapshot_round_trip(
    t0: LogTailer,
    t1: LogTailer,
    t2: LogTailer,
    d1: Seq<u8>,
    d2: Seq<u8>,
    vals1: spec_fn(Field) -> Seq<u8>,
    vals2: spec_fn(Field) -> Seq<u8>,
    r1: Result<Option<ProgressEvent>, DecodeError>,
    r2: Result<Option<ProgressEvent>, DecodeError>,
)
    requires
        t0.wf(),
        t0.phase() == TailPhase::Tailing,
        d1 == join_lines(snapshot_lines(vals1)),
        d2 == join_lines(snapshot_lines(vals2)),
        forall|f: Field| clean_value(#[trigger] vals1(f)) && value_fits(field_kind(f), vals1(f)),
        forall|f: Field| clean_value(#[trigger] vals2(f)) && value_fits(field_kind(f), vals2(f)),
        vals1(Field::Progress) == continue_marker(),
        vals2(Field::Progress) == end_marker(),
        t1.fields() == apply_lines(t0.fields(), complete_lines(d1)),
        t1.job() == t0.job(),
        t1.total_units() == t0.total_units(),
        log_step(t0, t1, r1),
        t2.fields() == apply_lines(t1.fields(), complete_lines(d2)),
        log_step(t1, t2, r2),
    ensures
        r1 == Ok::<Option<ProgressEvent>, DecodeError>(
            Some(progress_event(t0.job(), parse_count(vals1(Field::Frame)).unwrap(), t0.total_units())),
        ),
        r2 == Ok::<Option<ProgressEvent>, DecodeError>(Some(finished_event(t0.job()))),
        t2.history() == t0.history().push(EventKind::Progress).push(EventKind::Finished),
        t2.phase() == TailPhase::Finished,
{
    lemma_snapshot_lines_unbroken(vals1);
    lemma_snapshot_lines_unbroken(vals2);
    lemma_complete_lines_of_join(snapshot_lines(vals1));
    lemma_complete_lines_of_join(snapshot_lines(vals2));
    lemma_snapshot_decodes(t0.fields(), vals1);
    lemma_window_is_latest_fields(t0.fields(), complete_lines(d1));
    lemma_snapshot_decodes(t1.fields(), vals2);
    assert(field_text(t1.fields(), Field::Progress) == continue_marker());
    assert(field_text(t2.fields(), Field::Progress) == end_marker());
    assert(field_text(t1.fields(), Field::Frame) == vals1(Field::Frame));
    lemma_continue_then_end(t0, t1, t2, r1, r2);
}

} // verus!
