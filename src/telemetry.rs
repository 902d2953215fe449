//! The telemetry record: one decoded progress snapshot of the transcoder.
use vstd::prelude::*;
use vstd::utf8::{encode_utf8, encode_utf8_decode_utf8, is_ascii_chars, is_ascii_chars_encode_utf8};
use crate::text::{
    is_decimal, is_decimal_text, is_space, lemma_first_index, parse_count, parse_line, parse_u64, trim,
    EQUALS, NEWLINE,
};
use crate::window::{
    apply_lines, entries_of, lemma_window_is_latest_fields, lookup, retain_last, FieldEntry,
    FieldWindow, FIELD_COUNT,
};

verus! {

/// The fields of a snapshot.
#[derive(Clone, Copy, Debug, PartialEq, Eq, Structural)]
pub enum Field {
    Frame,
    Fps,
    StreamQuality,
    Bitrate,
    TotalSize,
    OutTimeUs,
    OutTimeMs,
    OutTime,
    DupFrames,
    DropFrames,
    Speed,
    Progress,
}

/// What a field's value must look like.
#[derive(Clone, Copy, Debug, PartialEq, Eq, Structural)]
pub enum FieldKind {
    /// An unsigned 64-bit integer.
    Count,
    /// An unsigned 32-bit integer.
    SmallCount,
    /// A decimal number, kept as written.
    Number,
    /// Free text: anything that does not read as a number.
    Text,
}

/// The key under which a field appears in the log.
pub open spec fn field_label(f: Field) -> Seq<char> {
    match f {
        Field::Frame => "frame"@,
        Field::Fps => "fps"@,
        Field::StreamQuality => "stream_0_0_q"@,
        Field::Bitrate => "bitrate"@,
        Field::TotalSize => "total_size"@,
        Field::OutTimeUs => "out_time_us"@,
        Field::OutTimeMs => "out_time_ms"@,
        Field::OutTime => "out_time"@,
        Field::DupFrames => "dup_frames"@,
        Field::DropFrames => "drop_frames"@,
        Field::Speed => "speed"@,
        Field::Progress => "progress"@,
    }
}

/// The key's bytes, as they stand in the log.
pub open spec fn field_key(f: Field) -> Seq<u8> {
    encode_utf8(field_label(f))
}

pub open spec fn field_kind(f: Field) -> FieldKind {
    match f {
        Field::Frame | Field::TotalSize | Field::OutTimeUs | Field::OutTimeMs => FieldKind::Count,
        Field::DupFrames | Field::DropFrames => FieldKind::SmallCount,
        Field::Fps | Field::StreamQuality => FieldKind::Number,
        Field::Bitrate | Field::OutTime | Field::Speed | Field::Progress => FieldKind::Text,
    }
}

/// Whether a raw value is acceptable for a field of kind `k`.
pub open spec fn value_fits(k: FieldKind, v: Seq<u8>) -> bool {
    match k {
        FieldKind::Count => parse_count(v).is_some(),
        FieldKind::SmallCount => parse_count(v).is_some() && parse_count(v).unwrap() <= u32::MAX,
        FieldKind::Number => is_decimal(v),
        FieldKind::Text => !is_decimal(v),
    }
}

/// Field `f` is present in the window with an acceptable value.
pub open spec fn field_ok(w: Seq<FieldEntry>, f: Field) -> bool {
    match lookup(w, field_key(f)) {
        Some(v) => value_fits(field_kind(f), v),
        None => false,
    }
}

/// Every field of a snapshot is present in the window with an acceptable value.
pub open spec fn decodable(w: Seq<FieldEntry>) -> bool {
    forall|f: Field| field_ok(w, f)
}

/// The raw value of field `f` in the window.
pub open spec fn field_text(w: Seq<FieldEntry>, f: Field) -> Seq<u8> {
    lookup(w, field_key(f)).unwrap()
}

/// The integer value of field `f` in the window.
pub open spec fn field_count(w: Seq<FieldEntry>, f: Field) -> u64 {
    parse_count(field_text(w, f)).unwrap()
}

impl Field {
    /// The key under which the field appears in the log.
    pub fn label(self) -> (r: &'static str)
        ensures
            r@ == field_label(self),
    {
        match self {
            Field::Frame => "frame",
            Field::Fps => "fps",
            Field::StreamQuality => "stream_0_0_q",
            Field::Bitrate => "bitrate",
            Field::TotalSize => "total_size",
            Field::OutTimeUs => "out_time_us",
            Field::OutTimeMs => "out_time_ms",
            Field::OutTime => "out_time",
            Field::DupFrames => "dup_frames",
            Field::DropFrames => "drop_frames",
            Field::Speed => "speed",
            Field::Progress => "progress",
        }
    }

    pub fn kind(self) -> (r: FieldKind)
        ensures
            r == field_kind(self),
    {
        match self {
            Field::Frame | Field::TotalSize | Field::OutTimeUs | Field::OutTimeMs => FieldKind::Count,
            Field::DupFrames | Field::DropFrames => FieldKind::SmallCount,
            Field::Fps | Field::StreamQuality => FieldKind::Number,
            Field::Bitrate | Field::OutTime | Field::Speed | Field::Progress => FieldKind::Text,
        }
    }
}

/// Why a window does not decode into a record.
#[derive(Clone, Copy, Debug, PartialEq, Eq, Structural)]
pub enum DecodeError {
    /// The field is not in the window.
    MissingField(Field),
    /// The field's value does not fit its kind.
    MalformedField(Field),
}

/// One decoded progress snapshot. Encoder statistics (`fps`,
/// `stream_quality`) are decimal numbers kept as written; `bitrate`,
/// `out_time` and `speed` are free text.
pub struct TelemetryRecord {
    pub frame: u64,
    pub fps: Vec<u8>,
    pub stream_quality: Vec<u8>,
    pub bitrate: Vec<u8>,
    pub total_size: u64,
    pub out_time_us: u64,
    pub out_time_ms: u64,
    pub out_time: Vec<u8>,
    pub dup_frames: u32,
    pub drop_frames: u32,
    pub speed: Vec<u8>,
    pub progress: Vec<u8>,
}

impl TelemetryRecord {
    /// Each field of the record is the window's value for it.
    pub open spec fn decoded_from(&self, w: Seq<FieldEntry>) -> bool {
        &&& self.frame == field_count(w, Field::Frame)
        &&& self.fps@ == field_text(w, Field::Fps)
        &&& self.stream_quality@ == field_text(w, Field::StreamQuality)
        &&& self.bitrate@ == field_text(w, Field::Bitrate)
        &&& self.total_size == field_count(w, Field::TotalSize)
        &&& self.out_time_us == field_count(w, Field::OutTimeUs)
        &&& self.out_time_ms == field_count(w, Field::OutTimeMs)
        &&& self.out_time@ == field_text(w, Field::OutTime)
        &&& self.dup_frames as u64 == field_count(w, Field::DupFrames)
        &&& self.drop_frames as u64 == field_count(w, Field::DropFrames)
        &&& self.speed@ == field_text(w, Field::Speed)
        &&& self.progress@ == field_text(w, Field::Progress)
    }
}

/// The error that a bad field gives.
pub open spec fn field_error(w: Seq<FieldEntry>, f: Field) -> DecodeError {
    if lookup(w, field_key(f)).is_none() {
        DecodeError::MissingField(f)
    } else {
        DecodeError::MalformedField(f)
    }
}

/// What a failed decode reports: a field that is really missing or malformed.
pub open spec fn reports_bad_field(w: Seq<FieldEntry>, e: DecodeError) -> bool {
    match e {
        DecodeError::MissingField(f) => lookup(w, field_key(f)).is_none(),
        DecodeError::MalformedField(f) => lookup(w, field_key(f)).is_some() && !field_ok(w, f),
    }
}

/// The raw value of field `f`, checked against its kind.
fn read_field(w: &FieldWindow, f: Field) -> (r: Result<&Vec<u8>, DecodeError>)
    ensures
        match r {
            Ok(v) => field_ok(w@, f) && v@ == field_text(w@, f),
            Err(e) => !field_ok(w@, f) && e == field_error(w@, f),
        },
{
    let key = f.label().as_bytes();
    match w.get(key) {
        None => Err(DecodeError::MissingField(f)),
        Some(v) => {
            let fits = match f.kind() {
                FieldKind::Count => parse_u64(v.as_slice()).is_some(),
                FieldKind::SmallCount => match parse_u64(v.as_slice()) {
                    Some(n) => n <= u32::MAX as u64,
                    None => false,
                },
                FieldKind::Number => is_decimal_text(v.as_slice()),
                FieldKind::Text => !is_decimal_text(v.as_slice()),
            };
            if fits {
                Ok(v)
            } else {
                Err(DecodeError::MalformedField(f))
            }
        },
    }
}

/// The integer value of a field of kind `Count` or `SmallCount`.
fn read_count(w: &FieldWindow, f: Field) -> (r: Result<u64, DecodeError>)
    requires
        field_kind(f) == FieldKind::Count || field_kind(f) == FieldKind::SmallCount,
    ensures
        match r {
            Ok(n) => field_ok(w@, f) && n == field_count(w@, f),
            Err(e) => !field_ok(w@, f) && e == field_error(w@, f),
        },
{
    match read_field(w, f) {
        Err(e) => Err(e),
        Ok(v) => match parse_u64(v.as_slice()) {
            Some(n) => Ok(n),
            None => Err(DecodeError::MalformedField(f)),
        },
    }
}

/// A copy of the raw value of field `f`.
fn read_text(w: &FieldWindow, f: Field) -> (r: Result<Vec<u8>, DecodeError>)
    ensures
        match r {
            Ok(v) => field_ok(w@, f) && v@ == field_text(w@, f),
            Err(e) => !field_ok(w@, f) && e == field_error(w@, f),
        },
{
    match read_field(w, f) {
        Err(e) => Err(e),
        Ok(v) => Ok(v.clone()),
    }
}

/// Decodes the window into a record. It succeeds exactly when every field is
/// present with an acceptable value; otherwise it names a bad field.
pub fn decode(w: &FieldWindow) -> (r: Result<TelemetryRecord, DecodeError>)
    ensures
        r.is_ok() <==> decodable(w@),
        match r {
            Ok(rec) => rec.decoded_from(w@),
            Err(e) => reports_bad_field(w@, e),
        },
{
    let frame = match read_count(w, Field::Frame) {
        Ok(n) => n,
        Err(e) => return Err(e),
    };
    let fps = match read_text(w, Field::Fps) {
        Ok(v) => v,
        Err(e) => return Err(e),
    };
    let stream_quality = match read_text(w, Field::StreamQuality) {
        Ok(v) => v,
        Err(e) => return Err(e),
    };
    let bitrate = match read_text(w, Field::Bitrate) {
        Ok(v) => v,
        Err(e) => return Err(e),
    };
    let total_size = match read_count(w, Field::TotalSize) {
        Ok(n) => n,
        Err(e) => return Err(e),
    };
    let out_time_us = match read_count(w, Field::OutTimeUs) {
        Ok(n) => n,
        Err(e) => return Err(e),
    };
    let out_time_ms = match read_count(w, Field::OutTimeMs) {
        Ok(n) => n,
        Err(e) => return Err(e),
    };
    let out_time = match read_text(w, Field::OutTime) {
        Ok(v) => v,
        Err(e) => return Err(e),
    };
    let dup_frames = match read_count(w, Field::DupFrames) {
        Ok(n) => n,
        Err(e) => return Err(e),
    };
    let drop_frames = match read_count(w, Field::DropFrames) {
        Ok(n) => n,
        Err(e) => return Err(e),
    };
    let speed = match read_text(w, Field::Speed) {
        Ok(v) => v,
        Err(e) => return Err(e),
    };
    let progress = match read_text(w, Field::Progress) {
        Ok(v) => v,
        Err(e) => return Err(e),
    };
    assert forall|f: Field| field_ok(w@, f) by {
        match f {
            Field::Frame => {},
            Field::Fps => {},
            Field::StreamQuality => {},
            Field::Bitrate => {},
            Field::TotalSize => {},
            Field::OutTimeUs => {},
            Field::OutTimeMs => {},
            Field::OutTime => {},
            Field::DupFrames => {},
            Field::DropFrames => {},
            Field::Speed => {},
            Field::Progress => {},
        }
    }
    Ok(
        TelemetryRecord {
            frame,
            fps,
            stream_quality,
            bitrate,
            total_size,
            out_time_us,
            out_time_ms,
            out_time,
            dup_frames: dup_frames as u32,
            drop_frames: drop_frames as u32,
            speed,
            progress,
        },
    )
}

/// The key of every field is plain ASCII without whitespace or `=`.
proof fn lemma_key_is_plain(f: Field)
    ensures
        field_key(f).len() > 0,
        forall|i: int|
            0 <= i < field_key(f).len() ==> !is_space(#[trigger] field_key(f)[i])
                && field_key(f)[i] != EQUALS && field_key(f)[i] != NEWLINE,
{
    let label = field_label(f);
    reveal_strlit("frame");
    reveal_strlit("fps");
    reveal_strlit("stream_0_0_q");
    reveal_strlit("bitrate");
    reveal_strlit("total_size");
    reveal_strlit("out_time_us");
    reveal_strlit("out_time_ms");
    reveal_strlit("out_time");
    reveal_strlit("dup_frames");
    reveal_strlit("drop_frames");
    reveal_strlit("speed");
    reveal_strlit("progress");
    assert(is_ascii_chars(label));
    is_ascii_chars_encode_utf8(label);
}

proof fn lemma_keys_distinct(f: Field, g: Field)
    requires
        f != g,
    ensures
        field_key(f) != field_key(g),
{
    reveal_strlit("frame");
    reveal_strlit("fps");
    reveal_strlit("stream_0_0_q");
    reveal_strlit("bitrate");
    reveal_strlit("total_size");
    reveal_strlit("out_time_us");
    reveal_strlit("out_time_ms");
    reveal_strlit("out_time");
    reveal_strlit("dup_frames");
    reveal_strlit("drop_frames");
    reveal_strlit("speed");
    reveal_strlit("progress");
    encode_utf8_decode_utf8(field_label(f));
    encode_utf8_decode_utf8(field_label(g));
    let (a, b) = (field_label(f), field_label(g));
    assert(a.len() != b.len() || a[0] != b[0] || a[9] != b[9]);
}

/// The fields in the order in which the transcoder writes them.
pub open spec fn field_at(i: int) -> Field {
    if i <= 0 {
        Field::Frame
    } else if i == 1 {
        Field::Fps
    } else if i == 2 {
        Field::StreamQuality
    } else if i == 3 {
        Field::Bitrate
    } else if i == 4 {
        Field::TotalSize
    } else if i == 5 {
        Field::OutTimeUs
    } else if i == 6 {
        Field::OutTimeMs
    } else if i == 7 {
        Field::OutTime
    } else if i == 8 {
        Field::DupFrames
    } else if i == 9 {
        Field::DropFrames
    } else if i == 10 {
        Field::Speed
    } else {
        Field::Progress
    }
}

/// The position of a field in a snapshot.
pub open spec fn field_index(f: Field) -> int {
    match f {
        Field::Frame => 0,
        Field::Fps => 1,
        Field::StreamQuality => 2,
        Field::Bitrate => 3,
        Field::TotalSize => 4,
        Field::OutTimeUs => 5,
        Field::OutTimeMs => 6,
        Field::OutTime => 7,
        Field::DupFrames => 8,
        Field::DropFrames => 9,
        Field::Speed => 10,
        Field::Progress => 11,
    }
}

/// A value as the transcoder writes it: not empty, no surrounding
/// whitespace, no line feed.
pub open spec fn clean_value(v: Seq<u8>) -> bool {
    &&& v.len() > 0
    &&& !is_space(v[0])
    &&& !is_space(v.last())
    &&& forall|i: int| 0 <= i < v.len() ==> #[trigger] v[i] != NEWLINE
}

/// The line `key=value` of field `f`, without its line feed.
pub open spec fn field_line(f: Field, v: Seq<u8>) -> Seq<u8> {
    field_key(f) + seq![EQUALS] + v
}

/// The lines of one full snapshot, with value `vals(f)` for field `f`.
pub open spec fn snapshot_lines(vals: spec_fn(Field) -> Seq<u8>) -> Seq<Seq<u8>> {
    Seq::new(FIELD_COUNT as nat, |i: int| field_line(field_at(i), vals(field_at(i))))
}

proof fn lemma_trim_plain(s: Seq<u8>)
    requires
        s.len() > 0,
        !is_space(s[0]),
        !is_space(s.last()),
    ensures
        trim(s) == s,
{
}

proof fn lemma_parse_field_line(f: Field, v: Seq<u8>)
    requires
        clean_value(v),
    ensures
        parse_line(field_line(f, v)) == Some((field_key(f), v)),
{
    let k = field_key(f);
    lemma_key_is_plain(f);
    let line = field_line(f, v);
    assert(line[0] == k[0]);
    assert(line.last() == v.last());
    lemma_trim_plain(line);
    assert forall|j: int| 0 <= j < k.len() implies line[j] != EQUALS by {
        assert(line[j] == k[j]);
    }
    assert(line[k.len() as int] == EQUALS);
    lemma_first_index(line, EQUALS, k.len() as int);
    assert(line.subrange(0, k.len() as int) =~= k);
    assert(line.subrange(k.len() as int + 1, line.len() as int) =~= v);
    assert(k[0] == k[0] && k.last() == k[k.len() - 1]);
    lemma_trim_plain(k);
    lemma_trim_plain(v);
}

proof fn lemma_lookup_at(s: Seq<FieldEntry>, key: Seq<u8>, i: int)
    requires
        0 <= i < s.len(),
        s[i].0 == key,
        forall|j: int| i < j < s.len() ==> (#[trigger] s[j]).0 != key,
    ensures
        lookup(s, key) == Some(s[i].1),
    decreases s.len(),
{
    if i < s.len() - 1 {
        let d = s.drop_last();
        assert forall|j: int| i < j < d.len() implies (#[trigger] d[j]).0 != key by {
            assert(d[j] == s[j]);
        }
        lemma_lookup_at(d, key, i);
    }
}

proof fn lemma_entries_when_all_parse(lines: Seq<Seq<u8>>)
    requires
        forall|i: int| 0 <= i < lines.len() ==> (#[trigger] parse_line(lines[i])).is_some(),
    ensures
        entries_of(lines) == Seq::new(lines.len(), |i: int| parse_line(lines[i]).unwrap()),
    decreases lines.len(),
{
    if lines.len() > 0 {
        let d = lines.drop_last();
        assert forall|i: int| 0 <= i < d.len() implies (#[trigger] parse_line(d[i])).is_some() by {
            assert(d[i] == lines[i]);
            assert(parse_line(lines[i]).is_some());
        }
        lemma_entries_when_all_parse(d);
        assert(parse_line(lines.last()).is_some());
        assert(entries_of(lines) =~= Seq::new(lines.len(), |i: int| parse_line(lines[i]).unwrap()));
    } else {
        assert(entries_of(lines) =~= Seq::new(lines.len(), |i: int| parse_line(lines[i]).unwrap()));
    }
}

/// No line of a snapshot holds a line feed.
pub proof fn lemma_snapshot_lines_unbroken(vals: spec_fn(Field) -> Seq<u8>)
    requires
        forall|f: Field| clean_value(#[trigger] vals(f)),
    ensures
        forall|i: int, j: int|
            0 <= i < snapshot_lines(vals).len() && 0 <= j < snapshot_lines(vals)[i].len()
                ==> #[trigger] snapshot_lines(vals)[i][j] != NEWLINE,
{
    let lines = snapshot_lines(vals);
    assert forall|i: int, j: int|
        0 <= i < lines.len() && 0 <= j < lines[i].len() implies #[trigger] lines[i][j] != NEWLINE by {
        let f = field_at(i);
        let k = field_key(f);
        lemma_key_is_plain(f);
        assert(clean_value(vals(f)));
        if j < k.len() {
            assert(lines[i][j] == k[j]);
        } else if j > k.len() {
            assert(lines[i][j] == vals(f)[j - k.len() - 1]);
        }
    }
}

/// Reading the lines of one full snapshot, with values as the transcoder
/// writes them and acceptable for their fields, leaves a window that decodes,
/// whatever the window held before, and each field decodes to its value.
pub proof fn lemma_snapshot_decodes(w: Seq<FieldEntry>, vals: spec_fn(Field) -> Seq<u8>)
    requires
        w.len() <= FIELD_COUNT,
        forall|f: Field| clean_value(#[trigger] vals(f)) && value_fits(field_kind(f), vals(f)),
    ensures
        decodable(apply_lines(w, snapshot_lines(vals))),
        forall|f: Field| #[trigger] field_text(apply_lines(w, snapshot_lines(vals)), f) == vals(f),
{
    let lines = snapshot_lines(vals);
    assert forall|i: int| 0 <= i < lines.len() implies (#[trigger] parse_line(lines[i])) == Some(
        (field_key(field_at(i)), vals(field_at(i))),
    ) by {
        lemma_parse_field_line(field_at(i), vals(field_at(i)));
    }
    lemma_entries_when_all_parse(lines);
    let es = entries_of(lines);
    lemma_window_is_latest_fields(w, lines);
    assert(retain_last(w + es, FIELD_COUNT as nat) =~= es);
    let win = apply_lines(w, lines);
    assert(win == es);
    assert forall|f: Field| lookup(es, field_key(f)) == Some(vals(f)) by {
        let i = field_index(f);
        assert(field_at(i) == f);
        assert forall|j: int| i < j < es.len() implies (#[trigger] es[j]).0 != field_key(f) by {
            assert(field_index(field_at(j)) == j);
            lemma_keys_distinct(field_at(j), f);
        }
        lemma_lookup_at(es, field_key(f), i);
    }
    assert forall|f: Field| field_ok(win, f) by {
        assert(lookup(es, field_key(f)) == Some(vals(f)));
    }
    assert forall|f: Field| #[trigger] field_text(win, f) == vals(f) by {
        assert(lookup(es, field_key(f)) == Some(vals(f)));
    }
}

} // verus!
