//! The rolling field window: the most recently read `key=value` fields of the
//! progress log, in reading order, bounded to the size of one snapshot.
use vstd::prelude::*;
use vstd::slice::slice_subrange;
use crate::text::{
    bytes_equal, complete_len, complete_lines, find_byte, first_index, parse_line, split_field,
    NEWLINE,
};

verus! {

/// Number of fields in one telemetry snapshot, and so the window's bound.
pub const FIELD_COUNT: usize = 12;

/// One field as read: its key and its raw value.
pub type FieldEntry = (Seq<u8>, Seq<u8>);

/// The last `n` elements of `s` (all of `s` if it is shorter).
pub open spec fn retain_last<T>(s: Seq<T>, n: nat) -> Seq<T> {
    if s.len() <= n {
        s
    } else {
        s.subrange(s.len() - n, s.len() as int)
    }
}

/// The value of the most recent entry for `key`.
pub open spec fn lookup(w: Seq<FieldEntry>, key: Seq<u8>) -> Option<Seq<u8>>
    decreases w.len(),
{
    if w.len() == 0 {
        None
    } else if w.last().0 == key {
        Some(w.last().1)
    } else {
        lookup(w.drop_last(), key)
    }
}

/// Whether some entry of `w` has key `key`.
pub open spec fn holds_key(w: Seq<FieldEntry>, key: Seq<u8>) -> bool {
    exists|i: int| 0 <= i < w.len() && (#[trigger] w[i]).0 == key
}

/// The window after reading one line: a line with a field is appended and the
/// oldest entry leaves once the window is full; any other line changes nothing.
pub open spec fn apply_line(w: Seq<FieldEntry>, line: Seq<u8>) -> Seq<FieldEntry> {
    match parse_line(line) {
        Some(e) => retain_last(w.push(e), FIELD_COUNT as nat),
        None => w,
    }
}

/// The window after reading `lines` in order.
pub open spec fn apply_lines(w: Seq<FieldEntry>, lines: Seq<Seq<u8>>) -> Seq<FieldEntry>
    decreases lines.len(),
{
    if lines.len() == 0 {
        w
    } else {
        apply_line(apply_lines(w, lines.drop_last()), lines.last())
    }
}

/// The fields that `lines` hold, in order.
pub open spec fn entries_of(lines: Seq<Seq<u8>>) -> Seq<FieldEntry>
    decreases lines.len(),
{
    if lines.len() == 0 {
        seq![]
    } else {
        match parse_line(lines.last()) {
            Some(e) => entries_of(lines.drop_last()).push(e),
            None => entries_of(lines.drop_last()),
        }
    }
}

/// One field of the window.
pub struct WindowEntry {
    pub key: Vec<u8>,
    pub value: Vec<u8>,
}

/// The rolling field window.
pub struct FieldWindow {
    entries: Vec<WindowEntry>,
}

impl View for FieldWindow {
    type V = Seq<FieldEntry>;

    closed spec fn view(&self) -> Seq<FieldEntry> {
        self.entries@.map_values(|e: WindowEntry| (e.key@, e.value@))
    }
}

impl FieldWindow {
    /// The window never holds more than one snapshot's worth of fields.
    pub open spec fn wf(&self) -> bool {
        self@.len() <= FIELD_COUNT
    }

    pub fn new() -> (r: FieldWindow)
        ensures
            r@ == Seq::<FieldEntry>::empty(),
            r.wf(),
    {
        let r = FieldWindow { entries: Vec::new() };
        assert(r@ =~= Seq::<FieldEntry>::empty());
        r
    }

    pub fn len(&self) -> (r: usize)
        ensures
            r == self@.len(),
    {
        self.entries.len()
    }

    pub fn is_empty(&self) -> (r: bool)
        ensures
            r == (self@.len() == 0),
    {
        self.entries.len() == 0
    }

    /// Appends a field, evicting the oldest one when the window is full.
    pub fn insert(&mut self, key: Vec<u8>, value: Vec<u8>)
        requires
            old(self).wf(),
        ensures
            final(self).wf(),
            final(self)@ == retain_last(old(self)@.push((key@, value@)), FIELD_COUNT as nat),
    {
        let ghost w0 = self@;
        let ghost e = (key@, value@);
        if self.entries.len() >= FIELD_COUNT {
            self.entries.remove(0);
        }
        self.entries.push(WindowEntry { key, value });
        assert(self@ =~= retain_last(w0.push(e), FIELD_COUNT as nat));
    }

    /// The value of the most recent field named `key`.
    pub fn get(&self, key: &[u8]) -> (r: Option<&Vec<u8>>)
        ensures
            match r {
                Some(v) => lookup(self@, key@) == Some(v@),
                None => lookup(self@, key@).is_none(),
            },
    {
        let mut i: usize = self.entries.len();
        assert(self@.subrange(0, self@.len() as int) =~= self@);
        while i > 0
            invariant
                i <= self@.len(),
                self@.len() == self.entries@.len(),
                lookup(self@, key@) == lookup(self@.subrange(0, i as int), key@),
            decreases i,
        {
            let ghost prefix = self@.subrange(0, i as int);
            assert(prefix.drop_last() =~= self@.subrange(0, i - 1));
            assert(prefix.last() == (self.entries@[i - 1].key@, self.entries@[i - 1].value@));
            if bytes_equal(self.entries[i - 1].key.as_slice(), key) {
                return Some(&self.entries[i - 1].value);
            }
            i = i - 1;
        }
        None
    }

    /// Reads the complete lines of `data` into the window and returns the
    /// number of bytes they cover. A trailing partial line is left unread.
    pub fn absorb(&mut self, data: &[u8]) -> (consumed: usize)
        requires
            old(self).wf(),
        ensures
            final(self).wf(),
            consumed <= data@.len(),
            consumed == complete_len(data@),
            final(self)@ == apply_lines(old(self)@, complete_lines(data@)),
    {
        let ghost w0 = self@;
        let ghost done: Seq<Seq<u8>> = seq![];
        let mut pos: usize = 0;
        assert(data@.subrange(0, data@.len() as int) =~= data@);
        assert(done + complete_lines(data@) =~= complete_lines(data@));
        loop
            invariant
                pos <= data@.len(),
                self.wf(),
                self@ == apply_lines(w0, done),
                complete_lines(data@) == done + complete_lines(
                    data@.subrange(pos as int, data@.len() as int),
                ),
                complete_len(data@) == pos + complete_len(
                    data@.subrange(pos as int, data@.len() as int),
                ),
            ensures
                self.wf(),
                self@ == apply_lines(w0, done),
                complete_lines(data@) == done,
                complete_len(data@) == pos,
            decreases data@.len() - pos,
        {
            let ghost rest = data@.subrange(pos as int, data@.len() as int);
            if pos == data.len() {
                assert(rest.len() == 0);
                assert(complete_lines(rest) == Seq::<Seq<u8>>::empty());
                assert(done + complete_lines(rest) =~= done);
                break;
            }
            let nl = find_byte(data, pos, NEWLINE);
            if nl == data.len() {
                assert(complete_lines(rest) == Seq::<Seq<u8>>::empty());
                assert(done + complete_lines(rest) =~= done);
                break;
            }
            let line = slice_subrange(data, pos, nl);
            proof {
                let p = first_index(rest, NEWLINE) as int;
                assert(p == nl - pos);
                assert(rest.subrange(0, p) =~= line@);
                assert(rest.subrange(p + 1, rest.len() as int) =~= data@.subrange(
                    nl + 1,
                    data@.len() as int,
                ));
                let next = done.push(line@);
                assert(next.drop_last() =~= done);
                assert(done + complete_lines(rest) =~= next + complete_lines(
                    data@.subrange(nl + 1, data@.len() as int),
                ));
            }
            match split_field(line) {
                Some((k, v)) => {
                    self.insert(k, v);
                },
                None => {},
            }
            proof {
                done = done.push(line@);
            }
            pos = nl + 1;
        }
        pos
    }
}

/// A window in which a key is found is not empty.
pub proof fn lemma_lookup_some_nonempty(w: Seq<FieldEntry>, key: Seq<u8>)
    requires
        lookup(w, key).is_some(),
    ensures
        w.len() > 0,
{
}

proof fn lemma_retain_last_push(s: Seq<FieldEntry>, e: FieldEntry, n: nat)
    ensures
        retain_last(retain_last(s, n).push(e), n) == retain_last(s.push(e), n),
{
    assert(retain_last(retain_last(s, n).push(e), n) =~= retain_last(s.push(e), n));
}

/// Reading lines into a window of at most `FIELD_COUNT` entries leaves exactly
/// the last `FIELD_COUNT` of all fields read so far: the earlier window's
/// entries followed by the fields of `lines`, in reading order.
pub proof fn lemma_window_is_latest_fields(w: Seq<FieldEntry>, lines: Seq<Seq<u8>>)
    requires
        w.len() <= FIELD_COUNT,
    ensures
        apply_lines(w, lines) == retain_last(w + entries_of(lines), FIELD_COUNT as nat),
        apply_lines(w, lines).len() <= FIELD_COUNT,
    decreases lines.len(),
{
    if lines.len() == 0 {
        assert(w + entries_of(lines) =~= w);
    } else {
        lemma_window_is_latest_fields(w, lines.drop_last());
        let prev = w + entries_of(lines.drop_last());
        match parse_line(lines.last()) {
            Some(e) => {
                lemma_retain_last_push(prev, e, FIELD_COUNT as nat);
                assert(prev.push(e) =~= w + entries_of(lines));
            },
            None => {},
        }
    }
}

/// Fields are evicted first in, first out: after `FIELD_COUNT + 1` fields
/// with distinct keys, the window no longer holds the first key.
pub proof fn lemma_oldest_field_evicted(entries: Seq<FieldEntry>)
    requires
        entries.len() == FIELD_COUNT + 1,
        forall|i: int, j: int|
            0 <= i < j < entries.len() ==> (#[trigger] entries[i]).0 != (#[trigger] entries[j]).0,
    ensures
        !holds_key(retain_last(entries, FIELD_COUNT as nat), entries[0].0),
        retain_last(entries, FIELD_COUNT as nat) == entries.subrange(1, entries.len() as int),
{
    let kept = retain_last(entries, FIELD_COUNT as nat);
    assert forall|i: int| 0 <= i < kept.len() implies (#[trigger] kept[i]).0 != entries[0].0 by {
        assert(kept[i] == entries[i + 1]);
    }
}

} // verus!
