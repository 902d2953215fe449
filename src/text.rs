//! Byte-level text primitives used to read `key=value` telemetry lines.
use vstd::prelude::*;
use vstd::slice::{slice_subrange, slice_to_vec};

verus! {

/// The byte that terminates a line.
pub const NEWLINE: u8 = 10;

/// The byte that separates a key from its value.
pub const EQUALS: u8 = 61;

/// ASCII whitespace: space, tab, line feed, vertical tab, form feed, carriage return.
pub open spec fn is_space(b: u8) -> bool {
    b == 32 || (9 <= b && b <= 13)
}

pub open spec fn is_digit(b: u8) -> bool {
    48 <= b && b <= 57
}

pub open spec fn is_sign(b: u8) -> bool {
    b == 43 || b == 45
}

/// `s` without leading whitespace.
pub open spec fn trim_start(s: Seq<u8>) -> Seq<u8>
    decreases s.len(),
{
    if s.len() > 0 && is_space(s[0]) {
        trim_start(s.drop_first())
    } else {
        s
    }
}

/// `s` without trailing whitespace.
pub open spec fn trim_end(s: Seq<u8>) -> Seq<u8>
    decreases s.len(),
{
    if s.len() > 0 && is_space(s.last()) {
        trim_end(s.drop_last())
    } else {
        s
    }
}

/// `s` without leading and trailing whitespace.
pub open spec fn trim(s: Seq<u8>) -> Seq<u8> {
    trim_end(trim_start(s))
}

/// Index of the first occurrence of `b` in `s`, or `s.len()` when there is none.
pub open spec fn first_index(s: Seq<u8>, b: u8) -> nat
    decreases s.len(),
{
    if s.len() == 0 {
        0
    } else if s[0] == b {
        0
    } else {
        1 + first_index(s.drop_first(), b)
    }
}

/// The value of a string of decimal digits.
pub open spec fn digits_value(s: Seq<u8>) -> nat
    decreases s.len(),
{
    if s.len() == 0 {
        0
    } else {
        digits_value(s.drop_last()) * 10 + (s.last() - 48) as nat
    }
}

pub open spec fn all_digits(s: Seq<u8>) -> bool {
    forall|i: int| 0 <= i < s.len() ==> is_digit(#[trigger] s[i])
}

/// The digits of an unsigned number: an optional leading `+` dropped.
pub open spec fn unsigned_body(s: Seq<u8>) -> Seq<u8> {
    if s.len() > 0 && s[0] == 43 {
        s.drop_first()
    } else {
        s
    }
}

/// The unsigned 64-bit integer that `s` spells: an optional `+`, then one or
/// more decimal digits, with a value that fits in 64 bits.
pub open spec fn parse_count(s: Seq<u8>) -> Option<u64> {
    let d = unsigned_body(s);
    if d.len() > 0 && all_digits(d) && digits_value(d) <= u64::MAX {
        Some(digits_value(d) as u64)
    } else {
        None
    }
}

/// Number of consecutive digits in `s` starting at `i`.
pub open spec fn digit_run(s: Seq<u8>, i: int) -> nat
    decreases s.len() - i,
{
    if 0 <= i < s.len() && is_digit(s[i]) {
        1 + digit_run(s, i + 1)
    } else {
        0
    }
}

/// Where the mantissa of a decimal number starts: after an optional sign.
pub open spec fn mantissa_start(s: Seq<u8>) -> int {
    if s.len() > 0 && is_sign(s[0]) {
        1
    } else {
        0
    }
}

/// Whether a decimal point follows the integer digits of the mantissa.
pub open spec fn has_point(s: Seq<u8>) -> bool {
    let p = mantissa_start(s) + digit_run(s, mantissa_start(s));
    p < s.len() && s[p] == 46
}

/// Number of digits after the decimal point (zero without a point).
pub open spec fn fraction_digits(s: Seq<u8>) -> nat {
    let p = mantissa_start(s) + digit_run(s, mantissa_start(s));
    if has_point(s) {
        digit_run(s, p + 1)
    } else {
        0
    }
}

/// Where the mantissa ends.
pub open spec fn mantissa_end(s: Seq<u8>) -> int {
    let p = mantissa_start(s) + digit_run(s, mantissa_start(s));
    if has_point(s) {
        p + 1 + fraction_digits(s)
    } else {
        p
    }
}

/// Where the digits of an exponent that starts at `q` begin.
pub open spec fn exponent_digits_start(s: Seq<u8>, q: int) -> int {
    if q + 1 < s.len() && is_sign(s[q + 1]) {
        q + 2
    } else {
        q + 1
    }
}

/// `s` from `q` on is an exponent: `e` or `E`, an optional sign, one or more digits.
pub open spec fn is_exponent_at(s: Seq<u8>, q: int) -> bool {
    let b = exponent_digits_start(s, q);
    &&& 0 <= q < s.len()
    &&& (s[q] == 101 || s[q] == 69)
    &&& digit_run(s, b) > 0
    &&& b + digit_run(s, b) == s.len()
}

/// A finite decimal number: an optional sign, digits with at most one decimal
/// point and at least one digit, then an optional exponent.
pub open spec fn is_decimal(s: Seq<u8>) -> bool {
    &&& digit_run(s, mantissa_start(s)) + fraction_digits(s) > 0
    &&& (mantissa_end(s) == s.len() || is_exponent_at(s, mantissa_end(s)))
}

proof fn lemma_trim_start_step(s: Seq<u8>, i: int, hi: int)
    requires
        0 <= i < hi <= s.len(),
        is_space(s[i]),
    ensures
        trim_start(s.subrange(i, hi)) == trim_start(s.subrange(i + 1, hi)),
{
    assert(s.subrange(i, hi).drop_first() =~= s.subrange(i + 1, hi));
}

proof fn lemma_trim_end_step(s: Seq<u8>, lo: int, j: int)
    requires
        0 <= lo < j <= s.len(),
        is_space(s[j - 1]),
    ensures
        trim_end(s.subrange(lo, j)) == trim_end(s.subrange(lo, j - 1)),
{
    assert(s.subrange(lo, j).drop_last() =~= s.subrange(lo, j - 1));
}

/// The bounds of `s[lo..hi]` with surrounding whitespace removed.
pub fn trim_bounds(s: &[u8], lo: usize, hi: usize) -> (r: (usize, usize))
    requires
        lo <= hi <= s@.len(),
    ensures
        lo <= r.0 <= r.1 <= hi,
        s@.subrange(r.0 as int, r.1 as int) == trim(s@.subrange(lo as int, hi as int)),
{
    let mut i: usize = lo;
    while i < hi && (s[i] == 32 || (9 <= s[i] && s[i] <= 13))
        invariant
            lo <= i <= hi <= s@.len(),
            trim_start(s@.subrange(lo as int, hi as int)) == trim_start(s@.subrange(i as int, hi as int)),
        decreases hi - i,
    {
        proof {
            lemma_trim_start_step(s@, i as int, hi as int);
        }
        i = i + 1;
    }
    assert(trim_start(s@.subrange(i as int, hi as int)) == s@.subrange(i as int, hi as int));
    let mut j: usize = hi;
    while j > i && (s[j - 1] == 32 || (9 <= s[j - 1] && s[j - 1] <= 13))
        invariant
            lo <= i <= j <= hi <= s@.len(),
            trim(s@.subrange(lo as int, hi as int)) == trim_end(s@.subrange(i as int, j as int)),
        decreases j - i,
    {
        proof {
            lemma_trim_end_step(s@, i as int, j as int);
        }
        j = j - 1;
    }
    (i, j)
}

pub proof fn lemma_first_index(s: Seq<u8>, b: u8, i: int)
    requires
        0 <= i <= s.len(),
        forall|k: int| 0 <= k < i ==> s[k] != b,
        i == s.len() || s[i] == b,
    ensures
        first_index(s, b) == i,
    decreases i,
{
    if i > 0 {
        lemma_first_index(s.drop_first(), b, i - 1);
    }
}

/// The first index `i` in `lo..s.len()` where `s[i] == b`, or `s.len()`.
pub fn find_byte(s: &[u8], lo: usize, b: u8) -> (r: usize)
    requires
        lo <= s@.len(),
    ensures
        lo <= r <= s@.len(),
        r - lo == first_index(s@.subrange(lo as int, s@.len() as int), b),
        r < s@.len() ==> s@[r as int] == b,
{
    let mut i: usize = lo;
    while i < s.len() && s[i] != b
        invariant
            lo <= i <= s@.len(),
            forall|k: int| lo <= k < i ==> s@[k] != b,
        decreases s@.len() - i,
    {
        i = i + 1;
    }
    proof {
        let t = s@.subrange(lo as int, s@.len() as int);
        assert forall|k: int| 0 <= k < i - lo implies t[k] != b by {
            assert(t[k] == s@[lo + k]);
        }
        lemma_first_index(t, b, i - lo);
    }
    i
}

/// A `key=value` line: split at the first `=` of the trimmed line, both sides
/// trimmed. A line without `=` holds no field.
pub open spec fn parse_line(line: Seq<u8>) -> Option<(Seq<u8>, Seq<u8>)> {
    let t = trim(line);
    let p = first_index(t, EQUALS) as int;
    if p < t.len() {
        Some((trim(t.subrange(0, p)), trim(t.subrange(p + 1, t.len() as int))))
    } else {
        None
    }
}

proof fn lemma_subrange_of_subrange(s: Seq<u8>, a: int, b: int, c: int, d: int)
    requires
        0 <= a <= b <= s.len(),
        0 <= c <= d <= b - a,
    ensures
        s.subrange(a, b).subrange(c, d) == s.subrange(a + c, a + d),
{
    assert(s.subrange(a, b).subrange(c, d) =~= s.subrange(a + c, a + d));
}

/// Reads one line (without its line terminator) as a key and a value.
pub fn split_field(line: &[u8]) -> (r: Option<(Vec<u8>, Vec<u8>)>)
    ensures
        match r {
            Some((k, v)) => parse_line(line@) == Some((k@, v@)),
            None => parse_line(line@).is_none(),
        },
{
    let (lo, hi) = trim_bounds(line, 0, line.len());
    assert(line@.subrange(0, line@.len() as int) =~= line@);
    let t = slice_subrange(line, lo, hi);
    let p = find_byte(t, 0, EQUALS);
    assert(t@.subrange(0, t@.len() as int) =~= t@);
    if p < t.len() {
        let (klo, khi) = trim_bounds(t, 0, p);
        let (vlo, vhi) = trim_bounds(t, p + 1, t.len());
        let k = slice_to_vec(slice_subrange(t, klo, khi));
        let v = slice_to_vec(slice_subrange(t, vlo, vhi));
        Some((k, v))
    } else {
        None
    }
}

proof fn lemma_digits_value_grows(s: Seq<u8>, k: int)
    requires
        0 <= k <= s.len(),
    ensures
        digits_value(s.subrange(0, k)) <= digits_value(s),
    decreases s.len(),
{
    if k < s.len() {
        assert(s.drop_last().subrange(0, k) =~= s.subrange(0, k));
        lemma_digits_value_grows(s.drop_last(), k);
    } else {
        assert(s.subrange(0, k) =~= s);
    }
}

/// Reads `s` as an unsigned 64-bit integer, as `parse_count` describes.
pub fn parse_u64(s: &[u8]) -> (r: Option<u64>)
    ensures
        r == parse_count(s@),
{
    let start: usize = if s.len() > 0 && s[0] == 43 {
        1
    } else {
        0
    };
    let ghost d = unsigned_body(s@);
    assert(d =~= s@.subrange(start as int, s@.len() as int));
    if start >= s.len() {
        return None;
    }
    let mut value: u64 = 0;
    let mut i: usize = start;
    while i < s.len()
        invariant
            start <= i <= s@.len(),
            d == s@.subrange(start as int, s@.len() as int),
            d == unsigned_body(s@),
            forall|k: int| start <= k < i ==> is_digit(s@[k]),
            value as nat == digits_value(d.subrange(0, i - start)),
        decreases s@.len() - i,
    {
        let c = s[i];
        if c < 48 || c > 57 {
            assert(d[i - start] == s@[i as int]);
            assert(!all_digits(d));
            return None;
        }
        let digit: u64 = (c - 48) as u64;
        assert(d.subrange(0, i + 1 - start).drop_last() =~= d.subrange(0, i - start));
        assert(d.subrange(0, i + 1 - start).last() == c);
        assert(digits_value(d.subrange(0, i + 1 - start)) == value * 10 + digit);
        if value > (u64::MAX - digit) / 10 {
            proof {
                assert(value * 10 + digit > u64::MAX) by (nonlinear_arith)
                    requires
                        value > (u64::MAX - digit) / 10,
                        digit <= 9,
                ;
                lemma_digits_value_grows(d, i + 1 - start);
                assert(digits_value(d) > u64::MAX);
            }
            return None;
        }
        proof {
            assert(value * 10 + digit <= u64::MAX) by (nonlinear_arith)
                requires
                    value <= (u64::MAX - digit) / 10,
                    digit <= 9,
            ;
        }
        value = value * 10 + digit;
        i = i + 1;
    }
    assert(d.subrange(0, i - start) =~= d);
    Some(value)
}

/// The index just past the run of digits that starts at `i`.
fn scan_digits(s: &[u8], i: usize) -> (r: usize)
    requires
        i <= s@.len(),
    ensures
        r == i + digit_run(s@, i as int),
        r <= s@.len(),
{
    let mut j: usize = i;
    while j < s.len() && 48 <= s[j] && s[j] <= 57
        invariant
            i <= j <= s@.len(),
            digit_run(s@, i as int) == (j - i) + digit_run(s@, j as int),
        decreases s@.len() - j,
    {
        j = j + 1;
    }
    j
}

/// Whether `s` is a finite decimal number, as `is_decimal` describes.
pub fn is_decimal_text(s: &[u8]) -> (r: bool)
    ensures
        r == is_decimal(s@),
{
    let m: usize = if s.len() > 0 && (s[0] == 43 || s[0] == 45) {
        1
    } else {
        0
    };
    let p = scan_digits(s, m);
    let point = p < s.len() && s[p] == 46;
    let q = if point {
        scan_digits(s, p + 1)
    } else {
        p
    };
    let fraction: usize = if point {
        q - (p + 1)
    } else {
        0
    };
    if p - m == 0 && fraction == 0 {
        return false;
    }
    if q == s.len() {
        return true;
    }
    if !(s[q] == 101 || s[q] == 69) {
        return false;
    }
    let b: usize = if q + 1 < s.len() && (s[q + 1] == 43 || s[q + 1] == 45) {
        q + 2
    } else {
        q + 1
    };
    let e = scan_digits(s, b);
    e > b && e == s.len()
}

/// Whether two byte strings are equal.
pub fn bytes_equal(a: &[u8], b: &[u8]) -> (r: bool)
    ensures
        r == (a@ == b@),
{
    if a.len() != b.len() {
        return false;
    }
    let mut i: usize = 0;
    while i < a.len()
        invariant
            i <= a@.len() == b@.len(),
            forall|k: int| 0 <= k < i ==> a@[k] == b@[k],
        decreases a@.len() - i,
    {
        if a[i] != b[i] {
            return false;
        }
        i = i + 1;
    }
    assert(a@ =~= b@);
    true
}

/// The complete lines of `d`: each run of bytes ended by a line feed, without
/// it. Bytes after the last line feed belong to no complete line.
pub open spec fn complete_lines(d: Seq<u8>) -> Seq<Seq<u8>>
    decreases d.len(),
{
    let p = first_index(d, NEWLINE) as int;
    if p < d.len() {
        seq![d.subrange(0, p)] + complete_lines(d.subrange(p + 1, d.len() as int))
    } else {
        seq![]
    }
}

/// The number of bytes of `d` that its complete lines cover, line feeds included.
pub open spec fn complete_len(d: Seq<u8>) -> nat
    decreases d.len(),
{
    let p = first_index(d, NEWLINE) as int;
    if p < d.len() {
        (p + 1 + complete_len(d.subrange(p + 1, d.len() as int))) as nat
    } else {
        0
    }
}

/// The bytes of `lines`, each followed by a line feed.
pub open spec fn join_lines(lines: Seq<Seq<u8>>) -> Seq<u8>
    decreases lines.len(),
{
    if lines.len() == 0 {
        seq![]
    } else {
        lines[0] + seq![NEWLINE] + join_lines(lines.drop_first())
    }
}

/// Lines without line feeds, each written with one, read back as the same
/// complete lines.
pub proof fn lemma_complete_lines_of_join(lines: Seq<Seq<u8>>)
    requires
        forall|i: int, j: int|
            0 <= i < lines.len() && 0 <= j < lines[i].len() ==> #[trigger] lines[i][j] != NEWLINE,
    ensures
        complete_lines(join_lines(lines)) == lines,
        complete_len(join_lines(lines)) == join_lines(lines).len(),
    decreases lines.len(),
{
    if lines.len() > 0 {
        let l0 = lines[0];
        let rest = lines.drop_first();
        assert forall|i: int, j: int|
            0 <= i < rest.len() && 0 <= j < rest[i].len() implies #[trigger] rest[i][j] != NEWLINE by {
            assert(rest[i] == lines[i + 1]);
            assert(lines[i + 1][j] != NEWLINE);
        }
        lemma_complete_lines_of_join(rest);
        let d = join_lines(lines);
        assert forall|k: int| 0 <= k < l0.len() implies d[k] != NEWLINE by {
            assert(d[k] == l0[k]);
            assert(lines[0][k] != NEWLINE);
        }
        assert(d[l0.len() as int] == NEWLINE);
        lemma_first_index(d, NEWLINE, l0.len() as int);
        assert(d.subrange(0, l0.len() as int) =~= l0);
        assert(d.subrange(l0.len() as int + 1, d.len() as int) =~= join_lines(rest));
        assert(seq![l0] + rest =~= lines);
    }
}

} // verus!
