//! Parsing of TUM-RGBD dataset records.
//!
//! An associations file pairs a depth image and a color image per line:
//! `depth_timestamp depth_path color_timestamp color_path`. A ground-truth
//! file carries one pose per line: `timestamp tx ty tz qx qy qz qw`. In both,
//! a line starting with `#` is a comment, fields are separated by runs of
//! blanks, text after the last required field is ignored, and a timestamp or
//! pose component must be written as a decimal number with an optional sign,
//! fraction and exponent. Fields are returned as raw bytes: the caller owns
//! their numeric interpretation.

use vstd::prelude::*;
use vstd::slice::slice_index_get;
use vstd::slice::slice_subrange;
use vstd::slice::slice_to_vec;

verus! {

/// A parsed association of a depth image and a color image, fields as the
/// raw bytes of the line.
#[derive(Clone, PartialEq, Debug)]
pub struct Association {
    pub depth_timestamp: Vec<u8>,
    pub depth_file_path: Vec<u8>,
    pub color_timestamp: Vec<u8>,
    pub color_file_path: Vec<u8>,
}

/// A parsed ground-truth record: a timestamp and the seven components of a
/// pose (translation, then unit-quaternion rotation), fields as the raw
/// bytes of the line.
#[derive(Clone, PartialEq, Debug)]
pub struct Frame {
    pub timestamp: Vec<u8>,
    pub pose: Vec<Vec<u8>>,
}

/// Some line does not parse as a comment or a record.
#[derive(Clone, Copy, PartialEq, Eq, Structural, Debug)]
pub struct ParseError;

// Byte classes ----------------------------------------------------------

/// Field separator: blank, tab, or a stray carriage return.
pub open spec fn is_sep(b: u8) -> bool {
    b == 32 || b == 9 || b == 13
}

pub open spec fn is_digit(b: u8) -> bool {
    48 <= b <= 57
}

pub open spec fn is_sign(b: u8) -> bool {
    b == 43 || b == 45
}

// Line structure --------------------------------------------------------

/// The index of the first line feed at or after `from`, or the end.
pub open spec fn line_end(s: Seq<u8>, from: int) -> int
    decreases s.len() - from,
{
    if from < 0 || from >= s.len() || s[from] == 10 {
        from
    } else {
        line_end(s, from + 1)
    }
}

/// The lines of `s` from `from` on, split at line feeds, as `str::lines`
/// yields them: no line holds a line feed, and a final line feed opens no
/// empty last line.
pub open spec fn split_lines_from(s: Seq<u8>, from: int) -> Seq<Seq<u8>>
    decreases s.len() - from,
    via split_lines_from_dec
{
    if from < 0 || from >= s.len() {
        Seq::empty()
    } else {
        let e = line_end(s, from);
        if e >= s.len() {
            seq![s.subrange(from, e)]
        } else {
            seq![s.subrange(from, e)] + split_lines_from(s, e + 1)
        }
    }
}

/// The end of a line lies between its start and the end of the file.
proof fn lemma_line_end_bounds(s: Seq<u8>, from: int)
    requires
        0 <= from <= s.len(),
    ensures
        from <= line_end(s, from) <= s.len(),
    decreases s.len() - from,
{
    if !(from >= s.len() || s[from] == 10) {
        lemma_line_end_bounds(s, from + 1);
    }
}

#[via_fn]
proof fn split_lines_from_dec(s: Seq<u8>, from: int) {
    if 0 <= from && from < s.len() {
        lemma_line_end_bounds(s, from);
    }
}

pub open spec fn split_lines(s: Seq<u8>) -> Seq<Seq<u8>> {
    split_lines_from(s, 0)
}

// Tokens ----------------------------------------------------------------

/// The first non-separator index at or after `from`.
pub open spec fn skip_seps(s: Seq<u8>, from: int) -> int
    decreases s.len() - from,
{
    if from < 0 || from >= s.len() || !is_sep(s[from]) {
        from
    } else {
        skip_seps(s, from + 1)
    }
}

/// The first separator index at or after `from`, or the end.
pub open spec fn token_end(s: Seq<u8>, from: int) -> int
    decreases s.len() - from,
{
    if from < 0 || from >= s.len() || is_sep(s[from]) {
        from
    } else {
        token_end(s, from + 1)
    }
}

/// Start index of the `n`-th blank-separated token of `s`.
pub open spec fn tok_start(s: Seq<u8>, n: int) -> int
    decreases n,
{
    if n <= 0 {
        skip_seps(s, 0)
    } else {
        skip_seps(s, token_end(s, tok_start(s, n - 1)))
    }
}

/// The `n`-th token exists.
pub open spec fn has_token(s: Seq<u8>, n: int) -> bool {
    tok_start(s, n) < s.len()
}

/// Once the tokens of a line are exhausted, every later token start sticks
/// at the same place: a line without its `t`-th token has no later token
/// either.
proof fn lemma_tok_start_sticks(s: Seq<u8>, t: int, t2: int)
    requires
        0 <= t <= t2,
        tok_start(s, t) >= s.len(),
    ensures
        tok_start(s, t2) == tok_start(s, t),
    decreases t2 - t,
{
    if t2 > t {
        lemma_tok_start_sticks(s, t, t2 - 1);
    }
}

/// The bytes of the `n`-th token.
pub open spec fn nth_token(s: Seq<u8>, n: int) -> Seq<u8> {
    s.subrange(tok_start(s, n), token_end(s, tok_start(s, n)))
}

// Number shape ----------------------------------------------------------

/// Length of the run of decimal digits starting at `from`.
pub open spec fn digits_run(s: Seq<u8>, from: int) -> int
    decreases s.len() - from,
{
    if from < 0 || from >= s.len() || !is_digit(s[from]) {
        0
    } else {
        1 + digits_run(s, from + 1)
    }
}

/// One optional sign byte at `from`.
pub open spec fn opt_sign_len(s: Seq<u8>, from: int) -> int {
    if 0 <= from < s.len() && is_sign(s[from]) {
        1
    } else {
        0
    }
}

/// From `from` to the end, either nothing or an exponent: `e` or `E`, an
/// optional sign, and at least one digit.
pub open spec fn exponent_ok(s: Seq<u8>, from: int) -> bool {
    if from == s.len() {
        true
    } else if 0 <= from < s.len() && (s[from] == 101 || s[from] == 69) {
        let i = from + 1 + opt_sign_len(s, from + 1);
        digits_run(s, i) > 0 && i + digits_run(s, i) == s.len()
    } else {
        false
    }
}

/// The whole of `s` is a decimal number: an optional sign, a mantissa with
/// digits on at least one side of an optional point, and an optional
/// exponent.
pub open spec fn is_float_token(s: Seq<u8>) -> bool {
    let i0 = opt_sign_len(s, 0);
    let d1 = digits_run(s, i0);
    let i1 = i0 + d1;
    if i1 < s.len() && s[i1] == 46 {
        let d2 = digits_run(s, i1 + 1);
        (d1 > 0 || d2 > 0) && exponent_ok(s, i1 + 1 + d2)
    } else {
        d1 > 0 && exponent_ok(s, i1)
    }
}

// Line validity ---------------------------------------------------------

pub open spec fn is_comment(l: Seq<u8>) -> bool {
    l.len() > 0 && l[0] == 35
}

/// A data line: starts with a field, holds at least `count` tokens, and
/// each token whose index is in `numbers` is a decimal number.
pub open spec fn record_line_valid(l: Seq<u8>, count: int, numbers: Seq<int>) -> bool {
    &&& l.len() > 0
    &&& !is_sep(l[0])
    &&& has_token(l, count - 1)
    &&& forall|k: int| 0 <= k < numbers.len() ==> is_float_token(nth_token(l, #[trigger] numbers[k]))
}

/// An association line: a comment, or two timestamp/path field pairs.
pub open spec fn assoc_line_valid(l: Seq<u8>) -> bool {
    is_comment(l) || record_line_valid(l, 4, seq![0int, 2int])
}

/// A ground-truth line: a comment, or a timestamp and seven pose components.
pub open spec fn frame_line_valid(l: Seq<u8>) -> bool {
    is_comment(l) || record_line_valid(l, 8, seq![0int, 1int, 2int, 3int, 4int, 5int, 6int, 7int])
}

/// The association carried by a valid data line.
pub open spec fn assoc_matches(l: Seq<u8>, a: Association) -> bool {
    &&& a.depth_timestamp@ == nth_token(l, 0)
    &&& a.depth_file_path@ == nth_token(l, 1)
    &&& a.color_timestamp@ == nth_token(l, 2)
    &&& a.color_file_path@ == nth_token(l, 3)
}

/// The ground-truth record carried by a valid data line.
pub open spec fn frame_matches(l: Seq<u8>, f: Frame) -> bool {
    &&& f.timestamp@ == nth_token(l, 0)
    &&& f.pose@.len() == 7
    &&& forall|k: int| 0 <= k < 7 ==> (#[trigger] f.pose@[k])@ == nth_token(l, k + 1)
}

/// Which lines of a file are data lines (not comments), in order.
pub open spec fn data_lines(ls: Seq<Seq<u8>>) -> Seq<Seq<u8>>
    decreases ls.len(),
{
    if ls.len() == 0 {
        Seq::empty()
    } else if is_comment(ls.last()) {
        data_lines(ls.drop_last())
    } else {
        data_lines(ls.drop_last()).push(ls.last())
    }
}

// Executable scanners -----------------------------------------------------

fn find_line_end(s: &[u8], from: usize) -> (e: usize)
    requires
        from <= s@.len(),
    ensures
        e == line_end(s@, from as int),
        from <= e <= s@.len(),
{
    let n = s.len();
    let mut k = from;
    loop
        invariant
            from <= k <= n,
            n == s@.len(),
            line_end(s@, from as int) == line_end(s@, k as int),
        ensures
            k == line_end(s@, from as int),
        decreases n - k,
    {
        if k >= n {
            break;
        }
        if *slice_index_get(s, k) == 10 {
            break;
        }
        k = k + 1;
    }
    k
}

fn find_skip_seps(s: &[u8], from: usize) -> (e: usize)
    requires
        from <= s@.len(),
    ensures
        e == skip_seps(s@, from as int),
        from <= e <= s@.len(),
{
    let n = s.len();
    let mut k = from;
    loop
        invariant
            from <= k <= n,
            n == s@.len(),
            skip_seps(s@, from as int) == skip_seps(s@, k as int),
        ensures
            k == skip_seps(s@, from as int),
        decreases n - k,
    {
        if k >= n {
            break;
        }
        let b = *slice_index_get(s, k);
        if !(b == 32 || b == 9 || b == 13) {
            break;
        }
        k = k + 1;
    }
    k
}

fn find_token_end(s: &[u8], from: usize) -> (e: usize)
    requires
        from <= s@.len(),
    ensures
        e == token_end(s@, from as int),
        from <= e <= s@.len(),
{
    let n = s.len();
    let mut k = from;
    loop
        invariant
            from <= k <= n,
            n == s@.len(),
            token_end(s@, from as int) == token_end(s@, k as int),
        ensures
            k == token_end(s@, from as int),
        decreases n - k,
    {
        if k >= n {
            break;
        }
        let b = *slice_index_get(s, k);
        if b == 32 || b == 9 || b == 13 {
            break;
        }
        k = k + 1;
    }
    k
}

fn find_digits_run(s: &[u8], from: usize) -> (d: usize)
    requires
        from <= s@.len(),
    ensures
        d == digits_run(s@, from as int),
        from + d <= s@.len(),
{
    let n = s.len();
    let mut k = from;
    loop
        invariant
            from <= k <= n,
            n == s@.len(),
            digits_run(s@, from as int) == (k - from) + digits_run(s@, k as int),
        ensures
            k - from == digits_run(s@, from as int),
        decreases n - k,
    {
        if k >= n {
            break;
        }
        let b = *slice_index_get(s, k);
        if !(48 <= b && b <= 57) {
            break;
        }
        k = k + 1;
    }
    k - from
}

/// Whether a whole field is a decimal number, as `is_float_token` defines
/// one.
fn is_float_bytes(s: &[u8]) -> (r: bool)
    ensures
        r == is_float_token(s@),
{
    let n = s.len();
    let mut i: usize = 0;
    if i < n {
        let b = *slice_index_get(s, i);
        if b == 43 || b == 45 {
            i = 1;
        }
    }
    let d1 = find_digits_run(s, i);
    let i1 = i + d1;
    let mant_ok: bool;
    let after_mantissa: usize;
    if i1 < n && *slice_index_get(s, i1) == 46 {
        let d2 = find_digits_run(s, i1 + 1);
        mant_ok = d1 > 0 || d2 > 0;
        after_mantissa = i1 + 1 + d2;
    } else {
        mant_ok = d1 > 0;
        after_mantissa = i1;
    }
    if !mant_ok {
        return false;
    }
    if after_mantissa == n {
        return true;
    }
    let e = *slice_index_get(s, after_mantissa);
    if e == 101 || e == 69 {
        let mut j = after_mantissa + 1;
        if j < n {
            let b = *slice_index_get(s, j);
            if b == 43 || b == 45 {
                j = j + 1;
            }
        }
        let d = find_digits_run(s, j);
        return d > 0 && j + d == n;
    }
    false
}

/// The ranges of the first `count` tokens of a line, or `None` when the
/// line holds fewer tokens.
fn token_ranges(line: &[u8], count: usize) -> (r: Option<Vec<(usize, usize)>>)
    ensures
        match r {
            Some(v) => {
                &&& v@.len() == count
                &&& forall|t: int|
                    0 <= t < count ==> (#[trigger] v@[t]).0 == tok_start(line@, t) && v@[t].1
                        == token_end(line@, tok_start(line@, t)) && has_token(line@, t)
            },
            None => !has_token(line@, count - 1),
        },
{
    let n = line.len();
    let mut v: Vec<(usize, usize)> = Vec::new();
    let mut cur: usize = 0;
    let mut t: usize = 0;
    while t < count
        invariant
            n == line@.len(),
            t <= count,
            cur <= n,
            v@.len() == t,
            cur as int == (if t == 0 {
                0int
            } else {
                token_end(line@, tok_start(line@, t - 1))
            }),
            forall|t2: int|
                0 <= t2 < t ==> (#[trigger] v@[t2]).0 == tok_start(line@, t2) && v@[t2].1
                    == token_end(line@, tok_start(line@, t2)) && has_token(line@, t2),
        decreases count - t,
    {
        let st = find_skip_seps(line, cur);
        proof {
            assert(st == tok_start(line@, t as int));
        }
        if st >= n {
            proof {
                lemma_tok_start_sticks(line@, t as int, count - 1);
            }
            return None;
        }
        let en = find_token_end(line, st);
        v.push((st, en));
        cur = en;
        t = t + 1;
    }
    Some(v)
}

// Line parsers ------------------------------------------------------------

/// Parse one association line: `None` when the line is invalid, `Some(None)`
/// for a comment, `Some(Some(a))` for a record.
fn parse_assoc_line(line: &[u8]) -> (r: Option<Option<Association>>)
    ensures
        match r {
            None => !assoc_line_valid(line@),
            Some(a) => match a {
                None => is_comment(line@),
                Some(a) => !is_comment(line@) && record_line_valid(line@, 4, seq![0int, 2int])
                    && assoc_matches(line@, a),
            },
        },
{
    let n = line.len();
    if n == 0 {
        return None;
    }
    let b0 = *slice_index_get(line, 0);
    if b0 == 35 {
        return Some(None);
    }
    if b0 == 32 || b0 == 9 || b0 == 13 {
        return None;
    }
    let ranges = match token_ranges(line, 4) {
        Some(v) => v,
        None => {
            return None;
        },
    };
    let (s0, e0) = ranges[0];
    let (s1, e1) = ranges[1];
    let (s2, e2) = ranges[2];
    let (s3, e3) = ranges[3];
    proof {
        lemma_token_in_line(line@, 0);
        lemma_token_in_line(line@, 1);
        lemma_token_in_line(line@, 2);
        lemma_token_in_line(line@, 3);
    }
    let t0 = slice_subrange(line, s0, e0);
    let t2 = slice_subrange(line, s2, e2);
    if !is_float_bytes(t0) {
        proof {
            assert(seq![0int, 2int][0] == 0);
        }
        return None;
    }
    if !is_float_bytes(t2) {
        proof {
            assert(seq![0int, 2int][1] == 2);
        }
        return None;
    }
    let a = Association {
        depth_timestamp: slice_to_vec(t0),
        depth_file_path: slice_to_vec(slice_subrange(line, s1, e1)),
        color_timestamp: slice_to_vec(t2),
        color_file_path: slice_to_vec(slice_subrange(line, s3, e3)),
    };
    proof {
        let numbers: Seq<int> = seq![0int, 2int];
        assert forall|k: int| 0 <= k < numbers.len() implies is_float_token(
            nth_token(line@, #[trigger] numbers[k]),
        ) by {
            if k == 0 {
                assert(numbers[k] == 0);
            } else {
                assert(numbers[k] == 2);
            }
        }
    }
    Some(Some(a))
}

/// A token of a line lies within the line.
proof fn lemma_token_in_line(s: Seq<u8>, t: int)
    requires
        t >= 0,
        has_token(s, t),
    ensures
        0 <= tok_start(s, t) <= token_end(s, tok_start(s, t)) <= s.len(),
{
    lemma_tok_start_ge_zero(s, t);
    lemma_token_end_bounds(s, tok_start(s, t));
}

proof fn lemma_tok_start_ge_zero(s: Seq<u8>, t: int)
    requires
        t >= 0,
    ensures
        tok_start(s, t) >= 0,
    decreases t,
{
    if t == 0 {
        lemma_skip_seps_bounds(s, 0);
    } else {
        lemma_tok_start_ge_zero(s, t - 1);
        lemma_token_end_bounds(s, tok_start(s, t - 1));
        lemma_skip_seps_bounds(s, token_end(s, tok_start(s, t - 1)));
    }
}

proof fn lemma_skip_seps_bounds(s: Seq<u8>, from: int)
    requires
        from >= 0,
    ensures
        skip_seps(s, from) >= from,
    decreases s.len() - from,
{
    if !(from >= s.len() || !is_sep(s[from])) {
        lemma_skip_seps_bounds(s, from + 1);
    }
}

proof fn lemma_token_end_bounds(s: Seq<u8>, from: int)
    requires
        from >= 0,
    ensures
        from <= token_end(s, from),
        from <= s.len() ==> token_end(s, from) <= s.len(),
    decreases s.len() - from,
{
    if !(from >= s.len() || is_sep(s[from])) {
        lemma_token_end_bounds(s, from + 1);
    }
}

/// Parse one ground-truth line: `None` when the line is invalid,
/// `Some(None)` for a comment, `Some(Some(f))` for a record.
fn parse_frame_line(line: &[u8]) -> (r: Option<Option<Frame>>)
    ensures
        match r {
            None => !frame_line_valid(line@),
            Some(f) => match f {
                None => is_comment(line@),
                Some(f) => !is_comment(line@) && record_line_valid(
                    line@,
                    8,
                    seq![0int, 1int, 2int, 3int, 4int, 5int, 6int, 7int],
                ) && frame_matches(line@, f),
            },
        },
{
    let n = line.len();
    if n == 0 {
        return None;
    }
    let b0 = *slice_index_get(line, 0);
    if b0 == 35 {
        return Some(None);
    }
    if b0 == 32 || b0 == 9 || b0 == 13 {
        return None;
    }
    let ranges = match token_ranges(line, 8) {
        Some(v) => v,
        None => {
            return None;
        },
    };
    let ghost numbers: Seq<int> = seq![0int, 1int, 2int, 3int, 4int, 5int, 6int, 7int];
    let mut t: usize = 0;
    while t < 8
        invariant
            numbers == seq![0int, 1int, 2int, 3int, 4int, 5int, 6int, 7int],
            t <= 8,
            ranges@.len() == 8,
            n == line@.len(),
            n > 0,
            !is_comment(line@),
            !is_sep(line@[0]),
            forall|t2: int|
                0 <= t2 < 8 ==> (#[trigger] ranges@[t2]).0 == tok_start(line@, t2) && ranges@[t2].1
                    == token_end(line@, tok_start(line@, t2)) && has_token(line@, t2),
            forall|t2: int| 0 <= t2 < t ==> is_float_token(nth_token(line@, t2)),
        decreases 8 - t,
    {
        let (st, en) = ranges[t];
        proof {
            lemma_token_in_line(line@, t as int);
        }
        if !is_float_bytes(slice_subrange(line, st, en)) {
            proof {
                assert(numbers[t as int] == t as int);
            }
            return None;
        }
        t = t + 1;
    }
    proof {
        assert forall|k: int| 0 <= k < numbers.len() implies is_float_token(
            nth_token(line@, #[trigger] numbers[k]),
        ) by {
            assert(numbers[k] == k);
        }
    }
    let (s0, e0) = ranges[0];
    proof {
        lemma_token_in_line(line@, 0);
        assert((ranges@[7int]).0 == tok_start(line@, 7int));
        assert(has_token(line@, 7int));
        assert(record_line_valid(line@, 8, numbers));
    }
    let timestamp = slice_to_vec(slice_subrange(line, s0, e0));
    let mut pose: Vec<Vec<u8>> = Vec::new();
    let mut t: usize = 1;
    while t < 8
        invariant
            1 <= t <= 8,
            ranges@.len() == 8,
            n == line@.len(),
            n > 0,
            !is_comment(line@),
            numbers == seq![0int, 1int, 2int, 3int, 4int, 5int, 6int, 7int],
            record_line_valid(line@, 8, numbers),
            timestamp@ == nth_token(line@, 0),
            forall|t2: int|
                0 <= t2 < 8 ==> (#[trigger] ranges@[t2]).0 == tok_start(line@, t2) && ranges@[t2].1
                    == token_end(line@, tok_start(line@, t2)) && has_token(line@, t2),
            pose@.len() == t - 1,
            forall|k: int| 0 <= k < t - 1 ==> (#[trigger] pose@[k])@ == nth_token(line@, k + 1),
        decreases 8 - t,
    {
        let (st, en) = ranges[t];
        proof {
            lemma_token_in_line(line@, t as int);
        }
        pose.push(slice_to_vec(slice_subrange(line, st, en)));
        t = t + 1;
    }
    Some(Some(Frame { timestamp, pose }))
}

// File parsers ------------------------------------------------------------

/// Parse the contents of an associations file.
///
/// Succeeds exactly when every line is a comment or an association record,
/// and then yields the records of the data lines, in file order, with their
/// fields as the exact bytes of the line.
pub fn associations(file_content: &[u8]) -> (r: Result<Vec<Association>, ParseError>)
    ensures
        match r {
            Ok(v) => {
                &&& forall|k: int|
                    0 <= k < split_lines(file_content@).len() ==> assoc_line_valid(
                        #[trigger] split_lines(file_content@)[k],
                    )
                &&& v@.len() == data_lines(split_lines(file_content@)).len()
                &&& forall|k: int|
                    0 <= k < v@.len() ==> assoc_matches(
                        data_lines(split_lines(file_content@))[k],
                        #[trigger] v@[k],
                    )
            },
            Err(e) => {
                &&& e == ParseError
                &&& exists|k: int|
                    0 <= k < split_lines(file_content@).len() && !assoc_line_valid(
                        #[trigger] split_lines(file_content@)[k],
                    )
            },
        },
{
    let ghost ls = split_lines(file_content@);
    let n = file_content.len();
    let mut out: Vec<Association> = Vec::new();
    let mut pos: usize = 0;
    let ghost mut done: int = 0;
    while pos < n
        invariant
            ls == split_lines(file_content@),
            n == file_content@.len(),
            pos <= n,
            0 <= done <= ls.len(),
            split_lines_from(file_content@, pos as int) == ls.skip(done),
            forall|k: int| 0 <= k < done ==> assoc_line_valid(#[trigger] ls[k]),
            out@.len() == data_lines(ls.take(done)).len(),
            forall|k: int|
                0 <= k < out@.len() ==> assoc_matches(
                    data_lines(ls.take(done))[k],
                    #[trigger] out@[k],
                ),
        decreases n - pos,
    {
        let e = find_line_end(file_content, pos);
        let line = slice_subrange(file_content, pos, e);
        let ghost rest = if e < n {
            split_lines_from(file_content@, e + 1)
        } else {
            Seq::empty()
        };
        proof {
            assert(ls.skip(done) =~= seq![line@] + rest);
            assert(0 <= done < ls.len());
            assert(ls[done] == ls.skip(done)[0]);
            assert(ls[done] == line@);
        }
        match parse_assoc_line(line) {
            None => {
                proof {
                    assert(!assoc_line_valid(ls[done]));
                }
                return Err(ParseError);
            },
            Some(parsed) => {
                proof {
                    assert(ls.take(done + 1).drop_last() =~= ls.take(done));
                    assert(ls.take(done + 1).last() == ls[done]);
                }
                match parsed {
                    None => {
                        proof {
                            assert(data_lines(ls.take(done + 1)) == data_lines(ls.take(done)));
                        }
                    },
                    Some(a) => {
                        out.push(a);
                        proof {
                            assert(data_lines(ls.take(done + 1)) == data_lines(
                                ls.take(done),
                            ).push(ls[done]));
                        }
                    },
                }
            },
        }
        if e < n {
            pos = e + 1;
        } else {
            pos = n;
        }
        proof {
            done = done + 1;
            assert((seq![line@] + rest).skip(1) =~= rest);
            assert(ls.skip(done - 1).skip(1) == (seq![line@] + rest).skip(1));
            assert(ls.skip(done) =~= ls.skip(done - 1).skip(1));
        }
    }
    proof {
        assert(ls.skip(done) =~= Seq::empty());
        assert(done == ls.len());
        assert(ls.take(done) =~= ls);
    }
    Ok(out)
}

/// Parse the contents of a ground-truth trajectory file.
///
/// Succeeds exactly when every line is a comment or a pose record, and then
/// yields the records of the data lines, in file order, with their fields as
/// the exact bytes of the line.
pub fn groundtruth(file_content: &[u8]) -> (r: Result<Vec<Frame>, ParseError>)
    ensures
        match r {
            Ok(v) => {
                &&& forall|k: int|
                    0 <= k < split_lines(file_content@).len() ==> frame_line_valid(
                        #[trigger] split_lines(file_content@)[k],
                    )
                &&& v@.len() == data_lines(split_lines(file_content@)).len()
                &&& forall|k: int|
                    0 <= k < v@.len() ==> frame_matches(
                        data_lines(split_lines(file_content@))[k],
                        #[trigger] v@[k],
                    )
            },
            Err(e) => {
                &&& e == ParseError
                &&& exists|k: int|
                    0 <= k < split_lines(file_content@).len() && !frame_line_valid(
                        #[trigger] split_lines(file_content@)[k],
                    )
            },
        },
{
    let ghost ls = split_lines(file_content@);
    let n = file_content.len();
    let mut out: Vec<Frame> = Vec::new();
    let mut pos: usize = 0;
    let ghost mut done: int = 0;
    while pos < n
        invariant
            ls == split_lines(file_content@),
            n == file_content@.len(),
            pos <= n,
            0 <= done <= ls.len(),
            split_lines_from(file_content@, pos as int) == ls.skip(done),
            forall|k: int| 0 <= k < done ==> frame_line_valid(#[trigger] ls[k]),
            out@.len() == data_lines(ls.take(done)).len(),
            forall|k: int|
                0 <= k < out@.len() ==> frame_matches(
                    data_lines(ls.take(done))[k],
                    #[trigger] out@[k],
                ),
        decreases n - pos,
    {
        let e = find_line_end(file_content, pos);
        let line = slice_subrange(file_content, pos, e);
        let ghost rest = if e < n {
            split_lines_from(file_content@, e + 1)
        } else {
            Seq::empty()
        };
        proof {
            assert(ls.skip(done) =~= seq![line@] + rest);
            assert(0 <= done < ls.len());
            assert(ls[done] == ls.skip(done)[0]);
            assert(ls[done] == line@);
        }
        match parse_frame_line(line) {
            None => {
                proof {
                    assert(!frame_line_valid(ls[done]));
                }
                return Err(ParseError);
            },
            Some(parsed) => {
                proof {
                    assert(ls.take(done + 1).drop_last() =~= ls.take(done));
                    assert(ls.take(done + 1).last() == ls[done]);
                }
                match parsed {
                    None => {
                        proof {
                            assert(data_lines(ls.take(done + 1)) == data_lines(ls.take(done)));
                        }
                    },
                    Some(f) => {
                        out.push(f);
                        proof {
                            assert(data_lines(ls.take(done + 1)) == data_lines(
                                ls.take(done),
                            ).push(ls[done]));
                        }
                    },
                }
            },
        }
        if e < n {
            pos = e + 1;
        } else {
            pos = n;
        }
        proof {
            done = done + 1;
            assert((seq![line@] + rest).skip(1) =~= rest);
            assert(ls.skip(done - 1).skip(1) == (seq![line@] + rest).skip(1));
            assert(ls.skip(done) =~= ls.skip(done - 1).skip(1));
        }
    }
    proof {
        assert(ls.skip(done) =~= Seq::empty());
        assert(done == ls.len());
        assert(ls.take(done) =~= ls);
    }
    Ok(out)
}

} // verus!
