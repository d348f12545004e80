//! The header of the header-and-body format: ASCII lines, one of which may
//! declare the number of records, ended by a sentinel line.

use vstd::prelude::*;
use crate::error::FormatError;
use crate::splat::{SerializedSplat, SerializedSplat2, SPLAT2_STRIDE, SPLAT_STRIDE};

verus! {

/// How many lines may precede the sentinel line.
pub const MAX_HEADER_LINES: usize = 65;

/// The line break.
pub const NEWLINE: u8 = 10;

/// `end_header` and a line break: the line that ends the header.
pub open spec fn sentinel() -> Seq<u8> {
    seq![101u8, 110u8, 100u8, 95u8, 104u8, 101u8, 97u8, 100u8, 101u8, 114u8, 10u8]
}

/// `element vertex ` (with the blank): what a line that declares the number
/// of records begins with.
pub open spec fn count_prefix() -> Seq<u8> {
    seq![
        101u8, 108u8, 101u8, 109u8, 101u8, 110u8, 116u8, 32u8, 118u8, 101u8, 114u8, 116u8, 101u8,
        120u8, 32u8,
    ]
}

/// Where the line that starts at `from` ends: just behind its line break, or
/// at the end of the input if no line break follows.
pub open spec fn line_end(bytes: Seq<u8>, from: int) -> int
    decreases bytes.len() - from,
{
    if from >= bytes.len() {
        bytes.len() as int
    } else if bytes[from] == NEWLINE {
        from + 1
    } else {
        line_end(bytes, from + 1)
    }
}

/// `line` begins with `prefix`.
pub open spec fn starts_with(line: Seq<u8>, prefix: Seq<u8>) -> bool {
    line.len() >= prefix.len() && line.subrange(0, prefix.len() as int) == prefix
}

/// The number that a string of decimal digits denotes.
pub open spec fn decimal_value(digits: Seq<u8>) -> nat
    decreases digits.len(),
{
    if digits.len() == 0 {
        0
    } else {
        10 * decimal_value(digits.drop_last()) + (digits.last() - 48) as nat
    }
}

/// Every byte is one of `0` to `9`.
pub open spec fn all_digits(digits: Seq<u8>) -> bool {
    forall|i: int| 0 <= i < digits.len() ==> 48 <= #[trigger] digits[i] <= 57
}

/// The digits of a count: the text without a leading `+`.
pub open spec fn count_digits(text: Seq<u8>) -> Seq<u8> {
    if text.len() > 0 && text[0] == 43 {
        text.skip(1)
    } else {
        text
    }
}

/// The count that `text` denotes: one or more decimal digits, a `+` before
/// them allowed, whose value is a `usize`.
pub open spec fn parse_count(text: Seq<u8>) -> Option<nat> {
    let digits = count_digits(text);
    if digits.len() > 0 && all_digits(digits) && decimal_value(digits) <= usize::MAX {
        Some(decimal_value(digits))
    } else {
        None
    }
}

/// The count that a declaring line holds between its prefix and its last
/// byte, the line break.
pub open spec fn declared_count(line: Seq<u8>) -> Option<nat> {
    if line.len() > count_prefix().len() {
        parse_count(line.subrange(count_prefix().len() as int, line.len() - 1))
    } else {
        None
    }
}

/// What reading the header gives, from the line that starts at `pos` on, when
/// `lines_read` lines were read before it and `count` is the last count that
/// they declared: the offset behind the sentinel line and the count, as soon
/// as the sentinel line is met; `MalformedHeader` at a declaring line without
/// a count; `MissingSentinel` once `MAX_HEADER_LINES + 1` lines were read in
/// vain (behind the end of the input every line is empty).
pub open spec fn scan_header(bytes: Seq<u8>, pos: int, lines_read: int, count: nat) -> Result<
    (int, nat),
    FormatError,
>
    decreases MAX_HEADER_LINES + 1 - lines_read,
{
    let end = line_end(bytes, pos);
    let line = bytes.subrange(pos, end);
    if lines_read > MAX_HEADER_LINES || lines_read < 0 {
        Err(FormatError::MissingSentinel)
    } else if line == sentinel() {
        Ok((end, count))
    } else if starts_with(line, count_prefix()) && declared_count(line) is None {
        Err(FormatError::MalformedHeader)
    } else {
        let count = if starts_with(line, count_prefix()) {
            declared_count(line).unwrap()
        } else {
            count
        };
        scan_header(bytes, end, lines_read + 1, count)
    }
}

/// What the header of `bytes` gives: see [`scan_header`]. Without a declaring
/// line the count is 0.
pub open spec fn header_of(bytes: Seq<u8>) -> Result<(int, nat), FormatError> {
    scan_header(bytes, 0, 0, 0)
}

/// A line ends within the input, and behind its start unless the input is
/// used up.
pub proof fn lemma_line_end_bounds(bytes: Seq<u8>, from: int)
    requires
        0 <= from <= bytes.len(),
    ensures
        from <= line_end(bytes, from) <= bytes.len(),
        from < bytes.len() ==> from < line_end(bytes, from),
    decreases bytes.len() - from,
{
    if from < bytes.len() && bytes[from] != NEWLINE {
        lemma_line_end_bounds(bytes, from + 1);
    }
}

fn find_line_end(bytes: &[u8], from: usize) -> (end: usize)
    requires
        from <= bytes.len(),
    ensures
        end == line_end(bytes@, from as int),
        from <= end <= bytes.len(),
{
    let mut at = from;
    while at < bytes.len() && bytes[at] != NEWLINE
        invariant
            from <= at <= bytes.len(),
            line_end(bytes@, at as int) == line_end(bytes@, from as int),
        decreases bytes.len() - at,
    {
        at += 1;
    }
    proof {
        lemma_line_end_bounds(bytes@, from as int);
    }
    if at < bytes.len() {
        at + 1
    } else {
        at
    }
}

/// Whether the bytes `from..end` are exactly `pattern`.
fn range_equals(bytes: &[u8], from: usize, end: usize, pattern: &[u8]) -> (same: bool)
    requires
        from <= end <= bytes.len(),
    ensures
        same == (bytes@.subrange(from as int, end as int) == pattern@),
{
    if end - from != pattern.len() {
        return false;
    }
    let ghost range = bytes@.subrange(from as int, end as int);
    let mut i: usize = 0;
    while i < pattern.len()
        invariant
            from <= end <= bytes.len(),
            end - from == pattern.len(),
            i <= pattern.len(),
            range == bytes@.subrange(from as int, end as int),
            forall|k: int| 0 <= k < i ==> range[k] == pattern[k],
        decreases pattern.len() - i,
    {
        if bytes[from + i] != pattern[i] {
            assert(range[i as int] != pattern@[i as int]);
            return false;
        }
        i += 1;
    }
    assert(range =~= pattern@);
    true
}

/// The first `k` digits denote no more than all of them.
pub proof fn lemma_decimal_value_grows(digits: Seq<u8>, k: int)
    requires
        all_digits(digits),
        0 <= k <= digits.len(),
    ensures
        decimal_value(digits.subrange(0, k)) <= decimal_value(digits),
    decreases digits.len() - k,
{
    if k < digits.len() {
        let longer = digits.subrange(0, k + 1);
        assert(longer.drop_last() =~= digits.subrange(0, k));
        assert(48 <= digits[k] <= 57);
        lemma_decimal_value_grows(digits, k + 1);
    } else {
        assert(digits.subrange(0, k) =~= digits);
    }
}

/// Reads the count that the bytes `from..end` denote.
fn read_count(bytes: &[u8], from: usize, end: usize) -> (count: Option<usize>)
    requires
        from <= end <= bytes.len(),
    ensures
        match count {
            Some(n) => parse_count(bytes@.subrange(from as int, end as int)) == Some(n as nat),
            None => parse_count(bytes@.subrange(from as int, end as int)) is None,
        },
{
    let ghost text = bytes@.subrange(from as int, end as int);
    let start = if from < end && bytes[from] == 43 {
        from + 1
    } else {
        from
    };
    let ghost digits = bytes@.subrange(start as int, end as int);
    assert(digits =~= count_digits(text));
    if start == end {
        return None;
    }
    let mut value: usize = 0;
    let mut at = start;
    while at < end
        invariant
            from <= start <= at <= end <= bytes.len(),
            digits == bytes@.subrange(start as int, end as int),
            digits == count_digits(bytes@.subrange(from as int, end as int)),
            all_digits(digits.subrange(0, at - start)),
            value == decimal_value(digits.subrange(0, at - start)),
        decreases end - at,
    {
        let byte = bytes[at];
        let ghost seen = digits.subrange(0, at - start);
        let ghost next = digits.subrange(0, at - start + 1);
        assert(next.drop_last() =~= seen);
        assert(next.last() == byte);
        if byte < 48 || byte > 57 {
            assert(digits[at - start] == byte);
            return None;
        }
        assert(all_digits(next)) by {
            assert forall|i: int| 0 <= i < next.len() implies 48 <= #[trigger] next[i] <= 57 by {
                if i < seen.len() {
                    assert(seen[i] == next[i]);
                }
            }
        }
        let digit = (byte - 48) as usize;
        let grown = match value.checked_mul(10) {
            Some(tenfold) => tenfold.checked_add(digit),
            None => None,
        };
        match grown {
            Some(v) => {
                value = v;
            },
            None => {
                proof {
                    assert(decimal_value(next) > usize::MAX);
                    if all_digits(digits) {
                        lemma_decimal_value_grows(digits, at - start + 1);
                    }
                }
                return None;
            },
        }
        at += 1;
    }
    assert(digits.subrange(0, at - start) =~= digits);
    Some(value)
}

/// Reads the header of `bytes`: the offset at which the body starts, just
/// behind the sentinel line, and the declared number of records.
pub fn read_header(bytes: &[u8]) -> (header: Result<(usize, usize), FormatError>)
    ensures
        match header {
            Ok((size, count)) => header_of(bytes@) == Ok::<(int, nat), FormatError>(
                (size as int, count as nat),
            ),
            Err(e) => header_of(bytes@) == Err::<(int, nat), FormatError>(e),
        },
{
    let sentinel_line: [u8; 11] = [101, 110, 100, 95, 104, 101, 97, 100, 101, 114, 10];
    let prefix: [u8; 15] =
        [101, 108, 101, 109, 101, 110, 116, 32, 118, 101, 114, 116, 101, 120, 32];
    assert(sentinel_line@ =~= sentinel());
    assert(prefix@ =~= count_prefix());
    let mut pos: usize = 0;
    let mut lines_read: usize = 0;
    let mut count: usize = 0;
    while lines_read <= MAX_HEADER_LINES
        invariant
            pos <= bytes.len(),
            lines_read <= MAX_HEADER_LINES + 1,
            sentinel_line@ == sentinel(),
            prefix@ == count_prefix(),
            scan_header(bytes@, pos as int, lines_read as int, count as nat) == header_of(bytes@),
        decreases MAX_HEADER_LINES + 1 - lines_read,
    {
        let end = find_line_end(bytes, pos);
        let ghost line = bytes@.subrange(pos as int, end as int);
        if range_equals(bytes, pos, end, sentinel_line.as_slice()) {
            return Ok((end, count));
        }
        if end - pos >= 15 && range_equals(bytes, pos, pos + 15, prefix.as_slice()) {
            assert(line.subrange(0, 15) =~= bytes@.subrange(pos as int, pos + 15));
            if end - pos == 15 {
                return Err(FormatError::MalformedHeader);
            }
            assert(line.subrange(15, line.len() - 1) =~= bytes@.subrange(pos + 15, end - 1));
            match read_count(bytes, pos + 15, end - 1) {
                Some(n) => {
                    count = n;
                },
                None => {
                    return Err(FormatError::MalformedHeader);
                },
            }
        } else {
            proof {
                if end - pos >= 15 {
                    assert(line.subrange(0, 15) =~= bytes@.subrange(pos as int, pos + 15));
                }
            }
        }
        pos = end;
        lines_read += 1;
    }
    Err(FormatError::MissingSentinel)
}

/// What an input of records of `stride` bytes gives: where its body starts
/// and how many records it holds, if its header is in order and its body
/// holds as many records as the header declares; otherwise the reason why
/// not.
pub open spec fn body_of(bytes: Seq<u8>, stride: int) -> Result<(int, nat), FormatError> {
    match header_of(bytes) {
        Ok((offset, count)) => if offset + stride * count <= bytes.len() {
            Ok((offset, count))
        } else {
            Err(FormatError::BodyLength)
        },
        Err(e) => Err(e),
    }
}

/// Decodes an input whose records carry a normal: as many records as its
/// header declares, read from behind the header.
pub fn read_splats(bytes: &[u8]) -> (splats: Result<Vec<SerializedSplat>, FormatError>)
    ensures
        match splats {
            Ok(v) => {
                &&& body_of(bytes@, SPLAT_STRIDE as int) is Ok
                &&& v.len() == body_of(bytes@, SPLAT_STRIDE as int).unwrap().1
                &&& forall|k: int|
                    0 <= k < v.len() ==> (#[trigger] v[k]).decodes(
                        bytes@,
                        body_of(bytes@, SPLAT_STRIDE as int).unwrap().0 + SPLAT_STRIDE * k,
                    )
            },
            Err(e) => body_of(bytes@, SPLAT_STRIDE as int) == Err::<(int, nat), FormatError>(e),
        },
{
    match read_header(bytes) {
        Ok((offset, count)) => SerializedSplat::decode_all(bytes, offset, count),
        Err(e) => Err(e),
    }
}

/// Decodes an input whose records carry no normal: as many records as its
/// header declares, read from behind the header.
pub fn read_splats_no_normal(bytes: &[u8]) -> (splats: Result<
    Vec<SerializedSplat2>,
    FormatError,
>)
    ensures
        match splats {
            Ok(v) => {
                &&& body_of(bytes@, SPLAT2_STRIDE as int) is Ok
                &&& v.len() == body_of(bytes@, SPLAT2_STRIDE as int).unwrap().1
                &&& forall|k: int|
                    0 <= k < v.len() ==> (#[trigger] v[k]).decodes(
                        bytes@,
                        body_of(bytes@, SPLAT2_STRIDE as int).unwrap().0 + SPLAT2_STRIDE * k,
                    )
            },
            Err(e) => body_of(bytes@, SPLAT2_STRIDE as int) == Err::<(int, nat), FormatError>(e),
        },
{
    match read_header(bytes) {
        Ok((offset, count)) => SerializedSplat2::decode_all(bytes, offset, count),
        Err(e) => Err(e),
    }
}

} // verus!
