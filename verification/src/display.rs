//! Where the text of an instruction stands on a screen.
//!
//! A span of the program is an offset into the source in bytes. To highlight
//! it, a driver needs the line and the column of that offset, and to scroll
//! to it, the number of screen rows that the wrapped lines take.
use vstd::prelude::*;
use vstd::arithmetic::div_mod::{lemma_div_is_ordered_by_denominator, lemma_fundamental_div_mod};

verus! {

/// Screen rows that a line of `len` bytes takes when it is wrapped after
/// every `width` of them. An empty line counts for none.
pub open spec fn rows_of(len: nat, width: nat) -> nat {
    if len % width > 0 {
        len / width + 1
    } else {
        len / width
    }
}

/// Screen rows that the first `upto` lines take together.
pub open spec fn rows_total(lengths: Seq<usize>, width: nat, upto: int) -> nat
    decreases upto,
{
    if upto <= 0 {
        0
    } else {
        rows_total(lengths, width, upto - 1) + rows_of(lengths[upto - 1] as nat, width)
    }
}

/// Rows by which a line of `len` bytes pushes down what follows it, beyond
/// the one row that every line takes: the rows it wraps to if it is longer
/// than `width`, none if it fits.
pub open spec fn pushed_rows(len: nat, width: nat) -> nat {
    if len > width {
        rows_of(len, width)
    } else {
        0
    }
}

/// Rows by which the first `upto` lines push down what follows them.
pub open spec fn pushed_total(lengths: Seq<usize>, width: nat, upto: int) -> nat
    decreases upto,
{
    if upto <= 0 {
        0
    } else {
        pushed_total(lengths, width, upto - 1) + pushed_rows(lengths[upto - 1] as nat, width)
    }
}

/// The screen row to centre on for the byte at column `column` of line
/// `line`: one row for each line above, the rows by which the long ones among
/// them push down, and the full rows of the line itself that precede a column
/// beyond the width.
pub open spec fn center_of(lengths: Seq<usize>, width: nat, line: int, column: nat) -> nat {
    let within = if column > width {
        column / width
    } else {
        0
    };
    (line + pushed_total(lengths, width, line) + within) as nat
}

/// Line and column of the byte at `offset`, counted from the start of line
/// `line`, in a text whose lines have the given lengths and end with a line
/// break of one byte each. The line break counts as the last column of its
/// line. An offset beyond the last line has no place.
pub open spec fn locate_from(lengths: Seq<usize>, line: int, offset: int) -> Option<(int, int)>
    decreases lengths.len() - line,
{
    if line < 0 || line >= lengths.len() {
        None
    } else if offset <= lengths[line] {
        Some((line, offset))
    } else {
        locate_from(lengths, line + 1, offset - lengths[line] - 1)
    }
}

/// Screen rows of a line of `len` bytes wrapped at `width`.
pub fn wrapped_rows(len: usize, width: usize) -> (rows: usize)
    requires
        width > 0,
    ensures
        rows == rows_of(len as nat, width as nat),
        rows <= len,
{
    proof {
        lemma_fundamental_div_mod(len as int, width as int);
        lemma_div_is_ordered_by_denominator(len as int, 1, width as int);
        assert(len as int / 1 == len);
        if len % width > 0 {
            assert(len / width < len) by (nonlinear_arith)
                requires
                    len % width > 0,
                    width > 0,
                    len == width * (len / width) + len % width,
            ;
        }
    }
    if len % width > 0 {
        len / width + 1
    } else {
        len / width
    }
}

/// Screen rows that lines of the given lengths take together when wrapped at
/// `size`, where the number fits.
pub fn get_wrapped_code_line_count(lengths: &[usize], size: u16) -> (count: Option<u16>)
    requires
        size > 0,
    ensures
        match count {
            Some(rows) => rows == rows_total(lengths@, size as nat, lengths@.len() as int),
            None => rows_total(lengths@, size as nat, lengths@.len() as int) > u16::MAX,
        },
{
    let mut count: u16 = 0;
    let mut at: usize = 0;
    while at < lengths.len()
        invariant
            at <= lengths@.len(),
            size > 0,
            count == rows_total(lengths@, size as nat, at as int),
        decreases lengths@.len() - at,
    {
        let rows = wrapped_rows(lengths[at], size as usize);
        proof {
            lemma_rows_total_grows(lengths@, size as nat, at as int + 1, lengths@.len() as int);
        }
        if rows > (u16::MAX - count) as usize {
            return None;
        }
        count = count + rows as u16;
        at = at + 1;
    }
    Some(count)
}

/// Line and column of the byte at `offset` in a text whose lines have the
/// given lengths in bytes, each followed by a line break of one byte.
pub fn locate_offset(lengths: &[usize], offset: usize) -> (place: Option<(usize, usize)>)
    ensures
        match place {
            Some((line, column)) => locate_from(lengths@, 0, offset as int) == Some(
                (line as int, column as int),
            ) && line < lengths@.len() && column <= lengths@[line as int],
            None => locate_from(lengths@, 0, offset as int) is None,
        },
{
    let mut line: usize = 0;
    let mut rest: usize = offset;
    while line < lengths.len()
        invariant
            line <= lengths@.len(),
            locate_from(lengths@, 0, offset as int) == locate_from(
                lengths@,
                line as int,
                rest as int,
            ),
        decreases lengths@.len() - line,
    {
        if rest <= lengths[line] {
            return Some((line, rest));
        }
        rest = rest - lengths[line] - 1;
        line = line + 1;
    }
    None
}

/// The screen row to centre on for the byte at column `column` of line
/// `line`, where the number fits.
pub fn center_line(lengths: &[usize], wrap_length: usize, line: usize, column: usize) -> (row:
    Option<usize>)
    requires
        wrap_length > 0,
        line <= lengths@.len(),
    ensures
        match row {
            Some(at) => at == center_of(lengths@, wrap_length as nat, line as int, column as nat),
            None => center_of(lengths@, wrap_length as nat, line as int, column as nat)
                > usize::MAX,
        },
{
    let mut pushed: usize = 0;
    let mut at: usize = 0;
    while at < line
        invariant
            at <= line <= lengths@.len(),
            wrap_length > 0,
            pushed == pushed_total(lengths@, wrap_length as nat, at as int),
        decreases line - at,
    {
        let len = lengths[at];
        let rows = if len > wrap_length {
            wrapped_rows(len, wrap_length)
        } else {
            0
        };
        proof {
            lemma_pushed_total_grows(lengths@, wrap_length as nat, at as int + 1, line as int);
        }
        pushed = match pushed.checked_add(rows) {
            Some(sum) => sum,
            None => {
                return None;
            },
        };
        at = at + 1;
    }
    let within = if column > wrap_length {
        column / wrap_length
    } else {
        0
    };
    match line.checked_add(pushed) {
        Some(above) => above.checked_add(within),
        None => None,
    }
}

/// More lines push down by no fewer rows.
pub proof fn lemma_pushed_total_grows(lengths: Seq<usize>, width: nat, upto: int, end: int)
    requires
        0 <= upto <= end,
    ensures
        pushed_total(lengths, width, upto) <= pushed_total(lengths, width, end),
    decreases end - upto,
{
    if upto < end {
        lemma_pushed_total_grows(lengths, width, upto, end - 1);
    }
}

/// More lines take no fewer rows.
pub proof fn lemma_rows_total_grows(lengths: Seq<usize>, width: nat, upto: int, end: int)
    requires
        0 <= upto <= end,
    ensures
        rows_total(lengths, width, upto) <= rows_total(lengths, width, end),
    decreases end - upto,
{
    if upto < end {
        lemma_rows_total_grows(lengths, width, upto, end - 1);
    }
}

/// Wrapping loses nothing and pads less than one row: the rows of a line hold
/// all its bytes, and one row fewer would not.
pub proof fn law_rows_hold_the_line(len: nat, width: nat)
    requires
        width > 0,
    ensures
        rows_of(len, width) * width >= len,
        len > 0 ==> (rows_of(len, width) - 1) * width < len,
        len == 0 ==> rows_of(len, width) == 0,
{
    lemma_fundamental_div_mod(len as int, width as int);
    let q = len / width;
    let r = len % width;
    assert(len == width * q + r);
    assert(0 <= r < width);
    if r > 0 {
        assert((q + 1) * width == width * q + width) by (nonlinear_arith);
        assert((q + 1 - 1) * width == width * q) by (nonlinear_arith);
    } else {
        assert(q * width == width * q) by (nonlinear_arith);
        if len > 0 {
            assert(q > 0) by (nonlinear_arith)
                requires
                    len == width * q,
                    len > 0,
                    width > 0,
            ;
            assert((q - 1) * width == width * q - width) by (nonlinear_arith);
        }
    }
}

/// A place that is found is the place of the offset: the lengths of the lines
/// before it, with their line breaks, and the column add up to the offset.
pub proof fn law_place_adds_up(lengths: Seq<usize>, line: int, offset: int)
    requires
        0 <= line <= lengths.len(),
        0 <= offset,
    ensures
        locate_from(lengths, line, offset) matches Some((found, column)) ==> {
            &&& line <= found < lengths.len()
            &&& 0 <= column <= lengths[found]
            &&& offset == bytes_between(lengths, line, found) + column
        },
    decreases lengths.len() - line,
{
    if line < lengths.len() && offset > lengths[line] {
        law_place_adds_up(lengths, line + 1, offset - lengths[line] - 1);
        if let Some((found, column)) = locate_from(lengths, line, offset) {
            lemma_bytes_between_first(lengths, line, found);
        }
    }
}

/// Bytes of the lines from `from` up to `to`, line breaks included.
pub open spec fn bytes_between(lengths: Seq<usize>, from: int, to: int) -> int
    decreases to - from,
{
    if from >= to {
        0
    } else {
        bytes_between(lengths, from, to - 1) + lengths[to - 1] + 1
    }
}

/// The bytes of a stretch of lines are those of its first line and of the rest.
proof fn lemma_bytes_between_first(lengths: Seq<usize>, from: int, to: int)
    requires
        from < to,
    ensures
        bytes_between(lengths, from, to) == lengths[from] + 1 + bytes_between(
            lengths,
            from + 1,
            to,
        ),
    decreases to - from,
{
    if from + 1 < to {
        lemma_bytes_between_first(lengths, from, to - 1);
    } else {
        assert(bytes_between(lengths, from, to - 1) == 0);
        assert(bytes_between(lengths, from + 1, to) == 0);
    }
}

} // verus!
