//! Reading `HH:MM:SS[.fff]` timecodes as millisecond offsets.
use vstd::prelude::*;
use crate::text::{chars_of, digits_value, is_digits, parse_digits, split_chars, split_on};

verus! {

/// Why a timecode could not be read.
#[derive(Debug, Clone, Copy, PartialEq, Eq, Structural)]
pub enum TimecodeError {
    MalformedTimecode,
}

/// The offset that a timecode names, when it is well formed: three
/// `:`-separated digit runs, the last one optionally followed by `.` and a
/// digit run that counts milliseconds as written (it is not scaled).
pub open spec fn timecode_value(s: Seq<char>) -> Option<int> {
    let parts = split_on(s, ':');
    if parts.len() == 3 && is_digits(parts[0]) && is_digits(parts[1]) {
        let sec = split_on(parts[2], '.');
        if (sec.len() == 1 || sec.len() == 2) && is_digits(sec[0]) && (sec.len() == 2
            ==> is_digits(sec[1])) {
            let frac: int = if sec.len() == 2 {
                digits_value(sec[1]) as int
            } else {
                0
            };
            Some(
                (digits_value(parts[0]) * 3600 + digits_value(parts[1]) * 60 + digits_value(
                    sec[0],
                )) * 1000 + frac,
            )
        } else {
            None
        }
    } else {
        None
    }
}

/// Converts a timecode to milliseconds. It fails with `MalformedTimecode`
/// unless the text is well formed and its offset fits in an `i32`.
pub fn time_to_ms(time: &str) -> (r: Result<i32, TimecodeError>)
    ensures
        r == (match timecode_value(time@) {
            Some(v) => if v <= i32::MAX {
                Ok(v as i32)
            } else {
                Err(TimecodeError::MalformedTimecode)
            },
            None => Err(TimecodeError::MalformedTimecode),
        }),
{
    let chars = chars_of(time);
    let blocks = split_chars(&chars, ':');
    if blocks.len() != 3 {
        return Err(TimecodeError::MalformedTimecode);
    }
    let limit: u64 = 0x7fff_ffff;
    let ghost parts = split_on(time@, ':');
    assert(blocks[0]@ == parts[0] && blocks[1]@ == parts[1] && blocks[2]@ == parts[2]) by {
        assert(crate::text::views(blocks@)[0] == blocks@[0]@);
        assert(crate::text::views(blocks@)[1] == blocks@[1]@);
        assert(crate::text::views(blocks@)[2] == blocks@[2]@);
    }
    let seconds_block = split_chars(&blocks[2], '.');
    let ghost sec = split_on(parts[2], '.');
    if seconds_block.len() != 1 && seconds_block.len() != 2 {
        return Err(TimecodeError::MalformedTimecode);
    }
    assert(crate::text::views(seconds_block@)[0] == seconds_block@[0]@);
    let hours = parse_digits(&blocks[0], limit);
    let minutes = parse_digits(&blocks[1], limit);
    let seconds = parse_digits(&seconds_block[0], limit);
    let frames = if seconds_block.len() == 2 {
        assert(crate::text::views(seconds_block@)[1] == seconds_block@[1]@);
        parse_digits(&seconds_block[1], limit)
    } else {
        Some(0)
    };
    if !is_digits_exec(&blocks[0]) || !is_digits_exec(&blocks[1]) || !is_digits_exec(
        &seconds_block[0],
    ) {
        return Err(TimecodeError::MalformedTimecode);
    }
    if seconds_block.len() == 2 && !is_digits_exec(&seconds_block[1]) {
        return Err(TimecodeError::MalformedTimecode);
    }
    let ghost total = timecode_value(time@).unwrap();
    let ghost h = digits_value(parts[0]) as int;
    let ghost m = digits_value(parts[1]) as int;
    let ghost sc = digits_value(sec[0]) as int;
    let ghost f: int = if sec.len() == 2 {
        digits_value(sec[1]) as int
    } else {
        0
    };
    assert(total == (h * 3600 + m * 60 + sc) * 1000 + f);
    assert(total >= h && total >= m && total >= sc && total >= f) by (nonlinear_arith)
        requires
            total == (h * 3600 + m * 60 + sc) * 1000 + f,
            h >= 0,
            m >= 0,
            sc >= 0,
            f >= 0,
    ;
    match (hours, minutes, seconds, frames) {
        (Some(hv), Some(mv), Some(sv), Some(fv)) => {
            let t: u64 = (hv * 3600 + mv * 60 + sv) * 1000 + fv;
            if t > limit {
                Err(TimecodeError::MalformedTimecode)
            } else {
                Ok(t as i32)
            }
        },
        _ => Err(TimecodeError::MalformedTimecode),
    }
}

/// Whether `s` is a non-empty run of decimal digits.
fn is_digits_exec(s: &Vec<char>) -> (r: bool)
    ensures
        r == is_digits(s@),
{
    if s.len() == 0 {
        return false;
    }
    let mut i: usize = 0;
    while i < s.len()
        invariant
            i <= s.len(),
            forall|j: int| 0 <= j < i ==> crate::text::is_digit(#[trigger] s@[j]),
        decreases s.len() - i,
    {
        if s[i] < '0' || s[i] > '9' {
            return false;
        }
        i = i + 1;
    }
    true
}

} // verus!
