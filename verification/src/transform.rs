//! The line transformer: rewrite range lines by a millisecond offset and pass
//! every other line through unchanged.

use vstd::prelude::*;

use crate::digits::is_digit;
use crate::timestamp::{
    digit_at, is_ts_shape, parse_spec, render_spec, ParseError, ParseErrorKind, Timestamp,
};

verus! {

/// Run parameters: where to read, where to write, and the offset to apply.
pub struct Config {
    pub input_filepath: String,
    pub output_filepath: String,
    pub offset_ms: i32,
}

/// Whitespace accepted around the arrow marker of a range line.
pub open spec fn is_ws(c: char) -> bool {
    c == ' ' || c == '\t' || c == '\r' || c == '\n' || c == '\x0b' || c == '\x0c'
}

/// A twelve-character timestamp: exactly two hour digits.
pub open spec fn is_fixed_ts(s: Seq<char>) -> bool {
    s.len() == 12 && is_ts_shape(s)
}

/// The arrow marker `-->` stands at `a`, with nothing but whitespace between
/// it and the timestamps at the two ends of the line.
pub open spec fn arrow_at(s: Seq<char>, a: int) -> bool {
    let n = s.len() as int;
    &&& 12 <= a
    &&& a + 3 <= n - 12
    &&& (forall|i: int| 12 <= i < a ==> is_ws(#[trigger] s[i]))
    &&& s[a] == '-'
    &&& s[a + 1] == '-'
    &&& s[a + 2] == '>'
    &&& (forall|i: int| a + 3 <= i < n - 12 ==> is_ws(#[trigger] s[i]))
}

/// A range line: a timestamp, optional whitespace, the arrow `-->`, optional
/// whitespace and a second timestamp, spanning the whole line.
pub open spec fn is_range_line(s: Seq<char>) -> bool {
    let n = s.len() as int;
    &&& n >= 27
    &&& is_fixed_ts(s.subrange(0, 12))
    &&& is_fixed_ts(s.subrange(n - 12, n))
    &&& exists|a: int| arrow_at(s, a)
}

/// What transforming one line yields: a non-range line unchanged, a range
/// line re-rendered with both endpoints shifted, or the first parse failure.
pub open spec fn line_spec(s: Seq<char>, off: int) -> Result<Seq<char>, ParseErrorKind> {
    if !is_range_line(s) {
        Ok(s)
    } else {
        let n = s.len() as int;
        match parse_spec(s.subrange(0, 12)) {
            Err(k) => Err(k),
            Ok(t1) => match parse_spec(s.subrange(n - 12, n)) {
                Err(k) => Err(k),
                Ok(t2) => Ok(
                    render_spec(t1.offset_spec(off)) + seq![' ', '-', '-', '>', ' ']
                        + render_spec(t2.offset_spec(off)),
                ),
            },
        }
    }
}

/// Is the character at `i` whitespace?
fn ws_at(s: &str, i: usize) -> (b: bool)
    requires
        i < s@.len(),
    ensures
        b == is_ws(s@[i as int]),
{
    let c = s.get_char(i);
    c == ' ' || c == '\t' || c == '\r' || c == '\n' || c == '\x0b' || c == '\x0c'
}

/// Do the twelve characters at `start` form a timestamp?
fn check_fixed_at(s: &str, start: usize) -> (b: bool)
    requires
        start + 12 <= s@.len(),
        s@.len() <= usize::MAX,
    ensures
        b == is_fixed_ts(s@.subrange(start as int, start as int + 12)),
{
    let b = digit_at(s, start) && digit_at(s, start + 1) && s.get_char(start + 2) == ':'
        && digit_at(s, start + 3) && digit_at(s, start + 4) && s.get_char(start + 5) == ':'
        && digit_at(s, start + 6) && digit_at(s, start + 7) && s.get_char(start + 8) == ','
        && digit_at(s, start + 9) && digit_at(s, start + 10) && digit_at(s, start + 11);
    proof {
        let sub = s@.subrange(start as int, start as int + 12);
        let st = start as int;
        assert(sub[0] == s@[st]);
        assert(sub[1] == s@[st + 1]);
        assert(sub[2] == s@[st + 2]);
        assert(sub[3] == s@[st + 3]);
        assert(sub[4] == s@[st + 4]);
        assert(sub[5] == s@[st + 5]);
        assert(sub[6] == s@[st + 6]);
        assert(sub[7] == s@[st + 7]);
        assert(sub[8] == s@[st + 8]);
        assert(sub[9] == s@[st + 9]);
        assert(sub[10] == s@[st + 10]);
        assert(sub[11] == s@[st + 11]);
        if b {
            assert(is_fixed_ts(sub));
        } else {
            assert(!is_fixed_ts(sub)) by {
                if is_fixed_ts(sub) {
                    assert(is_digit(sub[0]));
                    assert(is_digit(sub[1]));
                }
            }
        }
    }
    b
}

/// Does the whole line match the range pattern?
fn match_range(line: &str) -> (b: bool)
    ensures
        b == is_range_line(line@),
{
    let n = line.unicode_len();
    if n < 27 {
        return false;
    }
    if !check_fixed_at(line, 0) {
        return false;
    }
    if !check_fixed_at(line, n - 12) {
        return false;
    }
    let ghost v = line@;
    let mut i: usize = 12;
    while i < n - 12 && ws_at(line, i)
        invariant
            v == line@,
            v.len() == n,
            27 <= n,
            12 <= i <= n - 12,
            forall|j: int| 12 <= j < i ==> is_ws(#[trigger] v[j]),
        decreases n - 12 - i,
    {
        i += 1;
    }
    // Any arrow position must be the first non-whitespace character after the
    // opening timestamp, so the scan either finds the arrow here or nowhere.
    if i + 3 > n - 12 {
        proof {
            assert forall|a: int| !arrow_at(v, a) by {
                if arrow_at(v, a) {
                    if a < i {
                        assert(is_ws(v[a]));
                    } else {
                        assert(a + 3 <= n - 12);
                        if i < n - 12 {
                            assert(is_ws(v[i as int]));
                        }
                    }
                }
            }
        }
        return false;
    }
    if !(line.get_char(i) == '-' && line.get_char(i + 1) == '-' && line.get_char(i + 2) == '>') {
        proof {
            assert forall|a: int| !arrow_at(v, a) by {
                if arrow_at(v, a) {
                    if a < i {
                        assert(is_ws(v[a]));
                    } else if a > i {
                        assert(is_ws(v[i as int]));
                    }
                }
            }
        }
        return false;
    }
    let ghost arrow = i as int;
    let mut j: usize = i + 3;
    while j < n - 12 && ws_at(line, j)
        invariant
            v == line@,
            v.len() == n,
            27 <= n,
            arrow + 3 <= j <= n - 12,
            forall|k: int| arrow + 3 <= k < j ==> is_ws(#[trigger] v[k]),
        decreases n - 12 - j,
    {
        j += 1;
    }
    if j < n - 12 {
        proof {
            assert(!is_ws(v[j as int]));
            assert forall|a: int| !arrow_at(v, a) by {
                if arrow_at(v, a) {
                    if a < arrow {
                        assert(is_ws(v[a]));
                    } else if a > arrow {
                        assert(is_ws(v[arrow]));
                    } else {
                        assert(is_ws(v[j as int]));
                    }
                }
            }
        }
        return false;
    }
    proof {
        assert(arrow_at(v, arrow));
    }
    true
}

/// Transform one line by `offset_ms` milliseconds. A line that matches the
/// range pattern is rebuilt as `"<start> --> <end>"` with both endpoints
/// shifted; any other line is returned unchanged, character for character.
/// An error reports the first range endpoint that failed to parse and
/// carries that endpoint's text.
pub fn transform_line(line: &str, offset_ms: i32) -> (r: Result<String, ParseError>)
    ensures
        match r {
            Ok(out) => line_spec(line@, offset_ms as int) == Ok::<Seq<char>, ParseErrorKind>(
                out@,
            ),
            Err(e) => {
                let n = line@.len() as int;
                &&& is_range_line(line@)
                &&& line_spec(line@, offset_ms as int) == Err::<Seq<char>, ParseErrorKind>(e.kind)
                &&& e.text@ == if parse_spec(line@.subrange(0, 12)) is Err {
                    line@.subrange(0, 12)
                } else {
                    line@.subrange(n - 12, n)
                }
            },
        },
{
    if !match_range(line) {
        return Ok(line.to_owned());
    }
    let n = line.unicode_len();
    let left = line.substring_char(0, 12);
    let right = line.substring_char(n - 12, n);
    let mut start = match Timestamp::build(left) {
        Ok(t) => t,
        Err(e) => return Err(e),
    };
    let mut end = match Timestamp::build(right) {
        Ok(t) => t,
        Err(e) => return Err(e),
    };
    start.apply_offset_ms(offset_ms);
    end.apply_offset_ms(offset_ms);
    let mut out = start.to_string();
    out.append(" --> ");
    out.append(end.to_string().as_str());
    proof {
        reveal_strlit(" --> ");
        assert((" --> ")@ =~= seq![' ', '-', '-', '>', ' ']);
        assert(out@ =~= render_spec(start) + seq![' ', '-', '-', '>', ' '] + render_spec(end));
    }
    Ok(out)
}

/// Transform every line by `offset_ms` milliseconds, in order. Stops at the
/// first line whose range endpoints fail to parse and reports that failure.
pub fn transform_lines(lines: &Vec<String>, offset_ms: i32) -> (r: Result<Vec<String>, ParseError>)
    ensures
        match r {
            Ok(out) => out@.len() == lines@.len() && forall|i: int|
                0 <= i < lines@.len() ==> line_spec(lines@[i]@, offset_ms as int) == Ok::<
                    Seq<char>,
                    ParseErrorKind,
                >(out@[i]@),
            Err(e) => exists|i: int|
                #![trigger lines@[i]]
                {
                    let line = lines@[i]@;
                    let n = line.len() as int;
                    &&& 0 <= i < lines@.len()
                    &&& is_range_line(line)
                    &&& line_spec(line, offset_ms as int) == Err::<Seq<char>, ParseErrorKind>(
                        e.kind,
                    )
                    &&& e.text@ == if parse_spec(line.subrange(0, 12)) is Err {
                        line.subrange(0, 12)
                    } else {
                        line.subrange(n - 12, n)
                    }
                    &&& forall|j: int|
                        0 <= j < i ==> (line_spec(#[trigger] lines@[j]@, offset_ms as int)) is Ok
                },
        },
{
    let mut out: Vec<String> = Vec::new();
    let mut i: usize = 0;
    while i < lines.len()
        invariant
            i <= lines@.len(),
            out@.len() == i,
            forall|j: int|
                0 <= j < i ==> line_spec(lines@[j]@, offset_ms as int) == Ok::<
                    Seq<char>,
                    ParseErrorKind,
                >(out@[j]@),
        decreases lines@.len() - i,
    {
        match transform_line(lines[i].as_str(), offset_ms) {
            Ok(s) => out.push(s),
            Err(e) => {
                return Err(e);
            },
        }
        i += 1;
    }
    Ok(out)
}

} // verus!
