//! Subtitle timestamps: parsing from `HH:MM:SS,mmm` text, clamped offset
//! arithmetic, and rendering back to text.

use vstd::prelude::*;

use crate::digits::{dec_spec, dec_str, digit_char, digit_val, digits_val, is_digit};
use vstd::arithmetic::div_mod::{
    lemma_fundamental_div_mod, lemma_fundamental_div_mod_converse, lemma_mod_bound, lemma_mod_mod,
};

verus! {

/// A numeric field of a timestamp, named in out-of-range and parse errors.
#[derive(Clone, Copy, Debug, PartialEq, Eq, Structural)]
pub enum Field {
    Hours,
    Minutes,
    Seconds,
    Milliseconds,
}

/// Why a piece of text was rejected as a timestamp.
#[derive(Clone, Copy, Debug, PartialEq, Eq, Structural)]
pub enum ParseErrorKind {
    /// The text does not have the shape `HH:MM:SS,mmm`.
    FormatMismatch,
    /// A field is syntactically valid but its value is out of bounds.
    FieldOutOfRange(Field),
    /// A field's digits do not fit the machine integer that holds the field.
    FieldParseError(Field),
}

/// A rejected timestamp: what went wrong, and the offending text.
#[derive(Debug)]
pub struct ParseError {
    pub kind: ParseErrorKind,
    pub text: String,
}

impl ParseError {
    pub fn new(kind: ParseErrorKind, text: String) -> (r: Self)
        ensures
            r.kind == kind,
            r.text == text,
    {
        ParseError { kind, text }
    }
}

/// A point in time at subtitle resolution.
#[derive(Debug, PartialEq, Eq, Structural)]
pub struct Timestamp {
    pub hours: u32,
    pub minutes: u32,
    pub seconds: u32,
    pub milliseconds: u32,
}

/// Does `s` have the timestamp shape: two or more hour digits, then
/// `:MM:SS,mmm` with exactly two, two and three digits?
pub open spec fn is_ts_shape(s: Seq<char>) -> bool {
    let n = s.len() as int;
    &&& n >= 12
    &&& (forall|i: int| 0 <= i < n - 10 ==> is_digit(#[trigger] s[i]))
    &&& s[n - 10] == ':'
    &&& is_digit(s[n - 9])
    &&& is_digit(s[n - 8])
    &&& s[n - 7] == ':'
    &&& is_digit(s[n - 6])
    &&& is_digit(s[n - 5])
    &&& s[n - 4] == ','
    &&& is_digit(s[n - 3])
    &&& is_digit(s[n - 2])
    &&& is_digit(s[n - 1])
}

/// The hour digits of a shaped timestamp: everything before `:MM:SS,mmm`.
pub open spec fn hours_val(s: Seq<char>) -> nat {
    digits_val(s.subrange(0, s.len() - 10))
}

pub open spec fn minutes_val(s: Seq<char>) -> nat {
    digit_val(s[s.len() - 9]) * 10 + digit_val(s[s.len() - 8])
}

pub open spec fn seconds_val(s: Seq<char>) -> nat {
    digit_val(s[s.len() - 6]) * 10 + digit_val(s[s.len() - 5])
}

pub open spec fn millis_val(s: Seq<char>) -> nat {
    digit_val(s[s.len() - 3]) * 100 + digit_val(s[s.len() - 2]) * 10 + digit_val(s[s.len() - 1])
}

/// The timestamp value that shaped text `s` denotes.
pub open spec fn ts_of(s: Seq<char>) -> Timestamp {
    Timestamp {
        hours: hours_val(s) as u32,
        minutes: minutes_val(s) as u32,
        seconds: seconds_val(s) as u32,
        milliseconds: millis_val(s) as u32,
    }
}

/// What parsing returns, field by field in validation order. The milliseconds
/// bound is guaranteed by the three-digit shape but is validated all the same.
pub open spec fn parse_spec(s: Seq<char>) -> Result<Timestamp, ParseErrorKind> {
    if !is_ts_shape(s) {
        Err(ParseErrorKind::FormatMismatch)
    } else if hours_val(s) > u32::MAX as nat {
        Err(ParseErrorKind::FieldParseError(Field::Hours))
    } else if hours_val(s) > 99 {
        Err(ParseErrorKind::FieldOutOfRange(Field::Hours))
    } else if minutes_val(s) > 59 {
        Err(ParseErrorKind::FieldOutOfRange(Field::Minutes))
    } else if seconds_val(s) > 59 {
        Err(ParseErrorKind::FieldOutOfRange(Field::Seconds))
    } else if millis_val(s) > 999 {
        Err(ParseErrorKind::FieldOutOfRange(Field::Milliseconds))
    } else {
        Ok(ts_of(s))
    }
}

/// A longer run of digits never has a smaller value than one of its prefixes.
proof fn lemma_digits_val_prefix(s: Seq<char>, i: int)
    requires
        0 <= i <= s.len(),
    ensures
        digits_val(s.subrange(0, i)) <= digits_val(s),
    decreases s.len() - i,
{
    if i < s.len() {
        lemma_digits_val_prefix(s, i + 1);
        assert(s.subrange(0, i + 1).drop_last() =~= s.subrange(0, i));
        assert(digits_val(s.subrange(0, i)) <= digits_val(s.subrange(0, i)) * 10) by (nonlinear_arith);
    } else {
        assert(s.subrange(0, i) =~= s);
    }
}

/// Is the character at `i` a decimal digit?
pub(crate) fn digit_at(s: &str, i: usize) -> (b: bool)
    requires
        i < s@.len(),
    ensures
        b == is_digit(s@[i as int]),
{
    let c = s.get_char(i);
    '0' <= c && c <= '9'
}

/// The numeric value of the digit character at `i`.
fn digit_value_at(s: &str, i: usize) -> (d: u32)
    requires
        i < s@.len(),
        is_digit(s@[i as int]),
    ensures
        d as nat == digit_val(s@[i as int]),
        d <= 9,
{
    let c = s.get_char(i);
    (c as u32) - ('0' as u32)
}

/// Does `s` have the timestamp shape `HH:MM:SS,mmm`?
fn check_shape(s: &str) -> (b: bool)
    ensures
        b == is_ts_shape(s@),
{
    let n = s.unicode_len();
    if n < 12 {
        return false;
    }
    let mut i: usize = 0;
    while i < n - 10
        invariant
            s@.len() == n,
            12 <= n,
            i <= n - 10,
            forall|j: int| 0 <= j < i ==> is_digit(#[trigger] s@[j]),
        decreases n - 10 - i,
    {
        if !digit_at(s, i) {
            return false;
        }
        i += 1;
    }
    if s.get_char(n - 10) != ':' {
        return false;
    }
    if !digit_at(s, n - 9) || !digit_at(s, n - 8) {
        return false;
    }
    if s.get_char(n - 7) != ':' {
        return false;
    }
    if !digit_at(s, n - 6) || !digit_at(s, n - 5) {
        return false;
    }
    if s.get_char(n - 4) != ',' {
        return false;
    }
    if !digit_at(s, n - 3) || !digit_at(s, n - 2) || !digit_at(s, n - 1) {
        return false;
    }
    true
}

/// Read the hour digits (the first `k` characters) in base ten; `None` means
/// their value does not fit the hours field.
fn parse_hours(s: &str, k: usize) -> (r: Option<u32>)
    requires
        is_ts_shape(s@),
        k == s@.len() - 10,
    ensures
        match r {
            Some(h) => hours_val(s@) <= u32::MAX && h as nat == hours_val(s@),
            None => hours_val(s@) > u32::MAX,
        },
{
    let mut acc: u32 = 0;
    let mut i: usize = 0;
    while i < k
        invariant
            is_ts_shape(s@),
            k == s@.len() - 10,
            i <= k,
            acc as nat == digits_val(s@.subrange(0, i as int)),
        decreases k - i,
    {
        let d = digit_value_at(s, i);
        proof {
            assert(s@.subrange(0, i + 1).drop_last() =~= s@.subrange(0, i as int));
        }
        if acc > (u32::MAX - d) / 10 {
            proof {
                let hs = s@.subrange(0, k as int);
                assert(hs.subrange(0, i + 1) =~= s@.subrange(0, i + 1));
                lemma_digits_val_prefix(hs, i + 1);
                assert(acc as nat * 10 + d as nat > u32::MAX) by (nonlinear_arith)
                    requires
                        acc > (u32::MAX - d) / 10,
                        d <= 9,
                ;
            }
            return None;
        }
        acc = acc * 10 + d;
        i += 1;
    }
    proof {
        assert(s@.subrange(0, k as int) =~= s@.subrange(0, s@.len() - 10));
    }
    Some(acc)
}

impl Timestamp {
    /// Parse `HH:MM:SS,mmm` text. Returns exactly what [`parse_spec`] says:
    /// a shape failure, the first field out of bounds in field order, or the
    /// timestamp the text denotes. The error carries the offending text.
    pub fn build(s: &str) -> (r: Result<Self, ParseError>)
        ensures
            match r {
                Ok(t) => parse_spec(s@) == Ok::<Timestamp, ParseErrorKind>(t),
                Err(e) => parse_spec(s@) == Err::<Timestamp, ParseErrorKind>(e.kind)
                    && e.text@ == s@,
            },
            r matches Ok(t) ==> t.wf() && t.hours <= 99 && t == ts_of(s@),
    {
        if !check_shape(s) {
            return Err(ParseError::new(ParseErrorKind::FormatMismatch, s.to_owned()));
        }
        let n = s.unicode_len();
        let hours = match parse_hours(s, n - 10) {
            Some(h) => h,
            None => {
                return Err(
                    ParseError::new(ParseErrorKind::FieldParseError(Field::Hours), s.to_owned()),
                );
            },
        };
        if hours > 99 {
            return Err(
                ParseError::new(ParseErrorKind::FieldOutOfRange(Field::Hours), s.to_owned()),
            );
        }
        let minutes = digit_value_at(s, n - 9) * 10 + digit_value_at(s, n - 8);
        if minutes > 59 {
            return Err(
                ParseError::new(ParseErrorKind::FieldOutOfRange(Field::Minutes), s.to_owned()),
            );
        }
        let seconds = digit_value_at(s, n - 6) * 10 + digit_value_at(s, n - 5);
        if seconds > 59 {
            return Err(
                ParseError::new(ParseErrorKind::FieldOutOfRange(Field::Seconds), s.to_owned()),
            );
        }
        let milliseconds = digit_value_at(s, n - 3) * 100 + digit_value_at(s, n - 2) * 10
            + digit_value_at(s, n - 1);
        if milliseconds > 999 {
            return Err(
                ParseError::new(
                    ParseErrorKind::FieldOutOfRange(Field::Milliseconds),
                    s.to_owned(),
                ),
            );
        }
        Ok(Timestamp { hours, minutes, seconds, milliseconds })
    }
}

/// The rendered form `HH:MM:SS,mmm`: hours at least two digits (more when the
/// value needs them), minutes and seconds exactly two, milliseconds three.
pub open spec fn render_spec(t: Timestamp) -> Seq<char> {
    dec_spec(t.hours as nat, 2) + seq![':'] + dec_spec(t.minutes as nat, 2) + seq![':']
        + dec_spec(t.seconds as nat, 2) + seq![','] + dec_spec(t.milliseconds as nat, 3)
}

impl Timestamp {
    /// Field bounds that hold after any successful construction or mutation.
    /// Hours are unbounded: a large positive offset may push them past 99.
    pub open spec fn wf(self) -> bool {
        &&& self.minutes <= 59
        &&& self.seconds <= 59
        &&& self.milliseconds <= 999
    }

    /// The whole timestamp as a number of milliseconds.
    pub open spec fn total_ms(self) -> int {
        self.hours * 3_600_000 + self.minutes * 60_000 + self.seconds * 1000 + self.milliseconds
    }

    /// The timestamp after shifting by `off` milliseconds: a non-positive
    /// total clamps to zero, any other total is decomposed back into fields.
    pub open spec fn offset_spec(self, off: int) -> Timestamp {
        let t = self.total_ms() + off;
        if t <= 0 {
            Timestamp { hours: 0, minutes: 0, seconds: 0, milliseconds: 0 }
        } else {
            Timestamp {
                hours: (t / 3_600_000) as u32,
                minutes: ((t % 3_600_000) / 60_000) as u32,
                seconds: ((t % 60_000) / 1000) as u32,
                milliseconds: (t % 1000) as u32,
            }
        }
    }

    /// Shift this timestamp by `offset_ms` milliseconds. A non-positive total
    /// clamps to the zero timestamp; otherwise the new total is decomposed
    /// into hours, minutes, seconds and milliseconds, in that order. The
    /// precondition only rules out totals whose hour count no longer fits the
    /// hours field; every timestamp with hours at most 99 satisfies it for
    /// every possible offset.
    pub fn apply_offset_ms(&mut self, offset_ms: i32)
        requires
            old(self).total_ms() + offset_ms <= u32::MAX * 3_600_000 + 3_599_999,
        ensures
            *final(self) == old(self).offset_spec(offset_ms as int),
            final(self).wf(),
    {
        let total: i64 = (self.hours as i64) * 3_600_000 + (self.minutes as i64) * 60_000
            + (self.seconds as i64) * 1000 + (self.milliseconds as i64) + (offset_ms as i64);
        if total <= 0 {
            self.hours = 0;
            self.minutes = 0;
            self.seconds = 0;
            self.milliseconds = 0;
            return ;
        }
        let t: u64 = total as u64;
        proof {
            assert(t / 3_600_000 <= u32::MAX) by (nonlinear_arith)
                requires
                    0 < t <= u32::MAX * 3_600_000 + 3_599_999,
            ;
            lemma_mod_mod(t as int, 60_000, 60);
            lemma_mod_mod(t as int, 1000, 60);
        }
        self.hours = (t / 3_600_000) as u32;
        let rem: u64 = t % 3_600_000;
        self.minutes = (rem / 60_000) as u32;
        let rem: u64 = rem % 60_000;
        self.seconds = (rem / 1000) as u32;
        self.milliseconds = (rem % 1000) as u32;
    }

    /// Render this timestamp as `HH:MM:SS,mmm`, widening the hours field
    /// beyond two digits when the value needs it.
    pub fn to_string(&self) -> (r: String)
        ensures
            r@ == render_spec(*self),
    {
        let mut r = dec_str(self.hours, 2);
        r.append(":");
        r.append(dec_str(self.minutes, 2).as_str());
        r.append(":");
        r.append(dec_str(self.seconds, 2).as_str());
        r.append(",");
        r.append(dec_str(self.milliseconds, 3).as_str());
        proof {
            reveal_strlit(":");
            reveal_strlit(",");
            assert(r@ =~= render_spec(*self));
        }
        r
    }
}

/// A digit character is recovered from its numeric value.
proof fn lemma_digit_char_val(c: char)
    requires
        is_digit(c),
    ensures
        digit_char(digit_val(c)) == c,
{
}

/// Two digits render back to themselves when read as a two-digit value.
proof fn lemma_dec_two(a: nat, b: nat)
    requires
        a <= 9,
        b <= 9,
    ensures
        dec_spec(a * 10 + b, 2) == seq![digit_char(a), digit_char(b)],
{
    lemma_fundamental_div_mod_converse((a * 10 + b) as int, 10, a as int, b as int);
    assert(dec_spec(a, 1) =~= seq![digit_char(a)]);
    assert(dec_spec(a * 10 + b, 2) =~= seq![digit_char(a), digit_char(b)]);
}

/// Three digits render back to themselves when read as a three-digit value.
proof fn lemma_dec_three(a: nat, b: nat, c: nat)
    requires
        a <= 9,
        b <= 9,
        c <= 9,
    ensures
        dec_spec(a * 100 + b * 10 + c, 3) == seq![digit_char(a), digit_char(b), digit_char(c)],
{
    lemma_fundamental_div_mod_converse(
        (a * 100 + b * 10 + c) as int,
        10,
        (a * 10 + b) as int,
        c as int,
    );
    lemma_dec_two(a, b);
    assert(dec_spec(a * 100 + b * 10 + c, 3) =~= seq![digit_char(a), digit_char(b), digit_char(c)]);
}

/// Round trip: every twelve-character `HH:MM:SS,mmm` text whose fields are in
/// bounds parses successfully, and rendering the parsed timestamp gives back
/// exactly the original text.
pub proof fn lemma_render_after_parse(s: Seq<char>)
    requires
        s.len() == 12,
        is_ts_shape(s),
        minutes_val(s) <= 59,
        seconds_val(s) <= 59,
    ensures
        parse_spec(s) == Ok::<Timestamp, ParseErrorKind>(ts_of(s)),
        render_spec(ts_of(s)) == s,
{
    assert(s.subrange(0, 2).drop_last() =~= s.subrange(0, 1));
    assert(s.subrange(0, 1).drop_last() =~= s.subrange(0, 0));
    assert(digits_val(s.subrange(0, 0)) == 0);
    assert(digits_val(s.subrange(0, 1)) == digit_val(s[0]));
    assert(digits_val(s.subrange(0, 2)) == digit_val(s[0]) * 10 + digit_val(s[1]));
    assert(hours_val(s) == digit_val(s[0]) * 10 + digit_val(s[1]));
    lemma_digit_char_val(s[0]);
    lemma_digit_char_val(s[1]);
    lemma_digit_char_val(s[3]);
    lemma_digit_char_val(s[4]);
    lemma_digit_char_val(s[6]);
    lemma_digit_char_val(s[7]);
    lemma_digit_char_val(s[9]);
    lemma_digit_char_val(s[10]);
    lemma_digit_char_val(s[11]);
    lemma_dec_two(digit_val(s[0]), digit_val(s[1]));
    lemma_dec_two(digit_val(s[3]), digit_val(s[4]));
    lemma_dec_two(digit_val(s[6]), digit_val(s[7]));
    lemma_dec_three(digit_val(s[9]), digit_val(s[10]), digit_val(s[11]));
    assert(render_spec(ts_of(s)) =~= s);
}

/// After an offset whose new total is positive and still fits the hours
/// field, the fields are in bounds and recompose to exactly that total.
pub proof fn lemma_offset_total(t: Timestamp, off: int)
    requires
        t.total_ms() + off > 0,
        t.total_ms() + off <= u32::MAX * 3_600_000 + 3_599_999,
    ensures
        t.offset_spec(off).wf(),
        t.offset_spec(off).total_ms() == t.total_ms() + off,
{
    let x = t.total_ms() + off;
    lemma_fundamental_div_mod(x, 3_600_000);
    lemma_mod_bound(x, 3_600_000);
    lemma_mod_bound(x, 60_000);
    lemma_mod_bound(x, 1000);
    lemma_mod_mod(x, 60_000, 60);
    lemma_mod_mod(x, 1000, 60);
    lemma_fundamental_div_mod(x % 3_600_000, 60_000);
    lemma_fundamental_div_mod(x % 60_000, 1000);
    assert(x / 3_600_000 <= u32::MAX) by (nonlinear_arith)
        requires
            0 < x <= u32::MAX * 3_600_000 + 3_599_999,
    ;
}

/// Applying an offset of zero leaves a well-formed timestamp unchanged.
pub proof fn lemma_offset_zero(t: Timestamp)
    requires
        t.wf(),
    ensures
        t.offset_spec(0) == t,
{
    let x = t.total_ms();
    if x > 0 {
        lemma_fundamental_div_mod_converse(
            x,
            3_600_000,
            t.hours as int,
            t.minutes * 60_000 + t.seconds * 1000 + t.milliseconds,
        );
        lemma_fundamental_div_mod_converse(
            x % 3_600_000,
            60_000,
            t.minutes as int,
            t.seconds * 1000 + t.milliseconds,
        );
        lemma_mod_mod(x, 60_000, 60);
        lemma_mod_mod(x, 1000, 60);
        lemma_fundamental_div_mod_converse(
            x % 60_000,
            1000,
            t.seconds as int,
            t.milliseconds as int,
        );
    }
}

/// Two successive offsets amount to their sum, provided the first one does
/// not clamp to zero and its result still fits the hours field.
pub proof fn lemma_offset_composes(t: Timestamp, o1: int, o2: int)
    requires
        t.total_ms() + o1 > 0,
        t.total_ms() + o1 <= u32::MAX * 3_600_000 + 3_599_999,
    ensures
        t.offset_spec(o1).offset_spec(o2) == t.offset_spec(o1 + o2),
{
    lemma_offset_total(t, o1);
}

/// Clamp to zero: any offset that makes the total non-positive yields the
/// zero timestamp.
pub proof fn lemma_offset_clamps(t: Timestamp, off: int)
    requires
        t.total_ms() + off <= 0,
    ensures
        t.offset_spec(off) == (Timestamp { hours: 0, minutes: 0, seconds: 0, milliseconds: 0 }),
{
}

} // verus!
