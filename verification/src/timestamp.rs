use vstd::prelude::*;
use vstd::string::*;
use vstd::arithmetic::div_mod::{lemma_fundamental_div_mod, lemma_div_denominator, lemma_small_mod};

verus! {

/// A point in time with microsecond precision, held as plain calendar fields.
/// Its textual layout is the fixed-width `YYYY-MM-DDTHH:MM:SS.ffffff`.
#[derive(Clone, Copy, PartialEq, Eq, Structural, Debug)]
pub struct Timestamp {
    pub year: u32,
    pub month: u32,
    pub day: u32,
    pub hour: u32,
    pub minute: u32,
    pub second: u32,
    pub micro: u32,
}

/// Construction of a timestamp from the system clock can fail only when the
/// clock's rendering does not fit the fixed textual layout.
#[derive(Clone, Copy, PartialEq, Eq, Structural, Debug)]
pub enum TimeError {
    Unparseable,
}

impl Timestamp {
    /// Field ranges under which the fixed-width textual layout is exact.
    pub open spec fn wf(self) -> bool {
        self.year <= 9999 && 1 <= self.month <= 12 && 1 <= self.day <= 31 && self.hour <= 23
            && self.minute <= 59 && self.second <= 59 && self.micro <= 999_999
    }

    /// Reads the system clock and parses its rendering; fails only if that
    /// rendering does not fit the fixed layout (a year outside 0..=9999).
    pub fn now() -> (r: Result<Timestamp, TimeError>)
        ensures
            r matches Ok(t) ==> t.wf(),
    {
        let s = current_time();
        match parse_timestamp(s.as_str()) {
            Some(t) => Ok(t),
            None => Err(TimeError::Unparseable),
        }
    }
}

/// Relies on chrono::offset::Local::now and chrono::DateTime::format: the
/// local wall-clock time rendered with `%Y-%m-%dT%H:%M:%S%.6f`. The result
/// depends on the clock, so nothing is promised of it; callers parse it.
#[verifier::external_body]
fn chrono_now_string() -> String {
    chrono::Local::now().format("%Y-%m-%dT%H:%M:%S%.6f").to_string()
}

/// The current local time as text; whether it fits the fixed layout is
/// checked by the caller that parses it.
pub fn current_time() -> String {
    chrono_now_string()
}

pub open spec fn digit_char(d: int) -> char {
    if d == 0 { '0' } else if d == 1 { '1' } else if d == 2 { '2' } else if d == 3 { '3' }
    else if d == 4 { '4' } else if d == 5 { '5' } else if d == 6 { '6' } else if d == 7 { '7' }
    else if d == 8 { '8' } else { '9' }
}

pub open spec fn digit_val(c: char) -> int {
    if c == '0' { 0 } else if c == '1' { 1 } else if c == '2' { 2 } else if c == '3' { 3 }
    else if c == '4' { 4 } else if c == '5' { 5 } else if c == '6' { 6 } else if c == '7' { 7 }
    else if c == '8' { 8 } else if c == '9' { 9 } else { -1 }
}

pub open spec fn is_digit(c: char) -> bool {
    digit_val(c) >= 0
}

/// The decimal digit of `v` at place `p` (`p` a power of ten).
pub open spec fn dig(v: int, p: int) -> int {
    (v / p) % 10
}

/// The fixed 26-character rendering of a timestamp.
pub open spec fn fmt_ts(ts: Timestamp) -> Seq<char> {
    let y = ts.year as int;
    let mo = ts.month as int;
    let d = ts.day as int;
    let h = ts.hour as int;
    let mi = ts.minute as int;
    let sec = ts.second as int;
    let us = ts.micro as int;
    seq![
        digit_char(dig(y, 1000)), digit_char(dig(y, 100)), digit_char(dig(y, 10)),
        digit_char(dig(y, 1)), '-',
        digit_char(dig(mo, 10)), digit_char(dig(mo, 1)), '-',
        digit_char(dig(d, 10)), digit_char(dig(d, 1)), 'T',
        digit_char(dig(h, 10)), digit_char(dig(h, 1)), ':',
        digit_char(dig(mi, 10)), digit_char(dig(mi, 1)), ':',
        digit_char(dig(sec, 10)), digit_char(dig(sec, 1)), '.',
        digit_char(dig(us, 100000)), digit_char(dig(us, 10000)), digit_char(dig(us, 1000)),
        digit_char(dig(us, 100)), digit_char(dig(us, 10)), digit_char(dig(us, 1)),
    ]
}

/// Whether the 26 characters of `s` starting at `i` have the shape
/// `dddd-dd-ddTdd:dd:dd.dddddd`.
pub open spec fn ts_shape(s: Seq<char>, i: int) -> bool {
    &&& 0 <= i
    &&& i + 26 <= s.len()
    &&& is_digit(s[i]) && is_digit(s[i + 1]) && is_digit(s[i + 2]) && is_digit(s[i + 3])
    &&& s[i + 4] == '-'
    &&& is_digit(s[i + 5]) && is_digit(s[i + 6])
    &&& s[i + 7] == '-'
    &&& is_digit(s[i + 8]) && is_digit(s[i + 9])
    &&& s[i + 10] == 'T'
    &&& is_digit(s[i + 11]) && is_digit(s[i + 12])
    &&& s[i + 13] == ':'
    &&& is_digit(s[i + 14]) && is_digit(s[i + 15])
    &&& s[i + 16] == ':'
    &&& is_digit(s[i + 17]) && is_digit(s[i + 18])
    &&& s[i + 19] == '.'
    &&& is_digit(s[i + 20]) && is_digit(s[i + 21]) && is_digit(s[i + 22])
    &&& is_digit(s[i + 23]) && is_digit(s[i + 24]) && is_digit(s[i + 25])
}

/// The timestamp denoted by the 26 characters of `s` starting at `i`, if they
/// have the right shape and its fields are in range.
pub open spec fn parse_ts_at(s: Seq<char>, i: int) -> Option<Timestamp> {
    if ts_shape(s, i) {
        let t = Timestamp {
            year: (digit_val(s[i]) * 1000 + digit_val(s[i + 1]) * 100 + digit_val(s[i + 2]) * 10
                + digit_val(s[i + 3])) as u32,
            month: (digit_val(s[i + 5]) * 10 + digit_val(s[i + 6])) as u32,
            day: (digit_val(s[i + 8]) * 10 + digit_val(s[i + 9])) as u32,
            hour: (digit_val(s[i + 11]) * 10 + digit_val(s[i + 12])) as u32,
            minute: (digit_val(s[i + 14]) * 10 + digit_val(s[i + 15])) as u32,
            second: (digit_val(s[i + 17]) * 10 + digit_val(s[i + 18])) as u32,
            micro: (digit_val(s[i + 20]) * 100000 + digit_val(s[i + 21]) * 10000
                + digit_val(s[i + 22]) * 1000 + digit_val(s[i + 23]) * 100
                + digit_val(s[i + 24]) * 10 + digit_val(s[i + 25])) as u32,
        };
        if t.wf() {
            Some(t)
        } else {
            None
        }
    } else {
        None
    }
}

/// The timestamp denoted by the whole of `s`, which must be exactly the
/// 26-character rendering.
pub open spec fn parse_ts(s: Seq<char>) -> Option<Timestamp> {
    if s.len() == 26 {
        parse_ts_at(s, 0)
    } else {
        None
    }
}

proof fn lemma_digit_round_trip(d: int)
    requires
        0 <= d <= 9,
    ensures
        digit_val(digit_char(d)) == d,
{
}

/// The four digits of `v` at places 1000..1, recombined, give back `v`.
proof fn lemma_digits4(v: int)
    requires
        0 <= v <= 9999,
    ensures
        dig(v, 1000) * 1000 + dig(v, 100) * 100 + dig(v, 10) * 10 + dig(v, 1) == v,
{
    lemma_small_mod((v / 1000) as nat, 10);
    lemma_div_denominator(v, 100, 10);
    lemma_div_denominator(v, 10, 10);
    lemma_fundamental_div_mod(v / 100, 10);
    lemma_fundamental_div_mod(v / 10, 10);
    lemma_fundamental_div_mod(v, 10);
    assert(v / 1 == v);
}

proof fn lemma_digits2(v: int)
    requires
        0 <= v <= 99,
    ensures
        dig(v, 10) * 10 + dig(v, 1) == v,
{
    lemma_small_mod((v / 10) as nat, 10);
    lemma_fundamental_div_mod(v, 10);
    assert(v / 1 == v);
}

proof fn lemma_digits6(v: int)
    requires
        0 <= v <= 999_999,
    ensures
        dig(v, 100000) * 100000 + dig(v, 10000) * 10000 + dig(v, 1000) * 1000 + dig(v, 100) * 100
            + dig(v, 10) * 10 + dig(v, 1) == v,
{
    lemma_small_mod((v / 100000) as nat, 10);
    lemma_div_denominator(v, 10000, 10);
    lemma_div_denominator(v, 1000, 10);
    lemma_div_denominator(v, 100, 10);
    lemma_div_denominator(v, 10, 10);
    lemma_fundamental_div_mod(v / 10000, 10);
    lemma_fundamental_div_mod(v / 1000, 10);
    lemma_fundamental_div_mod(v / 100, 10);
    lemma_fundamental_div_mod(v / 10, 10);
    lemma_fundamental_div_mod(v, 10);
    assert(v / 1 == v);
}

/// Formatting a well-formed timestamp and re-parsing the 26 characters gives
/// back the same timestamp, with nothing lost: the microsecond field
/// included.
#[verifier::rlimit(60)]
pub proof fn lemma_timestamp_round_trip(ts: Timestamp)
    requires
        ts.wf(),
    ensures
        fmt_ts(ts).len() == 26,
        parse_ts(fmt_ts(ts)) == Some(ts),
{
    let s = fmt_ts(ts);
    let y = ts.year as int;
    let mo = ts.month as int;
    let d = ts.day as int;
    let h = ts.hour as int;
    let mi = ts.minute as int;
    let sec = ts.second as int;
    let us = ts.micro as int;
    lemma_digits4(y);
    lemma_digits2(mo);
    lemma_digits2(d);
    lemma_digits2(h);
    lemma_digits2(mi);
    lemma_digits2(sec);
    lemma_digits6(us);
    assert(ts_shape(s, 0));
    lemma_digit_round_trip(dig(y, 1000));
    lemma_digit_round_trip(dig(y, 100));
    lemma_digit_round_trip(dig(y, 10));
    lemma_digit_round_trip(dig(y, 1));
    lemma_digit_round_trip(dig(mo, 10));
    lemma_digit_round_trip(dig(mo, 1));
    lemma_digit_round_trip(dig(d, 10));
    lemma_digit_round_trip(dig(d, 1));
    lemma_digit_round_trip(dig(h, 10));
    lemma_digit_round_trip(dig(h, 1));
    lemma_digit_round_trip(dig(mi, 10));
    lemma_digit_round_trip(dig(mi, 1));
    lemma_digit_round_trip(dig(sec, 10));
    lemma_digit_round_trip(dig(sec, 1));
    lemma_digit_round_trip(dig(us, 100000));
    lemma_digit_round_trip(dig(us, 10000));
    lemma_digit_round_trip(dig(us, 1000));
    lemma_digit_round_trip(dig(us, 100));
    lemma_digit_round_trip(dig(us, 10));
    lemma_digit_round_trip(dig(us, 1));
    assert(parse_ts_at(s, 0) == Some(ts));
}

/// A timestamp rendering embedded in a longer text parses from its own
/// position, whatever stands around it.
#[verifier::rlimit(80)]
pub proof fn lemma_parse_ts_embed(s: Seq<char>, m: int, t: Timestamp)
    requires
        t.wf(),
        0 <= m,
        m + 26 <= s.len(),
        s.subrange(m, m + 26) == fmt_ts(t),
    ensures
        parse_ts_at(s, m) == Some(t),
{
    lemma_timestamp_round_trip(t);
    let w = fmt_ts(t);
    assert forall|j: int| 0 <= j < 26 implies s[m + j] == w[j] by {
        assert(s.subrange(m, m + 26)[j] == s[m + j]);
    }
    assert(ts_shape(w, 0));
    assert(ts_shape(s, m));
    assert(parse_ts_at(s, m) == parse_ts_at(w, 0));
}

/// The digit characters `0` through `9`; any other character yields `None`.
fn digit_value(c: char) -> (r: Option<u32>)
    ensures
        is_digit(c) ==> r == Some(digit_val(c) as u32),
        !is_digit(c) ==> r is None,
{
    match c {
        '0' => Some(0),
        '1' => Some(1),
        '2' => Some(2),
        '3' => Some(3),
        '4' => Some(4),
        '5' => Some(5),
        '6' => Some(6),
        '7' => Some(7),
        '8' => Some(8),
        '9' => Some(9),
        _ => None,
    }
}

/// The single-character text of the digit `d`.
fn digit_str(d: u32) -> (r: &'static str)
    requires
        d <= 9,
    ensures
        r@ == seq![digit_char(d as int)],
{
    proof {
        reveal_strlit("0");
        reveal_strlit("1");
        reveal_strlit("2");
        reveal_strlit("3");
        reveal_strlit("4");
        reveal_strlit("5");
        reveal_strlit("6");
        reveal_strlit("7");
        reveal_strlit("8");
        reveal_strlit("9");
    }
    let r: &'static str = match d {
        0 => "0",
        1 => "1",
        2 => "2",
        3 => "3",
        4 => "4",
        5 => "5",
        6 => "6",
        7 => "7",
        8 => "8",
        _ => "9",
    };
    proof {
        assert(r@ =~= seq![digit_char(d as int)]);
    }
    r
}

/// Appends the digit of `v` at decimal place `p` to `out`.
fn push_digit(out: &mut String, v: u32, p: u32)
    requires
        p >= 1,
    ensures
        final(out)@ == old(out)@ + seq![digit_char(dig(v as int, p as int))],
{
    let d = (v / p) % 10;
    proof {
        assert(d as int == dig(v as int, p as int));
    }
    out.append(digit_str(d));
}

/// Renders `ts` in the fixed 26-character layout.
#[verifier::rlimit(60)]
pub fn format_timestamp(ts: &Timestamp) -> (out: String)
    requires
        ts.wf(),
    ensures
        out@ == fmt_ts(*ts),
{
    proof {
        reveal_strlit("-");
        reveal_strlit("T");
        reveal_strlit(":");
        reveal_strlit(".");
    }
    proof {
        assert(("-")@ =~= seq!['-']);
        assert(("T")@ =~= seq!['T']);
        assert((":")@ =~= seq![':']);
        assert((".")@ =~= seq!['.']);
    }
    let mut out = String::new();
    push_digit(&mut out, ts.year, 1000);
    push_digit(&mut out, ts.year, 100);
    push_digit(&mut out, ts.year, 10);
    push_digit(&mut out, ts.year, 1);
    out.append("-");
    proof {
        assert(out@ =~= fmt_ts(*ts).take(5));
    }
    push_digit(&mut out, ts.month, 10);
    push_digit(&mut out, ts.month, 1);
    out.append("-");
    proof {
        assert(out@ =~= fmt_ts(*ts).take(8));
    }
    push_digit(&mut out, ts.day, 10);
    push_digit(&mut out, ts.day, 1);
    out.append("T");
    proof {
        assert(out@ =~= fmt_ts(*ts).take(11));
    }
    push_digit(&mut out, ts.hour, 10);
    push_digit(&mut out, ts.hour, 1);
    out.append(":");
    proof {
        assert(out@ =~= fmt_ts(*ts).take(14));
    }
    push_digit(&mut out, ts.minute, 10);
    push_digit(&mut out, ts.minute, 1);
    out.append(":");
    proof {
        assert(out@ =~= fmt_ts(*ts).take(17));
    }
    push_digit(&mut out, ts.second, 10);
    push_digit(&mut out, ts.second, 1);
    out.append(".");
    proof {
        assert(out@ =~= fmt_ts(*ts).take(20));
    }
    push_digit(&mut out, ts.micro, 100000);
    push_digit(&mut out, ts.micro, 10000);
    push_digit(&mut out, ts.micro, 1000);
    proof {
        assert(out@ =~= fmt_ts(*ts).take(23));
    }
    push_digit(&mut out, ts.micro, 100);
    push_digit(&mut out, ts.micro, 10);
    push_digit(&mut out, ts.micro, 1);
    proof {
        assert(out@ =~= fmt_ts(*ts));
    }
    out
}

/// Reads the 26 characters of `s` starting at `i` as a timestamp, if they
/// have the fixed shape and in-range fields.
pub fn parse_timestamp_at(s: &str, i: usize) -> (r: Option<Timestamp>)
    ensures
        r == parse_ts_at(s@, i as int),
{
    let n = s.unicode_len();
    if n < 26 || i > n - 26 {
        return None;
    }
    let d0 = match digit_value(s.get_char(i)) { Some(d) => d, None => { return None; } };
    let d1 = match digit_value(s.get_char(i + 1)) { Some(d) => d, None => { return None; } };
    let d2 = match digit_value(s.get_char(i + 2)) { Some(d) => d, None => { return None; } };
    let d3 = match digit_value(s.get_char(i + 3)) { Some(d) => d, None => { return None; } };
    if s.get_char(i + 4) != '-' {
        return None;
    }
    let mo0 = match digit_value(s.get_char(i + 5)) { Some(d) => d, None => { return None; } };
    let mo1 = match digit_value(s.get_char(i + 6)) { Some(d) => d, None => { return None; } };
    if s.get_char(i + 7) != '-' {
        return None;
    }
    let dy0 = match digit_value(s.get_char(i + 8)) { Some(d) => d, None => { return None; } };
    let dy1 = match digit_value(s.get_char(i + 9)) { Some(d) => d, None => { return None; } };
    if s.get_char(i + 10) != 'T' {
        return None;
    }
    let h0 = match digit_value(s.get_char(i + 11)) { Some(d) => d, None => { return None; } };
    let h1 = match digit_value(s.get_char(i + 12)) { Some(d) => d, None => { return None; } };
    if s.get_char(i + 13) != ':' {
        return None;
    }
    let mi0 = match digit_value(s.get_char(i + 14)) { Some(d) => d, None => { return None; } };
    let mi1 = match digit_value(s.get_char(i + 15)) { Some(d) => d, None => { return None; } };
    if s.get_char(i + 16) != ':' {
        return None;
    }
    let s0 = match digit_value(s.get_char(i + 17)) { Some(d) => d, None => { return None; } };
    let s1 = match digit_value(s.get_char(i + 18)) { Some(d) => d, None => { return None; } };
    if s.get_char(i + 19) != '.' {
        return None;
    }
    let u0 = match digit_value(s.get_char(i + 20)) { Some(d) => d, None => { return None; } };
    let u1 = match digit_value(s.get_char(i + 21)) { Some(d) => d, None => { return None; } };
    let u2 = match digit_value(s.get_char(i + 22)) { Some(d) => d, None => { return None; } };
    let u3 = match digit_value(s.get_char(i + 23)) { Some(d) => d, None => { return None; } };
    let u4 = match digit_value(s.get_char(i + 24)) { Some(d) => d, None => { return None; } };
    let u5 = match digit_value(s.get_char(i + 25)) { Some(d) => d, None => { return None; } };
    let t = Timestamp {
        year: d0 * 1000 + d1 * 100 + d2 * 10 + d3,
        month: mo0 * 10 + mo1,
        day: dy0 * 10 + dy1,
        hour: h0 * 10 + h1,
        minute: mi0 * 10 + mi1,
        second: s0 * 10 + s1,
        micro: u0 * 100000 + u1 * 10000 + u2 * 1000 + u3 * 100 + u4 * 10 + u5,
    };
    if 1 <= t.month && t.month <= 12 && 1 <= t.day && t.day <= 31 && t.hour <= 23 && t.minute <= 59
        && t.second <= 59 {
        Some(t)
    } else {
        None
    }
}

/// Reads the whole of `s` as a timestamp; `s` must be exactly the fixed
/// 26-character rendering of one.
pub fn parse_timestamp(s: &str) -> (r: Option<Timestamp>)
    ensures
        r == parse_ts(s@),
{
    if s.unicode_len() != 26 {
        return None;
    }
    parse_timestamp_at(s, 0)
}

} // verus!
