//! Wall-clock timestamps and their `YYYY-MM-DD HH:MM:SS` rendering.

use chrono::{Datelike, Timelike};
use vstd::prelude::*;

verus! {

/// A local date and time as its calendar fields. A leap second is held as
/// second 59 with a nanosecond count of one second or more.
#[derive(Clone, Copy, Debug, PartialEq, Eq)]
pub struct WallClock {
    pub year: i32,
    pub month: u32,
    pub day: u32,
    pub hour: u32,
    pub minute: u32,
    pub second: u32,
    pub nanosecond: u32,
}

impl WallClock {
    /// The fields lie in their calendar ranges.
    pub open spec fn wf(&self) -> bool {
        &&& -262144 <= self.year <= 262143
        &&& 1 <= self.month <= 12
        &&& 1 <= self.day <= 31
        &&& self.hour < 24
        &&& self.minute < 60
        &&& self.second < 60
        &&& self.nanosecond < 2_000_000_000
        &&& self.nanosecond >= 1_000_000_000 ==> self.second == 59
    }

    /// The fields as plain integers.
    pub open spec fn fields(&self) -> (int, int, int, int, int, int, int) {
        (
            self.year as int,
            self.month as int,
            self.day as int,
            self.hour as int,
            self.minute as int,
            self.second as int,
            self.nanosecond as int,
        )
    }
}

/// The calendar fields that `DateTime::parse_from_rfc3339` reads from a text,
/// in the offset written there.
pub uninterp spec fn rfc3339_fields(s: Seq<char>) -> Option<(int, int, int, int, int, int, int)>;

/// Relies on `chrono::DateTime::parse_from_rfc3339`: `None` where the text is
/// no RFC 3339 date-time; else the local fields as written, whose year has
/// four digits.
#[verifier::external_body]
fn parse_rfc3339(s: &str) -> (r: Option<WallClock>)
    ensures
        match r {
            Some(w) => rfc3339_fields(s@) == Some(w.fields()) && w.wf() && 0 <= w.year <= 9999,
            None => rfc3339_fields(s@).is_none(),
        },
{
    chrono::DateTime::parse_from_rfc3339(s).ok().map(
        |d| WallClock {
            year: d.year(),
            month: d.month(),
            day: d.day(),
            hour: d.hour(),
            minute: d.minute(),
            second: d.second(),
            nanosecond: d.nanosecond(),
        },
    )
}

/// Relies on `chrono::Utc::now`: the current UTC time, after the Unix epoch
/// and within chrono's range of years.
#[verifier::external_body]
fn now_utc() -> (r: WallClock)
    ensures
        r.wf(),
        1970 <= r.year,
{
    let d = chrono::Utc::now();
    WallClock {
        year: d.year(),
        month: d.month(),
        day: d.day(),
        hour: d.hour(),
        minute: d.minute(),
        second: d.second(),
        nanosecond: d.nanosecond(),
    }
}

/// The decimal digit `d`.
pub open spec fn digit(d: int) -> char {
    seq!['0', '1', '2', '3', '4', '5', '6', '7', '8', '9'][d]
}

pub open spec fn is_digit(c: char) -> bool {
    '0' <= c <= '9'
}

pub open spec fn all_digits(s: Seq<char>) -> bool {
    forall|i: int| 0 <= i < s.len() ==> is_digit(#[trigger] s[i])
}

/// The last `k` decimal digits of `n`, zero-padded.
pub open spec fn fixed_digits(n: nat, k: nat) -> Seq<char>
    decreases k,
{
    if k == 0 {
        Seq::empty()
    } else {
        fixed_digits(n / 10, (k - 1) as nat).push(digit((n % 10) as int))
    }
}

/// The number of digits a year is written with: at least four.
pub open spec fn year_width(a: nat) -> nat {
    if a < 10000 {
        4
    } else if a < 100000 {
        5
    } else {
        6
    }
}

/// A year as `%Y` writes it: four digits within `0..=9999`, else a sign and
/// the digits of its magnitude.
pub open spec fn year_text(y: int) -> Seq<char> {
    if 0 <= y <= 9999 {
        fixed_digits(y as nat, 4)
    } else if y > 9999 {
        seq!['+'] + fixed_digits(y as nat, year_width(y as nat))
    } else {
        seq!['-'] + fixed_digits((-y) as nat, year_width((-y) as nat))
    }
}

/// The seconds as `%S` writes them: a leap second shows as 60.
pub open spec fn shown_second(w: WallClock) -> int {
    w.second + w.nanosecond / 1_000_000_000
}

/// The rendering `YYYY-MM-DD HH:MM:SS` of a wall-clock time.
pub open spec fn timestamp_text(w: WallClock) -> Seq<char> {
    year_text(w.year as int) + seq![
        '-',
        digit(w.month as int / 10),
        digit(w.month as int % 10),
        '-',
        digit(w.day as int / 10),
        digit(w.day as int % 10),
        ' ',
        digit(w.hour as int / 10),
        digit(w.hour as int % 10),
        ':',
        digit(w.minute as int / 10),
        digit(w.minute as int % 10),
        ':',
        digit(shown_second(w) / 10),
        digit(shown_second(w) % 10),
    ]
}

/// A year as written in a timestamp: four digits, or a sign and at least four digits.
pub open spec fn is_year_text(y: Seq<char>) -> bool {
    (y.len() == 4 && all_digits(y)) || (y.len() >= 5 && (y[0] == '+' || y[0] == '-')
        && all_digits(y.drop_first()))
}

/// The shape `YEAR-MM-DD HH:MM:SS`, with a year as `is_year_text` says.
pub open spec fn is_timestamp_text(s: Seq<char>) -> bool {
    &&& s.len() >= 19
    &&& is_year_text(s.subrange(0, s.len() - 15))
    &&& forall|i: int|
        s.len() - 15 <= i < s.len() ==> (#[trigger] s[i] == if i == s.len() - 15 || i == s.len()
            - 12 {
            '-'
        } else if i == s.len() - 9 {
            ' '
        } else if i == s.len() - 6 || i == s.len() - 3 {
            ':'
        } else {
            s[i]
        }) && (i != s.len() - 15 && i != s.len() - 12 && i != s.len() - 9 && i != s.len() - 6
            && i != s.len() - 3 ==> is_digit(s[i]))
}

proof fn lemma_fixed_digits(n: nat, k: nat)
    ensures
        fixed_digits(n, k).len() == k,
        all_digits(fixed_digits(n, k)),
    decreases k,
{
    if k > 0 {
        lemma_fixed_digits(n / 10, (k - 1) as nat);
        let d = (n % 10) as int;
        assert(is_digit(digit(d)));
        let f = fixed_digits(n, k);
        assert forall|i: int| 0 <= i < f.len() implies is_digit(#[trigger] f[i]) by {
            if i < k - 1 {
                assert(f[i] == fixed_digits(n / 10, (k - 1) as nat)[i]);
            }
        }
    }
}

/// Every rendering of a well-formed time has the timestamp shape.
pub proof fn lemma_timestamp_text_well_formed(w: WallClock)
    requires
        w.wf(),
    ensures
        is_timestamp_text(timestamp_text(w)),
{
    let y = year_text(w.year as int);
    if 0 <= w.year <= 9999 {
        lemma_fixed_digits(w.year as nat, 4);
    } else if w.year > 9999 {
        let f = fixed_digits(w.year as nat, year_width(w.year as nat));
        lemma_fixed_digits(w.year as nat, year_width(w.year as nat));
        assert(y.drop_first() =~= f);
    } else {
        let a = (-w.year) as nat;
        let f = fixed_digits(a, year_width(a));
        lemma_fixed_digits(a, year_width(a));
        assert(y.drop_first() =~= f);
    }
    let s = timestamp_text(w);
    assert(s.subrange(0, s.len() - 15) =~= y);
    assert(is_digit(digit(w.month as int / 10)));
    assert(is_digit(digit(w.month as int % 10)));
    assert(is_digit(digit(w.day as int / 10)));
    assert(is_digit(digit(w.day as int % 10)));
    assert(is_digit(digit(w.hour as int / 10)));
    assert(is_digit(digit(w.hour as int % 10)));
    assert(is_digit(digit(w.minute as int / 10)));
    assert(is_digit(digit(w.minute as int % 10)));
    assert(is_digit(digit(shown_second(w) / 10)));
    assert(is_digit(digit(shown_second(w) % 10)));
}

/// Appends the digit `d`.
pub(crate) fn append_digit(out: &mut String, d: u32)
    requires
        d < 10,
    ensures
        final(out)@ == old(out)@.push(digit(d as int)),
{
    let digits = "0123456789";
    proof {
        reveal_strlit("0123456789");
    }
    let one = digits.substring_char(d as usize, d as usize + 1);
    assert(one@ =~= seq![digit(d as int)]);
    out.append(one);
}

/// Appends the last `k` digits of `n`, zero-padded.
fn append_fixed(out: &mut String, n: u32, k: u32)
    ensures
        final(out)@ == old(out)@ + fixed_digits(n as nat, k as nat),
    decreases k,
{
    if k > 0 {
        append_fixed(out, n / 10, k - 1);
        append_digit(out, n % 10);
        assert(fixed_digits(n as nat, k as nat) =~= fixed_digits((n / 10) as nat, (k - 1) as nat).push(
            digit((n % 10) as int),
        ));
    } else {
        assert(old(out)@ + fixed_digits(n as nat, k as nat) =~= old(out)@);
    }
}

/// Appends a literal piece of text.
pub(crate) fn append_char_text(out: &mut String, piece: &str)
    ensures
        final(out)@ == old(out)@ + piece@,
{
    out.append(piece);
}

/// Renders `w` as `YYYY-MM-DD HH:MM:SS`.
pub fn format_timestamp(w: &WallClock) -> (r: String)
    requires
        w.wf(),
    ensures
        r@ == timestamp_text(*w),
        is_timestamp_text(r@),
{
    let mut out = String::new();
    if 0 <= w.year && w.year <= 9999 {
        append_fixed(&mut out, w.year as u32, 4);
    } else {
        let a: u32 = if w.year > 9999 {
            append_char_text(&mut out, "+");
            w.year as u32
        } else {
            append_char_text(&mut out, "-");
            (0 - w.year) as u32
        };
        let width: u32 = if a < 10000 {
            4
        } else if a < 100000 {
            5
        } else {
            6
        };
        append_fixed(&mut out, a, width);
    }
    proof {
        reveal_strlit("+");
        reveal_strlit("-");
        assert(out@ =~= year_text(w.year as int));
    }
    let shown = w.second + w.nanosecond / 1_000_000_000;
    append_char_text(&mut out, "-");
    append_digit(&mut out, w.month / 10);
    append_digit(&mut out, w.month % 10);
    append_char_text(&mut out, "-");
    append_digit(&mut out, w.day / 10);
    append_digit(&mut out, w.day % 10);
    append_char_text(&mut out, " ");
    append_digit(&mut out, w.hour / 10);
    append_digit(&mut out, w.hour % 10);
    append_char_text(&mut out, ":");
    append_digit(&mut out, w.minute / 10);
    append_digit(&mut out, w.minute % 10);
    append_char_text(&mut out, ":");
    append_digit(&mut out, shown / 10);
    append_digit(&mut out, shown % 10);
    proof {
        reveal_strlit(" ");
        reveal_strlit(":");
        assert(out@ =~= timestamp_text(*w));
        lemma_timestamp_text_well_formed(*w);
    }
    out
}

/// A publication time: the parsed text when it is an RFC 3339 date-time,
/// else `now`. The flag says whether `now` stood in.
pub fn published_or(raw: &str, now: &WallClock) -> (r: (String, bool))
    requires
        now.wf(),
    ensures
        is_timestamp_text(r.0@),
        r.1 == rfc3339_fields(raw@).is_none(),
        r.1 ==> r.0@ == timestamp_text(*now),
        !r.1 ==> exists|w: WallClock|
            w.wf() && rfc3339_fields(raw@) == Some(w.fields()) && r.0@ == timestamp_text(w),
{
    match parse_rfc3339(raw) {
        Some(w) => (format_timestamp(&w), false),
        None => (format_timestamp(now), true),
    }
}

/// The publication time of a raw timestamp, rendered; the current time stands
/// in for a text that does not parse, and the flag says so.
pub fn published_at(raw: &str) -> (r: (String, bool))
    ensures
        is_timestamp_text(r.0@),
        r.1 == rfc3339_fields(raw@).is_none(),
        !r.1 ==> exists|w: WallClock|
            w.wf() && rfc3339_fields(raw@) == Some(w.fields()) && r.0@ == timestamp_text(w),
{
    match parse_rfc3339(raw) {
        Some(w) => (format_timestamp(&w), false),
        None => {
            let now = now_utc();
            (format_timestamp(&now), true)
        },
    }
}

} // verus!
