//! Calendar dates, times of day and genders as the device writes them.

use vstd::prelude::*;

use crate::number::{
    all_digits, decimal_text, digits_value, is_digit, lemma_decimal_text_reads_back, push_decimal,
    unsigned_at_most, unsigned_value,
};
use crate::text::{chars_of, lemma_split_on_three, push_char, split_chars, split_on, sub_chars, views};

verus! {

/// `s` without the double quotes at its start and its end, however many.
pub open spec fn trim_quotes(s: Seq<char>) -> Seq<char> {
    trim_end_quotes(trim_start_quotes(s))
}

pub open spec fn trim_start_quotes(s: Seq<char>) -> Seq<char>
    decreases s.len(),
{
    if s.len() > 0 && s[0] == '"' {
        trim_start_quotes(s.drop_first())
    } else {
        s
    }
}

pub open spec fn trim_end_quotes(s: Seq<char>) -> Seq<char>
    decreases s.len(),
{
    if s.len() > 0 && s.last() == '"' {
        trim_end_quotes(s.drop_last())
    } else {
        s
    }
}

/// The unsigned integer in `s` if it is one and at most `max`.
pub open spec fn bounded(s: Seq<char>, max: nat) -> Option<nat> {
    match unsigned_value(s) {
        Some(n) => if n <= max {
            Some(n)
        } else {
            None
        },
        None => None,
    }
}

/// `cs` without the double quotes at either end.
pub fn trim_quotes_chars(cs: &Vec<char>) -> (r: Vec<char>)
    ensures
        r@ == trim_quotes(cs@),
{
    let n = cs.len();
    let mut lo: usize = 0;
    assert(cs@.subrange(0, n as int) =~= cs@);
    while lo < n && cs[lo] == '"'
        invariant
            lo <= n == cs.len(),
            trim_start_quotes(cs@) == trim_start_quotes(cs@.subrange(lo as int, n as int)),
        decreases n - lo,
    {
        assert(cs@.subrange(lo as int, n as int).drop_first() =~= cs@.subrange(lo + 1, n as int));
        lo += 1;
    }
    let mut hi: usize = n;
    while hi > lo && cs[hi - 1] == '"'
        invariant
            lo <= hi <= n == cs.len(),
            trim_quotes(cs@) == trim_end_quotes(cs@.subrange(lo as int, hi as int)),
        decreases hi,
    {
        assert(cs@.subrange(lo as int, hi as int).drop_last() =~= cs@.subrange(lo as int, hi - 1));
        hi -= 1;
    }
    sub_chars(cs, lo, hi)
}

/// The three unsigned integers that `s` holds between two `sep`s, after its
/// enclosing quotes are dropped, each within its bound.
pub open spec fn three_fields(s: Seq<char>, sep: char, m0: nat, m1: nat, m2: nat) -> Option<
    (nat, nat, nat),
> {
    let p = split_on(trim_quotes(s), sep);
    if p.len() == 3 && bounded(p[0], m0) is Some && bounded(p[1], m1) is Some && bounded(
        p[2],
        m2,
    ) is Some {
        Some((bounded(p[0], m0)->0, bounded(p[1], m1)->0, bounded(p[2], m2)->0))
    } else {
        None
    }
}

/// See [`three_fields`].
fn read_three(s: &str, sep: char, m0: u64, m1: u64, m2: u64) -> (r: Option<(u64, u64, u64)>)
    ensures
        match three_fields(s@, sep, m0 as nat, m1 as nat, m2 as nat) {
            Some((a, b, c)) => r == Some((a as u64, b as u64, c as u64)),
            None => r is None,
        },
{
    let cs = chars_of(s);
    let t = trim_quotes_chars(&cs);
    let p = split_chars(&t, sep);
    assert(views(p@).len() == p@.len());
    if p.len() != 3 {
        return None;
    }
    assert(p@[0]@ == views(p@)[0] && p@[1]@ == views(p@)[1] && p@[2]@ == views(p@)[2]);
    let a = unsigned_at_most(&p[0], m0);
    let b = unsigned_at_most(&p[1], m1);
    let c = unsigned_at_most(&p[2], m2);
    match (a, b, c) {
        (Some(a), Some(b), Some(c)) => Some((a, b, c)),
        _ => None,
    }
}

/// A calendar date as the device writes it, day first.
#[derive(Clone, Copy, Debug, PartialEq, Eq, Structural)]
pub struct Date {
    pub years: u16,
    pub months: u8,
    pub days: u8,
}

/// The date that `s` holds as `day/month/year`.
pub open spec fn date_of(s: Seq<char>) -> Option<Date> {
    match three_fields(s, '/', 255, 255, 65535) {
        Some((d, m, y)) => Some(Date { days: d as u8, months: m as u8, years: y as u16 }),
        None => None,
    }
}

/// A date written `day/month/year`.
pub open spec fn date_text(d: Date) -> Seq<char> {
    decimal_text(d.days as nat) + seq!['/'] + decimal_text(d.months as nat) + seq!['/']
        + decimal_text(d.years as nat)
}

impl Date {
    /// Reads `day/month/year`, after dropping enclosing double quotes. There
    /// must be exactly three parts, each an unsigned integer that fits its
    /// field; otherwise there is no date.
    pub fn from_string(date_dmy: &str) -> (r: Option<Date>)
        ensures
            r == date_of(date_dmy@),
    {
        match read_three(date_dmy, '/', 255, 255, 65535) {
            Some((d, m, y)) => Some(Date { days: d as u8, months: m as u8, years: y as u16 }),
            None => None,
        }
    }

    /// The date as `day/month/year`, without leading zeros.
    pub fn to_srting(&self) -> (r: String)
        ensures
            r@ == date_text(*self),
    {
        let mut r = String::new();
        push_decimal(&mut r, self.days as u64);
        push_char(&mut r, '/');
        push_decimal(&mut r, self.months as u64);
        push_char(&mut r, '/');
        push_decimal(&mut r, self.years as u64);
        r
    }
}

/// A time of day as the device writes it.
#[derive(Clone, Copy, Debug, PartialEq, Eq, Structural)]
pub struct Time {
    pub hours: u8,
    pub minutes: u8,
    pub seconds: u8,
}

/// The time that `s` holds as `hours:minutes:seconds`.
pub open spec fn time_of(s: Seq<char>) -> Option<Time> {
    match three_fields(s, ':', 255, 255, 255) {
        Some((h, m, c)) => Some(Time { hours: h as u8, minutes: m as u8, seconds: c as u8 }),
        None => None,
    }
}

/// A time written `hours:minutes:seconds`.
pub open spec fn time_text(t: Time) -> Seq<char> {
    decimal_text(t.hours as nat) + seq![':'] + decimal_text(t.minutes as nat) + seq![':']
        + decimal_text(t.seconds as nat)
}

impl Time {
    /// Reads `hours:minutes:seconds`, after dropping enclosing double
    /// quotes. There must be exactly three parts, each an unsigned integer
    /// that fits in `u8`; otherwise there is no time.
    pub fn from_string(time_hms: &str) -> (r: Option<Time>)
        ensures
            r == time_of(time_hms@),
    {
        match read_three(time_hms, ':', 255, 255, 255) {
            Some((h, m, s)) => Some(Time { hours: h as u8, minutes: m as u8, seconds: s as u8 }),
            None => None,
        }
    }

    /// The time as `hours:minutes:seconds`, without leading zeros.
    pub fn to_srting(&self) -> (r: String)
        ensures
            r@ == time_text(*self),
    {
        let mut r = String::new();
        push_decimal(&mut r, self.hours as u64);
        push_char(&mut r, ':');
        push_decimal(&mut r, self.minutes as u64);
        push_char(&mut r, ':');
        push_decimal(&mut r, self.seconds as u64);
        r
    }
}

/// The moment of a measurement.
#[derive(Clone, Copy, Debug, PartialEq, Eq, Structural)]
pub struct DateTime {
    pub date: Date,
    pub time: Time,
}

/// The moment that a date text and a time text hold, if both are readable.
pub open spec fn date_time_of(d: Seq<char>, t: Seq<char>) -> Option<DateTime> {
    match (date_of(d), time_of(t)) {
        (Some(date), Some(time)) => Some(DateTime { date, time }),
        _ => None,
    }
}

impl DateTime {
    /// Reads a date and a time; there is a moment only if both read.
    pub fn from_string(date_dmy: &str, time_hms: &str) -> (r: Option<DateTime>)
        ensures
            r == date_time_of(date_dmy@, time_hms@),
    {
        match (Date::from_string(date_dmy), Time::from_string(time_hms)) {
            (Some(date), Some(time)) => Some(DateTime { date, time }),
            _ => None,
        }
    }

    /// The date and the time, a space between them.
    pub fn to_string(&self) -> (r: String)
        ensures
            r@ == date_text(self.date) + seq![' '] + time_text(self.time),
    {
        let mut r = self.date.to_srting();
        push_char(&mut r, ' ');
        let t = self.time.to_srting();
        let tc = chars_of(t.as_str());
        let mut i: usize = 0;
        let ghost head = r@;
        while i < tc.len()
            invariant
                i <= tc.len(),
                r@ == head + tc@.subrange(0, i as int),
            decreases tc.len() - i,
        {
            push_char(&mut r, tc[i]);
            i += 1;
            assert(r@ =~= head + tc@.subrange(0, i as int));
        }
        assert(tc@.subrange(0, tc.len() as int) =~= tc@);
        r
    }
}

/// A person's gender, from the device's numeric code.
#[derive(Clone, Copy, Debug, PartialEq, Eq, Structural)]
pub enum Gender {
    Male,
    Female,
    Other(u8),
}

/// Code 1 is male, 2 female; any other code is kept as it is.
pub open spec fn gender_of(code: u8) -> Gender {
    if code == 1 {
        Gender::Male
    } else if code == 2 {
        Gender::Female
    } else {
        Gender::Other(code)
    }
}

impl From<u8> for Gender {
    fn from(code: u8) -> (r: Gender)
        ensures
            r == gender_of(code),
    {
        match code {
            1 => Gender::Male,
            2 => Gender::Female,
            _ => Gender::Other(code),
        }
    }
}

impl vstd::std_specs::convert::FromSpecImpl<u8> for Gender {
    open spec fn obeys_from_spec() -> bool {
        true
    }

    open spec fn from_spec(code: u8) -> Gender {
        gender_of(code)
    }
}

impl Gender {
    /// A label for display: `Boy`, `Girl`, or `Unknown gender: ` and the code.
    pub fn to_string(&self) -> (r: String)
        ensures
            r@ == match *self {
                Gender::Male => "Boy"@,
                Gender::Female => "Girl"@,
                Gender::Other(n) => "Unknown gender: "@ + decimal_text(n as nat),
            },
    {
        match self {
            Gender::Male => "Boy".to_string(),
            Gender::Female => "Girl".to_string(),
            Gender::Other(n) => {
                let mut r = "Unknown gender: ".to_string();
                push_decimal(&mut r, *n as u64);
                r
            },
        }
    }
}

/// Decimal text reads as the number it was written from.
proof fn lemma_decimal_text_value(n: nat)
    ensures
        unsigned_value(decimal_text(n)) == Some(n),
        decimal_text(n).len() >= 1,
        is_digit(decimal_text(n)[0]),
        is_digit(decimal_text(n).last()),
{
    lemma_decimal_text_reads_back(n);
    let t = decimal_text(n);
    assert(is_digit(t[0]));
    assert(is_digit(t[t.len() - 1]));
}

/// Three numbers written with `sep` between them are split back into
/// their decimal texts, with nothing trimmed.
proof fn lemma_three_texts(a: nat, b: nat, c: nat, sep: char)
    requires
        !is_digit(sep),
    ensures
        ({
            let t = decimal_text(a) + seq![sep] + decimal_text(b) + seq![sep] + decimal_text(c);
            &&& trim_quotes(t) == t
            &&& split_on(t, sep) == seq![decimal_text(a), decimal_text(b), decimal_text(c)]
        }),
{
    lemma_decimal_text_value(a);
    lemma_decimal_text_value(b);
    lemma_decimal_text_value(c);
    lemma_decimal_text_reads_back(a);
    lemma_decimal_text_reads_back(b);
    lemma_decimal_text_reads_back(c);
    let t = decimal_text(a) + seq![sep] + decimal_text(b) + seq![sep] + decimal_text(c);
    assert(t[0] == decimal_text(a)[0]);
    assert(t.last() == decimal_text(c).last());
    assert(trim_start_quotes(t) == t);
    assert(trim_end_quotes(t) == t);
    lemma_split_on_three(decimal_text(a), decimal_text(b), decimal_text(c), sep);
}

/// A time written as text reads back as the same time.
pub proof fn lemma_time_round_trip(t: Time)
    ensures
        time_of(time_text(t)) == Some(t),
{
    lemma_three_texts(t.hours as nat, t.minutes as nat, t.seconds as nat, ':');
    lemma_decimal_text_value(t.hours as nat);
    lemma_decimal_text_value(t.minutes as nat);
    lemma_decimal_text_value(t.seconds as nat);
}

/// A date written as text reads back as the same date.
pub proof fn lemma_date_text_reads_back(d: Date)
    ensures
        date_of(date_text(d)) == Some(d),
{
    lemma_three_texts(d.days as nat, d.months as nat, d.years as nat, '/');
    lemma_decimal_text_value(d.days as nat);
    lemma_decimal_text_value(d.months as nat);
    lemma_decimal_text_value(d.years as nat);
}

/// Reading `day/month/year` text, writing the date, and reading that text
/// again gives the same date: the written text is the normal form of the
/// source, with the same three numbers in the same order.
pub proof fn lemma_date_round_trip(s: Seq<char>)
    requires
        date_of(s) is Some,
    ensures
        date_of(date_text(date_of(s)->0)) == date_of(s),
        split_on(date_text(date_of(s)->0), '/').len() == 3,
{
    let d = date_of(s)->0;
    lemma_date_text_reads_back(d);
    lemma_three_texts(d.days as nat, d.months as nat, d.years as nat, '/');
}

/// Date text with two parts, or four and more, reads as no date; so does
/// time text.
pub proof fn lemma_three_parts_needed(s: Seq<char>)
    ensures
        split_on(trim_quotes(s), '/').len() != 3 ==> date_of(s) is None,
        split_on(trim_quotes(s), ':').len() != 3 ==> time_of(s) is None,
{
}

} // verus!
