use crate::text::chars_of;
use vstd::prelude::*;

verus! {

/// A calendar date with a time of day.
#[derive(Clone, Copy, Debug, PartialEq, Eq, Structural)]
pub struct PostDate {
    pub year: u16,
    pub month: u8,
    pub day: u8,
    pub hour: u8,
    pub minute: u8,
    pub second: u8,
}

/// Whether February has 29 days in the year `year`.
pub open spec fn is_leap_year(year: int) -> bool {
    year % 4 == 0 && (year % 100 != 0 || year % 400 == 0)
}

/// The number of days of a month, or 0 where `month` is not one.
pub open spec fn days_in_month(year: int, month: int) -> int {
    if month == 2 {
        if is_leap_year(year) {
            29
        } else {
            28
        }
    } else if month == 4 || month == 6 || month == 9 || month == 11 {
        30
    } else if 1 <= month <= 12 {
        31
    } else {
        0
    }
}

impl PostDate {
    /// Whether the fields name a day of the calendar and a time of that day.
    pub open spec fn valid(self) -> bool {
        &&& self.year <= 9999
        &&& 1 <= self.month <= 12
        &&& 1 <= self.day <= days_in_month(self.year as int, self.month as int)
        &&& self.hour < 24
        &&& self.minute < 60
        &&& self.second < 60
    }

    /// A number that grows with the date: it is smaller for the earlier of
    /// two dates, and equal only for equal dates.
    pub open spec fn instant(self) -> int {
        ((((self.year * 256 + self.month) * 256 + self.day) * 256 + self.hour) * 256
            + self.minute) * 256 + self.second
    }

    /// The number by which dates are ordered.
    pub fn sort_key(&self) -> (key: u64)
        ensures
            key == self.instant(),
    {
        let y: u64 = self.year as u64;
        let mo: u64 = self.month as u64;
        let d: u64 = self.day as u64;
        let h: u64 = self.hour as u64;
        let mi: u64 = self.minute as u64;
        let s: u64 = self.second as u64;
        ((((y * 256 + mo) * 256 + d) * 256 + h) * 256 + mi) * 256 + s
    }

    /// Whether this date lies before `other`.
    pub fn is_before(&self, other: &PostDate) -> (before: bool)
        ensures
            before == (self.instant() < other.instant()),
    {
        self.sort_key() < other.sort_key()
    }
}

/// Two dates with the same `instant` are the same date.
pub proof fn lemma_instant_injective(a: PostDate, b: PostDate)
    requires
        a.instant() == b.instant(),
    ensures
        a == b,
{
}

/// Whether `c` is a decimal digit.
pub open spec fn is_digit(c: char) -> bool {
    '0' <= c <= '9'
}

/// Whether `s` holds decimal digits only.
pub open spec fn all_digits(s: Seq<char>) -> bool {
    forall|i: int| 0 <= i < s.len() ==> is_digit(#[trigger] s[i])
}

/// The number that the decimal digits of `s` write.
pub open spec fn decimal(s: Seq<char>) -> int
    decreases s.len(),
{
    if s.len() == 0 {
        0
    } else {
        decimal(s.drop_last()) * 10 + (s.last() as int - '0' as int)
    }
}

/// Year, month and day of a text of the form `YYYY-MM-DD` that names a day of
/// the calendar.
pub open spec fn calendar_day(s: Seq<char>) -> Option<(int, int, int)> {
    if s.len() == 10 && all_digits(s.subrange(0, 4)) && s[4] == '-' && all_digits(
        s.subrange(5, 7),
    ) && s[7] == '-' && all_digits(s.subrange(8, 10)) {
        let year = decimal(s.subrange(0, 4));
        let month = decimal(s.subrange(5, 7));
        let day = decimal(s.subrange(8, 10));
        if 1 <= month <= 12 && 1 <= day <= days_in_month(year, month) {
            Some((year, month, day))
        } else {
            None
        }
    } else {
        None
    }
}

/// Hour, minute and second of a text of the form `HH:MM:SS` that names a time
/// of day.
pub open spec fn time_of_day(s: Seq<char>) -> Option<(int, int, int)> {
    if s.len() == 8 && all_digits(s.subrange(0, 2)) && s[2] == ':' && all_digits(
        s.subrange(3, 5),
    ) && s[5] == ':' && all_digits(s.subrange(6, 8)) {
        let hour = decimal(s.subrange(0, 2));
        let minute = decimal(s.subrange(3, 5));
        let second = decimal(s.subrange(6, 8));
        if hour < 24 && minute < 60 && second < 60 {
            Some((hour, minute, second))
        } else {
            None
        }
    } else {
        None
    }
}

/// The date that a text writes.
///
/// A date is written `YYYY-MM-DD`, and then stands for midnight of that day,
/// or `YYYY-MM-DD`, a `T` or a space, and `HH:MM:SS`. Any other text writes no
/// date.
pub open spec fn date_of(s: Seq<char>) -> Option<PostDate> {
    if s.len() == 10 {
        match calendar_day(s) {
            Some((year, month, day)) => Some(
                PostDate {
                    year: year as u16,
                    month: month as u8,
                    day: day as u8,
                    hour: 0,
                    minute: 0,
                    second: 0,
                },
            ),
            None => None,
        }
    } else if s.len() == 19 && (s[10] == 'T' || s[10] == ' ') {
        match (calendar_day(s.take(10)), time_of_day(s.skip(11))) {
            (Some((year, month, day)), Some((hour, minute, second))) => Some(
                PostDate {
                    year: year as u16,
                    month: month as u8,
                    day: day as u8,
                    hour: hour as u8,
                    minute: minute as u8,
                    second: second as u8,
                },
            ),
            _ => None,
        }
    } else {
        None
    }
}

/// The largest number that `digits` decimal digits can write, for up to four
/// digits.
spec fn max_decimal(digits: int) -> int {
    if digits <= 0 {
        0
    } else if digits == 1 {
        9
    } else if digits == 2 {
        99
    } else if digits == 3 {
        999
    } else {
        9999
    }
}

/// Reads the decimal number written by `chars[from..to]`.
fn read_number(chars: &Vec<char>, from: usize, to: usize) -> (number: Option<u32>)
    requires
        from <= to <= chars@.len(),
        to - from <= 4,
    ensures
        match number {
            Some(n) => all_digits(chars@.subrange(from as int, to as int)) && n == decimal(
                chars@.subrange(from as int, to as int),
            ) && n <= 9999,
            None => !all_digits(chars@.subrange(from as int, to as int)),
        },
{
    let mut n: u32 = 0;
    let mut i: usize = from;
    assert(chars@.subrange(from as int, from as int) =~= Seq::<char>::empty());
    while i < to
        invariant
            from <= i <= to <= chars@.len(),
            to - from <= 4,
            all_digits(chars@.subrange(from as int, i as int)),
            n == decimal(chars@.subrange(from as int, i as int)),
            n <= max_decimal(i - from),
        decreases to - i,
    {
        let c = chars[i];
        if c < '0' || c > '9' {
            assert(chars@.subrange(from as int, to as int)[i - from] == c);
            return None;
        }
        let ghost read = chars@.subrange(from as int, i + 1);
        assert(read.drop_last() =~= chars@.subrange(from as int, i as int));
        assert(read.last() == c);
        n = n * 10 + (c as u32 - '0' as u32);
        i = i + 1;
    }
    Some(n)
}

fn month_length(year: u32, month: u32) -> (days: u32)
    ensures
        days == days_in_month(year as int, month as int),
{
    if month == 2 {
        if year % 4 == 0 && (year % 100 != 0 || year % 400 == 0) {
            29
        } else {
            28
        }
    } else if month == 4 || month == 6 || month == 9 || month == 11 {
        30
    } else if 1 <= month && month <= 12 {
        31
    } else {
        0
    }
}

/// Reads the `YYYY-MM-DD` that starts at `at`.
fn read_day(chars: &Vec<char>, at: usize) -> (day: Option<(u16, u8, u8)>)
    requires
        at + 10 <= chars@.len(),
    ensures
        match day {
            Some((y, m, d)) => calendar_day(chars@.subrange(at as int, at + 10)) == Some(
                (y as int, m as int, d as int),
            ) && y <= 9999 && 1 <= m <= 12 && 1 <= d <= days_in_month(y as int, m as int),
            None => calendar_day(chars@.subrange(at as int, at + 10)) is None,
        },
{
    let n = chars.len();
    let ghost s = chars@.subrange(at as int, at + 10);
    proof {
        assert(s.subrange(0, 4) =~= chars@.subrange(at as int, at + 4));
        assert(s.subrange(5, 7) =~= chars@.subrange(at + 5, at + 7));
        assert(s.subrange(8, 10) =~= chars@.subrange(at + 8, at + 10));
        assert(s[4] == chars@[at + 4] && s[7] == chars@[at + 7]);
    }
    if chars[at + 4] != '-' || chars[at + 7] != '-' {
        return None;
    }
    match (read_number(chars, at, at + 4), read_number(chars, at + 5, at + 7), read_number(
        chars,
        at + 8,
        at + 10,
    )) {
        (Some(year), Some(month), Some(day)) => {
            if 1 <= month && month <= 12 && 1 <= day && day <= month_length(year, month) {
                Some((year as u16, month as u8, day as u8))
            } else {
                None
            }
        },
        _ => None,
    }
}

/// Reads the `HH:MM:SS` that starts at `at`.
fn read_time(chars: &Vec<char>, at: usize) -> (time: Option<(u8, u8, u8)>)
    requires
        at + 8 <= chars@.len(),
    ensures
        match time {
            Some((h, m, s)) => time_of_day(chars@.subrange(at as int, at + 8)) == Some(
                (h as int, m as int, s as int),
            ) && h < 24 && m < 60 && s < 60,
            None => time_of_day(chars@.subrange(at as int, at + 8)) is None,
        },
{
    let n = chars.len();
    let ghost s = chars@.subrange(at as int, at + 8);
    proof {
        assert(s.subrange(0, 2) =~= chars@.subrange(at as int, at + 2));
        assert(s.subrange(3, 5) =~= chars@.subrange(at + 3, at + 5));
        assert(s.subrange(6, 8) =~= chars@.subrange(at + 6, at + 8));
        assert(s[2] == chars@[at + 2] && s[5] == chars@[at + 5]);
    }
    if chars[at + 2] != ':' || chars[at + 5] != ':' {
        return None;
    }
    match (read_number(chars, at, at + 2), read_number(chars, at + 3, at + 5), read_number(
        chars,
        at + 6,
        at + 8,
    )) {
        (Some(hour), Some(minute), Some(second)) => {
            if hour < 24 && minute < 60 && second < 60 {
                Some((hour as u8, minute as u8, second as u8))
            } else {
                None
            }
        },
        _ => None,
    }
}

/// Reads a date.
pub fn parse_date(text: &str) -> (date: Option<PostDate>)
    ensures
        date == date_of(text@),
        date is Some ==> date.unwrap().valid(),
{
    let chars = chars_of(text);
    let n = chars.len();
    if n == 10 {
        assert(chars@.subrange(0, 10) =~= chars@);
        match read_day(&chars, 0) {
            Some((year, month, day)) => Some(
                PostDate { year, month, day, hour: 0, minute: 0, second: 0 },
            ),
            None => None,
        }
    } else if n == 19 && (chars[10] == 'T' || chars[10] == ' ') {
        assert(chars@.subrange(0, 10) =~= chars@.take(10));
        assert(chars@.subrange(11, 19) =~= chars@.skip(11));
        match (read_day(&chars, 0), read_time(&chars, 11)) {
            (Some((year, month, day)), Some((hour, minute, second))) => Some(
                PostDate { year, month, day, hour, minute, second },
            ),
            _ => None,
        }
    } else {
        None
    }
}

} // verus!
