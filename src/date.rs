use vstd::prelude::*;

verus! {

/// A calendar date, at the granularity of a day.
#[derive(PartialEq, Eq, Structural, Clone, Copy, Debug)]
pub struct Date {
    pub year: u16,
    pub month: u8,
    pub day: u8,
}

pub open spec fn is_leap_year(y: int) -> bool {
    (y % 4 == 0 && y % 100 != 0) || y % 400 == 0
}

pub open spec fn days_in_month(y: int, m: int) -> int {
    if m == 2 {
        if is_leap_year(y) { 29 } else { 28 }
    } else if m == 4 || m == 6 || m == 9 || m == 11 {
        30
    } else {
        31
    }
}

impl Date {
    /// The position of the date on the time line: later dates are larger.
    pub open spec fn ord(self) -> int {
        self.year * 65536 + self.month * 256 + self.day
    }

    /// The date names a day of the Gregorian calendar.
    pub open spec fn is_valid(self) -> bool {
        1 <= self.month <= 12 && 1 <= self.day <= days_in_month(self.year as int, self.month as int)
    }

    /// The date with the given year, month and day, if that day exists.
    pub fn from_ymd(year: u16, month: u8, day: u8) -> (r: Option<Date>)
        ensures
            r == (if (Date { year, month, day }).is_valid() {
                Some(Date { year, month, day })
            } else {
                None
            }),
    {
        if month < 1 || month > 12 || day < 1 {
            return None;
        }
        let leap = (year % 4 == 0 && year % 100 != 0) || year % 400 == 0;
        let last: u8 = if month == 2 {
            if leap { 29 } else { 28 }
        } else if month == 4 || month == 6 || month == 9 || month == 11 {
            30
        } else {
            31
        };
        if day > last {
            None
        } else {
            Some(Date { year, month, day })
        }
    }

    /// The date's position on the time line, as an integer.
    pub fn key(&self) -> (r: u32)
        ensures
            r as int == self.ord(),
    {
        self.year as u32 * 65536 + self.month as u32 * 256 + self.day as u32
    }

    /// Whether `self` comes strictly after `other`.
    pub fn is_after(&self, other: &Date) -> (r: bool)
        ensures
            r == (self.ord() > other.ord()),
    {
        self.key() > other.key()
    }
}

/// Two dates at the same position on the time line are the same date.
pub proof fn lemma_ord_injective(a: Date, b: Date)
    ensures
        a.ord() == b.ord() <==> a == b,
{
}

/// One data point of a statistic: a date and its value, kept as text.
#[derive(Debug)]
pub struct DateValue {
    pub date: Date,
    pub value: String,
}

impl DateValue {
    pub fn new(date: Date, value: String) -> (r: DateValue)
        ensures
            r.date == date,
            r.value@ == value@,
    {
        DateValue { date, value }
    }

    /// A copy of the data point.
    pub fn duplicate(&self) -> (r: DateValue)
        ensures
            r.date == self.date,
            r.value@ == self.value@,
    {
        DateValue { date: self.date, value: self.value.clone() }
    }
}

} // verus!
