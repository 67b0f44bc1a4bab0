//! Calendar times, and the texts that hold them.

use crate::error::ErrorKind;
use vstd::prelude::*;

verus! {

/// Whether `year` has a 29th of February.
pub open spec fn is_leap(year: nat) -> bool {
    year % 4 == 0 && (year % 100 != 0 || year % 400 == 0)
}

/// The number of days of `month` in `year`; none for what is no month.
pub open spec fn days_in_month(year: nat, month: nat) -> nat {
    if month == 2 {
        if is_leap(year) {
            29
        } else {
            28
        }
    } else if month == 4 || month == 6 || month == 9 || month == 11 {
        30
    } else if 1 <= month <= 12 {
        31
    } else {
        0
    }
}

/// Computes `days_in_month`.
pub fn month_length(year: u16, month: u8) -> (days: u8)
    ensures
        days == days_in_month(year as nat, month as nat),
{
    if month == 2 {
        if year % 4 == 0 && (year % 100 != 0 || year % 400 == 0) {
            29
        } else {
            28
        }
    } else if month == 4 || month == 6 || month == 9 || month == 11 {
        30
    } else if 1 <= month && month <= 12 {
        31
    } else {
        0
    }
}

/// The character of the decimal digit `d`.
pub open spec fn digit(d: nat) -> u8 {
    (48 + d) as u8
}

/// The two decimal digits of a number below a hundred.
pub open spec fn pair(v: nat) -> Seq<u8> {
    seq![digit(v / 10), digit(v % 10)]
}

/// The number that the decimal digits `text` spell, or `None` where a
/// character is no digit.
pub open spec fn number(text: Seq<u8>) -> Option<nat>
    decreases text.len(),
{
    if text.len() == 0 {
        Some(0)
    } else if !(48 <= text.last() <= 57) {
        None
    } else {
        match number(text.drop_last()) {
            None => None,
            Some(high) => Some((10 * high + (text.last() - 48)) as nat),
        }
    }
}

/// Two digits spell the number that they were made from.
pub proof fn lemma_pair(v: nat)
    requires
        v < 100,
    ensures
        number(pair(v)) == Some(v),
        pair(v).len() == 2,
{
    reveal_with_fuel(number, 3);
    let text = pair(v);
    assert(text.drop_last() =~= seq![digit(v / 10)]);
    assert(text.drop_last().drop_last() =~= Seq::<u8>::empty());
}

/// One digit more behind the digits of a number.
pub proof fn lemma_number_push(front: Seq<u8>, d: nat)
    requires
        d < 10,
        number(front) is Some,
    ensures
        number(front.push(digit(d))) == Some((10 * number(front)->Some_0 + d) as nat),
{
    assert(front.push(digit(d)).drop_last() =~= front);
}

/// The digits of a number followed by the two digits of `low` spell both.
pub proof fn lemma_number_pair(front: Seq<u8>, low: nat)
    requires
        low < 100,
        number(front) is Some,
    ensures
        number(front + pair(low)) == Some((100 * number(front)->Some_0 + low) as nat),
{
    lemma_number_push(front, low / 10);
    lemma_number_push(front.push(digit(low / 10)), low % 10);
    assert(front + pair(low) =~= front.push(digit(low / 10)).push(digit(low % 10)));
}

/// Appends the two decimal digits of `v`.
fn push_pair(text: &mut Vec<u8>, v: u8)
    requires
        v < 100,
    ensures
        final(text)@ == old(text)@ + pair(v as nat),
{
    text.push(48 + v / 10);
    text.push(48 + v % 10);
    assert(text@ =~= old(text)@ + pair(v as nat));
}

/// The number that the digits `from .. to` of `text` spell.
fn read_digits(text: &[u8], from: usize, to: usize) -> (r: Option<u16>)
    requires
        from <= to <= text@.len(),
        to - from <= 4,
    ensures
        match number(text@.subrange(from as int, to as int)) {
            Some(value) => r == Some(value as u16) && value < 10000,
            None => r is None,
        },
{
    let mut value: u16 = 0;
    let mut i: usize = from;
    let mut sound = true;
    let ghost field = text@.subrange(from as int, to as int);
    assert(field.take(0) =~= Seq::<u8>::empty());
    while i < to
        invariant
            from <= i <= to <= text@.len(),
            to - from <= 4,
            field == text@.subrange(from as int, to as int),
            sound ==> number(field.take(i - from)) == Some(value as nat),
            sound && i - from == 0 ==> value == 0,
            sound && i - from == 1 ==> value < 10,
            sound && i - from == 2 ==> value < 100,
            sound && i - from == 3 ==> value < 1000,
            sound && i - from == 4 ==> value < 10000,
            !sound ==> number(field.take(i - from)) is None,
        decreases to - i,
    {
        proof {
            let next = field.take(i - from + 1);
            assert(next.drop_last() =~= field.take(i - from));
            assert(next.last() == text@[i as int]);
        }
        let c = text[i];
        if sound && 48 <= c && c <= 57 {
            value = 10 * value + (c - 48) as u16;
        } else {
            sound = false;
        }
        i = i + 1;
    }
    assert(field.take(to - from) =~= field);
    if sound {
        Some(value)
    } else {
        None
    }
}

/// A time to the minute, in a year of 1950 to 2049.
#[derive(Clone, Copy, Debug, PartialEq, Eq, Structural)]
pub struct UtcTime {
    pub year: u16,
    pub month: u8,
    pub day: u8,
    pub hour: u8,
    pub minute: u8,
}

impl DeepView for UtcTime {
    type V = UtcTime;

    open spec fn deep_view(&self) -> UtcTime {
        *self
    }
}

impl UtcTime {
    /// The fields name a minute of the calendar, in a year that two digits
    /// tell.
    pub open spec fn wf(self) -> bool {
        &&& 1950 <= self.year <= 2049
        &&& 1 <= self.month <= 12
        &&& 1 <= self.day <= days_in_month(self.year as nat, self.month as nat)
        &&& self.hour < 24
        &&& self.minute < 60
    }

    /// Computes `wf`.
    pub fn is_valid(&self) -> (b: bool)
        ensures
            b == self.wf(),
    {
        1950 <= self.year && self.year <= 2049 && 1 <= self.month && self.month <= 12 && 1
            <= self.day && self.day <= month_length(self.year, self.month) && self.hour < 24
            && self.minute < 60
    }

    /// The text of the time: two digits each for year, month, day, hour and
    /// minute, and a `Z`.
    pub open spec fn text(self) -> Seq<u8> {
        pair((self.year % 100) as nat) + pair(self.month as nat) + pair(self.day as nat) + pair(
            self.hour as nat,
        ) + pair(self.minute as nat) + seq![90u8]
    }

    /// The time that `text` tells. A text of another form, and one that
    /// names no minute of the calendar, is a violation.
    pub open spec fn parse(text: Seq<u8>) -> Result<UtcTime, ErrorKind> {
        if text.len() != 11 || text[10] != 90 {
            Err(ErrorKind::Violation)
        } else {
            let year = number(text.subrange(0, 2));
            let month = number(text.subrange(2, 4));
            let day = number(text.subrange(4, 6));
            let hour = number(text.subrange(6, 8));
            let minute = number(text.subrange(8, 10));
            if year is None || month is None || day is None || hour is None || minute is None {
                Err(ErrorKind::Violation)
            } else {
                let time = UtcTime {
                    year: (if year->Some_0 >= 50 {
                        1900 + year->Some_0
                    } else {
                        2000 + year->Some_0
                    }) as u16,
                    month: month->Some_0 as u8,
                    day: day->Some_0 as u8,
                    hour: hour->Some_0 as u8,
                    minute: minute->Some_0 as u8,
                };
                if month->Some_0 < 256 && day->Some_0 < 256 && hour->Some_0 < 256
                    && minute->Some_0 < 256 && time.wf() {
                    Ok(time)
                } else {
                    Err(ErrorKind::Violation)
                }
            }
        }
    }

    /// Computes `text`, or `None` for a time that is no minute of the
    /// calendar.
    pub fn to_text(&self) -> (r: Option<Vec<u8>>)
        ensures
            self.wf() ==> r is Some && r->Some_0@ == self.text(),
            !self.wf() ==> r is None,
    {
        if !self.is_valid() {
            return None;
        }
        let mut text: Vec<u8> = Vec::new();
        push_pair(&mut text, (self.year % 100) as u8);
        push_pair(&mut text, self.month);
        push_pair(&mut text, self.day);
        push_pair(&mut text, self.hour);
        push_pair(&mut text, self.minute);
        text.push(90);
        assert(text@ =~= self.text());
        Some(text)
    }

    /// Computes `parse`.
    pub fn from_text(text: &[u8]) -> (r: Result<UtcTime, ErrorKind>)
        ensures
            r == UtcTime::parse(text@),
    {
        if text.len() != 11 || text[10] != 90 {
            return Err(ErrorKind::Violation);
        }
        let year = read_digits(text, 0, 2);
        let month = read_digits(text, 2, 4);
        let day = read_digits(text, 4, 6);
        let hour = read_digits(text, 6, 8);
        let minute = read_digits(text, 8, 10);
        match (year, month, day, hour, minute) {
            (Some(year), Some(month), Some(day), Some(hour), Some(minute)) => {
                if month >= 256 || day >= 256 || hour >= 256 || minute >= 256 {
                    return Err(ErrorKind::Violation);
                }
                let time = UtcTime {
                    year: if year >= 50 {
                        1900 + year
                    } else {
                        2000 + year
                    },
                    month: month as u8,
                    day: day as u8,
                    hour: hour as u8,
                    minute: minute as u8,
                };
                if time.is_valid() {
                    Ok(time)
                } else {
                    Err(ErrorKind::Violation)
                }
            },
            _ => Err(ErrorKind::Violation),
        }
    }
}

/// Where the fields of a time stand in its text.
proof fn lemma_utc_fields(time: UtcTime)
    ensures
        time.text().len() == 11,
        time.text()[10] == 90,
        time.text().subrange(0, 2) == pair((time.year % 100) as nat),
        time.text().subrange(2, 4) == pair(time.month as nat),
        time.text().subrange(4, 6) == pair(time.day as nat),
        time.text().subrange(6, 8) == pair(time.hour as nat),
        time.text().subrange(8, 10) == pair(time.minute as nat),
{
    let text = time.text();
    assert(text.subrange(0, 2) =~= pair((time.year % 100) as nat));
    assert(text.subrange(2, 4) =~= pair(time.month as nat));
    assert(text.subrange(4, 6) =~= pair(time.day as nat));
    assert(text.subrange(6, 8) =~= pair(time.hour as nat));
    assert(text.subrange(8, 10) =~= pair(time.minute as nat));
}

/// The text of a time tells that time.
pub proof fn lemma_utc_round_trip(time: UtcTime)
    requires
        time.wf(),
    ensures
        UtcTime::parse(time.text()) == Ok::<UtcTime, ErrorKind>(time),
        time.text().len() == 11,
{
    lemma_utc_fields(time);
    lemma_pair((time.year % 100) as nat);
    lemma_pair(time.month as nat);
    lemma_pair(time.day as nat);
    lemma_pair(time.hour as nat);
    lemma_pair(time.minute as nat);
}

/// A time to the thousandth of a second.
#[derive(Clone, Copy, Debug, PartialEq, Eq, Structural)]
pub struct GeneralizedTime {
    pub year: u16,
    pub month: u8,
    pub day: u8,
    pub hour: u8,
    pub minute: u8,
    pub second: u8,
    pub millisecond: u16,
}

impl DeepView for GeneralizedTime {
    type V = GeneralizedTime;

    open spec fn deep_view(&self) -> GeneralizedTime {
        *self
    }
}

impl GeneralizedTime {
    /// The fields name a thousandth of a second of the calendar, in a year
    /// that four digits tell.
    pub open spec fn wf(self) -> bool {
        &&& self.year <= 9999
        &&& 1 <= self.month <= 12
        &&& 1 <= self.day <= days_in_month(self.year as nat, self.month as nat)
        &&& self.hour < 24
        &&& self.minute < 60
        &&& self.second < 60
        &&& self.millisecond < 1000
    }

    /// Computes `wf`.
    pub fn is_valid(&self) -> (b: bool)
        ensures
            b == self.wf(),
    {
        self.year <= 9999 && 1 <= self.month && self.month <= 12 && 1 <= self.day && self.day
            <= month_length(self.year, self.month) && self.hour < 24 && self.minute < 60
            && self.second < 60 && self.millisecond < 1000
    }

    /// The text of the time: four digits for the year, two each for month,
    /// day, hour, minute and second, a point, three digits for the
    /// thousandths, and a `Z`.
    pub open spec fn text(self) -> Seq<u8> {
        pair((self.year / 100) as nat) + pair((self.year % 100) as nat) + pair(self.month as nat)
            + pair(self.day as nat) + pair(self.hour as nat) + pair(self.minute as nat) + pair(
            self.second as nat,
        ) + seq![46u8, digit((self.millisecond / 100) as nat)] + pair(
            (self.millisecond % 100) as nat,
        ) + seq![90u8]
    }

    /// The time that `text` tells. A text of another form, and one that
    /// names no thousandth of a second of the calendar, is a violation.
    pub open spec fn parse(text: Seq<u8>) -> Result<GeneralizedTime, ErrorKind> {
        if text.len() != 19 || text[14] != 46 || text[18] != 90 {
            Err(ErrorKind::Violation)
        } else {
            let year = number(text.subrange(0, 4));
            let month = number(text.subrange(4, 6));
            let day = number(text.subrange(6, 8));
            let hour = number(text.subrange(8, 10));
            let minute = number(text.subrange(10, 12));
            let second = number(text.subrange(12, 14));
            let fraction = number(text.subrange(15, 18));
            if year is None || month is None || day is None || hour is None || minute is None
                || second is None || fraction is None {
                Err(ErrorKind::Violation)
            } else {
                let time = GeneralizedTime {
                    year: year->Some_0 as u16,
                    month: month->Some_0 as u8,
                    day: day->Some_0 as u8,
                    hour: hour->Some_0 as u8,
                    minute: minute->Some_0 as u8,
                    second: second->Some_0 as u8,
                    millisecond: fraction->Some_0 as u16,
                };
                if year->Some_0 < 65536 && month->Some_0 < 256 && day->Some_0 < 256
                    && hour->Some_0 < 256 && minute->Some_0 < 256 && second->Some_0 < 256
                    && fraction->Some_0 < 65536 && time.wf() {
                    Ok(time)
                } else {
                    Err(ErrorKind::Violation)
                }
            }
        }
    }

    /// Computes `text`, or `None` for a time that is no time of the
    /// calendar.
    pub fn to_text(&self) -> (r: Option<Vec<u8>>)
        ensures
            self.wf() ==> r is Some && r->Some_0@ == self.text(),
            !self.wf() ==> r is None,
    {
        if !self.is_valid() {
            return None;
        }
        let mut text: Vec<u8> = Vec::new();
        push_pair(&mut text, (self.year / 100) as u8);
        push_pair(&mut text, (self.year % 100) as u8);
        push_pair(&mut text, self.month);
        push_pair(&mut text, self.day);
        push_pair(&mut text, self.hour);
        push_pair(&mut text, self.minute);
        push_pair(&mut text, self.second);
        text.push(46);
        text.push(48 + (self.millisecond / 100) as u8);
        push_pair(&mut text, (self.millisecond % 100) as u8);
        text.push(90);
        assert(text@ =~= self.text());
        Some(text)
    }

    /// Computes `parse`.
    pub fn from_text(text: &[u8]) -> (r: Result<GeneralizedTime, ErrorKind>)
        ensures
            r == GeneralizedTime::parse(text@),
    {
        if text.len() != 19 || text[14] != 46 || text[18] != 90 {
            return Err(ErrorKind::Violation);
        }
        let year = read_digits(text, 0, 4);
        let month = read_digits(text, 4, 6);
        let day = read_digits(text, 6, 8);
        let hour = read_digits(text, 8, 10);
        let minute = read_digits(text, 10, 12);
        let second = read_digits(text, 12, 14);
        let fraction = read_digits(text, 15, 18);
        match (year, month, day, hour, minute, second, fraction) {
            (
                Some(year),
                Some(month),
                Some(day),
                Some(hour),
                Some(minute),
                Some(second),
                Some(fraction),
            ) => {
                if month >= 256 || day >= 256 || hour >= 256 || minute >= 256 || second >= 256 {
                    return Err(ErrorKind::Violation);
                }
                let time = GeneralizedTime {
                    year,
                    month: month as u8,
                    day: day as u8,
                    hour: hour as u8,
                    minute: minute as u8,
                    second: second as u8,
                    millisecond: fraction,
                };
                if time.is_valid() {
                    Ok(time)
                } else {
                    Err(ErrorKind::Violation)
                }
            },
            _ => Err(ErrorKind::Violation),
        }
    }
}

/// Where the fields of a time stand in its text.
proof fn lemma_generalized_fields(time: GeneralizedTime)
    ensures
        time.text().len() == 19,
        time.text()[14] == 46,
        time.text()[18] == 90,
        time.text().subrange(0, 4) == pair((time.year / 100) as nat) + pair(
            (time.year % 100) as nat,
        ),
        time.text().subrange(4, 6) == pair(time.month as nat),
        time.text().subrange(6, 8) == pair(time.day as nat),
        time.text().subrange(8, 10) == pair(time.hour as nat),
        time.text().subrange(10, 12) == pair(time.minute as nat),
        time.text().subrange(12, 14) == pair(time.second as nat),
        time.text().subrange(15, 18) == seq![digit((time.millisecond / 100) as nat)] + pair(
            (time.millisecond % 100) as nat,
        ),
{
    let text = time.text();
    assert(text.subrange(0, 4) =~= pair((time.year / 100) as nat) + pair(
        (time.year % 100) as nat,
    ));
    assert(text.subrange(4, 6) =~= pair(time.month as nat));
    assert(text.subrange(6, 8) =~= pair(time.day as nat));
    assert(text.subrange(8, 10) =~= pair(time.hour as nat));
    assert(text.subrange(10, 12) =~= pair(time.minute as nat));
    assert(text.subrange(12, 14) =~= pair(time.second as nat));
    assert(text.subrange(15, 18) =~= seq![digit((time.millisecond / 100) as nat)] + pair(
        (time.millisecond % 100) as nat,
    ));
}

/// The text of a time tells that time.
pub proof fn lemma_generalized_round_trip(time: GeneralizedTime)
    requires
        time.wf(),
    ensures
        GeneralizedTime::parse(time.text()) == Ok::<GeneralizedTime, ErrorKind>(time),
        time.text().len() == 19,
{
    lemma_generalized_fields(time);
    lemma_pair((time.year / 100) as nat);
    lemma_pair(time.month as nat);
    lemma_pair(time.day as nat);
    lemma_pair(time.hour as nat);
    lemma_pair(time.minute as nat);
    lemma_pair(time.second as nat);
    lemma_number_pair(pair((time.year / 100) as nat), (time.year % 100) as nat);
    let top = seq![digit((time.millisecond / 100) as nat)];
    lemma_number_push(Seq::empty(), (time.millisecond / 100) as nat);
    assert(Seq::<u8>::empty().push(digit((time.millisecond / 100) as nat)) =~= top);
    lemma_number_pair(top, (time.millisecond % 100) as nat);
}

} // verus!
