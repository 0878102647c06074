//! Message dates: parsed once at sync time into an ISO timestamp, and turned
//! into a short relative label whenever a row is drawn.

use vstd::prelude::*;
use crate::text;

verus! {

// --- the calendar ---------------------------------------------------------

/// A day of the proleptic Gregorian calendar.
#[derive(Clone, Copy, Debug, PartialEq, Eq, Structural)]
pub struct Day {
    pub year: i32,
    pub month: u32,
    pub day: u32,
}

/// A minute of a day.
#[derive(Clone, Copy, Debug, PartialEq, Eq, Structural)]
pub struct Moment {
    pub day: Day,
    pub hour: u32,
    pub minute: u32,
}

/// Whether a year has a 29th of February.
pub open spec fn is_leap(year: int) -> bool {
    year % 4 == 0 && (year % 100 != 0 || year % 400 == 0)
}

/// How many days a month has.
pub open spec fn month_length(year: int, month: int) -> int {
    if month == 2 {
        if is_leap(year) {
            29
        } else {
            28
        }
    } else if month == 4 || month == 6 || month == 9 || month == 11 {
        30
    } else {
        31
    }
}

/// Days are counted from the first of March of the year 280000 before the year 0, so that every
/// count is positive.
pub open spec fn day_number(day: Day) -> int {
    let year = (if day.month <= 2 {
        day.year - 1
    } else {
        day.year as int
    }) + 280000;
    let month = (day.month + 9) % 12;
    365 * year + year / 4 - year / 100 + year / 400 + (153 * month + 2) / 5 + day.day - 1
}

/// The count of the first of January 1970.
pub open spec fn epoch_day() -> int {
    102987368
}

impl Day {
    /// Whether this is a day of the calendar, in a year that can be told.
    pub open spec fn wf(self) -> bool {
        &&& -262143 <= self.year <= 262142
        &&& 1 <= self.month <= 12
        &&& 1 <= self.day <= month_length(self.year as int, self.month as int)
    }

    /// The day of the week, from 0 for Monday.
    pub open spec fn weekday(self) -> int {
        (day_number(self) + 2) % 7
    }

    /// How many days this day is past another.
    pub fn days_since(self, earlier: Day) -> (r: i64)
        requires
            self.wf(),
            earlier.wf(),
        ensures
            r == day_number(self) - day_number(earlier),
    {
        count(self) - count(earlier)
    }
}

impl Moment {
    /// Whether this is a minute of a day of the calendar.
    pub open spec fn wf(self) -> bool {
        self.day.wf() && self.hour < 24 && self.minute < 60
    }

    /// The seconds from the start of 1970 to this minute, as a clock would show it that knows of
    /// no time zone.
    pub open spec fn civil_seconds(self) -> int {
        (day_number(self.day) - epoch_day()) * 86400 + self.hour * 3600 + self.minute * 60
    }
}

/// The day after another.
pub open spec fn day_after(day: Day) -> Day {
    if day.day < month_length(day.year as int, day.month as int) {
        Day { year: day.year, month: day.month, day: (day.day + 1) as u32 }
    } else if day.month < 12 {
        Day { year: day.year, month: (day.month + 1) as u32, day: 1 }
    } else {
        Day { year: (day.year + 1) as i32, month: 1, day: 1 }
    }
}

/// The count of days grows by one from each day to the next, so that the difference of two counts
/// is the number of days between them.
pub proof fn day_after_counts_one(day: Day)
    requires
        day.wf(),
    ensures
        day_number(day_after(day)) == day_number(day) + 1,
{
    let y = day.year as int;
    if day.day == month_length(y, day.month as int) {
        if day.month == 2 {
            leap_days(y + 280000);
        }
    }
}

/// A leap year is one whose February has a day more to count.
proof fn leap_days(y: int)
    requires
        y > 0,
    ensures
        y / 4 - y / 100 + y / 400 - ((y - 1) / 4 - (y - 1) / 100 + (y - 1) / 400) == (if is_leap(
            y - 280000,
        ) {
            1int
        } else {
            0
        }),
{
    assert(y / 4 - (y - 1) / 4 == if y % 4 == 0 {
        1int
    } else {
        0
    });
    assert(y / 100 - (y - 1) / 100 == if y % 100 == 0 {
        1int
    } else {
        0
    });
    assert(y / 400 - (y - 1) / 400 == if y % 400 == 0 {
        1int
    } else {
        0
    });
    assert((y - 280000) % 4 == y % 4);
    assert((y - 280000) % 100 == y % 100);
    assert((y - 280000) % 400 == y % 400);
    assert(y % 100 == 0 ==> y % 4 == 0);
    assert(y % 400 == 0 ==> y % 100 == 0);
}

/// The day so many days after another.
pub open spec fn days_later(day: Day, n: nat) -> Day
    decreases n,
{
    if n == 0 {
        day
    } else {
        day_after(days_later(day, (n - 1) as nat))
    }
}

/// Going on by so many days adds as many to the count.
pub proof fn days_later_count(day: Day, n: nat)
    requires
        forall|k: nat| k <= n ==> (#[trigger] days_later(day, k)).wf(),
    ensures
        day_number(days_later(day, n)) == day_number(day) + n,
    decreases n,
{
    if n > 0 {
        let before = (n - 1) as nat;
        assert forall|k: nat| k <= before implies (#[trigger] days_later(day, k)).wf() by {
            assert(k <= n);
        }
        days_later_count(day, before);
        assert(before <= n);
        assert(days_later(day, before).wf());
        day_after_counts_one(days_later(day, before));
    }
}

/// Counting on by seven leaves the remainder as it is, and by less does not.
proof fn sevens(x: int, n: int)
    requires
        n >= 0,
    ensures
        (x + n) % 7 == (x % 7 + n) % 7,
        0 < n < 7 ==> (x + n) % 7 != x % 7,
        n == 7 ==> (x + n) % 7 == x % 7,
{
}

/// A day of the week comes again after seven days, and not before.
pub proof fn weeks_have_seven_days(day: Day, n: nat)
    requires
        forall|k: nat| k <= n ==> (#[trigger] days_later(day, k)).wf(),
    ensures
        days_later(day, n).weekday() == (day.weekday() + n) % 7,
        n < 7 && n > 0 ==> days_later(day, n).weekday() != day.weekday(),
        n == 7 ==> days_later(day, n).weekday() == day.weekday(),
{
    days_later_count(day, n);
    sevens(day_number(day) + 2, n as int);
}

fn count(day: Day) -> (r: i64)
    requires
        day.wf(),
    ensures
        r == day_number(day),
        0 <= r < 400000000,
{
    let shifted: i64 = if day.month <= 2 {
        day.year as i64 - 1 + 280000
    } else {
        day.year as i64 + 280000
    };
    let month: i64 = (day.month as i64 + 9) % 12;
    365 * shifted + shifted / 4 - shifted / 100 + shifted / 400 + (153 * month + 2) / 5
        + day.day as i64 - 1
}

// --- how a moment reads ---------------------------------------------------

/// A number of two digits, a zero before one that has a single digit.
pub open spec fn two_digits(n: nat) -> Seq<char> {
    if n < 10 {
        seq!['0'] + text::decimal(n)
    } else {
        text::decimal(n)
    }
}

/// A number of at least four digits, with zeros before it where it has fewer.
pub open spec fn four_digits(n: nat) -> Seq<char> {
    if n < 10 {
        "000"@ + text::decimal(n)
    } else if n < 100 {
        "00"@ + text::decimal(n)
    } else if n < 1000 {
        "0"@ + text::decimal(n)
    } else {
        text::decimal(n)
    }
}

/// A year in at least four digits, with a sign where it is none of those that four digits write.
pub open spec fn year_text(year: int) -> Seq<char> {
    if year < 0 {
        "-"@ + four_digits((-year) as nat)
    } else if year > 9999 {
        "+"@ + text::decimal(year as nat)
    } else {
        four_digits(year as nat)
    }
}

/// The English name of a month.
pub open spec fn month_name(month: int) -> Seq<char> {
    if month == 1 {
        "January"@
    } else if month == 2 {
        "February"@
    } else if month == 3 {
        "March"@
    } else if month == 4 {
        "April"@
    } else if month == 5 {
        "May"@
    } else if month == 6 {
        "June"@
    } else if month == 7 {
        "July"@
    } else if month == 8 {
        "August"@
    } else if month == 9 {
        "September"@
    } else if month == 10 {
        "October"@
    } else if month == 11 {
        "November"@
    } else {
        "December"@
    }
}

/// The English name of a day of the week, from 0 for Monday.
pub open spec fn weekday_name(weekday: int) -> Seq<char> {
    if weekday == 0 {
        "Monday"@
    } else if weekday == 1 {
        "Tuesday"@
    } else if weekday == 2 {
        "Wednesday"@
    } else if weekday == 3 {
        "Thursday"@
    } else if weekday == 4 {
        "Friday"@
    } else if weekday == 5 {
        "Saturday"@
    } else {
        "Sunday"@
    }
}

/// The time of day, such as "10:05".
pub open spec fn clock_text(m: Moment) -> Seq<char> {
    two_digits(m.hour as nat) + ":"@ + two_digits(m.minute as nat)
}

/// The day of the month after the short name of the month, such as "Jul 01".
pub open spec fn date_text(m: Moment) -> Seq<char> {
    month_name(m.day.month as int).take(3) + " "@ + two_digits(m.day.day as nat)
}

/// Date and time, such as "Jul 16, 2026 10:00".
pub open spec fn long_text(m: Moment) -> Seq<char> {
    date_text(m) + ", "@ + year_text(m.day.year as int) + " "@ + clock_text(m)
}

/// Calls `chrono::NaiveDateTime::format` with a strftime pattern: `%H`, `%M` and `%d` write two
/// digits, `%Y` the year, `%A` and `%B` the English names of the day of the week and the month,
/// `%a` and `%b` the first three letters of these. Of other patterns nothing is said.
#[verifier::external_body]
fn format_moment(m: Moment, pattern: &str) -> (r: String)
    requires
        m.wf(),
        pattern@ == "%H:%M"@ || pattern@ == "%b %d"@ || pattern@ == "%b %d, %Y %H:%M"@ || pattern@
            == "%a"@ || pattern@ == "%A"@ || pattern@ == "%B"@,
    ensures
        pattern@ == "%H:%M"@ ==> r@ == clock_text(m),
        pattern@ == "%b %d"@ ==> r@ == date_text(m),
        pattern@ == "%b %d, %Y %H:%M"@ ==> r@ == long_text(m),
        pattern@ == "%a"@ ==> r@ == weekday_name(m.day.weekday()).take(3),
        pattern@ == "%A"@ ==> r@ == weekday_name(m.day.weekday()),
        pattern@ == "%B"@ ==> r@ == month_name(m.day.month as int),
{
    chrono::NaiveDate::from_ymd_opt(m.day.year, m.day.month, m.day.day)
        .and_then(|day| day.and_hms_opt(m.hour, m.minute, 0))
        .map(|moment| moment.format(pattern).to_string())
        .unwrap_or_default()
}

// --- reading a date -------------------------------------------------------

/// The seconds since the start of 1970 of a moment in RFC 3339 form, if a text is one.
pub uninterp spec fn rfc3339_seconds(text: Seq<char>) -> Option<i64>;

/// The RFC 3339 form of the date in a mail header, if a text holds one.
pub uninterp spec fn rfc822_as_rfc3339(text: Seq<char>) -> Option<Seq<char>>;

/// The text behind an optional string.
pub open spec fn text_in(s: Option<String>) -> Option<Seq<char>> {
    match s {
        Some(t) => Some(t@),
        None => None,
    }
}

/// Calls `chrono::DateTime::parse_from_rfc3339` and `timestamp` of what it gives.
#[verifier::external_body]
fn seconds_in(iso: &str) -> (r: Option<i64>)
    ensures
        r == rfc3339_seconds(iso@),
{
    chrono::DateTime::parse_from_rfc3339(iso).ok().map(|moment| moment.timestamp())
}

/// Calls `mail_parser::DateTime::parse_rfc822` and `to_rfc3339` of what it gives.
#[verifier::external_body]
fn header_date(text: &str) -> (r: Option<String>)
    ensures
        text_in(r) == rfc822_as_rfc3339(text@),
{
    mail_parser::DateTime::parse_rfc822(text).map(|date| date.to_rfc3339())
}

/// Whether a local clock may show `m` at the moment `seconds` after the start of 1970: no zone
/// is a whole day away from UTC.
pub open spec fn may_show(m: Moment, seconds: int) -> bool {
    -86400 < m.civil_seconds() + 60 - seconds && m.civil_seconds() - seconds < 86400
}

/// Calls `chrono::DateTime::parse_from_rfc3339` and turns what it gives to the machine's time
/// zone. Which minute that is depends on the machine; it is less than a day from the moment.
#[verifier::external_body]
fn local_moment(iso: &str) -> (r: Option<Moment>)
    ensures
        match r {
            Some(m) => m.wf() && rfc3339_seconds(iso@) is Some && may_show(
                m,
                rfc3339_seconds(iso@)->0 as int,
            ),
            None => rfc3339_seconds(iso@) is None,
        },
{
    let moment = chrono::DateTime::parse_from_rfc3339(iso).ok()?.with_timezone(&chrono::Local);
    let day = Day {
        year: chrono::Datelike::year(&moment),
        month: chrono::Datelike::month(&moment),
        day: chrono::Datelike::day(&moment),
    };
    let hour = chrono::Timelike::hour(&moment);
    Some(Moment { day, hour, minute: chrono::Timelike::minute(&moment) })
}

/// Whether `m` is what the machine's clock and time zone make of a moment in RFC 3339 form: an
/// answer that `local_moment` gave for that text, and not just one that it might give.
pub closed spec fn clock_shows(iso: Seq<char>, m: Option<Moment>) -> bool {
    exists|s: &str| s@ == iso && #[trigger] call_ensures(local_moment, (s,), m)
}

/// Calls `chrono::Local::now`: the day that the machine's clock and time zone tell.
#[verifier::external_body]
fn local_today() -> (r: Day)
    ensures
        r.wf(),
{
    let now = chrono::Local::now();
    Day {
        year: chrono::Datelike::year(&now),
        month: chrono::Datelike::month(&now),
        day: chrono::Datelike::day(&now),
    }
}

/// Whether `day` is a day that the machine's clock and time zone told.
pub closed spec fn clock_tells(day: Day) -> bool {
    call_ensures(local_today, (), day)
}

/// Calls `chrono::Local::now` and `to_rfc3339_opts` of what it gives: the current local time as
/// an ISO timestamp, for locally saved copies. It depends on the clock, so nothing is said of it.
#[verifier::external_body]
pub fn now_iso() -> String {
    chrono::Local::now().to_rfc3339_opts(chrono::SecondsFormat::Secs, true)
}

/// The RFC 3339 form in which a date is read: the text itself where it is one, else that of the
/// mail date it holds.
pub open spec fn iso_form(value: Seq<char>) -> Option<Seq<char>> {
    if rfc3339_seconds(value) is Some {
        Some(value)
    } else {
        rfc822_as_rfc3339(value)
    }
}

/// The seconds since the start of 1970 of the moment that a date tells, if it can be read: our own
/// ISO form or an RFC 2822 header.
pub open spec fn instant_of(value: Seq<char>) -> Option<i64> {
    match iso_form(value) {
        Some(iso) => rfc3339_seconds(iso),
        None => None,
    }
}

/// "Wed, 16 Jul 2026 10:00:00 +0000" -> "2026-07-16T10:00:00Z". Stored as
/// a timestamp rather than a label because the label is relative to today,
/// and the column is written once at sync time and never revisited. An
/// unparseable header is stored verbatim.
pub fn to_iso(rfc822: &str) -> (r: String)
    ensures
        r@ == (match rfc822_as_rfc3339(rfc822@) {
            Some(iso) => iso,
            None => rfc822@,
        }),
{
    iso_or_verbatim(header_date(rfc822), rfc822)
}

/// The ISO form of a header's date, or the header where it has none.
pub fn iso_or_verbatim(iso: Option<String>, header: &str) -> (r: String)
    ensures
        r@ == (match text_in(iso) {
            Some(t) => t,
            None => header@,
        }),
{
    match iso {
        Some(t) => t,
        None => header.to_owned(),
    }
}

/// Whether `m` is how a date reads on this machine: what its clock shows at the moment that the
/// date tells, which is less than a day away, and nothing where the date cannot be read.
pub open spec fn local_reading(value: Seq<char>, m: Option<Moment>) -> bool {
    &&& match m {
        Some(moment) => moment.wf() && instant_of(value) is Some && may_show(
            moment,
            instant_of(value)->0 as int,
        ),
        None => instant_of(value) is None,
    }
    &&& match iso_form(value) {
        Some(iso) => clock_shows(iso, m),
        None => m is None,
    }
}

/// The moment that a date tells, in local time.
fn moment_of(value: &str) -> (r: Option<Moment>)
    ensures
        local_reading(value@, r),
{
    let own = local_moment(value);
    if own.is_some() {
        assert(call_ensures(local_moment, (value,), own));
        return own;
    }
    match header_date(value) {
        Some(iso) => {
            let read = local_moment(&iso);
            assert(exists|s: &str| s@ == iso@ && #[trigger] call_ensures(local_moment, (s,), read));
            read
        },
        None => None,
    }
}

/// A date reads as the machine's clock answered when it was asked for that very moment.
proof fn readings_are_answers(value: Seq<char>, m: Moment)
    requires
        local_reading(value, Some(m)),
    ensures
        exists|s: &str|
            Some(s@) == iso_form(value) && #[trigger] call_ensures(local_moment, (s,), Some(m)),
{
}

/// A day is today where the machine's clock answered that it is.
proof fn today_is_an_answer(day: Day)
    requires
        clock_tells(day),
    ensures
        call_ensures(local_today, (), day),
        day.wf(),
{
}

/// Whether a clock that runs `offset` seconds before UTC shows `m` at the moment `seconds` after the
/// start of 1970: it shows the minute that has begun.
pub open spec fn shows_at(m: Moment, seconds: int, offset: int) -> bool {
    m.civil_seconds() <= seconds + offset < m.civil_seconds() + 60
}

/// A date reads as the minute that has begun at its moment, at some offset of less than a day.
pub proof fn dates_read_at_an_offset(value: Seq<char>, m: Moment)
    requires
        local_reading(value, Some(m)),
    ensures
        exists|offset: int|
            -86400 <= offset < 86400 && #[trigger] shows_at(
                m,
                instant_of(value)->0 as int,
                offset,
            ),
{
    let seconds = instant_of(value)->0 as int;
    let low = m.civil_seconds() - seconds;
    let offset = if low < -86400 {
        -86400
    } else {
        low
    };
    assert(shows_at(m, seconds, offset));
}

/// The clock goes on: at one offset a later moment never reads as an earlier time of the same day,
/// nor as an earlier day, and two readings of one moment are the same minute.
pub proof fn clock_goes_on(a: Moment, b: Moment, s: int, t: int, offset: int)
    requires
        a.wf(),
        b.wf(),
        shows_at(a, s, offset),
        shows_at(b, t, offset),
        s <= t,
    ensures
        day_number(a.day) <= day_number(b.day),
        day_number(a.day) == day_number(b.day) ==> a.hour < b.hour || (a.hour == b.hour && a.minute
            <= b.minute),
        s == t ==> day_number(a.day) == day_number(b.day) && a.hour == b.hour && a.minute
            == b.minute,
{
}

/// Seconds since the epoch, for ordering rows by when they were sent rather
/// than by the text of the header (whose zone offsets don't sort). Unreadable
/// dates sort oldest.
pub fn sort_key(value: &str) -> (r: i64)
    ensures
        r == sort_key_of(instant_of(value@)),
{
    let seconds = match seconds_in(value) {
        Some(s) => Some(s),
        None => match header_date(value) {
            Some(iso) => seconds_in(&iso),
            None => None,
        },
    };
    sort_key_for(seconds)
}

/// The place in time order of a moment, the oldest of all for one that is not known.
pub open spec fn sort_key_of(seconds: Option<i64>) -> i64 {
    match seconds {
        Some(s) => s,
        None => i64::MIN,
    }
}

/// The place in time order of a moment, the oldest of all for one that is not known.
pub fn sort_key_for(seconds: Option<i64>) -> (r: i64)
    ensures
        r == sort_key_of(seconds),
{
    match seconds {
        Some(s) => s,
        None => i64::MIN,
    }
}

// --- labels ---------------------------------------------------------------

/// "Jul 16, 2026 10:00", or the text of the date where it cannot be read.
pub open spec fn long_label_text(m: Option<Moment>, value: Seq<char>) -> Seq<char> {
    match m {
        Some(moment) => long_text(moment),
        None => value,
    }
}

/// "Jul 16, 2026 10:00", or the text of the date where it cannot be read.
pub fn long_label_for(m: Option<Moment>, value: &str) -> (r: String)
    requires
        m matches Some(moment) ==> moment.wf(),
    ensures
        r@ == long_label_text(m, value@),
{
    match m {
        Some(moment) => format_moment(moment, "%b %d, %Y %H:%M"),
        None => value.to_owned(),
    }
}

/// "Jul 16, 2026 10:00", the long form the reader's Details section shows.
pub fn long_label(rfc822: &str) -> (r: String)
    ensures
        exists|m: Option<Moment>|
            local_reading(rfc822@, m) && r@ == #[trigger] long_label_text(m, rfc822@),
{
    let m = moment_of(rfc822);
    long_label_for(m, rfc822)
}

/// The clock time of a date, or its text where it cannot be read.
pub open spec fn time_label_text(m: Option<Moment>, value: Seq<char>) -> Seq<char> {
    match m {
        Some(moment) => clock_text(moment),
        None => value,
    }
}

/// The clock time of a date, or its text where it cannot be read.
pub fn time_label_for(m: Option<Moment>, value: &str) -> (r: String)
    requires
        m matches Some(moment) ==> moment.wf(),
    ensures
        r@ == time_label_text(m, value@),
{
    match m {
        Some(moment) => format_moment(moment, "%H:%M"),
        None => value.to_owned(),
    }
}

/// The clock time of a stored timestamp, "16:02", the only part a list row
/// shows once the day is carried by a section header. Unreadable: verbatim.
pub fn time_label(value: &str) -> (r: String)
    ensures
        exists|m: Option<Moment>|
            local_reading(value@, m) && r@ == #[trigger] time_label_text(m, value@),
{
    let m = moment_of(value);
    time_label_for(m, value)
}

/// How a stored timestamp reads next to a row.
#[derive(Clone, Debug, PartialEq, Eq)]
pub enum RelativeLabel {
    /// Sent today: just the time, "10:00".
    Today(String),
    Yesterday,
    /// Within the last week: the weekday's short name, "Wed".
    Weekday(String),
    /// Beyond that: "Jul 16".
    Date(String),
    /// Neither a timestamp we wrote nor a date we can read: shown verbatim.
    Raw(String),
}

/// What a relative label says.
pub enum RelativeView {
    Today(Seq<char>),
    Yesterday,
    Weekday(Seq<char>),
    Date(Seq<char>),
    Raw(Seq<char>),
}

impl View for RelativeLabel {
    type V = RelativeView;

    open spec fn view(&self) -> RelativeView {
        match self {
            RelativeLabel::Today(t) => RelativeView::Today(t@),
            RelativeLabel::Yesterday => RelativeView::Yesterday,
            RelativeLabel::Weekday(t) => RelativeView::Weekday(t@),
            RelativeLabel::Date(t) => RelativeView::Date(t@),
            RelativeLabel::Raw(t) => RelativeView::Raw(t@),
        }
    }
}

/// How a date reads on a day: the time today, the weekday within the last week, else the date.
pub open spec fn relative_reading(m: Option<Moment>, value: Seq<char>, today: Day) -> RelativeView {
    match m {
        Some(moment) => {
            let days = day_number(today) - day_number(moment.day);
            if days == 0 {
                RelativeView::Today(clock_text(moment))
            } else if days == 1 {
                RelativeView::Yesterday
            } else if 2 <= days <= 6 {
                RelativeView::Weekday(weekday_name(moment.day.weekday()).take(3))
            } else {
                RelativeView::Date(date_text(moment))
            }
        },
        None => RelativeView::Raw(value),
    }
}

/// How a date reads on a day.
pub fn relative_label_for(m: Option<Moment>, value: &str, today: Day) -> (r: RelativeLabel)
    requires
        today.wf(),
        m matches Some(moment) ==> moment.wf(),
    ensures
        r@ == relative_reading(m, value@, today),
{
    match m {
        Some(moment) => {
            let days: i64 = today.days_since(moment.day);
            if days == 0 {
                RelativeLabel::Today(format_moment(moment, "%H:%M"))
            } else if days == 1 {
                RelativeLabel::Yesterday
            } else if 2 <= days && days <= 6 {
                RelativeLabel::Weekday(format_moment(moment, "%a"))
            } else {
                RelativeLabel::Date(format_moment(moment, "%b %d"))
            }
        },
        None => RelativeLabel::Raw(value.to_owned()),
    }
}

/// How a stored timestamp reads next to a row on a day.
pub fn relative_label_on(value: &str, today: Day) -> (r: RelativeLabel)
    requires
        today.wf(),
    ensures
        exists|m: Option<Moment>|
            local_reading(value@, m) && r@ == #[trigger] relative_reading(m, value@, today),
{
    let m = moment_of(value);
    relative_label_for(m, value, today)
}

/// How a stored timestamp reads next to a row today.
pub fn relative_label(value: &str) -> (r: RelativeLabel)
    ensures
        exists|m: Option<Moment>, today: Day|
            local_reading(value@, m) && today.wf() && clock_tells(today) && r@ == #[trigger] relative_reading(
                m,
                value@,
                today,
            ),
{
    let today = local_today();
    relative_label_on(value, today)
}

/// The calendar day a stored timestamp falls on, in local time; rows that
/// share one sit under the same section header. Unreadable dates share
/// `None`.
pub fn day_of(value: &str) -> (r: Option<Day>)
    ensures
        match r {
            Some(day) => exists|m: Moment|
                local_reading(value@, Some(m)) && day == (#[trigger] m.day),
            None => instant_of(value@) is None,
        },
{
    match moment_of(value) {
        Some(m) => {
            assert(local_reading(value@, Some(m)));
            Some(m.day)
        },
        None => None,
    }
}

/// The year of a stored timestamp in local time, if the date can be read.
pub fn year_of(value: &str) -> (r: Option<i32>)
    ensures
        match r {
            Some(year) => exists|m: Moment|
                local_reading(value@, Some(m)) && year == (#[trigger] m.day).year,
            None => instant_of(value@) is None,
        },
{
    match moment_of(value) {
        Some(m) => {
            assert(local_reading(value@, Some(m)));
            Some(m.day.year)
        },
        None => None,
    }
}

/// How a day's section header reads.
#[derive(Clone, Debug, PartialEq, Eq)]
pub enum DayLabel {
    Today,
    Yesterday,
    /// Any other day: "Wednesday", "August", 26, and the year only when it
    /// isn't the current one.
    Date { weekday: String, month: String, day: u32, year: Option<i32> },
    /// A date we can't read, shown verbatim.
    Raw(String),
}

/// What a day's section header says.
pub enum DayView {
    Today,
    Yesterday,
    Date { weekday: Seq<char>, month: Seq<char>, day: u32, year: Option<i32> },
    Raw(Seq<char>),
}

impl View for DayLabel {
    type V = DayView;

    open spec fn view(&self) -> DayView {
        match self {
            DayLabel::Today => DayView::Today,
            DayLabel::Yesterday => DayView::Yesterday,
            DayLabel::Date { weekday, month, day, year } => DayView::Date {
                weekday: weekday@,
                month: month@,
                day: *day,
                year: *year,
            },
            DayLabel::Raw(t) => DayView::Raw(t@),
        }
    }
}

/// How the section header of a date reads on a day.
pub open spec fn day_reading(m: Option<Moment>, value: Seq<char>, today: Day) -> DayView {
    match m {
        Some(moment) => {
            let days = day_number(today) - day_number(moment.day);
            if days == 0 {
                DayView::Today
            } else if days == 1 {
                DayView::Yesterday
            } else {
                DayView::Date {
                    weekday: weekday_name(moment.day.weekday()),
                    month: month_name(moment.day.month as int),
                    day: moment.day.day,
                    year: if moment.day.year != today.year {
                        Some(moment.day.year)
                    } else {
                        None
                    },
                }
            }
        },
        None => DayView::Raw(value),
    }
}

/// Dates that fall on one day read alike in a section header.
pub proof fn one_day_one_header(a: Moment, b: Moment, x: Seq<char>, y: Seq<char>, today: Day)
    requires
        a.day == b.day,
    ensures
        day_reading(Some(a), x, today) == day_reading(Some(b), y, today),
{
}

/// How the section header of a date reads on a day.
pub fn day_label_for(m: Option<Moment>, value: &str, today: Day) -> (r: DayLabel)
    requires
        today.wf(),
        m matches Some(moment) ==> moment.wf(),
    ensures
        r@ == day_reading(m, value@, today),
{
    match m {
        Some(moment) => {
            let days: i64 = today.days_since(moment.day);
            if days == 0 {
                DayLabel::Today
            } else if days == 1 {
                DayLabel::Yesterday
            } else {
                DayLabel::Date {
                    weekday: format_moment(moment, "%A"),
                    month: format_moment(moment, "%B"),
                    day: moment.day.day,
                    year: if moment.day.year != today.year {
                        Some(moment.day.year)
                    } else {
                        None
                    },
                }
            }
        },
        None => DayLabel::Raw(value.to_owned()),
    }
}

/// How the section header of a stored timestamp reads on a day.
pub fn day_label_on(value: &str, today: Day) -> (r: DayLabel)
    requires
        today.wf(),
    ensures
        exists|m: Option<Moment>|
            local_reading(value@, m) && r@ == #[trigger] day_reading(m, value@, today),
{
    let m = moment_of(value);
    day_label_for(m, value, today)
}

/// How the section header of a stored timestamp reads today.
pub fn day_label(value: &str) -> (r: DayLabel)
    ensures
        exists|m: Option<Moment>, today: Day|
            local_reading(value@, m) && today.wf() && clock_tells(today) && r@ == #[trigger] day_reading(
                m,
                value@,
                today,
            ),
{
    let today = local_today();
    day_label_on(value, today)
}

/// The labels go by the calendar: a message shows the time on the day it was sent, is from
/// yesterday on the day after, has the name of its day until the week is full, and the date from
/// then on. Its section header names the day from the second day on, and the year in another year.
pub proof fn labels_go_by_the_calendar(m: Moment, value: Seq<char>, n: nat)
    requires
        m.wf(),
        forall|k: nat| k <= n ==> (#[trigger] days_later(m.day, k)).wf(),
    ensures
        ({
            let today = days_later(m.day, n);
            let label = relative_reading(Some(m), value, today);
            let header = day_reading(Some(m), value, today);
            &&& n == 0 ==> label == RelativeView::Today(
                two_digits(m.hour as nat) + ":"@ + two_digits(m.minute as nat),
            ) && header is Today
            &&& n == 1 ==> label is Yesterday && header is Yesterday
            &&& 2 <= n <= 6 ==> label == RelativeView::Weekday(
                weekday_name(m.day.weekday()).take(3),
            )
            &&& n > 6 ==> label == RelativeView::Date(
                month_name(m.day.month as int).take(3) + " "@ + two_digits(m.day.day as nat),
            )
            &&& n > 1 ==> header == DayView::Date {
                weekday: weekday_name(m.day.weekday()),
                month: month_name(m.day.month as int),
                day: m.day.day,
                year: if today.year == m.day.year {
                    None
                } else {
                    Some(m.day.year)
                },
            }
        }),
{
    days_later_count(m.day, n);
    assert(0 <= n);
}

/// What cannot be read is shown as it stands, and sorts before whatever can be read.
pub proof fn unreadable_dates_are_shown(value: Seq<char>, m: Option<Moment>, today: Day, other: i64)
    requires
        local_reading(value, m),
        instant_of(value) is None,
    ensures
        long_label_text(m, value) == value,
        time_label_text(m, value) == value,
        relative_reading(m, value, today) == RelativeView::Raw(value),
        day_reading(m, value, today) == DayView::Raw(value),
        sort_key_of(instant_of(value)) <= sort_key_of(Some(other)),
{
}

/// The long label of a date ends with its time label.
pub proof fn long_labels_end_with_the_time(value: Seq<char>, m: Moment)
    requires
        local_reading(value, Some(m)),
    ensures
        time_label_text(Some(m), value).is_suffix_of(long_label_text(Some(m), value)),
{
    let long = long_label_text(Some(m), value);
    let time = time_label_text(Some(m), value);
    assert(long.subrange(long.len() - time.len(), long.len() as int) =~= time);
}

proof fn two_digits_read_back(n: nat)
    requires
        n < 100,
    ensures
        text::parse_unsigned(two_digits(n), 99) == Some(n),
        two_digits(n).len() == 2,
        !two_digits(n).contains(':'),
{
    let s = text::decimal(n);
    text::numbers_read_back(n, 99, 0, 0);
    text::digits_have_no(n, '+');
    text::digits_have_no(n, ':');
    if s.len() > 1 && s[0] == '+' {
        assert(s.contains(s[0]));
    }
    reveal_with_fuel(text::decimal, 3);
    if n < 10 {
        let t = two_digits(n);
        assert(s =~= seq![text::digit_char(n)]);
        assert(t =~= seq!['0', text::digit_char(n)]);
        let first = t.drop_last();
        assert(first =~= seq!['0']);
        assert(first.drop_last().len() == 0);
        assert(text::digits_value(first.drop_last()) == 0);
        assert(text::digits_value(first) == 0);
        assert(s.drop_last().len() == 0);
        assert(text::digits_value(s.drop_last()) == 0);
        assert(text::digits_value(t) == text::digits_value(s));
        assert forall|i: int| 0 <= i < t.len() implies text::is_digit(t[i]) by {
            assert(i == 0 || i == 1);
            assert(text::is_digit(s[0]));
        }
        if t.contains(':') {
            let k = choose|k: int| 0 <= k < t.len() && t[k] == ':';
            assert(k == 0 || k == 1);
            assert(s.contains(s[0]));
        }
    }
}

/// The time of day reads back: what stands before its colon is the hour of the day, counted from
/// midnight, and what stands behind it the minute, in two digits each.
pub proof fn clocks_read_back(m: Moment)
    requires
        m.wf(),
    ensures
        clock_text(m).len() == 5,
        ({
            let parts = text::split(clock_text(m), ':');
            &&& parts.len() == 2
            &&& text::parse_unsigned(parts[0], 99) == Some(m.hour as nat)
            &&& text::parse_unsigned(parts[1], 99) == Some(m.minute as nat)
        }),
{
    reveal_strlit(":");
    let a = two_digits(m.hour as nat);
    let b = two_digits(m.minute as nat);
    two_digits_read_back(m.hour as nat);
    two_digits_read_back(m.minute as nat);
    let parts = seq![a, b];
    assert forall|i: int| 0 <= i < parts.len() implies !(#[trigger] parts[i]).contains(':') by {
        assert(i == 0 || i == 1);
    }
    assert(":"@ =~= seq![':']);
    assert(parts.drop_last() =~= seq![a]);
    assert(text::join(parts.drop_last(), seq![':']) == a);
    assert(text::join(parts, seq![':']) == clock_text(m));
    text::joined_pieces_come_apart(parts, ':');
}

/// A short date names its month by three letters that no other month has, and reads back as its day.
pub proof fn short_dates_read_back(m: Moment, other: Moment)
    requires
        m.wf(),
        other.wf(),
    ensures
        date_text(m).len() == 6,
        text::parse_unsigned(date_text(m).skip(4), 99) == Some(m.day.day as nat),
        date_text(m).take(3) == "JanFebMarAprMayJunJulAugSepOctNovDec"@.subrange(
            3 * (m.day.month - 1),
            3 * (m.day.month as int),
        ),
        date_text(m) == date_text(other) ==> m.day.day == other.day.day,
{
    reveal_strlit(" ");
    let d = two_digits(m.day.day as nat);
    two_digits_read_back(m.day.day as nat);
    two_digits_read_back(other.day.day as nat);
    months_are_short(m.day.month as int);
    months_are_short(other.day.month as int);
    assert(date_text(m).skip(4) =~= d);
    assert(date_text(other).skip(4) =~= two_digits(other.day.day as nat));
    assert(date_text(m).take(3) =~= month_name(m.day.month as int).take(3));
}

proof fn months_are_short(month: int)
    requires
        1 <= month <= 12,
    ensures
        month_name(month).len() >= 3,
        month_name(month).take(3) == "JanFebMarAprMayJunJulAugSepOctNovDec"@.subrange(
            3 * (month - 1),
            3 * month,
        ),
{
    reveal_strlit("JanFebMarAprMayJunJulAugSepOctNovDec");
    reveal_strlit("January");
    reveal_strlit("February");
    reveal_strlit("March");
    reveal_strlit("April");
    reveal_strlit("May");
    reveal_strlit("June");
    reveal_strlit("July");
    reveal_strlit("August");
    reveal_strlit("September");
    reveal_strlit("October");
    reveal_strlit("November");
    reveal_strlit("December");
    let all = "JanFebMarAprMayJunJulAugSepOctNovDec"@;
    if month == 1 {
        assert("January"@.take(3) =~= all.subrange(0, 3));
    } else if month == 2 {
        assert("February"@.take(3) =~= all.subrange(3, 6));
    } else if month == 3 {
        assert("March"@.take(3) =~= all.subrange(6, 9));
    } else if month == 4 {
        assert("April"@.take(3) =~= all.subrange(9, 12));
    } else if month == 5 {
        assert("May"@.take(3) =~= all.subrange(12, 15));
    } else if month == 6 {
        assert("June"@.take(3) =~= all.subrange(15, 18));
    } else if month == 7 {
        assert("July"@.take(3) =~= all.subrange(18, 21));
    } else if month == 8 {
        assert("August"@.take(3) =~= all.subrange(21, 24));
    } else if month == 9 {
        assert("September"@.take(3) =~= all.subrange(24, 27));
    } else if month == 10 {
        assert("October"@.take(3) =~= all.subrange(27, 30));
    } else if month == 11 {
        assert("November"@.take(3) =~= all.subrange(30, 33));
    } else {
        assert("December"@.take(3) =~= all.subrange(33, 36));
    }
}

/// The days of a week are named from Monday on, each by letters that start its name alone.
pub proof fn weekdays_are_named(day: Day)
    ensures
        weekday_name(day.weekday()).len() >= 6,
        weekday_name(day.weekday()).take(3) == "MonTueWedThuFriSatSun"@.subrange(
            3 * day.weekday(),
            3 * day.weekday() + 3,
        ),
{
    reveal_strlit("MonTueWedThuFriSatSun");
    reveal_strlit("Monday");
    reveal_strlit("Tuesday");
    reveal_strlit("Wednesday");
    reveal_strlit("Thursday");
    reveal_strlit("Friday");
    reveal_strlit("Saturday");
    reveal_strlit("Sunday");
    let all = "MonTueWedThuFriSatSun"@;
    let w = day.weekday();
    assert(0 <= w < 7);
    if w == 0 {
        assert("Monday"@.take(3) =~= all.subrange(0, 3));
    } else if w == 1 {
        assert("Tuesday"@.take(3) =~= all.subrange(3, 6));
    } else if w == 2 {
        assert("Wednesday"@.take(3) =~= all.subrange(6, 9));
    } else if w == 3 {
        assert("Thursday"@.take(3) =~= all.subrange(9, 12));
    } else if w == 4 {
        assert("Friday"@.take(3) =~= all.subrange(12, 15));
    } else if w == 5 {
        assert("Saturday"@.take(3) =~= all.subrange(15, 18));
    } else {
        assert("Sunday"@.take(3) =~= all.subrange(18, 21));
    }
}

/// The long label of a date starts with its short date, names the year behind it, and ends with the
/// time of day.
pub proof fn long_labels_tell_everything(m: Moment, value: Seq<char>)
    requires
        m.wf(),
        1000 <= m.day.year <= 9999,
    ensures
        ({
            let long = long_label_text(Some(m), value);
            &&& long.len() == 18
            &&& long.take(6) == date_text(m)
            &&& text::parse_unsigned(long.subrange(8, 12), 9999) == Some(m.day.year as nat)
            &&& long.skip(13) == clock_text(m)
        }),
{
    reveal_strlit(", ");
    reveal_strlit(" ");
    let long = long_label_text(Some(m), value);
    short_dates_read_back(m, m);
    clocks_read_back(m);
    let year = text::decimal(m.day.year as nat);
    text::numbers_read_back(m.day.year as nat, 9999, 0, 0);
    reveal_with_fuel(text::decimal, 5);
    assert(year.len() == 4);
    assert(long.take(6) =~= date_text(m));
    assert(long.subrange(8, 12) =~= year);
    assert(long.skip(13) =~= clock_text(m));
}

} // verus!
