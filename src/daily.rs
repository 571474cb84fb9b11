//! Which day a daily note is asked for, and where it may be.

use vstd::prelude::*;

use chrono::Datelike;

use crate::commands::views_of_strings;
use crate::datetime::{
    add_days, days_later, format_date_time, now_local, strftime_text, sub_days, LocalDateTime,
};
use crate::text::{chars_eq, chars_of, extend_chars, string_of};

verus! {

/// The date that chrono reads from a `YYYY-MM-DD` text, at midnight.
pub uninterp spec fn iso_date(text: Seq<char>) -> Option<LocalDateTime>;

/// Relies on `chrono::NaiveDate::parse_from_str` with `%Y-%m-%d`: a valid
/// calendar date, or `None`.
#[verifier::external_body]
fn parse_iso_date(text: &str) -> (r: Option<LocalDateTime>)
    ensures
        r == iso_date(text@),
        r is Some ==> r->0.wf(),
{
    chrono::NaiveDate::parse_from_str(text, "%Y-%m-%d").ok().map(
        |d| LocalDateTime { year: d.year(), month: d.month(), day: d.day(), hour: 0, minute: 0, second: 0 },
    )
}

/// The day that a daily-note request names, `today` being the current
/// date: `today` (also when nothing is named), `yesterday`, `tomorrow`, or
/// a `YYYY-MM-DD` date.
pub open spec fn requested_day(request: Option<Seq<char>>, today: LocalDateTime) -> Option<
    LocalDateTime,
> {
    match request {
        None => Some(today),
        Some(r) => if r == "today"@ {
            Some(today)
        } else if r == "yesterday"@ {
            days_later(today, -1)
        } else if r == "tomorrow"@ {
            days_later(today, 1)
        } else {
            iso_date(r)
        },
    }
}

/// The text of an optional request.
pub open spec fn text_of(request: Option<&str>) -> Option<Seq<char>> {
    match request {
        Some(s) => Some(s@),
        None => None,
    }
}

/// The day that a daily-note request names, `today` being the current
/// date; `None` when it names none.
pub fn parse_date_at(request: Option<&str>, today: LocalDateTime) -> (r: Option<LocalDateTime>)
    requires
        today.wf(),
    ensures
        r == requested_day(
            match request {
                Some(s) => Some(s@),
                None => None,
            },
            today,
        ),
        r is Some ==> r->0.wf(),
{
    let text = match request {
        Some(s) => s,
        None => {
            return Some(today);
        },
    };
    let v = chars_of(text);
    if chars_eq(&v, &chars_of("today")) {
        Some(today)
    } else if chars_eq(&v, &chars_of("yesterday")) {
        sub_days(today, 1)
    } else if chars_eq(&v, &chars_of("tomorrow")) {
        add_days(today, 1)
    } else {
        parse_iso_date(text)
    }
}

/// The day that a daily-note request names, counted from the current local
/// date; `None` when it names none.
pub fn parse_date(request: Option<&str>) -> (r: Option<LocalDateTime>)
    ensures
        exists|today: LocalDateTime|
            today.wf() && r == #[trigger] requested_day(text_of(request), today),
        r is Some ==> r->0.wf(),
{
    let today = now_local();
    let r = parse_date_at(request, today);
    assert(today.wf() && r == requested_day(text_of(request), today));
    r
}

/// Where a daily note whose date reads `d` may be, in the order looked at.
pub open spec fn candidates_for(d: Seq<char>) -> Seq<Seq<char>> {
    let file = d + ".md"@;
    seq![file, "daily/"@ + file, "Daily Notes/"@ + file, "daily/"@ + file]
}

/// The paths, relative to the vault, where the daily note of `date` may
/// be; none when chrono cannot write the date.
pub fn daily_note_candidates(date: LocalDateTime) -> (r: Vec<String>)
    requires
        date.wf(),
    ensures
        match strftime_text(date, "%Y-%m-%d"@) {
            Some(d) => views_of_strings(r@) == candidates_for(d),
            None => r@.len() == 0,
        },
{
    let d = match format_date_time(date, "%Y-%m-%d") {
        Some(d) => chars_of(d.as_str()),
        None => {
            return Vec::new();
        },
    };
    let mut file = d;
    extend_chars(&mut file, &chars_of(".md"));
    let mut daily = chars_of("daily/");
    extend_chars(&mut daily, &file);
    let mut named = chars_of("Daily Notes/");
    extend_chars(&mut named, &file);
    let r = vec![string_of(&file), string_of(&daily), string_of(&named), string_of(&daily)];
    assert(views_of_strings(r@) =~= candidates_for(d@));
    r
}

} // verus!
