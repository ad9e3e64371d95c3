//! Daily-note and memo-plugin settings, and the expansion of a note's date
//! template into the note's name.
use vstd::prelude::*;
use vstd::string::*;

use chrono::Datelike;

use crate::path::{join, join_path};
use crate::text::{
    chars_of, contains, contains_chars, replace_all, replace_chars, string_of, two_digits,
    zero_pad, decimal, push_padded, push_two_digits,
};

verus! {

/// The settings of the daily-notes plugin.
#[derive(Debug)]
pub struct DailyNotesSettings {
    /// The folder of the daily notes, relative to the vault; empty for the
    /// vault's root.
    pub folder: String,
    /// The date template that names a note, such as `YYYY-MM-DD`.
    pub format: String,
}

/// The template `YYYY-MM-DD`.
pub open spec fn default_format_text() -> Seq<char> {
    seq!['Y', 'Y', 'Y', 'Y', '-', 'M', 'M', '-', 'D', 'D']
}

/// The date template used when none is configured: `YYYY-MM-DD`.
pub fn default_format() -> (r: String)
    ensures
        r@ == default_format_text(),
{
    let r = String::from_str("YYYY-MM-DD");
    proof {
        reveal_strlit("YYYY-MM-DD");
    }
    r
}

impl Default for DailyNotesSettings {
    fn default() -> (r: Self)
        ensures
            r.folder@ == Seq::<char>::empty(),
            r.format@ == default_format_text(),
    {
        DailyNotesSettings { folder: String::new(), format: default_format() }
    }
}

/// The settings of the memo plugin.
#[derive(Debug)]
pub struct ThinoSettings {
    /// The heading under which memos go, such as `# Memos`; empty to add them
    /// at the end of the note.
    pub insert_after: String,
}

impl Default for ThinoSettings {
    fn default() -> (r: Self)
        ensures
            r.insert_after@ == Seq::<char>::empty(),
    {
        ThinoSettings { insert_after: String::new() }
    }
}

/// Where the daily-notes plugin keeps its settings:
/// `<vault>/.obsidian/daily-notes.json`.
pub fn daily_notes_settings_path(vault_path: &str) -> (r: String)
    ensures
        r@ == join_path(join_path(vault_path@, ".obsidian"@), "daily-notes.json"@),
{
    let dir = join(vault_path, ".obsidian");
    join(dir.as_str(), "daily-notes.json")
}

/// Where the memo plugin keeps its settings:
/// `<vault>/.obsidian/plugins/obsidian-memos/data.json`.
pub fn thino_settings_path(vault_path: &str) -> (r: String)
    ensures
        r@ == join_path(
            join_path(join_path(join_path(vault_path@, ".obsidian"@), "plugins"@), "obsidian-memos"@),
            "data.json"@,
        ),
{
    let dir = join(vault_path, ".obsidian");
    let plugins = join(dir.as_str(), "plugins");
    let plugin = join(plugins.as_str(), "obsidian-memos");
    join(plugin.as_str(), "data.json")
}

/// The smallest year that a calendar date may have.
pub const MIN_YEAR: i32 = -262143;

/// The largest year that a calendar date may have.
pub const MAX_YEAR: i32 = 262142;

/// A day of the proleptic Gregorian calendar.
#[derive(Clone, Copy, Debug, PartialEq, Eq, Structural)]
pub struct CalendarDate {
    pub year: i32,
    /// 1 to 12.
    pub month: u32,
    /// 1 to the length of the month.
    pub day: u32,
}

/// Leap years of the Gregorian calendar.
pub open spec fn is_leap_year(year: int) -> bool {
    year % 4 == 0 && (year % 100 != 0 || year % 400 == 0)
}

/// The number of days of `month` (1 to 12) in `year`.
pub open spec fn days_in_month(year: int, month: int) -> int {
    if month == 2 {
        if is_leap_year(year) {
            29
        } else {
            28
        }
    } else if month == 4 || month == 6 || month == 9 || month == 11 {
        30
    } else {
        31
    }
}

impl CalendarDate {
    /// The date is a real day of the calendar, within the supported years.
    pub open spec fn wf(self) -> bool {
        &&& MIN_YEAR <= self.year <= MAX_YEAR
        &&& 1 <= self.month <= 12
        &&& 1 <= self.day <= days_in_month(self.year as int, self.month as int)
    }

    /// The date with the given year, month and day, if there is such a day.
    pub fn from_ymd_opt(year: i32, month: u32, day: u32) -> (r: Option<CalendarDate>)
        ensures
            r matches Some(d) ==> d.wf() && d.year == year && d.month == month && d.day == day,
            r is None ==> !(CalendarDate { year, month, day }).wf(),
    {
        if year < MIN_YEAR || year > MAX_YEAR || month < 1 || month > 12 || day < 1 {
            return None;
        }
        let leap = year % 4 == 0 && (year % 100 != 0 || year % 400 == 0);
        let last: u32 = if month == 2 {
            if leap {
                29
            } else {
                28
            }
        } else if month == 4 || month == 6 || month == 9 || month == 11 {
            30
        } else {
            31
        };
        if day > last {
            None
        } else {
            Some(CalendarDate { year, month, day })
        }
    }
}

/// Relies on `SystemTime::now`, chrono's `DateTime::from_timestamp`,
/// `with_timezone(&Local)` and `Datelike`: today's date in the local time
/// zone, a valid date of chrono's calendar.  `None` when the clock reads before
/// the Unix epoch or past chrono's range, where `Local::now` would panic.
/// chrono's lookup of the local offset itself unwraps, and panics on time-zone
/// data that it cannot use; its API offers no way around that.
#[verifier::external_body]
pub(crate) fn local_today() -> (r: Option<CalendarDate>)
    ensures
        r matches Some(d) ==> d.wf(),
{
    let since = std::time::SystemTime::now().duration_since(std::time::UNIX_EPOCH).ok()?;
    let secs = i64::try_from(since.as_secs()).ok()?;
    let utc = chrono::DateTime::<chrono::Utc>::from_timestamp(secs, since.subsec_nanos())?;
    let d = utc.with_timezone(&chrono::Local).date_naive();
    Some(CalendarDate { year: d.year(), month: d.month(), day: d.day() })
}

/// A year as four digits, with a sign before years outside 0 to 9999.
pub open spec fn year_text(year: int) -> Seq<char> {
    if 0 <= year <= 9999 {
        zero_pad(decimal(year as nat), 4)
    } else if year < 0 {
        seq!['-'] + zero_pad(decimal((-year) as nat), 4)
    } else {
        seq!['+'] + zero_pad(decimal(year as nat), 4)
    }
}

/// `YYYY`, the year in a date template.
pub open spec fn year_token() -> Seq<char> {
    seq!['Y', 'Y', 'Y', 'Y']
}

/// `MM`, the month in a date template.
pub open spec fn month_token() -> Seq<char> {
    seq!['M', 'M']
}

/// `DD`, the day in a date template.
pub open spec fn day_token() -> Seq<char> {
    seq!['D', 'D']
}

/// The tokens of a date template that are not supported: weekday names,
/// month names, week numbers, ordinals and quarters.
pub open spec fn unsupported_tokens() -> Seq<Seq<char>> {
    seq![
        seq!['d', 'd', 'd', 'd'],
        seq!['d', 'd', 'd'],
        seq!['M', 'M', 'M', 'M'],
        seq!['M', 'M', 'M'],
        seq!['w', 'o'],
        seq!['w', 'w'],
        seq!['W', 'W'],
        seq!['D', 'o'],
        seq!['M', 'o'],
        seq!['Q', 'o'],
        seq!['Q'],
        seq!['W'],
        seq!['w'],
    ]
}

/// Whether the template `f` holds a token that is not supported.
pub open spec fn has_unsupported(f: Seq<char>) -> bool {
    exists|k: int| 0 <= k < unsupported_tokens().len() && contains(f, #[trigger] unsupported_tokens()[k])
}

/// `d` in the layout `YYYY-MM-DD`.
pub open spec fn canonical_date(d: CalendarDate) -> Seq<char> {
    year_text(d.year as int) + seq!['-'] + two_digits(d.month as nat) + seq!['-'] + two_digits(
        d.day as nat,
    )
}

/// The template `f` with `YYYY`, then `MM`, then `DD` replaced by the year,
/// the month and the day of `d`; the canonical layout when `f` holds a token
/// that is not supported.
pub open spec fn date_text(f: Seq<char>, d: CalendarDate) -> Seq<char> {
    if has_unsupported(f) {
        canonical_date(d)
    } else {
        replace_all(
            replace_all(replace_all(f, year_token(), year_text(d.year as int)), month_token(),
            two_digits(d.month as nat)),
            day_token(),
            two_digits(d.day as nat),
        )
    }
}

/// Whether the template `format` holds a token that is not supported
/// (`dddd`, `ddd`, `MMMM`, `MMM`, `wo`, `ww`, `WW`, `Do`, `Mo`, `Qo`, `Q`,
/// `W`, `w`).
pub fn has_unsupported_pattern(format: &str) -> (r: bool)
    ensures
        r == has_unsupported(format@),
{
    let f = chars_of(format);
    let tokens: Vec<Vec<char>> = vec![
        vec!['d', 'd', 'd', 'd'],
        vec!['d', 'd', 'd'],
        vec!['M', 'M', 'M', 'M'],
        vec!['M', 'M', 'M'],
        vec!['w', 'o'],
        vec!['w', 'w'],
        vec!['W', 'W'],
        vec!['D', 'o'],
        vec!['M', 'o'],
        vec!['Q', 'o'],
        vec!['Q'],
        vec!['W'],
        vec!['w'],
    ];
    assert(tokens@.len() == unsupported_tokens().len());
    assert(forall|k: int| 0 <= k < tokens@.len() ==> #[trigger] tokens@[k]@ == unsupported_tokens()[k]);
    let mut k: usize = 0;
    while k < tokens.len()
        invariant
            k <= tokens@.len(),
            tokens@.len() == unsupported_tokens().len(),
            forall|j: int| 0 <= j < tokens@.len() ==> #[trigger] tokens@[j]@ == unsupported_tokens()[j],
            forall|j: int| 0 <= j < k ==> !contains(f@, #[trigger] unsupported_tokens()[j]),
            f@ == format@,
        decreases tokens@.len() - k,
    {
        if contains_chars(&f, &tokens[k]) {
            return true;
        }
        k = k + 1;
    }
    false
}

/// Appends the year as chrono's `%Y` writes it.
fn push_year(s: &mut String, year: i32)
    requires
        MIN_YEAR <= year <= MAX_YEAR,
    ensures
        final(s)@ == old(s)@ + year_text(year as int),
{
    if 0 <= year && year <= 9999 {
        push_padded(s, year as u32, 4);
    } else if year < 0 {
        s.push('-');
        push_padded(s, (-year) as u32, 4);
        assert(s@ =~= old(s)@ + year_text(year as int));
    } else {
        s.push('+');
        push_padded(s, year as u32, 4);
        assert(s@ =~= old(s)@ + year_text(year as int));
    }
}

/// The name of the note for `date` under the template `format`: `YYYY`, `MM`
/// and `DD` become the zero-padded year, month and day, and all other text
/// stays.  A template with a token that is not supported gives the
/// `YYYY-MM-DD` layout instead, never a partly expanded template.
pub fn format_date(format: &str, date: CalendarDate) -> (r: String)
    requires
        date.wf(),
    ensures
        r@ == date_text(format@, date),
{
    let mut year = String::new();
    push_year(&mut year, date.year);
    let mut month = String::new();
    push_two_digits(&mut month, date.month);
    let mut day = String::new();
    push_two_digits(&mut day, date.day);
    if has_unsupported_pattern(format) {
        let mut out = year;
        out.push('-');
        out.append(month.as_str());
        out.push('-');
        out.append(day.as_str());
        assert(out@ =~= canonical_date(date));
        return out;
    }
    let f = chars_of(format);
    let step1 = replace_chars(&f, &vec!['Y', 'Y', 'Y', 'Y'], &chars_of(year.as_str()));
    let step2 = replace_chars(&step1, &vec!['M', 'M'], &chars_of(month.as_str()));
    let step3 = replace_chars(&step2, &vec!['D', 'D'], &chars_of(day.as_str()));
    string_of(&step3)
}

} // verus!
