//! Where a memo goes in a daily note, and how it is spliced in.
//!
//! Notes are read as characters; lines end at `'\n'` (a `'\r'` before it is
//! whitespace that trimming removes).  The text of a memo is taken verbatim:
//! a line break inside it is not rejected or changed, and then makes the
//! entry span several lines.
use vstd::prelude::*;
use vstd::string::*;
use vstd::utf8::encode_utf8;

use chrono::Timelike;

use crate::config::{describes, ConfigError};
use crate::obsidian::{date_text, format_date, local_today, CalendarDate, DailyNotesSettings};
use crate::path::{join, join_path};
use crate::text::{
    chars_of, hash_count, is_space, leading_hashes, push_two_digits, replace_all, replace_chars,
    same_chars, string_of, trim, trim_bounds, trim_end, trim_start, two_digits,
};

verus! {

/// What can go wrong while adding a memo.
#[derive(Debug)]
pub enum MemoError {
    /// The configuration could not be loaded.
    ConfigError(ConfigError),
    /// Creating, reading or writing a file failed.
    Io(std::io::Error),
    /// The note at this path could not be written back.
    WriteFailed(String),
}

impl MemoError {
    /// The message that describes the error.
    pub fn message(&self) -> (r: String)
        ensures
            self matches MemoError::ConfigError(e) ==> describes(*e, r@),
            self is Io ==> to_string_from_display_ensures::<std::io::Error>(&self->Io_0, r),
            self matches MemoError::WriteFailed(p) ==> r@ == "failed to write: "@ + p@,
    {
        match self {
            MemoError::ConfigError(err) => err.message(),
            MemoError::Io(err) => err.to_string(),
            MemoError::WriteFailed(p) => String::from_str("failed to write: ").concat(p.as_str()),
        }
    }
}

impl From<ConfigError> for MemoError {
    fn from(err: ConfigError) -> (r: MemoError) {
        MemoError::ConfigError(err)
    }
}

impl vstd::std_specs::convert::FromSpecImpl<ConfigError> for MemoError {
    open spec fn obeys_from_spec() -> bool {
        true
    }

    open spec fn from_spec(err: ConfigError) -> MemoError {
        MemoError::ConfigError(err)
    }
}

impl From<std::io::Error> for MemoError {
    fn from(err: std::io::Error) -> (r: MemoError) {
        MemoError::Io(err)
    }
}

impl vstd::std_specs::convert::FromSpecImpl<std::io::Error> for MemoError {
    open spec fn obeys_from_spec() -> bool {
        true
    }

    open spec fn from_spec(err: std::io::Error) -> MemoError {
        MemoError::Io(err)
    }
}

/// The index of the first `'\n'` at or after `i`, or the length of `s`.
pub open spec fn line_end(s: Seq<char>, i: int) -> int
    decreases s.len() - i,
{
    if i < 0 || i >= s.len() || s[i] == '\n' {
        i
    } else {
        line_end(s, i + 1)
    }
}

/// `line_end` lies between `i` and the length, at a `'\n'` when below the
/// length, with no `'\n'` before it from `i` on.
pub proof fn lemma_line_end(s: Seq<char>, i: int)
    requires
        0 <= i <= s.len(),
    ensures
        i <= line_end(s, i) <= s.len(),
        line_end(s, i) < s.len() ==> s[line_end(s, i)] == '\n',
        forall|k: int| i <= k < line_end(s, i) ==> s[k] != '\n',
    decreases s.len() - i,
{
    if i < s.len() && s[i] != '\n' {
        lemma_line_end(s, i + 1);
    }
}

/// A trimmed line that ends the anchor's section: a heading of level at most `level`.
pub open spec fn is_stop(t: Seq<char>, level: nat) -> bool {
    1 <= hash_count(t) <= level
}

/// Walks the lines of `s` from the line that starts at `i`.  Before the anchor
/// `a` has been seen (`found` false) a line whose trimmed text is `a` marks it;
/// after that the first heading of level at most `level` gives the result, its
/// starting index.  Without such a heading the result is the length of `s`.
pub open spec fn scan_lines(s: Seq<char>, a: Seq<char>, level: nat, i: int, found: bool) -> int
    decreases s.len() - i,
    when 0 <= i <= s.len()
{
    let e = line_end(s, i);
    let t = trim(s.subrange(i, e));
    if found && is_stop(t, level) {
        i
    } else if e >= s.len() {
        s.len() as int
    } else {
        proof {
            lemma_line_end(s, i);
        }
        scan_lines(s, a, level, e + 1, found || t == a)
    }
}

/// The character index where an entry goes in `doc` under the heading `anchor`:
/// the end of the anchor's section, or the end of `doc` when the trimmed anchor
/// is empty or no line of `doc` matches it.
pub open spec fn insert_index(doc: Seq<char>, anchor: Seq<char>) -> int {
    let a = trim(anchor);
    if a.len() == 0 {
        doc.len() as int
    } else {
        scan_lines(doc, a, hash_count(a), 0, false)
    }
}

/// The number of bytes that `s` takes in UTF-8.
pub open spec fn utf8_len(s: Seq<char>) -> nat {
    encode_utf8(s).len()
}

/// The UTF-8 encoding of two texts one after the other is the two encodings
/// one after the other.
pub proof fn lemma_encode_utf8_concat(a: Seq<char>, b: Seq<char>)
    ensures
        encode_utf8(a + b) == encode_utf8(a) + encode_utf8(b),
    decreases a.len(),
{
    if a.len() == 0 {
        assert(a + b =~= b);
        assert(encode_utf8(a) + encode_utf8(b) =~= encode_utf8(b));
    } else {
        assert((a + b).drop_first() =~= a.drop_first() + b);
        lemma_encode_utf8_concat(a.drop_first(), b);
        assert(encode_utf8(a + b) =~= encode_utf8(a) + encode_utf8(b));
    }
}

fn next_newline(v: &Vec<char>, i: usize) -> (e: usize)
    requires
        i <= v@.len(),
    ensures
        e == line_end(v@, i as int),
{
    let mut k: usize = i;
    while k < v.len() && v[k] != '\n'
        invariant
            i <= k <= v@.len(),
            line_end(v@, i as int) == line_end(v@, k as int),
        decreases v@.len() - k,
    {
        k = k + 1;
    }
    k
}

/// The character index where an entry goes in `doc` (see `insert_index`).
pub fn insert_index_of(doc: &Vec<char>, anchor: &str) -> (k: usize)
    ensures
        k == insert_index(doc@, anchor@),
        k <= doc@.len(),
{
    let a = chars_of(anchor);
    let (alo, ahi) = trim_bounds(&a, 0, a.len());
    assert(a@.subrange(0, a@.len() as int) =~= a@);
    let ghost ta = trim(anchor@);
    if alo == ahi {
        return doc.len();
    }
    let level = leading_hashes(&a, alo, ahi);
    let n = doc.len();
    let mut i: usize = 0;
    let mut found = false;
    loop
        invariant
            n == doc@.len(),
            i <= n,
            ta == a@.subrange(alo as int, ahi as int),
            ta.len() > 0,
            level == hash_count(ta),
            alo <= ahi <= a@.len(),
            insert_index(doc@, anchor@) == scan_lines(doc@, ta, level as nat, i as int, found),
        decreases n - i,
    {
        let e = next_newline(doc, i);
        proof {
            lemma_line_end(doc@, i as int);
        }
        let (lo, hi) = trim_bounds(doc, i, e);
        if found {
            let h = leading_hashes(doc, lo, hi);
            if 1 <= h && h <= level {
                return i;
            }
        } else if same_chars(doc, lo, hi, &a, alo, ahi) {
            found = true;
        }
        if e >= n {
            return n;
        }
        i = e + 1;
    }
}

/// The byte offset where an entry goes in `content` under the heading
/// `insert_after`: the end of that heading's section, which takes in its deeper
/// sub-headings and stops before the next heading of the same or a higher
/// level.  Without an anchor, or when no line matches it, the end of `content`.
/// The offset falls between characters: the bytes before it are those of the
/// characters before the insertion point.
pub fn find_insert_position(content: &str, insert_after: &str) -> (r: usize)
    ensures
        r == utf8_len(content@.subrange(0, insert_index(content@, insert_after@))),
        content.spec_bytes().subrange(0, r as int) == encode_utf8(
            content@.subrange(0, insert_index(content@, insert_after@)),
        ),
        0 <= insert_index(content@, insert_after@) <= content@.len(),
        r <= content.len(),
        insert_after@.len() == 0 ==> r == content.len(),
{
    let total = content.as_bytes().len();
    let doc = chars_of(content);
    let k = insert_index_of(&doc, insert_after);
    let ghost prefix = content@.subrange(0, k as int);
    let ghost suffix = content@.subrange(k as int, content@.len() as int);
    proof {
        assert(content@ =~= prefix + suffix);
        lemma_encode_utf8_concat(prefix, suffix);
        assert(content.spec_bytes().subrange(0, utf8_len(prefix) as int) =~= encode_utf8(prefix));
    }
    let before = content.substring_char(0, k);
    before.len()
}

/// The text `s` followed by `.md`.
pub open spec fn with_md(s: Seq<char>) -> Seq<char> {
    s + seq!['.', 'm', 'd']
}

/// The path of the note named `date` in `folder` under `root`; an empty
/// `folder` puts the note in `root` itself.
pub open spec fn note_path(root: Seq<char>, folder: Seq<char>, date: Seq<char>) -> Seq<char> {
    if folder.len() == 0 {
        join_path(root, with_md(date))
    } else {
        join_path(join_path(root, folder), with_md(date))
    }
}

/// The path of the daily note named `date_str` (`<vault>/<folder>/<date>.md`).
pub fn daily_note_path(vault_path: &str, folder: &str, date_str: &str) -> (r: String)
    ensures
        r@ == note_path(vault_path@, folder@, date_str@),
{
    let mut name = String::from_str(date_str);
    name.push('.');
    name.push('m');
    name.push('d');
    assert(name@ =~= with_md(date_str@));
    if folder.is_empty() {
        join(vault_path, name.as_str())
    } else {
        let dir = join(vault_path, folder);
        join(dir.as_str(), name.as_str())
    }
}

/// The path of the daily note of `date` in the vault at `vault_path`.
pub fn note_path_for_date(vault_path: &str, settings: &DailyNotesSettings, date: CalendarDate) -> (r:
    String)
    requires
        date.wf(),
    ensures
        r@ == note_path(vault_path@, settings.folder@, date_text(settings.format@, date)),
{
    let name = format_date(settings.format.as_str(), date);
    daily_note_path(vault_path, settings.folder.as_str(), name.as_str())
}

/// The path of today's daily note in the vault at `vault_path`, for the date
/// of the local time zone; `None` when the clock gives no date.
pub fn todays_note_path(vault_path: &str, settings: &DailyNotesSettings) -> (r: Option<String>)
    ensures
        r matches Some(p) ==> exists|d: CalendarDate|
            d.wf() && p@ == note_path(vault_path@, settings.folder@, date_text(settings.format@, d)),
{
    match local_today() {
        Some(today) => Some(note_path_for_date(vault_path, settings, today)),
        None => None,
    }
}

/// What a new note holds: the heading followed by a line break, or nothing
/// when there is no heading.
pub open spec fn new_note_text(header: Seq<char>) -> Seq<char> {
    if header.len() == 0 {
        Seq::empty()
    } else {
        header.push('\n')
    }
}

/// The content that a note created for memos starts with.
pub fn new_note_content(insert_after: &str) -> (r: String)
    ensures
        r@ == new_note_text(insert_after@),
{
    let mut r = String::from_str(insert_after);
    if !insert_after.is_empty() {
        r.push('\n');
    }
    r
}

/// `doc` with `line` inserted at index `k`: a line break goes before it when
/// the text before `k` is not empty and does not end in one, and a line break
/// always follows it.  The text before and after `k` is kept as it is.
pub open spec fn splice_line(doc: Seq<char>, k: int, line: Seq<char>) -> Seq<char> {
    let before = doc.subrange(0, k);
    let after = doc.subrange(k, doc.len() as int);
    before + break_after(before) + line + seq!['\n'] + after
}

/// A line break when `before` is not empty and does not end in one; else nothing.
pub open spec fn break_after(before: Seq<char>) -> Seq<char> {
    if before.len() > 0 && before.last() != '\n' {
        seq!['\n']
    } else {
        Seq::empty()
    }
}

/// `doc` with the entry `line` added at the end of the section of `anchor`.
pub open spec fn with_entry(doc: Seq<char>, anchor: Seq<char>, line: Seq<char>) -> Seq<char> {
    splice_line(doc, insert_index(doc, anchor), line)
}

/// The note `existing` with `memo_line` added at the end of the section
/// headed `insert_after` (see `find_insert_position`), all other text kept.
pub fn insert_memo(existing: &str, insert_after: &str, memo_line: &str) -> (r: String)
    ensures
        0 <= insert_index(existing@, insert_after@) <= existing@.len(),
        r@ == with_entry(existing@, insert_after@, memo_line@),
{
    let doc = chars_of(existing);
    let k = insert_index_of(&doc, insert_after);
    let n = doc.len();
    let before = existing.substring_char(0, k);
    let after = existing.substring_char(k, n);
    let mut r = String::from_str(before);
    if k > 0 && doc[k - 1] != '\n' {
        r.push('\n');
    }
    r.append(memo_line);
    r.push('\n');
    r.append(after);
    assert(r@ =~= with_entry(existing@, insert_after@, memo_line@));
    r
}

/// The entry line `- HH:MM text`.
pub open spec fn memo_line(hour: nat, minute: nat, text: Seq<char>) -> Seq<char> {
    seq!['-', ' '] + two_digits(hour) + seq![':'] + two_digits(minute) + seq![' '] + text
}

/// The entry line for `content` at the given time of day.
pub fn memo_line_at(hour: u32, minute: u32, content: &str) -> (r: String)
    requires
        hour < 24,
        minute < 60,
    ensures
        r@ == memo_line(hour as nat, minute as nat, content@),
{
    let mut r = String::new();
    r.push('-');
    r.push(' ');
    push_two_digits(&mut r, hour);
    r.push(':');
    push_two_digits(&mut r, minute);
    r.push(' ');
    r.append(content);
    assert(r@ =~= memo_line(hour as nat, minute as nat, content@));
    r
}

/// Relies on `SystemTime::now`, chrono's `DateTime::from_timestamp`,
/// `with_timezone(&Local)` and `Timelike`: the hour (0 to 23) and the minute
/// (0 to 59) of the local time.  `None` when the clock reads before the Unix
/// epoch or past chrono's range, where `Local::now` would panic.  chrono's
/// lookup of the local offset itself unwraps, and panics on time-zone data
/// that it cannot use; its API offers no way around that.
#[verifier::external_body]
fn local_hour_minute() -> (r: Option<(u32, u32)>)
    ensures
        r matches Some(t) ==> t.0 < 24 && t.1 < 60,
{
    let since = std::time::SystemTime::now().duration_since(std::time::UNIX_EPOCH).ok()?;
    let secs = i64::try_from(since.as_secs()).ok()?;
    let utc = chrono::DateTime::<chrono::Utc>::from_timestamp(secs, since.subsec_nanos())?;
    let now = utc.with_timezone(&chrono::Local);
    Some((now.hour(), now.minute()))
}

/// The entry line for `content` at the current local time; `None` when the
/// clock gives no time.
pub fn format_memo_line(content: &str) -> (r: Option<String>)
    ensures
        r matches Some(line) ==> exists|h: nat, m: nat|
            h < 24 && m < 60 && line@ == memo_line(h, m, content@),
{
    match local_hour_minute() {
        Some((hour, minute)) => Some(memo_line_at(hour, minute, content)),
        None => None,
    }
}

/// `YYYY`, `MM` and `DD` of a date template as strftime's `%Y`, `%m`, `%d`.
pub open spec fn strftime_text(f: Seq<char>) -> Seq<char> {
    replace_all(
        replace_all(
            replace_all(f, seq!['Y', 'Y', 'Y', 'Y'], seq!['%', 'Y']),
            seq!['M', 'M'],
            seq!['%', 'm'],
        ),
        seq!['D', 'D'],
        seq!['%', 'd'],
    )
}

/// The template `format` in strftime form: `YYYY`, then `MM`, then `DD`
/// replaced by `%Y`, `%m` and `%d`.
pub fn convert_date_format(format: &str) -> (r: String)
    ensures
        r@ == strftime_text(format@),
{
    let f = chars_of(format);
    let a = replace_chars(&f, &vec!['Y', 'Y', 'Y', 'Y'], &vec!['%', 'Y']);
    let b = replace_chars(&a, &vec!['M', 'M'], &vec!['%', 'm']);
    let c = replace_chars(&b, &vec!['D', 'D'], &vec!['%', 'd']);
    string_of(&c)
}

/// Whether index `i` of `s` starts a line: it is 0, or it follows a `'\n'`.
pub open spec fn is_line_start(s: Seq<char>, i: int) -> bool {
    i == 0 || (1 <= i <= s.len() && s[i - 1] == '\n')
}

proof fn lemma_scan_without_match(s: Seq<char>, a: Seq<char>, level: nat, i: int)
    requires
        0 <= i <= s.len(),
        is_line_start(s, i),
        forall|j: int|
            i <= j <= s.len() && is_line_start(s, j) ==> trim(
                #[trigger] s.subrange(j, line_end(s, j)),
            ) != a,
    ensures
        scan_lines(s, a, level, i, false) == s.len(),
    decreases s.len() - i,
{
    lemma_line_end(s, i);
    let e = line_end(s, i);
    if e < s.len() {
        lemma_scan_without_match(s, a, level, e + 1);
    }
}

/// When no line of `doc` matches the trimmed anchor, an entry goes at the end
/// of `doc`.
pub proof fn lemma_unmatched_anchor_appends_at_end(doc: Seq<char>, anchor: Seq<char>)
    requires
        forall|i: int|
            0 <= i <= doc.len() && is_line_start(doc, i) ==> trim(
                #[trigger] doc.subrange(i, line_end(doc, i)),
            ) != trim(anchor),
    ensures
        insert_index(doc, anchor) == doc.len(),
{
    let a = trim(anchor);
    if a.len() > 0 {
        lemma_scan_without_match(doc, a, hash_count(a), 0);
    }
}

/// The path of a note depends on the root, the folder and the date text
/// alone: equal inputs give equal paths.  Under a root that does not end in
/// `/`, with a relative folder and date, it is `root/folder/date.md`, or
/// `root/date.md` when the folder is empty.
pub proof fn lemma_note_path_determined(
    root1: Seq<char>,
    folder1: Seq<char>,
    date1: Seq<char>,
    root2: Seq<char>,
    folder2: Seq<char>,
    date2: Seq<char>,
)
    requires
        root1 == root2,
        folder1 == folder2,
        date1 == date2,
    ensures
        note_path(root1, folder1, date1) == note_path(root2, folder2, date2),
        root1.len() > 0 && root1.last() != '/' && (folder1.len() == 0 || folder1[0] != '/') && (
        folder1.len() == 0 || folder1.last() != '/') && (date1.len() == 0 || date1[0] != '/')
            ==> note_path(root1, folder1, date1) == if folder1.len() == 0 {
            root1 + seq!['/'] + date1 + seq!['.', 'm', 'd']
        } else {
            root1 + seq!['/'] + folder1 + seq!['/'] + date1 + seq!['.', 'm', 'd']
        },
{
    let name = with_md(date1);
    if date1.len() > 0 {
        assert(name[0] == date1[0]);
    }
    assert(root1 + seq!['/'] + date1 + seq!['.', 'm', 'd'] =~= root1 + seq!['/'] + name);
    assert(root1 + seq!['/'] + folder1 + seq!['/'] + date1 + seq!['.', 'm', 'd'] =~= root1
        + seq!['/'] + folder1 + seq!['/'] + name);
    if folder1.len() > 0 {
        let dir = root1 + seq!['/'] + folder1;
        assert(dir.last() == folder1.last());
    }
}

/// An entry added to an empty note makes the note exactly the entry line
/// and a line break, whatever the anchor.
pub proof fn lemma_entry_into_empty_note(anchor: Seq<char>, hour: nat, minute: nat, text: Seq<char>)
    ensures
        with_entry(Seq::empty(), anchor, memo_line(hour, minute, text)) == memo_line(
            hour,
            minute,
            text,
        ).push('\n'),
{
    let doc = Seq::<char>::empty();
    let a = trim(anchor);
    if a.len() > 0 {
        assert(doc.subrange(0, 0) =~= doc);
    }
    assert(insert_index(doc, anchor) == 0);
    let line = memo_line(hour, minute, text);
    assert(splice_line(doc, 0, line) =~= line.push('\n'));
}

proof fn lemma_line_end_shift(a: Seq<char>, b: Seq<char>, j: int)
    requires
        0 <= j <= b.len(),
    ensures
        line_end(a + b, a.len() + j) == a.len() + line_end(b, j),
    decreases b.len() - j,
{
    if j < b.len() && b[j] != '\n' {
        assert((a + b)[a.len() + j] == b[j]);
        lemma_line_end_shift(a, b, j + 1);
    } else if j < b.len() {
        assert((a + b)[a.len() + j] == b[j]);
    }
}

proof fn lemma_line_end_concat(a: Seq<char>, b: Seq<char>, i: int)
    requires
        0 <= i <= a.len(),
    ensures
        line_end(a + b, i) == if line_end(a, i) < a.len() {
            line_end(a, i)
        } else {
            a.len() + line_end(b, 0)
        },
    decreases a.len() - i,
{
    if i == a.len() {
        lemma_line_end_shift(a, b, 0);
    } else {
        assert((a + b)[i] == a[i]);
        if a[i] != '\n' {
            lemma_line_end_concat(a, b, i + 1);
        }
    }
}

proof fn lemma_line_end_no_break(s: Seq<char>, i: int)
    requires
        0 <= i <= s.len(),
        forall|j: int| i <= j < s.len() ==> s[j] != '\n',
    ensures
        line_end(s, i) == s.len(),
{
    lemma_line_end(s, i);
}

proof fn lemma_scan_bounds(s: Seq<char>, a: Seq<char>, level: nat, i: int, found: bool)
    requires
        0 <= i <= s.len(),
        is_line_start(s, i),
    ensures
        i <= scan_lines(s, a, level, i, found) <= s.len(),
        scan_lines(s, a, level, i, found) == s.len() || is_line_start(
            s,
            scan_lines(s, a, level, i, found),
        ),
    decreases s.len() - i,
{
    lemma_line_end(s, i);
    let e = line_end(s, i);
    let t = trim(s.subrange(i, e));
    if !(found && is_stop(t, level)) && e < s.len() {
        lemma_scan_bounds(s, a, level, e + 1, found || t == a);
    }
}

proof fn lemma_trim_end_prefix(s: Seq<char>)
    ensures
        trim_end(s).len() <= s.len(),
        trim_end(s) == s.subrange(0, trim_end(s).len() as int),
        s.len() > 0 && !is_space(s[0]) ==> trim_end(s).len() > 0,
    decreases s.len(),
{
    if s.len() > 0 && is_space(s.last()) {
        lemma_trim_end_prefix(s.drop_last());
        let t = trim_end(s.drop_last());
        assert(t == s.subrange(0, t.len() as int));
        if s.len() > 1 {
            assert(s.drop_last()[0] == s[0]);
        }
    } else {
        assert(s.subrange(0, s.len() as int) =~= s);
    }
}

/// The rest of the scan once it reaches the entry `line` spliced in at `k`
/// (`p` is where the line starts): the scan ends right after it.
proof fn lemma_scan_after_entry(
    doc: Seq<char>,
    a: Seq<char>,
    level: nat,
    line: Seq<char>,
    k: int,
    found: bool,
)
    requires
        0 <= k <= doc.len(),
        forall|j: int| 0 <= j < line.len() ==> line[j] != '\n',
        !is_stop(trim(line), level),
        k < doc.len() ==> found && is_stop(
            trim(doc.subrange(k, line_end(doc, k))),
            level,
        ),
        k < doc.len() ==> is_line_start(doc, k),
    ensures
        ({
            let before = doc.subrange(0, k);
            let ins = break_after(before) + line + seq!['\n'];
            let d1 = before + ins + doc.subrange(k, doc.len() as int);
            scan_lines(d1, a, level, k + break_after(before).len(), found) == k + ins.len()
        }),
{
    let before = doc.subrange(0, k);
    let after = doc.subrange(k, doc.len() as int);
    let sep = break_after(before);
    let ins = sep + line + seq!['\n'];
    let d1 = before + ins + after;
    let p = k + sep.len();
    let tail = line + seq!['\n'] + after;
    assert(d1 =~= (before + sep) + tail);
    lemma_line_end_shift(before + sep, tail, 0);
    assert(tail =~= line + (seq!['\n'] + after));
    lemma_line_end_concat(line, seq!['\n'] + after, 0);
    lemma_line_end_no_break(line, 0);
    assert(line_end(d1, p) == p + line.len());
    assert(d1.subrange(p, p + line.len()) =~= line);
    let q = p + line.len() + 1;
    assert(q == k + ins.len());
    assert(d1 =~= (before + ins) + after);
    lemma_line_end_shift(before + ins, after, 0);
    lemma_line_end(after, 0);
    assert(d1.subrange(q, line_end(d1, q)) =~= after.subrange(0, line_end(after, 0)));
    if k < doc.len() {
        assert(doc =~= before + after);
        lemma_line_end_shift(before, after, 0);
        assert(doc.subrange(k, line_end(doc, k)) =~= after.subrange(0, line_end(after, 0)));
    } else {
        assert(after.len() == 0);
        assert(trim_start(Seq::<char>::empty()) == Seq::<char>::empty());
    }
    assert(scan_lines(d1, a, level, q, found || trim(line) == a) == q);
}

/// Scanning `doc` with the entry `line` spliced in at `k`, where the scan of
/// `doc` from line start `i` ends at `k`, ends right after the entry.
proof fn lemma_scan_spliced(
    doc: Seq<char>,
    a: Seq<char>,
    level: nat,
    line: Seq<char>,
    k: int,
    i: int,
    found: bool,
)
    requires
        0 <= i <= k <= doc.len(),
        is_line_start(doc, i),
        scan_lines(doc, a, level, i, found) == k,
        forall|j: int| 0 <= j < line.len() ==> line[j] != '\n',
        !is_stop(trim(line), level),
    ensures
        ({
            let before = doc.subrange(0, k);
            let ins = break_after(before) + line + seq!['\n'];
            let d1 = before + ins + doc.subrange(k, doc.len() as int);
            scan_lines(d1, a, level, i, found) == k + ins.len()
        }),
    decreases k - i,
{
    let before = doc.subrange(0, k);
    let after = doc.subrange(k, doc.len() as int);
    let sep = break_after(before);
    let ins = sep + line + seq!['\n'];
    let rest = ins + after;
    let d1 = before + ins + after;
    assert(d1 =~= before + rest);
    assert(doc =~= before + after);
    lemma_line_end(doc, i);
    let e = line_end(doc, i);
    let t = trim(doc.subrange(i, e));
    if i < k {
        lemma_line_end_concat(before, after, i);
        lemma_line_end_concat(before, rest, i);
        lemma_line_end(before, i);
        if line_end(before, i) < k {
            assert(line_end(d1, i) == e);
            assert(d1.subrange(i, e) =~= doc.subrange(i, e));
            assert(doc[e] == before[e]);
            lemma_scan_bounds(doc, a, level, e + 1, found || t == a);
            lemma_scan_spliced(doc, a, level, line, k, e + 1, found || t == a);
        } else {
            lemma_scan_bounds(doc, a, level, i, found);
            assert(before[k - 1] == doc[k - 1]);
            assert(k == doc.len());
            assert(after.len() == 0);
            assert(sep =~= seq!['\n']);
            assert(rest[0] == '\n');
            assert(line_end(rest, 0) == 0);
            assert(line_end(d1, i) == k);
            assert(d1.subrange(i, k) =~= doc.subrange(i, k));
            lemma_scan_after_entry(doc, a, level, line, k, found || t == a);
        }
    } else {
        if k < doc.len() {
            if !(found && is_stop(t, level)) {
                if e < doc.len() {
                    lemma_scan_bounds(doc, a, level, e + 1, found || t == a);
                }
            }
        }
        assert(sep.len() == 0);
        lemma_scan_after_entry(doc, a, level, line, k, found);
    }
}

/// Two memos added one after the other to the same note both end up in it,
/// in the order in which they were added: the second line goes right after
/// the first, and the text before and after them is kept as it was.  (The
/// text of the first memo holds no line break.)
pub proof fn lemma_memos_accumulate(
    doc: Seq<char>,
    anchor: Seq<char>,
    hour1: nat,
    minute1: nat,
    text1: Seq<char>,
    hour2: nat,
    minute2: nat,
    text2: Seq<char>,
)
    requires
        hour1 < 24,
        minute1 < 60,
        forall|j: int| 0 <= j < text1.len() ==> text1[j] != '\n',
    ensures
        ({
            let k = insert_index(doc, anchor);
            let before = doc.subrange(0, k);
            let line1 = memo_line(hour1, minute1, text1);
            let line2 = memo_line(hour2, minute2, text2);
            with_entry(with_entry(doc, anchor, line1), anchor, line2) == before + break_after(before)
                + line1 + seq!['\n'] + line2 + seq!['\n'] + doc.subrange(k, doc.len() as int)
        }),
{
    let k = insert_index(doc, anchor);
    let before = doc.subrange(0, k);
    let after = doc.subrange(k, doc.len() as int);
    let line1 = memo_line(hour1, minute1, text1);
    let line2 = memo_line(hour2, minute2, text2);
    let ins = break_after(before) + line1 + seq!['\n'];
    let d1 = with_entry(doc, anchor, line1);
    assert(d1 =~= before + ins + after);
    let a = trim(anchor);
    assert forall|j: int| 0 <= j < line1.len() implies line1[j] != '\n' by {
        if j >= 8 {
            assert(line1[j] == text1[j - 8]);
        }
    }
    lemma_trim_end_prefix(line1);
    assert(trim_start(line1) == line1);
    assert(trim(line1)[0] == '-');
    assert(hash_count(trim(line1)) == 0);
    if a.len() > 0 {
        lemma_scan_bounds(doc, a, hash_count(a), 0, false);
        lemma_scan_spliced(doc, a, hash_count(a), line1, k, 0, false);
    }
    let k2 = k + ins.len();
    assert(insert_index(d1, anchor) == k2);
    assert(d1.subrange(0, k2) =~= before + ins);
    assert(d1.subrange(k2, d1.len() as int) =~= after);
    assert(break_after(before + ins) =~= Seq::<char>::empty());
    assert(with_entry(d1, anchor, line2) =~= before + break_after(before) + line1 + seq!['\n']
        + line2 + seq!['\n'] + after);
}

} // verus!
