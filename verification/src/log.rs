//! The log file: where it lies, what a line looks like and when the file is rotated.

use crate::calendar::civil_from_days;
#[allow(unused_imports)]
use crate::calendar::{
    date_on, day_number, day_numbers_follow_the_calendar, every_day_has_a_date, is_date,
    year_of_four_digits,
};
#[allow(unused_imports)]
use crate::text::{
    all_white, blank_is_all_white, comes_before, decimal_length, digits_value, is_digits,
    order_is_by_the_first_difference, padded_decimal, padded_decimal_reads_back,
    padded_numbers_are_ordered, text_of, trimmed, views,
};
use crate::text::{append_padded, trim};
use vstd::prelude::*;

verus! {

broadcast use vstd::string::group_string_axioms;

/// How many bytes a log file takes; a line that brings it beyond that has it rotated.
pub const MAX_BYTES: u64 = 5 * 1024 * 1024;

/// The hours by which the log's clock is ahead of UTC.
pub const LOG_OFFSET_HOURS: i64 = 8;

/// The parts of the log file's path, from the settings `MAYA_MCP_LOG_FILE` and `LOCALAPPDATA`.
pub open spec fn log_path(
    log_file: Option<Seq<char>>,
    local_app_data: Option<Seq<char>>,
) -> Seq<Seq<char>> {
    if log_file is Some && trimmed(log_file->0).len() > 0 {
        seq![log_file->0]
    } else if local_app_data is Some {
        seq![local_app_data->0, "maya_mcp"@, "maya_mcp.log"@]
    } else {
        seq!["."@, "maya_mcp.log"@]
    }
}

/// Decides where the log file lies: the parts of its path, each to be put under the one before it.
///
/// A `log_file` that is not blank is the path. Otherwise the file lies under `local_app_data`, and
/// without that in the current directory.
pub fn resolve_path(log_file: Option<String>, local_app_data: Option<String>) -> (path: Vec<String>)
    ensures
        views(path@) == log_path(text_of(log_file), text_of(local_app_data)),
{
    let mut path: Vec<String> = Vec::new();
    if let Some(p) = log_file {
        if !trim(p.as_str()).is_empty() {
            path.push(p);
            assert(views(path@) =~= seq![p@]);
            return path;
        }
    }
    match local_app_data {
        Some(dir) => {
            path.push(dir);
            path.push("maya_mcp".to_owned());
        },
        None => {
            path.push(".".to_owned());
        },
    }
    path.push("maya_mcp.log".to_owned());
    assert(views(path@) =~= log_path(text_of(log_file), text_of(local_app_data)));
    path
}

/// The clock's reading as a signed number of 64 bits; one that is too large wraps round.
pub open spec fn signed(secs: u64) -> int {
    if secs <= i64::MAX {
        secs as int
    } else {
        secs - u64::MAX - 1
    }
}

/// The second that a timestamp shows, counted from 1970-01-01 00:00:00: the clock's reading plus
/// the offset, or 0 where the clock stands before 1970.
pub open spec fn shown_second(since_epoch: Option<u64>, offset_hours: int) -> int {
    match since_epoch {
        Some(secs) => signed(secs) + offset_hours * 3600,
        None => 0,
    }
}

/// The second as `YYYY-MM-DD hh:mm:ss`.
pub open spec fn timestamp_text(second: int) -> Seq<char> {
    let (year, month, day) = date_on(second / 86_400);
    let rest = second % 86_400;
    padded_decimal(year, 4) + "-"@ + padded_decimal(month, 2) + "-"@ + padded_decimal(day, 2) + " "@
        + padded_decimal(rest / 3600, 2) + ":"@ + padded_decimal((rest % 3600) / 60, 2) + ":"@
        + padded_decimal(rest % 60, 2)
}

/// From 1970 up to the year 10000 every timestamp has the same width.
pub proof fn timestamps_have_one_width(second: int)
    requires
        0 <= second < 253_402_300_800,
    ensures
        timestamp_text(second).len() == 19,
{
    let day_count = second / 86_400;
    let rest = second % 86_400;
    every_day_has_a_date(day_count);
    year_of_four_digits(day_count);
    let (year, month, day) = date_on(day_count);
    decimal_length(year as nat);
    decimal_length(month as nat);
    decimal_length(day as nat);
    decimal_length((rest / 3600) as nat);
    decimal_length(((rest % 3600) / 60) as nat);
    decimal_length((rest % 60) as nat);
    reveal_strlit("-");
    reveal_strlit(" ");
    reveal_strlit(":");
}

/// A timestamp's parts have the width that their numbers are padded to.
proof fn timestamp_parts(second: int)
    ensures
        ({
            let (year, month, day) = date_on(second / 86_400);
            let rest = second % 86_400;
            &&& is_date(year, month, day)
            &&& day_number(year, month, day) == second / 86_400
            &&& padded_decimal(year, 4).len() >= 4
            &&& padded_decimal(month, 2).len() == 2
            &&& padded_decimal(day, 2).len() == 2
            &&& padded_decimal(rest / 3600, 2).len() == 2
            &&& padded_decimal((rest % 3600) / 60, 2).len() == 2
            &&& padded_decimal(rest % 60, 2).len() == 2
        }),
{
    let rest = second % 86_400;
    every_day_has_a_date(second / 86_400);
    let (year, month, day) = date_on(second / 86_400);
    decimal_length(month as nat);
    decimal_length(day as nat);
    decimal_length((rest / 3600) as nat);
    decimal_length(((rest % 3600) / 60) as nat);
    decimal_length((rest % 60) as nat);
    padded_decimal_reads_back(year, 4);
    padded_decimal_reads_back(month, 2);
    padded_decimal_reads_back(day, 2);
    padded_decimal_reads_back(rest / 3600, 2);
    padded_decimal_reads_back((rest % 3600) / 60, 2);
    padded_decimal_reads_back(rest % 60, 2);
}

/// The year that the first characters of a timestamp write, with a minus sign where it is negative.
pub open spec fn written_year(text: Seq<char>) -> int {
    if text[0] == '-' {
        -digits_value(text.skip(1))
    } else {
        digits_value(text) as int
    }
}

/// A timestamp reads back as the second that it shows. Its last two characters are the seconds, the
/// two before the colon the minutes, and so on to the year, which takes what is left.
pub proof fn timestamps_read_back(second: int)
    ensures
        ({
            let text = timestamp_text(second);
            let n = text.len() as int;
            let hours = text.subrange(n - 8, n - 6);
            let minutes = text.subrange(n - 5, n - 3);
            let seconds = text.subrange(n - 2, n);
            let month = text.subrange(n - 14, n - 12);
            let day = text.subrange(n - 11, n - 9);
            &&& n >= 19
            &&& text[n - 15] == '-' && text[n - 12] == '-' && text[n - 9] == ' '
            &&& text[n - 6] == ':' && text[n - 3] == ':'
            &&& is_digits(hours) && is_digits(minutes) && is_digits(seconds)
            &&& is_digits(month) && is_digits(day)
            &&& digits_value(minutes) < 60 && digits_value(seconds) < 60
            &&& digits_value(hours) * 3600 + digits_value(minutes) * 60 + digits_value(seconds)
                == second % 86_400
            &&& is_date(
                written_year(text.take(n - 15)),
                digits_value(month) as int,
                digits_value(day) as int,
            )
            &&& day_number(
                written_year(text.take(n - 15)),
                digits_value(month) as int,
                digits_value(day) as int,
            ) == second / 86_400
        }),
{
    timestamp_parts(second);
    let (year, month, day) = date_on(second / 86_400);
    let rest = second % 86_400;
    let text = timestamp_text(second);
    let n = text.len() as int;
    padded_decimal_reads_back(year, 4);
    padded_decimal_reads_back(month, 2);
    padded_decimal_reads_back(day, 2);
    padded_decimal_reads_back(rest / 3600, 2);
    padded_decimal_reads_back((rest % 3600) / 60, 2);
    padded_decimal_reads_back(rest % 60, 2);
    reveal_strlit("-");
    reveal_strlit(" ");
    reveal_strlit(":");
    assert(text.take(n - 15) =~= padded_decimal(year, 4));
    assert(text.subrange(n - 14, n - 12) =~= padded_decimal(month, 2));
    assert(text.subrange(n - 11, n - 9) =~= padded_decimal(day, 2));
    assert(text.subrange(n - 8, n - 6) =~= padded_decimal(rest / 3600, 2));
    assert(text.subrange(n - 5, n - 3) =~= padded_decimal((rest % 3600) / 60, 2));
    assert(text.subrange(n - 2, n) =~= padded_decimal(rest % 60, 2));
    if year >= 0 {
        assert('0' <= padded_decimal(year, 4)[0] <= '9');
    }
}

/// Of two seconds of one day the later one comes later by the hours, or in one hour by the minutes,
/// or in one minute by the seconds.
proof fn times_of_day_are_ordered(x: int, y: int)
    requires
        0 <= x < y < 86_400,
    ensures
        0 <= x / 3600 <= y / 3600 < 24,
        0 <= (x % 3600) / 60 < 60,
        0 <= (y % 3600) / 60 < 60,
        x / 3600 == y / 3600 ==> (x % 3600) / 60 <= (y % 3600) / 60,
        x / 3600 == y / 3600 && (x % 3600) / 60 == (y % 3600) / 60 ==> x % 60 < y % 60,
{
}

/// Of two seconds of one day the later one has the later timestamp, in the order of the characters.
#[verifier::spinoff_prover]
pub proof fn later_seconds_of_a_day_read_later(a: int, b: int)
    requires
        a < b,
        a / 86_400 == b / 86_400,
    ensures
        comes_before(timestamp_text(a), timestamp_text(b)),
{
    timestamp_parts(a);
    timestamp_parts(b);
    let (year, month, day) = date_on(a / 86_400);
    let x = a % 86_400;
    let y = b % 86_400;
    let dash = "-"@;
    let colon = ":"@;
    let date = padded_decimal(year, 4) + dash + padded_decimal(month, 2) + dash + padded_decimal(
        day,
        2,
    ) + " "@;
    times_of_day_are_ordered(x, y);
    let (h1, m1, s1) = (x / 3600, (x % 3600) / 60, x % 60);
    let (h2, m2, s2) = (y / 3600, (y % 3600) / 60, y % 60);
    decimal_length(h1 as nat);
    decimal_length(h2 as nat);
    decimal_length(m1 as nat);
    decimal_length(m2 as nat);
    decimal_length(s1 as nat);
    decimal_length(s2 as nat);
    let (hh1, mm1, ss1) = (padded_decimal(h1, 2), padded_decimal(m1, 2), padded_decimal(s1, 2));
    let (hh2, mm2, ss2) = (padded_decimal(h2, 2), padded_decimal(m2, 2), padded_decimal(s2, 2));
    if h1 != h2 {
        padded_numbers_are_ordered(h1, h2, 2);
        let (r1, r2) = (colon + mm1 + colon + ss1, colon + mm2 + colon + ss2);
        order_is_by_the_first_difference(date, hh1, hh2, r1, r2);
        assert(timestamp_text(a) =~= date + hh1 + r1);
        assert(timestamp_text(b) =~= date + hh2 + r2);
    } else if m1 != m2 {
        padded_numbers_are_ordered(m1, m2, 2);
        let (r1, r2) = (colon + ss1, colon + ss2);
        order_is_by_the_first_difference(date + hh1 + colon, mm1, mm2, r1, r2);
        assert(timestamp_text(a) =~= date + hh1 + colon + mm1 + r1);
        assert(timestamp_text(b) =~= date + hh1 + colon + mm2 + r2);
    } else {
        padded_numbers_are_ordered(s1, s2, 2);
        let start = date + hh1 + colon + mm1 + colon;
        order_is_by_the_first_difference(start, ss1, ss2, seq![], seq![]);
        assert(timestamp_text(a) =~= start + ss1 + seq![]);
        assert(timestamp_text(b) =~= start + ss2 + seq![]);
    }
}

/// From 1970 up to the year 10000 a later second has the later timestamp, in the order of the
/// characters, whatever the days.
#[verifier::spinoff_prover]
pub proof fn later_seconds_read_later(a: int, b: int)
    requires
        0 <= a < b < 253_402_300_800,
    ensures
        comes_before(timestamp_text(a), timestamp_text(b)),
{
    if a / 86_400 == b / 86_400 {
        later_seconds_of_a_day_read_later(a, b);
    } else {
        timestamp_parts(a);
        timestamp_parts(b);
        year_of_four_digits(a / 86_400);
        year_of_four_digits(b / 86_400);
        let (y1, m1, d1) = date_on(a / 86_400);
        let (y2, m2, d2) = date_on(b / 86_400);
        day_numbers_follow_the_calendar(y1, m1, d1, y2, m2, d2);
        decimal_length(y1 as nat);
        decimal_length(y2 as nat);
        decimal_length(m1 as nat);
        decimal_length(m2 as nat);
        decimal_length(d1 as nat);
        decimal_length(d2 as nat);
        let dash = "-"@;
        let (yy1, mm1, dd1) = (padded_decimal(y1, 4), padded_decimal(m1, 2), padded_decimal(d1, 2));
        let (yy2, mm2, dd2) = (padded_decimal(y2, 4), padded_decimal(m2, 2), padded_decimal(d2, 2));
        let t1 = timestamp_text(a).skip(10);
        let t2 = timestamp_text(b).skip(10);
        reveal_strlit("-");
        padded_decimal_reads_back(y1, 4);
        padded_decimal_reads_back(y2, 4);
        assert(timestamp_text(a) =~= yy1 + dash + mm1 + dash + dd1 + t1);
        assert(timestamp_text(b) =~= yy2 + dash + mm2 + dash + dd2 + t2);
        if y1 != y2 {
            padded_numbers_are_ordered(y1, y2, 4);
            let (r1, r2) = (dash + mm1 + dash + dd1 + t1, dash + mm2 + dash + dd2 + t2);
            order_is_by_the_first_difference(seq![], yy1, yy2, r1, r2);
            assert(timestamp_text(a) =~= seq![] + yy1 + r1);
            assert(timestamp_text(b) =~= seq![] + yy2 + r2);
        } else if m1 != m2 {
            padded_numbers_are_ordered(m1, m2, 2);
            let (r1, r2) = (dash + dd1 + t1, dash + dd2 + t2);
            order_is_by_the_first_difference(yy1 + dash, mm1, mm2, r1, r2);
            assert(timestamp_text(a) =~= yy1 + dash + mm1 + r1);
            assert(timestamp_text(b) =~= yy1 + dash + mm2 + r2);
        } else {
            padded_numbers_are_ordered(d1, d2, 2);
            let start = yy1 + dash + mm1 + dash;
            order_is_by_the_first_difference(start, dd1, dd2, t1, t2);
            assert(timestamp_text(a) =~= start + dd1 + t1);
            assert(timestamp_text(b) =~= start + dd2 + t2);
        }
    }
}

/// The offset moves a timestamp by whole hours, a second on the clock by a second. Without a reading
/// the offset does not matter.
pub proof fn offsets_are_hours(secs: u64, offset_hours: int)
    ensures
        secs <= i64::MAX ==> shown_second(Some(secs), 0) == secs,
        shown_second(Some(secs), offset_hours) - shown_second(Some(secs), 0) == offset_hours * 3600,
        secs > 0 && secs != 0x8000_0000_0000_0000 ==> shown_second(Some(secs), offset_hours)
            == shown_second(Some((secs - 1) as u64), offset_hours) + 1,
        shown_second(None, offset_hours) == 0,
{
}

/// Whether the timestamp's arithmetic stays within 64 bits.
pub open spec fn clock_fits(since_epoch: Option<u64>, offset_hours: int) -> bool {
    since_epoch matches Some(secs) ==> {
        &&& i64::MIN <= offset_hours * 3600 <= i64::MAX
        &&& i64::MIN <= signed(secs) + offset_hours * 3600 <= i64::MAX
    }
}

/// The date and time of day that a clock shows, `offset_hours` away from UTC.
///
/// `since_epoch` is the clock's reading in seconds since 1970 in UTC, and nothing where the clock
/// stands before that.
pub fn timestamp(since_epoch: Option<u64>, offset_hours: i64) -> (text: String)
    requires
        clock_fits(since_epoch, offset_hours as int),
    ensures
        text@ == timestamp_text(shown_second(since_epoch, offset_hours as int)),
{
    let secs: i64 = match since_epoch {
        Some(s) => {
            let reading: i64 = if s <= i64::MAX as u64 {
                s as i64
            } else {
                -((u64::MAX - s) as i64) - 1
            };
            reading + offset_hours * 3600
        },
        None => 0,
    };
    let (days, rem): (i64, i64) = if secs >= 0 {
        (secs / 86_400, secs % 86_400)
    } else {
        let before: i64 = -(secs + 1);
        (-(before / 86_400) - 1, 86_399 - before % 86_400)
    };
    assert(days == secs as int / 86_400);
    assert(rem == secs as int % 86_400);
    let (y, m, d) = civil_from_days(days);
    let mut out = String::new();
    append_padded(&mut out, y, 4);
    out.append("-");
    append_padded(&mut out, m as i64, 2);
    out.append("-");
    append_padded(&mut out, d as i64, 2);
    out.append(" ");
    append_padded(&mut out, rem / 3600, 2);
    out.append(":");
    append_padded(&mut out, (rem % 3600) / 60, 2);
    out.append(":");
    append_padded(&mut out, rem % 60, 2);
    assert(out@ =~= timestamp_text(secs as int));
    out
}

/// What the logger knows of its file.
pub struct Logger {
    /// Whether the file is open.
    pub open: bool,
    /// How many bytes the file holds: those it held when it was opened and those written since.
    pub written: u64,
}

/// Starts logging to a file that holds `existing` bytes, once: a logger that is there already stays
/// as it is. Without an open file nothing is ever logged.
pub fn init(current: Option<Logger>, opened: bool, existing: u64) -> (logger: Logger)
    ensures
        logger == (match current {
            Some(l) => l,
            None => Logger { open: opened, written: existing },
        }),
{
    match current {
        Some(logger) => logger,
        None => Logger { open: opened, written: existing },
    }
}

/// A line of the log: the time, the level and the message.
pub open spec fn log_line(time: Seq<char>, level: Seq<char>, msg: Seq<char>) -> Seq<char> {
    "["@ + time + "] ["@ + level + "] "@ + msg + "\n"@
}

/// The line that is to be appended to the log file, or nothing where there is no open one.
pub fn write(
    logger: Option<&Logger>,
    level: &str,
    msg: &str,
    since_epoch: Option<u64>,
) -> (line: Option<String>)
    requires
        logger is Some ==> clock_fits(since_epoch, LOG_OFFSET_HOURS as int),
    ensures
        line is Some <==> (logger matches Some(l) && l.open),
        line matches Some(text) ==> text@ == log_line(
            timestamp_text(shown_second(since_epoch, LOG_OFFSET_HOURS as int)),
            level@,
            msg@,
        ),
        line matches Some(text) ==> text@ == log_line(
            timestamp_text(
                match since_epoch {
                    Some(secs) => signed(secs) + 28_800,
                    None => 0,
                },
            ),
            level@,
            msg@,
        ),
{
    match logger {
        Some(l) => {
            if !l.open {
                return None;
            }
        },
        None => {
            return None;
        },
    }
    let time = timestamp(since_epoch, LOG_OFFSET_HOURS);
    let mut out = String::new();
    out.append("[");
    out.append(time.as_str());
    out.append("] [");
    out.append(level);
    out.append("] ");
    out.append(msg);
    out.append("\n");
    assert(out@ =~= log_line(time@, level@, msg@));
    Some(out)
}

/// A line holds the time in brackets, the level in brackets and the message, with a blank after each
/// bracket, and ends with a line feed. Nothing else stands in it.
pub proof fn lines_hold_what_is_logged(time: Seq<char>, level: Seq<char>, msg: Seq<char>)
    ensures
        ({
            let line = log_line(time, level, msg);
            let t = time.len() as int;
            let l = level.len() as int;
            &&& line.len() == t + l + msg.len() + 7
            &&& line[0] == '[' && line.subrange(1, 1 + t) == time
            &&& line[t + 1] == ']' && line[t + 2] == ' ' && line[t + 3] == '['
            &&& line.subrange(t + 4, t + 4 + l) == level
            &&& line[t + l + 4] == ']' && line[t + l + 5] == ' '
            &&& line.subrange(t + l + 6, line.len() - 1) == msg
            &&& line.last() == '\n'
        }),
{
    reveal_strlit("[");
    reveal_strlit("] [");
    reveal_strlit("] ");
    reveal_strlit("\n");
    let line = log_line(time, level, msg);
    let t = time.len() as int;
    let l = level.len() as int;
    assert(line.subrange(1, 1 + t) =~= time);
    assert(line.subrange(t + 4, t + 4 + l) =~= level);
    assert(line.subrange(t + l + 6, line.len() - 1) =~= msg);
}

/// The log file is the one that is set, where the setting holds anything but white space. Otherwise
/// it is `maya_mcp.log`, in `maya_mcp` under the local data where these have a place, and else right
/// in the current directory.
pub proof fn log_file_has_its_place(
    log_file: Option<Seq<char>>,
    local_app_data: Option<Seq<char>>,
)
    ensures
        ({
            let path = log_path(log_file, local_app_data);
            let set = log_file is Some && !all_white(log_file->0);
            &&& set ==> path.len() == 1 && path[0] == log_file->0
            &&& !set ==> path.last() == "maya_mcp.log"@
            &&& !set && local_app_data is Some ==> path.len() == 3 && path[0] == local_app_data->0
                && path[1] == "maya_mcp"@
            &&& !set && local_app_data is None ==> path.len() == 2 && path[0] == "."@
        }),
{
    if log_file is Some {
        blank_is_all_white(log_file->0);
    }
}

/// The bytes counted after a line of `line_len` bytes: none where the line had the file rotated.
pub open spec fn counted(written: int, line_len: int) -> int {
    if written + line_len <= MAX_BYTES {
        written + line_len
    } else {
        0
    }
}

/// Counts a line that was appended. Says whether the file is to be rotated: closed, renamed to
/// `.old` and opened anew.
pub fn rotate_if_needed(logger: &mut Logger, line_len: u64) -> (rotate: bool)
    requires
        old(logger).written + line_len <= u64::MAX,
    ensures
        final(logger).written <= MAX_BYTES,
        final(logger).written == counted(old(logger).written as int, line_len as int),
        rotate == (old(logger).written + line_len > MAX_BYTES),
        rotate == (old(logger).written + line_len > 5_242_880),
        final(logger).open == (old(logger).open && !rotate),
{
    logger.written = logger.written + line_len;
    if logger.written <= MAX_BYTES {
        return false;
    }
    logger.written = 0;
    logger.open = false;
    true
}

/// Counts the line that was appended, by its length in bytes. Says whether the file is to be
/// rotated.
pub fn appended(logger: &mut Logger, line: &str) -> (rotate: bool)
    requires
        old(logger).written + line.len() <= u64::MAX,
    ensures
        final(logger).written <= MAX_BYTES,
        final(logger).written == counted(old(logger).written as int, line.len() as int),
        rotate == (old(logger).written + line.len() > MAX_BYTES),
        rotate == (old(logger).written + line.len() > 5_242_880),
        final(logger).open == (old(logger).open && !rotate),
{
    rotate_if_needed(logger, line.len() as u64)
}

/// Notes whether the file could be opened anew after it was rotated.
pub fn reopened(logger: &mut Logger, opened: bool)
    ensures
        *final(logger) == (Logger { open: opened, written: old(logger).written }),
{
    logger.open = opened;
}

/// The bytes counted after lines of the given lengths, in a file that held `start` bytes.
pub open spec fn counted_after(start: nat, lens: Seq<nat>) -> int
    decreases lens.len(),
{
    if lens.len() == 0 {
        start as int
    } else {
        counted(counted_after(start, lens.drop_last()), lens.last() as int)
    }
}

/// The lengths added up.
pub open spec fn total(lens: Seq<nat>) -> nat
    decreases lens.len(),
{
    if lens.len() == 0 {
        0
    } else {
        total(lens.drop_last()) + lens.last()
    }
}

/// Whatever the file held at the start and however many lines are logged, it holds at most
/// `MAX_BYTES` once a line is dealt with. As long as all of it together takes no more than that,
/// nothing is rotated away.
pub proof fn log_file_is_bounded(start: nat, lens: Seq<nat>)
    ensures
        0 <= counted_after(start, lens),
        lens.len() > 0 || start <= MAX_BYTES ==> counted_after(start, lens) <= MAX_BYTES,
        start + total(lens) <= MAX_BYTES ==> counted_after(start, lens) == start + total(lens),
    decreases lens.len(),
{
    if lens.len() > 0 {
        log_file_is_bounded(start, lens.drop_last());
    }
}

/// A line is counted as long as the file stays within 5 MiB. The line that brings it beyond that,
/// in a file at its limit any line at all, leaves an empty one.
pub proof fn full_file_is_rotated(start: nat, line_len: nat)
    ensures
        start + line_len <= 5_242_880 ==> counted(start as int, line_len as int) == start + line_len,
        start + line_len > 5_242_880 ==> counted(start as int, line_len as int) == 0,
        start >= MAX_BYTES && line_len > 0 ==> start + line_len > MAX_BYTES && counted(
            start as int,
            line_len as int,
        ) == 0,
{
}

} // verus!
