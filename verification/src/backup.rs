//! Backups of the opened save and the check on what was read from it.

use vstd::prelude::*;

use chrono::{Datelike, Timelike};

use crate::text::{push_padded, zero_padded};
use crate::SaveError;

verus! {

/// The year, month and day of the proleptic Gregorian calendar that lie
/// `days` days after 1970-01-01.
pub open spec fn civil_from_days(days: int) -> (int, int, int) {
    let z = days + 719468;
    let era = z / 146097;
    let doe = z - era * 146097;
    let yoe = (doe - doe / 1460 + doe / 36524 - doe / 146096) / 365;
    let doy = doe - (365 * yoe + yoe / 4 - yoe / 100);
    let mp = (5 * doy + 2) / 153;
    let d = doy - (153 * mp + 2) / 5 + 1;
    let m = if mp < 10 {
        mp + 3
    } else {
        mp - 9
    };
    let carry: int = if m <= 2 {
        1
    } else {
        0
    };
    (yoe + era * 400 + carry, m, d)
}

/// The calendar date and time of day in UTC, as year, month, day, hour,
/// minute and second, of the instant `secs` seconds after 1970-01-01
/// 00:00:00 UTC; `None` when the year lies outside the years -262143 to
/// 262142 that `chrono` holds.
pub open spec fn utc_date_time(secs: int) -> Option<(i32, u32, u32, u32, u32, u32)> {
    let (y, m, d) = civil_from_days(secs / 86400);
    let r = secs % 86400;
    if -262143 <= y <= 262142 {
        Some((y as i32, m as u32, d as u32, (r / 3600) as u32, (r % 3600 / 60) as u32, (r % 60) as u32))
    } else {
        None
    }
}

/// Reads the system clock through `std::time::SystemTime::now` and
/// `duration_since(UNIX_EPOCH)`: the whole seconds since 1970, or `None`
/// when the clock reads earlier or the count does not fit in `i64`. The
/// result depends on the clock, so nothing is said of it.
#[verifier::external_body]
fn unix_seconds_now() -> Option<i64> {
    match std::time::SystemTime::now().duration_since(std::time::UNIX_EPOCH) {
        Ok(elapsed) => i64::try_from(elapsed.as_secs()).ok(),
        Err(_) => None,
    }
}

/// Calls `chrono::DateTime::from_timestamp(secs, 0)` and reads the year,
/// month, day, hour, minute and second of the result: the day is
/// `secs` divided by 86400 (rounded down) counted from 1970-01-01 in the
/// proleptic Gregorian calendar, the time of day the remainder, and the
/// result is `None` exactly when that year lies outside chrono's
/// `MIN_YEAR` to `MAX_YEAR`. As `chrono` documents, the month counts from
/// 1 to 12, the day from 1 to 31, the hour from 0 to 23, and the minute
/// and second from 0 to 59.
#[verifier::external_body]
fn utc_fields(secs: i64) -> (res: Option<(i32, u32, u32, u32, u32, u32)>)
    ensures
        res == utc_date_time(secs as int),
        res matches Some(f) ==> fields_in_range(f),
{
    match chrono::DateTime::from_timestamp(secs, 0) {
        Some(t) => Some((t.year(), t.month(), t.day(), t.hour(), t.minute(), t.second())),
        None => None,
    }
}

/// Year, month, day, hour, minute and second lie in their ranges.
pub open spec fn fields_in_range(f: (i32, u32, u32, u32, u32, u32)) -> bool {
    &&& -262143 <= f.0 <= 262142
    &&& 1 <= f.1 <= 12
    &&& 1 <= f.2 <= 31
    &&& f.3 <= 23
    &&& f.4 <= 59
    &&& f.5 <= 59
}

/// A year as `%Y` writes it: four digits, zero-padded, for years 0 to
/// 9999; otherwise a sign, then at least four digits.
pub open spec fn year_text(y: int) -> Seq<char> {
    if 0 <= y <= 9999 {
        zero_padded(y as nat, 4)
    } else if y > 9999 {
        seq!['+'] + zero_padded(y as nat, 4)
    } else {
        seq!['-'] + zero_padded((-y) as nat, 4)
    }
}

/// The time stamp `%Y%m%d_%H%M%S` of the given fields.
pub open spec fn stamp_text(f: (i32, u32, u32, u32, u32, u32)) -> Seq<char> {
    year_text(f.0 as int) + zero_padded(f.1 as nat, 2) + zero_padded(f.2 as nat, 2) + seq!['_']
        + zero_padded(f.3 as nat, 2) + zero_padded(f.4 as nat, 2) + zero_padded(f.5 as nat, 2)
}

/// The extension given to the backup copy of a save: `fl.`, the time
/// stamp, then `.orig`.
pub open spec fn backup_extension_text(stamp: Seq<char>) -> Seq<char> {
    "fl."@ + stamp + ".orig"@
}

/// Writes the fields as `%Y%m%d_%H%M%S`.
pub fn format_stamp(f: (i32, u32, u32, u32, u32, u32)) -> (res: String)
    requires
        fields_in_range(f),
    ensures
        res@ == stamp_text(f),
{
    let (year, month, day, hour, minute, second) = f;
    let mut out = String::new();
    if 0 <= year && year <= 9999 {
        push_padded(&mut out, year as u32, 4);
    } else if year > 9999 {
        out.append("+");
        push_padded(&mut out, year as u32, 4);
    } else {
        out.append("-");
        push_padded(&mut out, (-year) as u32, 4);
    }
    proof {
        reveal_strlit("+");
        reveal_strlit("-");
        reveal_strlit("_");
    }
    assert(out@ =~= year_text(year as int));
    push_padded(&mut out, month, 2);
    push_padded(&mut out, day, 2);
    out.append("_");
    push_padded(&mut out, hour, 2);
    push_padded(&mut out, minute, 2);
    push_padded(&mut out, second, 2);
    assert(out@ =~= stamp_text(f));
    out
}

/// The report after a successful backup.
pub open spec fn backup_done_text() -> Seq<char> {
    "[INFO]: Backup complete.\r\n"@
}

/// The report after a failed backup.
pub open spec fn backup_failed_text() -> Seq<char> {
    "[ERROR]: Unable to create backup of save file.\r\n"@
}

/// The extension for a backup made at the time `stamp`.
pub fn backup_extension(stamp: &str) -> (res: String)
    ensures
        res@ == backup_extension_text(stamp@),
{
    let mut ext = String::new();
    ext.append("fl.");
    ext.append(stamp);
    ext.append(".orig");
    ext
}

/// The extension for a backup made `secs` seconds after 1970-01-01
/// 00:00:00 UTC, or `None` when that instant lies outside the dates
/// `chrono` holds.
pub fn backup_extension_at(secs: i64) -> (res: Option<String>)
    ensures
        utc_date_time(secs as int) is None ==> res is None,
        utc_date_time(secs as int) matches Some(f) ==> (res matches Some(ext) && ext@
            == backup_extension_text(stamp_text(f))),
{
    match utc_fields(secs) {
        Some(f) => {
            let stamp = format_stamp(f);
            Some(backup_extension(stamp.as_str()))
        },
        None => None,
    }
}

/// The extension for a backup made now; `None` when the clock cannot be
/// read as a date, in which case no backup is made.
pub fn current_backup_extension() -> (res: Option<String>)
    ensures
        res matches Some(ext) ==> exists|secs: i64|
            #[trigger] utc_date_time(secs as int) matches Some(f) && ext@ == backup_extension_text(
                stamp_text(f),
            ),
{
    match unix_seconds_now() {
        Some(secs) => backup_extension_at(secs),
        None => None,
    }
}

/// What the program reports once the copy of the save was attempted.
pub fn backup_report(copied: bool) -> (res: Result<&'static str, &'static str>)
    ensures
        copied ==> (res matches Ok(msg) && msg@ == backup_done_text()),
        !copied ==> (res matches Err(msg) && msg@ == backup_failed_text()),
{
    if copied {
        Ok("[INFO]: Backup complete.\r\n")
    } else {
        Err("[ERROR]: Unable to create backup of save file.\r\n")
    }
}

/// What reading a save yields from the bytes of the file: an empty file
/// is refused as unexpectedly ended, anything else is kept as it is.
pub fn check_save_contents(contents: Vec<u8>) -> (res: Result<Vec<u8>, SaveError>)
    ensures
        contents@.len() == 0 ==> res == Err::<Vec<u8>, SaveError>(SaveError::UnexpectedEof),
        contents@.len() > 0 ==> (res matches Ok(kept) && kept@ == contents@),
{
    if contents.len() == 0 {
        Err(SaveError::UnexpectedEof)
    } else {
        Ok(contents)
    }
}

} // verus!
