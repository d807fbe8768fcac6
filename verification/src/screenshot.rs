//! Turning what was read from a clan-war screenshot into a draft.

use vstd::prelude::*;
use crate::mem::{fill_fixed_array, fixed_field};
use crate::schedule::{cw_name, get_name};
use crate::types::CWDraft;

verus! {

/// Height in pixels of one player row of the screenshot.
pub const ROW_HEIGHT: u32 = 30;

/// Brightness above which the centre of a row shows that the row holds a player.
pub const ROW_THRESHOLD: u8 = 60;

/// The pattern screenshot file names follow, in `chrono`'s format syntax.
pub const CW_FILE_FORMAT: &'static str = "CW_UTC_%Y%m%d_%H%M%S.png";

/// What `chrono::NaiveDateTime::parse_from_str` makes of `text` read by
/// `format`, taken as UTC and given as a Unix timestamp; `None` when the text
/// does not follow the format.
pub uninterp spec fn parsed_utc_time(text: Seq<char>, format: Seq<char>) -> Option<i64>;

/// Reads `text` as a date and time by `format`
/// (`chrono::NaiveDateTime::parse_from_str`), taken as UTC
/// (`NaiveDateTime::and_utc`, `DateTime::timestamp`). The result is named by
/// `parsed_utc_time`; how `chrono` reads the format is left to that name.
#[verifier::external_body]
pub(crate) fn parse_utc_time(text: &str, format: &str) -> (t: Option<i64>)
    ensures
        t == parsed_utc_time(text@, format@),
{
    match chrono::NaiveDateTime::parse_from_str(text, format) {
        Ok(d) => Some(d.and_utc().timestamp()),
        Err(_) => None,
    }
}

/// The number of player rows: the length of the leading run of row centres
/// brighter than `ROW_THRESHOLD`, given the brightness at the centre of each
/// row that fits in the picture, top to bottom.
pub fn count_bright_rows(center_lumas: &[u8]) -> (rows: u32)
    requires
        center_lumas@.len() <= u32::MAX,
    ensures
        rows <= center_lumas@.len(),
        forall|i: int| 0 <= i < rows ==> #[trigger] center_lumas@[i] > ROW_THRESHOLD,
        rows < center_lumas@.len() ==> center_lumas@[rows as int] <= ROW_THRESHOLD,
{
    let mut rows: u32 = 0;
    let n = center_lumas.len();
    while (rows as usize) < n && center_lumas[rows as usize] > ROW_THRESHOLD
        invariant
            rows <= n,
            n == center_lumas@.len(),
            n <= u32::MAX,
            forall|i: int| 0 <= i < rows ==> #[trigger] center_lumas@[i] > ROW_THRESHOLD,
        decreases n - rows,
    {
        rows = rows + 1;
    }
    rows
}

/// The width left of a picture of width `width` once `left` and `right`
/// pixels are cut off its sides; `None` when they do not fit.
pub fn content_width(width: u32, left: u32, right: u32) -> (w: Option<u32>)
    ensures
        w is Some <==> left + right <= width,
        w matches Some(v) ==> v == width - left - right,
{
    if left <= width && right <= width - left {
        Some(width - left - right)
    } else {
        None
    }
}

/// The share of rows that matched a roster member, in percent, computed in
/// 16 bits: `matched * 100 / rows`, with `rows` taken modulo 2^16 and the
/// result modulo 2^8.
pub fn confidence_percent(matched: u8, rows: u32) -> (c: u8)
    requires
        rows % 65536 != 0,
    ensures
        c == ((matched * 100) / (rows % 65536) as int) % 256,
{
    let r: u16 = (rows % 65536) as u16;
    let p: u16 = (matched as u16 * 100) / r;
    (p % 256) as u8
}

/// The Unix time a screenshot was taken: the one its file name states, when
/// the name follows `CW_FILE_FORMAT`, else `now`.
pub fn screenshot_time(file_name: &str, now: i64) -> (t: i64)
    ensures
        t == (match parsed_utc_time(file_name@, CW_FILE_FORMAT@) {
            Some(p) => p,
            None => now,
        }),
{
    match parse_utc_time(file_name, CW_FILE_FORMAT) {
        Some(t) => t,
        None => now,
    }
}

/// The draft of a clan war recognised at `timestamp`: nobody in reserve or
/// supplied, the attendance and top-15 masks, the schedule name with the
/// confidence, and the file name, both cut to their fields.
pub fn build_draft(timestamp: i64, attendance: u64, top15: u64, confidence: u8, file_name: &str) -> (draft: CWDraft)
    ensures
        draft.timestamp == timestamp,
        draft.reserve == 0,
        draft.supply == 0,
        draft.attendance == attendance,
        draft.top15 == top15,
        draft.name@ == fixed_field(vstd::utf8::encode_utf8(cw_name(timestamp as int, confidence)), 64),
        draft.file_name@ == fixed_field(vstd::utf8::encode_utf8(file_name@), 32),
{
    let name = get_name(timestamp, confidence);
    CWDraft {
        timestamp,
        reserve: 0,
        top15,
        supply: 0,
        attendance,
        name: fill_fixed_array(name.as_str()),
        file_name: fill_fixed_array(file_name),
    }
}

/// The draft for a recognised screenshot: taken at the time its file name
/// states, or `now`, built as `build_draft` describes.
pub fn draft_from_screenshot(
    attendance: u64,
    top15: u64,
    confidence: u8,
    file_name: &str,
    now: i64,
) -> (draft: CWDraft)
    ensures
        draft.timestamp == (match parsed_utc_time(file_name@, CW_FILE_FORMAT@) {
            Some(p) => p,
            None => now,
        }),
        draft.reserve == 0,
        draft.supply == 0,
        draft.attendance == attendance,
        draft.top15 == top15,
        draft.name@ == fixed_field(
            vstd::utf8::encode_utf8(cw_name(draft.timestamp as int, confidence)),
            64,
        ),
        draft.file_name@ == fixed_field(vstd::utf8::encode_utf8(file_name@), 32),
{
    let timestamp = screenshot_time(file_name, now);
    build_draft(timestamp, attendance, top15, confidence, file_name)
}

} // verus!
