//! The clan-war schedule: weekdays, the daily start at 17:00 UTC, rounds of
//! warm-up and play, and the names given to drafts.

use vstd::prelude::*;
use crate::text::{decimal, pad_left, push_decimal, push_decimal_padded, push_str};
use crate::types::CWType;

verus! {

/// Seconds in a day.
pub const SECONDS_PER_DAY: i64 = 86400;

/// Seconds after midnight UTC at which the clan war starts.
pub const CW_START_SECONDS: i64 = 61200;

/// Seconds of warm-up before each round.
pub const WARM_UP_SECONDS: i64 = 300;

/// Days since 1970-01-01 (a Thursday) of the UTC day that holds `ts`.
pub open spec fn day_of(ts: int) -> int {
    ts / 86400
}

/// The weekday of the UTC day that holds `ts`, Monday being 0.
pub open spec fn weekday_of(ts: int) -> int {
    (day_of(ts) + 3) % 7
}

/// Seconds since midnight UTC of `ts`.
pub open spec fn second_of_day(ts: int) -> int {
    ts % 86400
}

/// A multiple of a week in seconds, larger than any `i64` is negative.
const WEEK_OFFSET: i128 = 9223372036855065600i128;

/// The weekday (Monday = 0) and the second of the day of a Unix timestamp, in UTC.
pub fn weekday_and_second(ts: i64) -> (res: (u32, u32))
    ensures
        res.0 as int == weekday_of(ts as int),
        res.1 as int == second_of_day(ts as int),
        res.0 < 7,
        res.1 < 86400,
{
    let shifted: i128 = ts as i128 + WEEK_OFFSET;
    let u: u128 = shifted as u128;
    let days: u128 = u / 86400;
    let second: u128 = u % 86400;
    let weekday: u128 = (days + 3) % 7;
    proof {
        let t = ts as int;
        let n: int = 15250284452472;
        assert(WEEK_OFFSET == 604800 * n);
        vstd::arithmetic::div_mod::lemma_fundamental_div_mod(t, 86400);
        vstd::arithmetic::div_mod::lemma_mod_bound(t, 86400);
        vstd::arithmetic::div_mod::lemma_fundamental_div_mod_converse(
            u as int,
            86400,
            t / 86400 + 7 * n,
            t % 86400,
        );
        let d = t / 86400;
        vstd::arithmetic::div_mod::lemma_fundamental_div_mod(d + 3, 7);
        vstd::arithmetic::div_mod::lemma_mod_bound(d + 3, 7);
        vstd::arithmetic::div_mod::lemma_fundamental_div_mod_converse(
            d + 7 * n + 3,
            7,
            (d + 3) / 7 + n,
            (d + 3) % 7,
        );
    }
    (weekday as u32, second as u32)
}

/// The Russian name of weekday `weekday` (Monday = 0).
pub open spec fn ru_day_name(weekday: int) -> Seq<char> {
    if weekday == 0 {
        "Понедельник"@
    } else if weekday == 1 {
        "Вторник"@
    } else if weekday == 2 {
        "Среда"@
    } else if weekday == 3 {
        "Четверг"@
    } else if weekday == 4 {
        "Пятница"@
    } else if weekday == 5 {
        "Суббота"@
    } else {
        "Воскресенье"@
    }
}

fn push_ru_day(s: &mut String, weekday: u32)
    requires
        weekday < 7,
    ensures
        final(s)@ == old(s)@ + ru_day_name(weekday as int),
{
    if weekday == 0 {
        push_str(s, "Понедельник");
    } else if weekday == 1 {
        push_str(s, "Вторник");
    } else if weekday == 2 {
        push_str(s, "Среда");
    } else if weekday == 3 {
        push_str(s, "Четверг");
    } else if weekday == 4 {
        push_str(s, "Пятница");
    } else if weekday == 5 {
        push_str(s, "Суббота");
    } else {
        push_str(s, "Воскресенье");
    }
}

/// The Russian name of the UTC weekday of the Unix timestamp `timestamp`.
pub fn get_ru_day(timestamp: i64) -> (name: String)
    ensures
        name@ == ru_day_name(weekday_of(timestamp as int)),
{
    let (weekday, _) = weekday_and_second(timestamp);
    let mut name = String::new();
    push_ru_day(&mut name, weekday);
    name
}

/// The kind of clan war held on weekday `weekday` (Monday = 0): brawls from
/// Monday to Wednesday and on Sunday, tournaments from Thursday to Saturday.
pub open spec fn cw_type_of(weekday: int) -> CWType {
    if 3 <= weekday <= 5 {
        CWType::TOURNAMENT
    } else {
        CWType::BRAWL
    }
}

/// Minutes of play in a round of a clan war of kind `t`.
pub open spec fn round_minutes(t: CWType) -> int {
    match t {
        CWType::BRAWL => 15,
        CWType::TOURNAMENT => 20,
        CWType::BASECAPTURING => 20,
    }
}

/// The kind of clan war held on weekday `weekday` (Monday = 0).
pub fn cw_type_for(weekday: u32) -> (t: CWType)
    requires
        weekday < 7,
    ensures
        t == cw_type_of(weekday as int),
{
    if weekday <= 2 {
        CWType::BRAWL
    } else if weekday <= 5 {
        CWType::TOURNAMENT
    } else {
        CWType::BRAWL
    }
}

/// Minutes of play in a round of a clan war of kind `t`.
pub fn round_length_minutes(t: CWType) -> (m: i64)
    ensures
        m as int == round_minutes(t),
{
    match t {
        CWType::BRAWL => 15,
        CWType::TOURNAMENT => 20,
        CWType::BASECAPTURING => 20,
    }
}

/// Seconds of one round (warm-up and play) of the clan war on the UTC day of `ts`.
pub open spec fn cw_cycle(ts: int) -> int {
    300 + round_minutes(cw_type_of(weekday_of(ts))) * 60
}

/// Seconds from 17:00 UTC of the day of `ts` to `ts`.
pub open spec fn cw_elapsed(ts: int) -> int {
    second_of_day(ts) - 61200
}

/// Whether `ts` falls before 17:00 UTC or once the third round is over.
pub open spec fn is_free_time(ts: int) -> bool {
    cw_elapsed(ts) < 0 || cw_elapsed(ts) >= cw_cycle(ts) * 3
}

/// The round (from 1) that `ts` falls in.
pub open spec fn cw_round(ts: int) -> int {
    cw_elapsed(ts) / cw_cycle(ts) + 1
}

/// The name of a draft recognised at `ts` with `confidence` percent of rows
/// matched: the weekday, then either free time, or the round (from 1), the
/// phase (warm-up or play) and the minutes and seconds into it, and the
/// confidence. Three rounds of warm-up and play follow 17:00 UTC; before that
/// and after the third round is free time.
pub open spec fn cw_name(ts: int, confidence: u8) -> Seq<char> {
    let weekday = weekday_of(ts);
    let day = ru_day_name(weekday);
    let cycle = cw_cycle(ts);
    let total = cw_elapsed(ts);
    if is_free_time(ts) {
        day + ": Свободное время"@
    } else {
        let round = cw_round(ts);
        let into = total % cycle;
        let (phase, time) = if into < 300 {
            ("Разминка"@, into)
        } else {
            ("Игра"@, into - 300)
        };
        day + ": Этап "@ + decimal(round as nat) + ": "@ + phase + ": "@ + pad_left(
            decimal((time / 60) as nat),
            2,
            '0',
        ) + ":"@ + pad_left(decimal((time % 60) as nat), 2, '0') + " "@ + decimal(
            confidence as nat,
        ) + "%"@
    }
}

/// The name of a draft recognised at Unix time `timestamp` with `confidence`
/// percent of rows matched, as `cw_name` describes it.
pub fn get_name(timestamp: i64, confidence: u8) -> (name: String)
    ensures
        name@ == cw_name(timestamp as int, confidence),
{
    let (weekday, second) = weekday_and_second(timestamp);
    let t = cw_type_for(weekday);
    let cycle: i64 = WARM_UP_SECONDS + round_length_minutes(t) * 60;
    let total: i64 = second as i64 - CW_START_SECONDS;
    let mut name = String::new();
    push_ru_day(&mut name, weekday);
    if total < 0 || total >= cycle * 3 {
        push_str(&mut name, ": Свободное время");
        return name;
    }
    let round: i64 = total / cycle + 1;
    let into: i64 = total % cycle;
    push_str(&mut name, ": Этап ");
    push_decimal(&mut name, round as u64);
    push_str(&mut name, ": ");
    let time: i64 = if into < WARM_UP_SECONDS {
        push_str(&mut name, "Разминка");
        into
    } else {
        push_str(&mut name, "Игра");
        into - WARM_UP_SECONDS
    };
    push_str(&mut name, ": ");
    push_decimal_padded(&mut name, (time / 60) as u64, 2, '0');
    push_str(&mut name, ":");
    push_decimal_padded(&mut name, (time % 60) as u64, 2, '0');
    push_str(&mut name, " ");
    push_decimal(&mut name, confidence as u64);
    push_str(&mut name, "%");
    name
}

/// Outside free time a draft falls in one of the three rounds, with less
/// than a round's length into it.
pub proof fn law_rounds(ts: int)
    requires
        !is_free_time(ts),
    ensures
        1 <= cw_round(ts) <= 3,
        0 <= cw_elapsed(ts) % cw_cycle(ts) < cw_cycle(ts),
{
    let c = cw_cycle(ts);
    let e = cw_elapsed(ts);
    assert(c == 1200 || c == 1500);
    vstd::arithmetic::div_mod::lemma_fundamental_div_mod(e, c);
    vstd::arithmetic::div_mod::lemma_mod_bound(e, c);
    assert(0 <= e / c < 3) by (nonlinear_arith)
        requires
            0 <= e < c * 3,
            c > 0,
            e == c * (e / c) + e % c,
            0 <= e % c < c,
    ;
}

/// The kind of clan war goes by the weekday: on Monday, Tuesday, Wednesday
/// and Sunday brawls with 15 minutes of play, so rounds of 20 minutes with
/// the warm-up; from Thursday to Saturday tournaments with 20 minutes of
/// play, so rounds of 25 minutes.
pub proof fn law_war_kinds(ts: int)
    ensures
        weekday_of(ts) == 0 || weekday_of(ts) == 1 || weekday_of(ts) == 2 || weekday_of(ts) == 6
            ==> cw_type_of(weekday_of(ts)) == CWType::BRAWL && cw_cycle(ts) == 1200,
        weekday_of(ts) == 3 || weekday_of(ts) == 4 || weekday_of(ts) == 5 ==> cw_type_of(
            weekday_of(ts),
        ) == CWType::TOURNAMENT && cw_cycle(ts) == 1500,
{
}

/// Weekdays follow the days: 1970-01-01 (Unix time 0) was a Thursday, each
/// day after the last one is the next weekday, and a timestamp has the weekday
/// of the midnight that starts its day.
pub proof fn law_weekdays(ts: int)
    ensures
        weekday_of(0) == 3,
        weekday_of(ts + 86400) == (weekday_of(ts) + 1) % 7,
        0 <= second_of_day(ts) < 86400,
        weekday_of(ts - second_of_day(ts)) == weekday_of(ts),
        second_of_day(ts + 86400) == second_of_day(ts),
{
    vstd::arithmetic::div_mod::lemma_fundamental_div_mod(ts, 86400);
    vstd::arithmetic::div_mod::lemma_mod_bound(ts, 86400);
    let d = ts / 86400;
    let r = ts % 86400;
    vstd::arithmetic::div_mod::lemma_fundamental_div_mod_converse(ts + 86400, 86400, d + 1, r);
    vstd::arithmetic::div_mod::lemma_fundamental_div_mod_converse(ts - r, 86400, d, 0);
    vstd::arithmetic::div_mod::lemma_fundamental_div_mod(d + 3, 7);
    vstd::arithmetic::div_mod::lemma_mod_bound(d + 3, 7);
    vstd::arithmetic::div_mod::lemma_fundamental_div_mod((d + 3) % 7 + 1, 7);
    vstd::arithmetic::div_mod::lemma_mod_bound((d + 3) % 7 + 1, 7);
    vstd::arithmetic::div_mod::lemma_fundamental_div_mod(d + 4, 7);
    vstd::arithmetic::div_mod::lemma_mod_bound(d + 4, 7);
    assert(weekday_of(ts + 86400) == (weekday_of(ts) + 1) % 7) by (nonlinear_arith)
        requires
            weekday_of(ts + 86400) == (d + 4) % 7,
            weekday_of(ts) == (d + 3) % 7,
            d + 3 == 7 * ((d + 3) / 7) + (d + 3) % 7,
            0 <= (d + 3) % 7 < 7,
            d + 4 == 7 * ((d + 4) / 7) + (d + 4) % 7,
            0 <= (d + 4) % 7 < 7,
            (d + 3) % 7 + 1 == 7 * (((d + 3) % 7 + 1) / 7) + ((d + 3) % 7 + 1) % 7,
            0 <= ((d + 3) % 7 + 1) % 7 < 7,
    ;
}

/// The name of a draft spelled out by the clock: with `e` the seconds since
/// 17:00 UTC and `round` the length of a round on that weekday (20 minutes on
/// brawl days, 25 on tournament days), a time before 17:00 or from three
/// rounds on is free time; otherwise the name gives the round `e / round + 1`,
/// warm-up during its first 5 minutes and play after them, and the minutes
/// and seconds into that phase, two digits each.
pub proof fn law_name_by_clock(ts: int, confidence: u8)
    ensures
        ({
            let w = weekday_of(ts);
            let e = second_of_day(ts) - 61200;
            let round: int = if w == 3 || w == 4 || w == 5 {
                1500
            } else {
                1200
            };
            let into = e % round;
            let phase_time: int = if into < 300 {
                into
            } else {
                into - 300
            };
            if e < 0 || e >= 3 * round {
                cw_name(ts, confidence) == ru_day_name(w) + ": Свободное время"@
            } else {
                cw_name(ts, confidence) == ru_day_name(w) + ": Этап "@ + decimal((e / round + 1) as nat)
                    + ": "@ + (if into < 300 {
                    "Разминка"@
                } else {
                    "Игра"@
                }) + ": "@ + pad_left(decimal((phase_time / 60) as nat), 2, '0') + ":"@ + pad_left(
                    decimal((phase_time % 60) as nat),
                    2,
                    '0',
                ) + " "@ + decimal(confidence as nat) + "%"@
            }
        }),
{
    law_war_kinds(ts);
}

} // verus!
