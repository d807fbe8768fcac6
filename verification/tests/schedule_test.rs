use stalcraft_clan_tool::schedule::{cw_type_for, get_name, get_ru_day, weekday_and_second};
use stalcraft_clan_tool::types::CWType;

// 1970-01-05 was a Monday.
const MONDAY: i64 = 4 * 86400;

#[test]
fn weekdays_of_timestamps() {
    assert_eq!(get_ru_day(0), "Четверг");
    assert_eq!(get_ru_day(MONDAY), "Понедельник");
    assert_eq!(get_ru_day(MONDAY + 6 * 86400 + 86399), "Воскресенье");
    assert_eq!(get_ru_day(-1), "Среда");
    assert_eq!(weekday_and_second(-1), (2, 86399));
    assert_eq!(weekday_and_second(1_704_128_400), (0, 61200));
}

#[test]
fn weekday_kinds() {
    assert!(cw_type_for(0) == CWType::BRAWL);
    assert!(cw_type_for(2) == CWType::BRAWL);
    assert!(cw_type_for(3) == CWType::TOURNAMENT);
    assert!(cw_type_for(5) == CWType::TOURNAMENT);
    assert!(cw_type_for(6) == CWType::BRAWL);
}

#[test]
fn name_at_start_of_brawl() {
    assert_eq!(get_name(MONDAY + 61200, 100), "Понедельник: Этап 1: Разминка: 00:00 100%");
}

#[test]
fn name_during_brawl_play() {
    // 17:05:30: five minutes of warm-up are over.
    assert_eq!(get_name(MONDAY + 61200 + 330, 87), "Понедельник: Этап 1: Игра: 00:30 87%");
    // 17:21:05: second round (cycle of 20 minutes), warm-up.
    assert_eq!(get_name(MONDAY + 61200 + 1265, 5), "Понедельник: Этап 2: Разминка: 01:05 5%");
}

#[test]
fn name_during_tournament() {
    // Thursday: rounds of 5 + 20 minutes.
    let thursday = MONDAY + 3 * 86400;
    assert_eq!(get_name(thursday + 61200 + 1500 * 2 + 300 + 19 * 60 + 59, 0), "Четверг: Этап 3: Игра: 19:59 0%");
}

#[test]
fn name_outside_the_war() {
    assert_eq!(get_name(MONDAY + 61199, 100), "Понедельник: Свободное время");
    assert_eq!(get_name(MONDAY + 61200 + 3 * 1200 + 1, 100), "Понедельник: Свободное время");
    // Once the third round is over it is free time again.
    assert_eq!(get_name(MONDAY + 61200 + 3 * 1200, 1), "Понедельник: Свободное время");
    assert_eq!(get_name(MONDAY + 61200 + 3 * 1200 - 1, 1), "Понедельник: Этап 3: Игра: 14:59 1%");
}
