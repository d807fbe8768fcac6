use stalcraft_clan_tool::matching::{
    best_match, check_tally_fits, match_cw_nicks, match_cw_nicks_checked, nick_candidates,
    tally_matches,
};
use stalcraft_clan_tool::types::Member;

fn member(active: bool, nick: &str) -> Member {
    Member { is_active: active, nick: nick.to_string(), discord: String::new() }
}

#[test]
fn best_match_takes_first_minimum() {
    assert_eq!(best_match(&vec![None, Some(3), Some(1), Some(1)]), Some((2, 1)));
    assert_eq!(best_match(&vec![None, None]), None);
    assert_eq!(best_match(&vec![]), None);
    assert_eq!(best_match(&vec![Some(0), Some(0)]), Some((0, 0)));
}

#[test]
fn tally_marks_close_matches() {
    let bests = vec![Some((0, 0)), Some((3, 2)), Some((5, 3)), None];
    assert_eq!(tally_matches(&bests), (0b1001, 0, 2));
}

#[test]
fn tally_takes_top15_after_fifteenth_match() {
    let mut bests: Vec<Option<(usize, usize)>> = (0..16).map(|i| Some((i, 0))).collect();
    bests.push(Some((20, 1)));
    let (attendance, top15, count) = tally_matches(&bests);
    assert_eq!(count, 17);
    assert_eq!(top15, (1u64 << 15) - 1);
    assert_eq!(attendance, ((1u64 << 16) - 1) | (1 << 20));
}

#[test]
fn match_nicks_against_roster() {
    let members = vec![
        member(true, "Alpha"),
        member(false, "Bravo"),
        member(true, "Charlie"),
        member(true, "Тест"),
    ];
    let nicks = vec![
        "alpha".to_string(),
        "Bravo".to_string(),
        "Charlie".to_string(),
        "tect".to_string(),
        "zzzzzzzz".to_string(),
    ];
    let (attendance, top15, count) = match_cw_nicks(&nicks, &members);
    // Bravo is inactive: its nearest active slot is too far; "tect" matches "Тест".
    assert_eq!(attendance, 0b1101);
    assert_eq!(top15, 0);
    assert_eq!(count, 3);
}

#[test]
fn match_nicks_tolerates_ocr_errors() {
    let members = vec![member(true, "Snow"), member(true, "Soot")];
    let nicks = vec!["5n0w".to_string(), "Sooth".to_string()];
    // "5n0w" normalises to "snow"; "sooth" is one edit from "soot".
    assert_eq!(match_cw_nicks(&nicks, &members), (0b11, 0, 2));
}

#[test]
fn candidates_pick_first_closest_active_slot() {
    let members = vec![member(true, "Snow"), member(false, "Snow"), member(true, "Snow")];
    let nicks = vec!["snow".to_string(), "xyz".to_string()];
    let bests = nick_candidates(&nicks, &members);
    assert_eq!(bests, vec![Some((0, 0)), Some((0, 4))]);
    assert_eq!(nick_candidates(&nicks, &vec![member(false, "Snow")]), vec![None, None]);
}

#[test]
fn tally_fit_limits() {
    assert!(check_tally_fits(&vec![Some((63, 2)), Some((64, 3)), None]));
    assert!(!check_tally_fits(&vec![Some((64, 2))]));
    let many: Vec<Option<(usize, usize)>> = (0..256).map(|_| Some((0, 0))).collect();
    assert!(!check_tally_fits(&many));
    let enough: Vec<Option<(usize, usize)>> = (0..255).map(|_| Some((0, 0))).collect();
    assert!(check_tally_fits(&enough));
}

#[test]
fn checked_match_agrees_or_refuses() {
    let members = vec![member(true, "Snow"), member(true, "Soot")];
    let nicks = vec!["5n0w".to_string(), "Sooth".to_string()];
    assert_eq!(match_cw_nicks_checked(&nicks, &members), Some((0b11, 0, 2)));
    let mut roster: Vec<Member> = (0..64).map(|_| member(false, "x")).collect();
    roster.push(member(true, "Late"));
    assert_eq!(match_cw_nicks_checked(&vec!["late".to_string()], &roster), None);
    assert_eq!(match_cw_nicks_checked(&vec!["zzzzzz".to_string()], &roster), Some((0, 0, 0)));
}

#[test]
fn row_order_keeps_attendance_and_count() {
    let members = vec![member(true, "Alpha"), member(true, "Bravo"), member(true, "Charlie")];
    let rows = vec!["charlie".to_string(), "zzzz".to_string(), "alpha".to_string()];
    let reordered = vec!["alpha".to_string(), "charlie".to_string(), "zzzz".to_string()];
    let (a1, _, c1) = match_cw_nicks(&rows, &members);
    let (a2, _, c2) = match_cw_nicks(&reordered, &members);
    assert_eq!((a1, c1), (a2, c2));
    assert_eq!((a1, c1), (0b101, 2));
}
