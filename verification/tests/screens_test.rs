use stalcraft_clan_tool::api::{ClanMember, Requester};
use stalcraft_clan_tool::config::Config;
use stalcraft_clan_tool::grid::grid_lines;
use stalcraft_clan_tool::parties::{clean_parties, PartyCell};
use stalcraft_clan_tool::screenshot::{
    confidence_percent, content_width, count_bright_rows, draft_from_screenshot, screenshot_time,
};
use stalcraft_clan_tool::types::{ActiveData, AppContext, CWDraft, Member};
use stalcraft_clan_tool::ui::{
    active_slots, apply_discord_line, current_draft_text, member_labels, notification_body,
    present_nicks, recognised_nick, screenshot_target, select_draft, set_discord, wants_discord,
};

fn member(active: bool, nick: &str, discord: &str) -> Member {
    Member { is_active: active, nick: nick.to_string(), discord: discord.to_string() }
}

fn config() -> Config {
    Config {
        stalcraft_api_token: "TOKEN".to_string(),
        stalcraft_clan_id: "clan-1".to_string(),
        stalcraft_region: "ru".to_string(),
        header_file_path: String::new(),
        cw_history_path: String::new(),
        parties_file_path: String::new(),
        cw_draft_path: String::new(),
        screenshot_path: String::new(),
        screenshot_left_indent: 0,
        screenshot_right_indent: 0,
        max_threads: 1,
    }
}

#[test]
fn api_requests() {
    let r = Requester::default(&config());
    assert_eq!(r.url("clan/x/members"), "https://eapi.stalcraft.net/ru/clan/x/members");
    assert_eq!(r.auth_header(), "Bearer TOKEN");
    assert_eq!(Requester::clan_members_path("clan-1"), "clan/clan-1/members");
    let demo = Requester { demo_api: true, ..r };
    assert_eq!(demo.url("p"), "https://dapi.stalcraft.net/ru/p");
    let names = Requester::clan_members(vec![
        ClanMember { name: "a".to_string() },
        ClanMember { name: "b".to_string() },
    ]);
    assert_eq!(names, vec!["a".to_string(), "b".to_string()]);
}

#[test]
fn grid_single_column_for_short_lists() {
    let items: Vec<String> = vec!["ab".to_string(), "c".to_string()];
    assert_eq!(grid_lines(&items, 8, 3), vec![" 1) ab  ".to_string(), " 2) c   ".to_string()]);
    assert!(grid_lines(&Vec::new(), 8, 3).is_empty());
}

#[test]
fn grid_columns_run_down_first() {
    let items: Vec<String> = (1..=11).map(|i| format!("n{}", i)).collect();
    let lines = grid_lines(&items, 7, 3);
    assert_eq!(lines.len(), 4);
    assert_eq!(lines[0], " 1) n1  5) n5  9) n9 ");
    assert_eq!(lines[3], " 4) n4  8) n8 ");
    assert_eq!(lines[2], " 3) n3  7) n7 11) n11");
}

#[test]
fn screenshot_rows_and_confidence() {
    assert_eq!(count_bright_rows(&[200, 61, 60, 255]), 2);
    assert_eq!(count_bright_rows(&[]), 0);
    assert_eq!(count_bright_rows(&[100, 100]), 2);
    assert_eq!(content_width(100, 10, 20), Some(70));
    assert_eq!(content_width(100, 60, 50), None);
    assert_eq!(confidence_percent(7, 10), 70);
    assert_eq!(confidence_percent(3, 3), 100);
    assert_eq!(confidence_percent(0, 65537), 0);
}

#[test]
fn screenshot_time_from_file_name() {
    assert_eq!(screenshot_time("CW_UTC_20240101_170000.png", 5), 1_704_128_400);
    assert_eq!(screenshot_time("photo.png", 5), 5);
}

#[test]
fn draft_for_screenshot() {
    let d = draft_from_screenshot(0b11, 0b1, 50, "CW_UTC_20240101_170000.png", 0);
    assert_eq!(d.timestamp, 1_704_128_400);
    assert_eq!((d.reserve, d.supply, d.attendance, d.top15), (0, 0, 0b11, 0b1));
    assert_eq!(d.label(), "Понедельник: Этап 1: Разминка: 00:00 50%");
    assert_eq!(&d.file_name[..26], b"CW_UTC_20240101_170000.png");
    assert!(d.file_name[26..].iter().all(|&b| b == 0));
}

#[test]
fn draft_description() {
    let d = draft_from_screenshot(5, 0, 100, "a.png", 61200);
    let text = d.to_text();
    assert_eq!(
        text,
        "Черновик: Четверг: Этап 1: Разминка: 00:00 100%\nТаймштамп: 61200\n\
         Люди в запасе: 00000000000000000000000000000000000\n\
         Топ 15: 00000000000000000000000000000000000\n\
         Получившие расходники: 00000000000000000000000000000000000\n\
         Посещаемость: 00000000000000000000000000000000101\nИмя файла: a.png\n"
    );
}

#[test]
fn selecting_a_draft() {
    let d = draft_from_screenshot(0, 0, 1, "x", 0);
    let mut ctx = AppContext::default();
    assert!(current_draft_text(&ctx).is_none());
    select_draft(&mut ctx, vec![d, d], 2);
    assert_eq!(ctx.current_idx, 1);
    assert!(matches!(ctx.data, ActiveData::Drafts(ref v) if v.len() == 2));
    assert_eq!(current_draft_text(&ctx), Some(d.to_text()));
    let _: CWDraft = d;
}

#[test]
fn roster_screens() {
    let mut members = vec![member(true, "a", "x"), member(false, "b", ""), member(true, "c", "")];
    let idx = active_slots(&members);
    assert_eq!(idx, vec![0, 2]);
    assert_eq!(member_labels(&members, &idx), vec!["a — x".to_string(), "c — ".to_string()]);
    assert!(!set_discord(&mut members, 2, "   \n"));
    assert!(set_discord(&mut members, 2, " user#1\n"));
    assert_eq!(members[2].discord, "user#1");
    assert!(!wants_discord(&members[0]));
    assert!(wants_discord(&member(true, "d", "")));
    assert!(!wants_discord(&member(false, "d", "")));
}

#[test]
fn discord_answer_lines() {
    let mut m = member(true, "a", "");
    apply_discord_line(&mut m, "\n");
    assert_eq!(m.discord, "");
    apply_discord_line(&mut m, "x\n");
    assert_eq!(m.discord, "");
    apply_discord_line(&mut m, "  y  \n");
    assert_eq!(m.discord, "");
    apply_discord_line(&mut m, " name \n");
    assert_eq!(m.discord, "name");
    apply_discord_line(&mut m, "ж\n");
    assert_eq!(m.discord, "name");
    apply_discord_line(&mut m, "жё\r\n");
    assert_eq!(m.discord, "жё");
}

#[test]
fn present_nicks_by_mask() {
    let members = vec![member(true, "a", ""), member(true, "b", ""), member(false, "c", "")];
    assert_eq!(present_nicks(&members, 0b101), vec!["a".to_string(), "c".to_string()]);
    assert!(present_nicks(&members, 0).is_empty());
}

#[test]
fn notification_texts() {
    assert_eq!(notification_body(&Ok(100)), "Черновик КВ успешно сохранён");
    assert_eq!(notification_body(&Ok(42)), "Черновик сохранён.\nТочность: 42%");
    assert_eq!(notification_body(&Err("нет файла".to_string())), "Ошибка сохранения: нет файла");
}

#[test]
fn screenshot_paths_and_ocr_lines() {
    assert_eq!(screenshot_target("  \n", "/default.png"), "/default.png");
    assert_eq!(screenshot_target("/x.png\n", "/default.png"), "/x.png");
    assert_eq!(screenshot_target(" /tmp/shot.png\r\n", "/default.png"), "/tmp/shot.png");
    assert_eq!(screenshot_target("\u{3000}/a.png\u{85}", "/default.png"), "/a.png");
    assert_eq!(screenshot_target("\u{2003}\t", "/default.png"), "/default.png");
    assert_eq!(recognised_nick("  Nick \r\nnoise\n"), "Nick");
    assert_eq!(recognised_nick(""), "");
    assert_eq!(recognised_nick("\nsecond"), "");
    assert_eq!(recognised_nick("one\rtwo"), "one\rtwo");
}

#[test]
fn cleaning_parties() {
    let members = vec![member(true, "Alpha", ""), member(true, "Bravo", ""), member(false, "Gone", "")];
    let cell = |row: u32, col: u32, text: &str| PartyCell { row, col, text: text.to_string() };
    let cells = vec![
        cell(0, 0, "Header"),
        cell(1, 1, " alpha "),
        cell(1, 2, "ALPHA"),
        cell(2, 1, "Gone"),
        cell(8, 1, "alpha"),
        cell(3, 3, "nobody"),
    ];
    let (written, missing) = clean_parties(&cells, &members);
    assert_eq!(
        written,
        vec![
            "Header".to_string(),
            " alpha ".to_string(),
            String::new(),
            String::new(),
            "alpha".to_string(),
            String::new(),
        ]
    );
    assert_eq!(missing, vec!["bravo".to_string()]);
}
