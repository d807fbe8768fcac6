use stalcraft_clan_tool::header::{decode_header, empty_roster, encode_header, HeaderError, HEADER_SIZE, SLOT_SIZE};
use stalcraft_clan_tool::members::{sync_members, update_member_list, SyncError};
use stalcraft_clan_tool::types::Member;

fn member(active: bool, nick: &str, discord: &str) -> Member {
    Member { is_active: active, nick: nick.to_string(), discord: discord.to_string() }
}

fn nicks(list: &[&str]) -> Vec<String> {
    list.iter().map(|s| s.to_string()).collect()
}

fn summary(members: &[Member]) -> Vec<(bool, String, String)> {
    members.iter().map(|m| (m.is_active, m.nick.clone(), m.discord.clone())).collect()
}

#[test]
fn header_layout() {
    let bytes = encode_header(&[member(true, "Ace", "ace#1"), member(false, "Old", "")]);
    assert_eq!(bytes.len(), HEADER_SIZE);
    assert_eq!(HEADER_SIZE, 35 * 97);
    assert_eq!(bytes[0], 1);
    assert_eq!(&bytes[1..4], b"Ace");
    assert!(bytes[4..33].iter().all(|&b| b == 0));
    assert_eq!(&bytes[33..38], b"ace#1");
    assert_eq!(bytes[SLOT_SIZE], 0);
    assert_eq!(&bytes[SLOT_SIZE + 1..SLOT_SIZE + 4], b"Old");
    assert!(bytes[2 * SLOT_SIZE..].iter().all(|&b| b == 0));
}

#[test]
fn header_roundtrip() {
    let written = vec![
        member(true, "Иван", "ivan"),
        member(false, "Петр", ""),
        member(true, "x", "discord_name_with_many_chars_here_but_still_short"),
    ];
    let bytes = encode_header(&written);
    let read = match decode_header(&bytes) {
        Ok(m) => m,
        Err(_) => panic!("written header should read back"),
    };
    assert_eq!(read.len(), 35);
    assert_eq!(summary(&read[..3]), summary(&written));
    assert!(read[3..].iter().all(|m| !m.is_active && m.nick.is_empty() && m.discord.is_empty()));
}

#[test]
fn header_cuts_long_nick() {
    let long = "abcdefghijklmnopqrstuvwxyz0123456789";
    let bytes = encode_header(&[member(true, long, "")]);
    let read = decode_header(&bytes).ok().unwrap();
    assert_eq!(read[0].nick, &long[..32]);
}

#[test]
fn header_too_short() {
    let bytes = vec![0u8; 100];
    match decode_header(&bytes) {
        Err(e) => {
            assert!(e == HeaderError::TooShort { expected: 3395, found: 100 });
            assert_eq!(
                e.message(),
                "Файл базы данных слишком короткий: ожидалось 3395 байт, найдено 100"
            );
        }
        Ok(_) => panic!("short header must be refused"),
    }
}

#[test]
fn empty_roster_has_free_slots() {
    let r = empty_roster();
    assert_eq!(r.len(), 35);
    assert!(r.iter().all(|m| !m.is_active && m.nick.is_empty()));
}

#[test]
fn sync_frees_leavers_and_adds_joiners() {
    let mut members = vec![
        member(true, "alice", "a#1"),
        member(true, "bob", "b#2"),
        member(false, "", ""),
        member(true, "carol", "c#3"),
    ];
    let res = sync_members(&mut members, &nicks(&["carol", "dave", "alice", "erin"]));
    assert!(res.is_ok());
    assert_eq!(
        summary(&members),
        vec![
            (true, "alice".to_string(), "a#1".to_string()),
            (true, "dave".to_string(), String::new()),
            (true, "erin".to_string(), String::new()),
            (true, "carol".to_string(), "c#3".to_string()),
        ]
    );
}

#[test]
fn sync_reports_full_roster() {
    let mut members = vec![member(true, "alice", ""), member(false, "", "")];
    let res = sync_members(&mut members, &nicks(&["alice", "bob", "carol"]));
    assert!(res == Err(SyncError::TooManyMembers));
    // bob took the free slot before carol found none.
    assert_eq!(summary(&members)[1], (true, "bob".to_string(), String::new()));
    assert_eq!(SyncError::TooManyMembers.message(), "More than 35 members");
}

#[test]
fn sync_ignores_repeated_api_names() {
    let mut members = vec![member(false, "", ""), member(false, "", "")];
    assert!(sync_members(&mut members, &nicks(&["zed", "zed"])).is_ok());
    assert_eq!(summary(&members)[0], (true, "zed".to_string(), String::new()));
    assert!(!members[1].is_active);
}

#[test]
fn sync_with_duplicate_active_nick_frees_only_the_last() {
    let mut members = vec![member(true, "bob", "1"), member(true, "bob", "2")];
    assert!(sync_members(&mut members, &nicks(&["alice"])).is_ok());
    // Only the last "bob" is looked at and freed; alice then takes that slot.
    assert!(members[0].is_active && members[0].nick == "bob");
    assert_eq!(summary(&members)[1], (true, "alice".to_string(), String::new()));
}

#[test]
fn update_refuses_empty_list() {
    let mut members = vec![member(true, "alice", "")];
    let res = update_member_list(&mut members, &Vec::new());
    assert!(res == Err(SyncError::EmptyList));
    assert!(members[0].is_active);
    assert_eq!(SyncError::EmptyList.message(), "Пустой список людей");
}

#[test]
fn second_sync_changes_nothing() {
    let mut roster = vec![
        member(true, "a", "da"),
        member(true, "b", ""),
        member(false, "", ""),
        member(false, "", ""),
    ];
    let api = nicks(&["b", "c", "d"]);
    assert!(sync_members(&mut roster, &api).is_ok());
    let once = summary(&roster);
    assert!(sync_members(&mut roster, &api).is_ok());
    assert_eq!(summary(&roster), once);
}
