use stalcraft_clan_tool::records::{
    decode_draft, decode_record, duplicate_last_cw, encode_draft, encode_record, load_drafts,
    DraftsError, DRAFT_SIZE, RECORD_SIZE,
};
use stalcraft_clan_tool::types::{CWDraft, CWRecord};

fn sample_draft(ts: i64) -> CWDraft {
    let mut name = [0u8; 64];
    name[..4].copy_from_slice(b"test");
    let mut file_name = [0u8; 32];
    file_name[..5].copy_from_slice(b"a.png");
    CWDraft {
        timestamp: ts,
        reserve: 1,
        top15: 0b101,
        supply: u64::MAX,
        attendance: 0x7_ffff_ffff,
        name,
        file_name,
    }
}

#[test]
fn record_bytes_are_little_endian() {
    let r = CWRecord { timestamp: -2, reserve: 0x0102, top15: 3, supply: 4 };
    let b = encode_record(&r);
    assert_eq!(b.len(), RECORD_SIZE);
    assert_eq!(&b[0..8], &[0xfe, 0xff, 0xff, 0xff, 0xff, 0xff, 0xff, 0xff]);
    assert_eq!(&b[8..16], &[0x02, 0x01, 0, 0, 0, 0, 0, 0]);
    let back = decode_record(&b, 0);
    assert_eq!(back.timestamp, -2);
    assert_eq!(back.reserve, 0x0102);
    assert_eq!(back.top15, 3);
    assert_eq!(back.supply, 4);
}

#[test]
fn draft_roundtrip() {
    let d = sample_draft(1_700_000_000);
    let b = encode_draft(&d);
    assert_eq!(b.len(), DRAFT_SIZE);
    let back = decode_draft(&b, 0);
    assert_eq!(back.timestamp, d.timestamp);
    assert_eq!(back.attendance, d.attendance);
    assert_eq!(back.supply, d.supply);
    assert_eq!(back.name, d.name);
    assert_eq!(back.file_name, d.file_name);
}

#[test]
fn load_drafts_after_appends() {
    let mut file = Vec::new();
    file.extend(encode_draft(&sample_draft(1)));
    file.extend(encode_draft(&sample_draft(2)));
    let drafts = match load_drafts(&file) {
        Ok(d) => d,
        Err(_) => panic!("drafts file should load"),
    };
    assert_eq!(drafts.len(), 2);
    assert_eq!(drafts[0].timestamp, 1);
    assert_eq!(drafts[1].timestamp, 2);
}

#[test]
fn load_drafts_rejects_partial_file() {
    let mut file = encode_draft(&sample_draft(1));
    file.pop();
    assert!(matches!(load_drafts(&file), Err(DraftsError::Corrupted)));
    assert_eq!(DraftsError::Corrupted.message(), "[DATA ERROR] Файл черновиков повреждён");
    assert!(matches!(load_drafts(&[]), Ok(ref v) if v.is_empty()));
}

#[test]
fn duplicate_last_record_replaces_timestamp() {
    let mut file = encode_record(&CWRecord { timestamp: 10, reserve: 1, top15: 2, supply: 3 });
    file.extend(encode_record(&CWRecord { timestamp: 20, reserve: 4, top15: 5, supply: 6 }));
    let appended = duplicate_last_cw(&file, 99).expect("history has a record");
    let r = decode_record(&appended, 0);
    assert_eq!((r.timestamp, r.reserve, r.top15, r.supply), (99, 4, 5, 6));
    assert!(duplicate_last_cw(&file[..31], 1).is_none());
}
