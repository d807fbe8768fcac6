use stalcraft_clan_tool::mem::{fill_fixed_array, fill_fixed_vec};
use stalcraft_clan_tool::nick::{fold_nick_chars, normalize_nick};
use stalcraft_clan_tool::text::{
    chars_of, decode_text_field, push_binary_padded, push_decimal, push_decimal_padded,
    push_signed_decimal, string_of_chars, trim_matches_char,
};

#[test]
fn fill_fixed_vec_pads_with_zeros() {
    assert_eq!(fill_fixed_vec("abc", 5), vec![b'a', b'b', b'c', 0, 0]);
    assert_eq!(fill_fixed_vec("", 2), vec![0, 0]);
}

#[test]
fn fill_fixed_vec_cuts_long_text() {
    assert_eq!(fill_fixed_vec("abcdef", 3), b"abc".to_vec());
    // Cyrillic letters take two bytes; the cut may fall inside one.
    assert_eq!(fill_fixed_vec("Ая", 3), vec![0xD0, 0x90, 0xD1]);
    assert_eq!(fill_fixed_vec("abc", 0), Vec::<u8>::new());
}

#[test]
fn fill_fixed_array_pads_and_cuts() {
    let a: [u8; 4] = fill_fixed_array("hi");
    assert_eq!(a, [b'h', b'i', 0, 0]);
    let b: [u8; 2] = fill_fixed_array("hello");
    assert_eq!(b, [b'h', b'e']);
}

#[test]
fn normalize_nick_folds_lookalikes() {
    assert_eq!(normalize_nick("Тест_0"), "tecto");
    assert_eq!(normalize_nick("  Ace-5 "), "aces");
    assert_eq!(normalize_nick("РОМАН"), "pomaн".replace('н', "n"));
    assert_eq!(normalize_nick(""), "");
    assert_eq!(normalize_nick("[]!?"), "");
}

#[test]
fn fold_nick_keeps_letters_and_digits() {
    assert_eq!(fold_nick_chars("a b-c_1"), "abc1");
    assert_eq!(fold_nick_chars("хм5"), "xms");
}

#[test]
fn decimal_numerals() {
    let mut s = String::new();
    push_decimal(&mut s, 0);
    s.push(' ');
    push_decimal(&mut s, 1234567890);
    s.push(' ');
    push_decimal_padded(&mut s, 7, 2, '0');
    s.push(' ');
    push_decimal_padded(&mut s, 123, 2, '0');
    s.push(' ');
    push_signed_decimal(&mut s, -42);
    s.push(' ');
    push_signed_decimal(&mut s, i64::MIN);
    assert_eq!(s, "0 1234567890 07 123 -42 -9223372036854775808");
}

#[test]
fn binary_numerals_are_padded() {
    let mut s = String::new();
    push_binary_padded(&mut s, 5, 8);
    assert_eq!(s, "00000101");
    let mut t = String::new();
    push_binary_padded(&mut t, 0b1111, 2);
    assert_eq!(t, "1111");
}

#[test]
fn trimming_nul_characters() {
    let chars: Vec<char> = "\0\0ab\0c\0".chars().collect();
    let kept = trim_matches_char(&chars, '\0');
    assert_eq!(string_of_chars(&kept), "ab\0c");
    let all: Vec<char> = "\0\0".chars().collect();
    assert!(trim_matches_char(&all, '\0').is_empty());
    assert_eq!(chars_of("жук"), vec!['ж', 'у', 'к']);
}

#[test]
fn text_fields_decode_and_trim() {
    let mut field = b"Nick".to_vec();
    field.extend([0u8; 4]);
    assert_eq!(decode_text_field(&field), "Nick");
    // An invalid byte becomes the replacement character.
    assert_eq!(decode_text_field(&[b'a', 0xFF, 0]), "a\u{FFFD}");
}

#[test]
fn normal_forms_settle() {
    for s in ["Тест_0", "Снег5", "AbC-12", "  хоум  ", "", "Ärger_Σσ"] {
        let once = normalize_nick(s);
        assert_eq!(normalize_nick(&once), once);
        assert!(!once.chars().any(|c| "05аретосхунм".contains(c)));
    }
}
