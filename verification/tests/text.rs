use rusternetes_services::session::{Outcome, Reply};
use rusternetes_services::table::Table;
use rusternetes_services::text::{
    characters, contains, decimal_text, join, parse_port, remove_char, signed_decimal_text,
    whitespace, word,
};

#[test]
fn decimal_notation() {
    for n in [0u128, 1, 9, 10, 99, 100, 65535, u64::MAX as u128, u128::MAX] {
        assert_eq!(decimal_text(n), n.to_string());
    }
    for i in [0i32, 7, -1, 10800, i32::MAX, i32::MIN] {
        assert_eq!(signed_decimal_text(i), i.to_string());
    }
}

#[test]
fn port_numbers() {
    for text in [
        "", "+", "-", "0", "80", "+80", "-0", "-1", "0080", "65535", "65536", "99999", "1e3", " 80",
        "80 ", "http", "++1", "4294967297", "18446744073709551617", "٣",
    ] {
        assert_eq!(parse_port(text), text.parse::<u16>().ok(), "{}", text);
    }
}

#[test]
fn white_space_is_that_of_unicode() {
    for n in 0..=0x10FFFFu32 {
        if let Some(c) = char::from_u32(n) {
            assert_eq!(whitespace(c), c.is_whitespace(), "{:x}", n);
        }
    }
}

#[test]
fn words_of_a_line() {
    let text = "172.18.0.0/16 dev\tbr-0 \u{2003} proto  kernel";
    let all = characters(text);
    for n in 0..7usize {
        assert_eq!(
            word(&all, 0, n),
            text.split_whitespace().nth(n).map(|w| w.to_string())
        );
    }
    assert_eq!(word(&characters("   "), 0, 0), None);
}

#[test]
fn searching() {
    assert!(contains("Chain DOCKER (2 references)", "DOCKER"));
    assert!(!contains("Chain DOCK", "DOCKER"));
    assert!(contains("abc", ""));
    assert!(contains("", ""));
    assert!(!contains("", "a"));
    assert!(contains("aab", "ab"));
    assert_eq!(remove_char("10.96.0.1", '.'), "109601");
    assert_eq!(remove_char("...", '.'), "");
}

#[test]
fn joining() {
    assert_eq!(join(&vec![]), "");
    assert_eq!(join(&vec!["a".to_string()]), "a");
    assert_eq!(join(&vec!["-j".to_string(), "DNAT".to_string()]), "-j DNAT");
}

#[test]
fn output_is_decoded() {
    let outcome = Outcome::Ran {
        success: true,
        stdout: vec![0x68, 0xC3, 0xA9, 0xFF, 0x21],
        stderr: vec![],
    };
    match outcome.decode() {
        Reply::Ran { success, silent, stdout, stderr } => {
            assert!(success);
            assert!(!silent);
            assert_eq!(stdout, "h\u{e9}\u{FFFD}!");
            assert_eq!(stderr, "");
        }
        _ => panic!("not an end"),
    }
}

#[test]
fn tables_hold_one_value_per_key() {
    let mut table: Table<u16> = Table::new();
    assert!(table.get("a").is_none());
    table.insert("a".to_string(), 1);
    table.insert("b".to_string(), 2);
    table.insert("a".to_string(), 3);
    assert_eq!(table.get("a"), Some(&3));
    assert_eq!(table.get("b"), Some(&2));
    assert!(table.get("c").is_none());
}
