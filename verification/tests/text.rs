use zeroboot::text::{
    chars_of, has_prefix, has_text, is_white_space, join_from, nth_word, read_number, same_text,
    split_once, split_text, write_number,
};

fn strings(list: &[&str]) -> Vec<String> {
    list.iter().map(|s| s.to_string()).collect()
}

#[test]
fn compares_and_searches() {
    assert!(same_text("serve", "serve"));
    assert!(!same_text("serve", "serves"));
    assert!(!same_text("serve", "servE"));
    assert!(has_text("say hello there", "hello"));
    assert!(has_text("hello", "hello"));
    assert!(has_text("abc", ""));
    assert!(!has_text("hell", "hello"));
    assert!(!has_text("helo helo", "hello"));
    assert!(has_prefix("VmRSS: 3", "VmRSS:"));
    assert!(!has_prefix(" VmRSS: 3", "VmRSS:"));
    assert!(!has_prefix("Vm", "VmRSS:"));
    assert_eq!(chars_of("aé越"), vec!['a', 'é', '越']);
}

#[test]
fn splits_like_the_standard_library() {
    for s in ["", ",", "a", "a,b", ",a,,b,", "é,越,", "no separator"] {
        let want: Vec<String> = s.split(',').map(|p| p.to_string()).collect();
        assert_eq!(split_text(s, ','), want);
        assert_eq!(split_text(s, ',').join(","), s);
        let want = s.split_once(',').map(|p| (p.0.to_string(), p.1.to_string()));
        assert_eq!(split_once(s, ','), want);
    }
}

#[test]
fn joins_from_an_index() {
    let list = strings(&["dir", "echo", "hello", "world"]);
    assert_eq!(join_from(&list, 1, " "), "echo hello world");
    assert_eq!(join_from(&list, 3, " "), "world");
    assert_eq!(join_from(&list, 4, " "), "");
}

#[test]
fn white_space_is_that_of_unicode() {
    for n in 0..=0x10ffffu32 {
        if let Some(c) = char::from_u32(n) {
            assert_eq!(is_white_space(c), c.is_whitespace());
        }
    }
}

#[test]
fn words_like_the_standard_library() {
    for s in ["", "  ", "one", " one\ttwo  three ", "VmRSS:\t  1234 kB\r", "a\u{2003}b"] {
        for n in 0..4usize {
            assert_eq!(nth_word(s, n), s.split_whitespace().nth(n).map(|w| w.to_string()));
        }
    }
}

#[test]
fn numbers_like_the_standard_library() {
    for s in [
        "", "0", "7", "+7", "-7", "-0", "+", "++1", "007", " 7", "7 ", "1_000", "12a", "65535", "65536",
        "4294967295", "4294967296", "18446744073709551615", "18446744073709551616",
        "00000000000000000000000000000000000012", "99999999999999999999999", "٣",
    ] {
        assert_eq!(read_number(s, u64::MAX), s.parse::<u64>().ok());
        assert_eq!(read_number(s, u32::MAX as u64), s.parse::<u32>().ok().map(|v| v as u64));
        assert_eq!(read_number(s, u16::MAX as u64), s.parse::<u16>().ok().map(|v| v as u64));
    }
}

#[test]
fn written_numbers_read_back() {
    for n in [0u64, 9, 10, 42, 8080, 65535, 1_000_000, u64::MAX] {
        assert_eq!(write_number(n), n.to_string());
        assert_eq!(read_number(&write_number(n), u64::MAX), Some(n));
    }
}
