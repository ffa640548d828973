use power_monitor::bytes::{bytes_are, decoded, kernel_text, until_nul};
use power_monitor::suggest::{levenshtein, suggest_command};
use power_monitor::text::{
    chars_of, decimal, find_char, find_text, has_prefix, has_suffix, is_white, parse_uint,
    push_padded, push_padded_right, push_repeated, same, split_char, split_lines, split_words,
    text_of, trim, IntError,
};

#[test]
fn numbers_are_read_back() {
    for n in [0, 7, 10, 4096, u64::MAX] {
        assert_eq!(decimal(n), n.to_string());
        assert_eq!(parse_uint(&decimal(n), u64::MAX), Ok(n));
    }
    assert_eq!(parse_uint("+12", 100), Ok(12));
    assert_eq!(parse_uint("007", 100), Ok(7));
    assert_eq!(parse_uint("65535", 65535), Ok(65535));
}

#[test]
fn malformed_numbers_are_refused() {
    assert_eq!(parse_uint("", 10), Err(IntError::Empty));
    assert_eq!(parse_uint("-1", 10), Err(IntError::InvalidDigit));
    assert_eq!(parse_uint("1x", 10), Err(IntError::InvalidDigit));
    assert_eq!(parse_uint("+", 10), Err(IntError::InvalidDigit));
    assert_eq!(parse_uint("65536", 65535), Err(IntError::TooLarge));
    assert_eq!(IntError::Empty.message(), "".parse::<u16>().unwrap_err().to_string());
    assert_eq!(IntError::InvalidDigit.message(), "x".parse::<u16>().unwrap_err().to_string());
    assert_eq!(IntError::TooLarge.message(), "65536".parse::<u16>().unwrap_err().to_string());
}

#[test]
fn integer_parsing_agrees_with_the_standard_library() {
    for s in ["", "+", "-", "-0", "+0", "00", "12", "65535", "65536", "99999999999", "1 ", " 1", "1_0"] {
        assert_eq!(parse_uint(s, 65535).ok(), s.parse::<u16>().ok().map(u64::from), "{s}");
    }
}

#[test]
fn texts_are_cut_and_found() {
    let v = chars_of("añb:c");
    assert_eq!(v.len(), 5);
    assert_eq!(text_of(&v, 1, 3), "ñb");
    assert_eq!(find_char(&v, 0, ':'), 3);
    assert_eq!(find_char(&v, 0, 'x'), 5);
    assert_eq!(find_text(&v, 0, &chars_of("b:")), Some(2));
    assert_eq!(find_text(&v, 3, &chars_of("b:")), None);
    assert!(same("añb", "añb") && !same("añb", "anb") && !same("a", "ab"));
    assert!(has_prefix("--auth=x", "--auth=") && !has_prefix("--au", "--auth="));
    assert!(has_suffix("page.1", ".1") && !has_suffix("1", ".1"));
}

#[test]
fn white_space_agrees_with_the_standard_library() {
    for c in (0..0x3100).filter_map(char::from_u32) {
        assert_eq!(is_white(c), c.is_whitespace(), "{c:?}");
    }
    for s in ["", "  ", "a", " a b ", "\u{2003}x\u{3000}", "\tx\r\n"] {
        assert_eq!(trim(s), s.trim());
    }
}

#[test]
fn splitting_agrees_with_the_standard_library() {
    for s in ["", ",", "a,b,,c", ",a", "a,", "ab"] {
        assert_eq!(split_char(s, ','), s.split(',').collect::<Vec<_>>());
    }
    for s in ["", "  ", "a", " a  b\tc ", "x\ny"] {
        assert_eq!(split_words(s), s.split_whitespace().collect::<Vec<_>>());
    }
    for s in ["", "\n", "a\nb", "a\r\nb\r\n", "a\n\nb", "a\r", "\r\n"] {
        assert_eq!(split_lines(s), s.lines().collect::<Vec<_>>(), "{s:?}");
    }
}

#[test]
fn padding() {
    let mut out = String::new();
    push_padded(&mut out, "7", '0', 2);
    push_padded(&mut out, "123", '0', 2);
    push_padded_right(&mut out, "ab", 4);
    push_repeated(&mut out, '─', 2);
    assert_eq!(out, "07123ab  ──");
}

#[test]
fn bytes_are_read_as_text() {
    assert_eq!(decoded(b"mac01"), "mac01");
    assert_eq!(decoded("é".as_bytes()), "é");
    assert_eq!(decoded(&[0x61, 0xff]), "");
    assert!(bytes_are(b"uJ", "uJ") && !bytes_are(b"uJ", "mJ") && !bytes_are(&[0xff], "x"));
    assert_eq!(until_nul(b"ab\0cd"), b"ab".to_vec());
    assert_eq!(until_nul(b"ab"), b"ab".to_vec());
    assert_eq!(kernel_text(b"Apple M5\0\0".to_vec()).as_deref(), Some("Apple M5"));
    assert_eq!(kernel_text(vec![0xff, 0]), None);
}

#[test]
fn distances_between_words() {
    assert_eq!(levenshtein("", ""), 0);
    assert_eq!(levenshtein("kitten", "sitting"), 3);
    assert_eq!(levenshtein("sitting", "kitten"), 3);
    assert_eq!(levenshtein("", "abc"), 3);
    assert_eq!(levenshtein("serve", "serve"), 0);
    assert_eq!(levenshtein("sérve", "serve"), 1);
}

#[test]
fn near_misses_are_suggested() {
    assert_eq!(suggest_command("serv"), Some("serve"));
    assert_eq!(suggest_command("colect"), Some("collect"));
    assert_eq!(suggest_command("pip"), Some("pipe"));
    assert_eq!(suggest_command("serve"), Some("serve"));
    assert_eq!(suggest_command("xyzzyplugh"), None);
}

#[test]
fn a_detour_is_not_shorter() {
    let words = ["", "a", "é", "ab", "ba", "serve", "swerve", "version", "kitten", "sitting"];
    for a in words {
        for b in words {
            for c in words {
                assert!(levenshtein(a, b) <= levenshtein(a, c) + levenshtein(c, b), "{a} {b} {c}");
            }
        }
    }
    assert_eq!(levenshtein("é", "e"), 1);
}

#[test]
fn one_edit_is_one_step() {
    let word: Vec<char> = "serve".chars().collect();
    let text = |v: &[char]| v.iter().collect::<String>();
    for i in 0..word.len() {
        let (mut longer, mut shorter, mut other) = (word.clone(), word.clone(), word.clone());
        longer.insert(i, 'é');
        shorter.remove(i);
        other[i] = 'é';
        for edited in [longer, shorter, other] {
            assert_eq!(levenshtein("serve", &text(&edited)), 1);
        }
    }
}
