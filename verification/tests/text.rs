use simadmin_ims::number::{parse_port, to_decimal, to_lower_hex};
use simadmin_ims::text::{
    chars, contains, count_prefix, ends_with, field_after, find, remove, same, space, split_lines,
    split_words, starts_with, string, trim, Class,
};

const SAMPLES: [&str; 14] = [
    "",
    "\n",
    "\r\n",
    "one",
    "one\n",
    "one\r\ntwo\n\nthree\r",
    "a\r\r\nb",
    "  leading and trailing  ",
    "\u{a0}no-break\u{3000}wide\u{85}next",
    "x::y:z",
    "::",
    "\"quoted\"",
    "\"\"\"",
    "日本 語\tタブ",
];

fn joined(v: &Vec<Vec<char>>) -> Vec<String> {
    v.iter().map(|w| w.iter().collect()).collect()
}

#[test]
fn white_space_is_unicode_white_space() {
    for n in 0..=0x10ffffu32 {
        if let Some(c) = char::from_u32(n) {
            assert_eq!(space(c), c.is_whitespace(), "{:x}", n);
        }
    }
}

#[test]
fn lines_are_split_at_line_endings() {
    for s in SAMPLES {
        let expected: Vec<String> = s.lines().map(|l| l.to_string()).collect();
        assert_eq!(joined(&split_lines(&chars(s))), expected, "{:?}", s);
    }
}

#[test]
fn words_are_split_at_white_space() {
    for s in SAMPLES {
        let expected: Vec<String> = s.split_whitespace().map(|l| l.to_string()).collect();
        assert_eq!(joined(&split_words(&chars(s))), expected, "{:?}", s);
    }
}

#[test]
fn trimming_cuts_both_ends() {
    for s in SAMPLES {
        let cs = chars(s);
        assert_eq!(string(trim(&cs, Class::Space)), s.trim());
        assert_eq!(string(trim(&cs, Class::Is('"'))), s.trim_matches('"'));
    }
}

#[test]
fn searching_finds_the_first_place() {
    assert_eq!(find(&chars("abcabc"), &chars("ca")), Some(2));
    assert_eq!(find(&chars("abcabc"), &chars("abc")), Some(0));
    assert_eq!(find(&chars("ab"), &chars("abc")), None);
    assert_eq!(find(&chars("aab"), &chars("ab")), Some(1));
    assert_eq!(find(&chars("ab"), &chars("")), Some(0));
    assert!(contains(&chars("hello"), &chars("ll")));
    assert!(!contains(&chars("hello"), &chars("lll")));
    assert!(starts_with(&chars("hello"), &chars("he")));
    assert!(!starts_with(&chars("hello"), &chars("hello!")));
    assert!(ends_with(&chars("app.js"), &chars(".js")));
    assert!(!ends_with(&chars("app.jsx"), &chars(".js")));
    assert!(same(&chars("dir"), &chars("dir")));
    assert!(!same(&chars("dir"), &chars("di")));
}

#[test]
fn fields_and_removal() {
    for s in SAMPLES {
        let cs = chars(s);
        let expected = s.split(':').nth(1).map(|f| f.to_string());
        assert_eq!(field_after(&cs, ':').map(string), expected, "{:?}", s);
        assert_eq!(string(&remove(&cs, ' ')), s.replace(" ", ""));
    }
    assert_eq!(count_prefix(&chars("10.0.0.1/24"), Class::IsNot('/')), 8);
    assert_eq!(count_prefix(&chars("a;b"), Class::Value), 1);
    assert_eq!(count_prefix(&chars("a\r\n"), Class::Value), 1);
    assert_eq!(count_prefix(&chars("a\nb"), Class::Value), 1);
}

#[test]
fn decimal_numbers() {
    for n in [0u64, 7, 10, 99, 100, 65535, 1_000_000, u64::MAX] {
        assert_eq!(to_decimal(n), format!("{}", n));
    }
}

#[test]
fn ports_are_read_as_std_reads_them() {
    for s in [
        "0", "5060", "65535", "65536", "+5060", "+", "", "-1", "-0", "00080", "5060 ", "5a", "99999999999999999999",
        "+0000000000000000005060", "５",
    ] {
        assert_eq!(parse_port(&chars(s)), s.parse::<u16>().ok(), "{:?}", s);
    }
}

#[test]
fn written_ports_are_read_back() {
    for n in [0u16, 1, 9, 10, 5063, 65535] {
        assert_eq!(parse_port(&chars(&to_decimal(n as u64))), Some(n));
    }
}

#[test]
fn bytes_in_lower_hex() {
    assert_eq!(to_lower_hex(&[]), "");
    assert_eq!(to_lower_hex(&[0x00, 0x0f, 0xa0, 0xff]), "000fa0ff");
}
