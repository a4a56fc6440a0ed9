use tuxtune::text::{
    cut_within, decimal, join, lex_less, lines, parse_u32, parse_u64, parse_u8, parse_usize, split, trim,
    utf8_len_exceeds, words,
};
use tuxtune::detect::disk::extract_block_device;
use tuxtune::tui::view::status_line;

fn cv(s: &str) -> Vec<char> {
    s.chars().collect()
}

fn sv(v: &[Vec<char>]) -> Vec<String> {
    v.iter().map(|c| c.iter().collect()).collect()
}

const SAMPLES: &[&str] = &[
    "",
    "a",
    "\n",
    "a\nb",
    "a\nb\n",
    "a\r\nb\r\n",
    "\r\n\r\n",
    "  lead and trail  ",
    "\t tabs\tand  spaces \n",
    "x::y:",
    ":",
    "one,two,,three,",
    "\u{A0}nbsp\u{3000}",
    "line\r",
];

#[test]
fn lines_match_str_lines() {
    for s in SAMPLES {
        let expected: Vec<String> = s.lines().map(String::from).collect();
        assert_eq!(sv(&lines(&cv(s))), expected, "lines of {s:?}");
    }
}

#[test]
fn words_match_split_whitespace() {
    for s in SAMPLES {
        let expected: Vec<String> = s.split_whitespace().map(String::from).collect();
        assert_eq!(sv(&words(&cv(s))), expected, "words of {s:?}");
    }
}

#[test]
fn split_matches_str_split() {
    for s in SAMPLES {
        for d in [':', ','] {
            let expected: Vec<String> = s.split(d).map(String::from).collect();
            assert_eq!(sv(&split(&cv(s), d)), expected, "split of {s:?} by {d:?}");
        }
    }
}

#[test]
fn trim_matches_str_trim() {
    for s in SAMPLES {
        let t: String = trim(&cv(s)).iter().collect();
        assert_eq!(t, s.trim(), "trim of {s:?}");
    }
}

#[test]
fn parsing_matches_str_parse() {
    let cases = ["0", "42", "+7", "-1", "", "007", "18446744073709551615", "18446744073709551616", "4294967296", "255", "256", "1 ", "x"];
    for s in cases {
        assert_eq!(parse_u64(&cv(s)), s.parse::<u64>().ok(), "u64 {s:?}");
        assert_eq!(parse_u32(&cv(s)), s.parse::<u32>().ok(), "u32 {s:?}");
        assert_eq!(parse_u8(&cv(s)), s.parse::<u8>().ok(), "u8 {s:?}");
        assert_eq!(parse_usize(&cv(s)), s.parse::<usize>().ok(), "usize {s:?}");
    }
}

#[test]
fn decimal_matches_display() {
    for n in [0u64, 7, 10, 99, 100, 12345, u64::MAX] {
        let d: String = decimal(n).iter().collect();
        assert_eq!(d, n.to_string());
    }
}

#[test]
fn lexicographic_order_matches_string_order() {
    let words = ["", "/", "/boot", "/home", "/b", "a", "ab", "b", "é", "z"];
    for a in words {
        for b in words {
            assert_eq!(lex_less(&cv(a), &cv(b)), a < b, "{a:?} < {b:?}");
        }
    }
}

#[test]
fn join_matches_slice_join() {
    let parts = vec!["rw".to_string(), "noatime".to_string(), "".to_string()];
    let j: String = join(&parts, ",").iter().collect();
    assert_eq!(j, parts.join(","));
    let j: String = join(&vec![], ",").iter().collect();
    assert_eq!(j, "");
}

#[test]
fn utf8_lengths_match_str_len() {
    for s in ["", "abc", "é", "日本語", "🦀x", "aé日🦀"] {
        for n in 0..12u64 {
            assert_eq!(utf8_len_exceeds(&cv(s), n), s.len() as u64 > n, "{s:?} over {n}");
            let (head, exact) = cut_within(&cv(s), n);
            let head: String = head.iter().collect();
            assert!(head.len() as u64 <= n);
            assert!(s.starts_with(&head));
            assert_eq!(exact, head.len() as u64 == n);
            if (n as usize) <= s.len() {
                assert_eq!(exact, s.is_char_boundary(n as usize));
            }
        }
    }
}

#[test]
fn strings_are_built_from_their_characters() {
    assert_eq!(status_line("tuxtune"), " tuxtune");
    assert_eq!(status_line(""), " ");
    assert_eq!(status_line("aé日🦀"), " aé日🦀");
    assert_eq!(extract_block_device("/dev/mapper/crypt-é1"), "crypt-é");
}
