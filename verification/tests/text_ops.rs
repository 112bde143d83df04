use rustfetch::text::{
    chars_of, decimal_string, lines_exec, parse_u64_exec, replace_exec, split_char_exec,
    string_of, trim_ws, words_exec,
};

fn s(v: &Vec<char>) -> String {
    v.iter().collect()
}

fn pieces(v: &Vec<Vec<char>>) -> Vec<String> {
    v.iter().map(s).collect()
}

const SAMPLES: &[&str] = &[
    "",
    "a",
    "  padded  ",
    "\t\u{A0}unicode space\u{3000}",
    "a\nb\n",
    "a\r\nb\r\n\r\nc",
    "no newline\r",
    "\n\n",
    "x, y,,z",
    "  many   words\there \n",
];

#[test]
fn trim_matches_std() {
    for t in SAMPLES {
        assert_eq!(s(&trim_ws(&chars_of(t))), t.trim(), "{:?}", t);
    }
}

#[test]
fn lines_match_std() {
    for t in SAMPLES {
        let expected: Vec<String> = t.lines().map(|l| l.to_string()).collect();
        assert_eq!(pieces(&lines_exec(&chars_of(t))), expected, "{:?}", t);
    }
}

#[test]
fn words_match_std() {
    for t in SAMPLES {
        let expected: Vec<String> = t.split_whitespace().map(|l| l.to_string()).collect();
        assert_eq!(pieces(&words_exec(&chars_of(t))), expected, "{:?}", t);
    }
}

#[test]
fn split_matches_std() {
    for t in SAMPLES {
        let expected: Vec<String> = t.split(',').map(|l| l.to_string()).collect();
        assert_eq!(pieces(&split_char_exec(&chars_of(t), ',')), expected, "{:?}", t);
    }
}

#[test]
fn replace_matches_std() {
    let cases = [("$1$10$1", "$1", "X"), ("aaaa", "aa", "b"), ("$%{}", "$%", "R"), ("none", "zz", "y")];
    for (t, p, r) in cases {
        let got = replace_exec(&chars_of(t), &chars_of(p), &chars_of(r));
        assert_eq!(s(&got), t.replace(p, r));
    }
}

#[test]
fn parse_u64_matches_std() {
    let cases = ["0", "42", "+7", "", "+", "-1", "12a", " 1", "18446744073709551615", "18446744073709551616", "0042"];
    for t in cases {
        assert_eq!(parse_u64_exec(&chars_of(t)), t.parse::<u64>().ok(), "{:?}", t);
    }
}

#[test]
fn decimal_matches_std() {
    for n in [0u64, 7, 10, 99, 100, 1234567890, u64::MAX] {
        assert_eq!(decimal_string(n), n.to_string());
    }
}

#[test]
fn string_round_trip() {
    let t = "h\u{e9}llo \u{2500}";
    assert_eq!(string_of(&chars_of(t)), t);
}
