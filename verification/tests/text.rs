use sandbox_runtime::text::{
    chars_of, decimal_text, is_white_space, parse_unsigned, split_line, split_word, trim_chars,
};

const SAMPLES: [&str; 16] = [
    "",
    " ",
    "HTTP/1.1 204 No Content",
    "HTTP/1.1 200 OK\r\nServer: x\r\ncontent-length: 3",
    "a\nb\r\nc",
    "a\n\nb\n",
    "\r\n\r\n",
    "one\rtwo\r",
    "line\r\r\nnext",
    "\n",
    "  padded\t ",
    "\u{a0}12\u{3000}",
    "\u{2003}wide\u{2003}space\u{85}",
    "no-break\u{200b}joiner",
    "\u{180e}mongolian",
    "42\n",
];

#[test]
fn white_space_is_that_of_char() {
    for n in 0..=0x10ffffu32 {
        if let Some(c) = char::from_u32(n) {
            assert_eq!(is_white_space(c), c.is_whitespace(), "{:x}", n);
        }
    }
}

#[test]
fn trims_as_str_does() {
    for s in SAMPLES {
        let chars = chars_of(s);
        let inner: String = trim_chars(&chars).iter().collect();
        assert_eq!(inner, s.trim());
    }
}

#[test]
fn splits_lines_as_str_does() {
    for s in SAMPLES {
        let chars = chars_of(s);
        let mut found: Vec<String> = Vec::new();
        let mut rest: &[char] = &chars;
        while let Some((line, after)) = split_line(rest) {
            found.push(line.iter().collect());
            rest = after;
        }
        let expected: Vec<String> = s.lines().map(|l| l.to_string()).collect();
        assert_eq!(found, expected);
    }
}

#[test]
fn splits_words_as_str_does() {
    for s in SAMPLES {
        let chars = chars_of(s);
        let mut found: Vec<String> = Vec::new();
        let mut rest: &[char] = &chars;
        while let Some((word, after)) = split_word(rest) {
            found.push(word.iter().collect());
            rest = after;
        }
        let expected: Vec<String> = s.split_whitespace().map(|w| w.to_string()).collect();
        assert_eq!(found, expected);
    }
}

#[test]
fn parses_numbers_as_std_does() {
    let samples = [
        "", "+", "-", "0", "-0", "+0", "++1", "1", "+1", "-1", "007", "65535", "65536", "99999",
        "000000000000000000000065535", "4294967295", "4294967296", "18446744073709551615",
        "18446744073709551616", "184467440737095516150", "12a", "a12", " 1", "1 ", "\u{663}",
    ];
    for s in samples {
        let chars = chars_of(s);
        assert_eq!(
            parse_unsigned(&chars, u16::MAX as u64),
            s.parse::<u16>().ok().map(|n| n as u64),
            "{}",
            s
        );
        assert_eq!(
            parse_unsigned(&chars, u32::MAX as u64),
            s.parse::<u32>().ok().map(|n| n as u64),
            "{}",
            s
        );
        assert_eq!(parse_unsigned(&chars, u64::MAX), s.parse::<u64>().ok(), "{}", s);
    }
}

#[test]
fn numbers_read_back() {
    for n in [0u64, 1, 9, 10, 11, 99, 100, 4096, 65535, u64::MAX] {
        let text = decimal_text(n);
        assert_eq!(text, n.to_string());
        assert_eq!(parse_unsigned(&chars_of(&text), u64::MAX), Some(n));
    }
}
