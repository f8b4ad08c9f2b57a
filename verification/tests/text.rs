use godrick::text::{push_decimal, split_lines, trim_end_in_place, white_space};

fn chars(s: &str) -> Vec<char> {
    s.chars().collect()
}

#[test]
fn decimal_digits() {
    for n in [0usize, 7, 10, 99, 12345, usize::MAX] {
        let mut v = chars("x");
        push_decimal(&mut v, n);
        assert_eq!(v.iter().collect::<String>(), format!("x{n}"));
    }
}

#[test]
fn lines_like_std() {
    for text in ["", "a", "a\n", "a\nb", "a\r\nb\r\n", "\n\n", "x\ry\n", "end\r"] {
        let got: Vec<String> = split_lines(&chars(text)).iter().map(|l| l.iter().collect()).collect();
        let want: Vec<String> = text.lines().map(|l| l.to_string()).collect();
        assert_eq!(got, want, "{text:?}");
    }
}

#[test]
fn trim_like_std() {
    for text in ["a  ", "a\t\n", "a\u{3000}\u{85}", "  ", "b\u{200B}"] {
        let mut v = chars(text);
        trim_end_in_place(&mut v);
        assert_eq!(v.iter().collect::<String>(), text.trim_end(), "{text:?}");
    }
}

#[test]
fn white_space_like_std() {
    for u in 0u32..0x3100 {
        if let Some(c) = char::from_u32(u) {
            assert_eq!(white_space(c), c.is_whitespace(), "{u:x}");
        }
    }
}
