use legion_kb_rgb::settings::Settings;
use legion_kb_rgb::temperature::temperature_hot_color;
use legion_kb_rgb::util::{accent_color_from_output, chars_of, parse_u32, rgb_from_colorization, trimmed_first_line, white_space};

#[test]
fn colour_word_bytes() {
    assert_eq!(rgb_from_colorization(0xC4_12_34_56), [0x12, 0x34, 0x56]);
    assert_eq!(rgb_from_colorization(0), [0, 0, 0]);
    assert_eq!(rgb_from_colorization(u32::MAX), [255, 255, 255]);
}

#[test]
fn accent_from_output() {
    assert_eq!(accent_color_from_output("3289658046\r\n"), Some(rgb_from_colorization(3289658046)));
    assert_eq!(accent_color_from_output("  16711680  \nnext"), Some([255, 0, 0]));
    assert_eq!(accent_color_from_output("+255"), Some([0, 0, 255]));
    assert_eq!(accent_color_from_output(""), None);
    assert_eq!(accent_color_from_output("\n42"), None);
    assert_eq!(accent_color_from_output("4294967296"), None);
    assert_eq!(accent_color_from_output("-1"), None);
    assert_eq!(accent_color_from_output("12 34"), None);
    assert_eq!(accent_color_from_output("\u{3000}7\u{a0}"), Some([0, 0, 7]));
}

#[test]
fn parsing_agrees_with_std() {
    let cases = ["0", "+0", "+", "", "007", "4294967295", "4294967296", "99999999999999999999", "1a", "a1", "-0", " 1"];
    for c in cases {
        let v = chars_of(c);
        assert_eq!(parse_u32(&v), c.parse::<u32>().ok(), "{:?}", c);
    }
}

#[test]
fn first_line_trimming_agrees_with_std() {
    let cases = ["  abc  \n def", "x", "", "\n", " \t\r\n", "a b\r\nc", "\u{2003}z\u{2003}"];
    for c in cases {
        let got: String = trimmed_first_line(&chars_of(c)).into_iter().collect();
        let want = c.lines().next().unwrap_or("").trim();
        assert_eq!(got, want, "{:?}", c);
    }
}

#[test]
fn white_space_agrees_with_std() {
    for v in 0u32..0x3100 {
        if let Some(c) = char::from_u32(v) {
            assert_eq!(white_space(c), c.is_whitespace(), "{:x}", v);
        }
    }
}

#[test]
fn temperature_hot_colour() {
    assert_eq!(temperature_hot_color(true, Some([1, 2, 3]), [9, 9, 9]), [1, 2, 3]);
    assert_eq!(temperature_hot_color(true, None, [9, 9, 9]), [9, 9, 9]);
    assert_eq!(temperature_hot_color(false, Some([1, 2, 3]), [9, 9, 9]), [9, 9, 9]);
}

#[test]
fn default_settings() {
    let s = Settings::default();
    assert!(!s.start_with_windows);
    assert!(!s.start_minimized);
    assert!(s.last_profile.is_none());
}
