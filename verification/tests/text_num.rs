use fds_tbx::formats::num::is_float;
use fds_tbx::text::{is_whitespace, string_of_range, trim, trim_bounds};

#[test]
fn num_accepts_what_f32_parses() {
    for s in ["1", "-2.5", "+.5", "5.", "1e10", "1.2E+3", "-2.3E-2", "4.1E-12", "inf", "-Infinity", "NaN", "0.0E+0"] {
        assert!(is_float(s), "{}", s);
        assert!(s.parse::<f32>().is_ok(), "{}", s);
    }
    for s in ["", ".", "e5", "1e", "1e+", "--1", "1.2.3", "a", "'number'", " 1", "0x10", "infinit"] {
        assert!(!is_float(s), "{}", s);
        assert!(s.parse::<f32>().is_err(), "{}", s);
    }
}

#[test]
fn text_trim() {
    assert_eq!(trim("  lorem ipsum \t\n"), "lorem ipsum");
    assert_eq!(trim(" \u{a0} "), "");
    assert_eq!(trim(&trim("  x  ")), trim("  x  "));
    let c: Vec<char> = " ab ".chars().collect();
    assert_eq!(trim_bounds(&c, 0, c.len()), (1, 3));
    assert_eq!(string_of_range(&c, 1, 3), "ab");
    assert!(is_whitespace('\u{3000}'));
    assert!(!is_whitespace('x'));
}
