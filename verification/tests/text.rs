use aim_trainer::text::{chars_of, f32_text, string_of, to_i32, to_u8, to_usize, trim_bounds};

fn text(s: &str) -> Vec<char> {
    s.chars().collect()
}

#[test]
fn integers_follow_rust_syntax() {
    assert_eq!(to_i32(&text("0")), Some(0));
    assert_eq!(to_i32(&text("-0")), Some(0));
    assert_eq!(to_i32(&text("+17")), Some(17));
    assert_eq!(to_i32(&text("-2147483648")), Some(i32::MIN));
    assert_eq!(to_i32(&text("2147483647")), Some(i32::MAX));
    assert_eq!(to_i32(&text("2147483648")), None);
    assert_eq!(to_i32(&text("")), None);
    assert_eq!(to_i32(&text("-")), None);
    assert_eq!(to_i32(&text("+")), None);
    assert_eq!(to_i32(&text(" 1")), None);
    assert_eq!(to_i32(&text("1 ")), None);
    assert_eq!(to_i32(&text("00000000000000000000000000042")), Some(42));
    assert_eq!(to_u8(&text("255")), Some(255));
    assert_eq!(to_u8(&text("256")), None);
    assert_eq!(to_u8(&text("-1")), None);
    assert_eq!(to_u8(&text("-0")), None);
    assert_eq!(to_usize(&text("18446744073709551615")), "18446744073709551615".parse().ok());
    assert_eq!(to_usize(&text("99999999999999999999999")), None);
    assert_eq!(to_usize(&text("1e3")), None);
    for s in ["12", "-12", "+", "x", "4294967296", "-2147483649", "０"] {
        assert_eq!(to_i32(&text(s)), s.parse::<i32>().ok(), "{s}");
        assert_eq!(to_u8(&text(s)), s.parse::<u8>().ok(), "{s}");
        assert_eq!(to_usize(&text(s)), s.parse::<usize>().ok(), "{s}");
    }
}

#[test]
fn f32_literals_agree_with_from_str() {
    for s in [
        "1", "1.", ".5", "1.5", "-1.5e3", "+2E-7", "1e", "e1", ".", "", "+", "-.", "inf",
        "-Infinity", "NaN", "nAn", "infin", "1.2.3", " 1", "1 ", "0x10", "1_0", "1e+", "1e+5",
        "..1", "5.e2",
    ] {
        assert_eq!(f32_text(&text(s)), s.parse::<f32>().is_ok(), "{s:?}");
    }
}

#[test]
fn trimming_removes_unicode_white_space() {
    let t = text("\u{3000} a b\u{a0}\t");
    let (s, e) = trim_bounds(&t, 0, t.len());
    assert_eq!(string_of(&t, s, e), "a b");
    let t = text("   ");
    let (s, e) = trim_bounds(&t, 0, t.len());
    assert_eq!(s, e);
    let t = text("ä ö");
    assert_eq!(chars_of("ä ö"), t);
    assert_eq!(string_of(&t, 0, t.len()), "ä ö");
}
