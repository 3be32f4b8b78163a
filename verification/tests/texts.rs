use verishare::address::parse_address;
use verishare::rounding::{as_double, nearest, power_of_two, rounded_quotient};
use verishare::size::format_size;
use verishare::text::{
    chars_of, decimal_string, find_from, split_at_char, string_of, text_at, trimmed,
    white_space,
};

fn chars(s: &str) -> Vec<char> {
    s.chars().collect()
}

#[test]
fn characters_go_there_and_back() {
    for s in ["", "a", "İPTAL_EDİLDİ", "dosya (1).txt", "🛰️"] {
        assert_eq!(chars_of(s), chars(s));
        assert_eq!(string_of(&chars(s)), s);
    }
}

#[test]
fn decimal_is_what_formatting_gives() {
    for n in [0, 1, 9, 10, 42, 99, 100, 53317, u64::MAX] {
        assert_eq!(decimal_string(n), format!("{}", n));
    }
}

#[test]
fn white_space_is_that_of_unicode() {
    let mut v: u32 = 0;
    while v <= 0x10FFFF {
        if let Some(c) = char::from_u32(v) {
            assert_eq!(white_space(c), c.is_whitespace(), "{:x}", v);
        }
        v += 1;
    }
}

#[test]
fn trimming_is_that_of_str() {
    for s in ["", " ", "  a b\t\n", "\u{a0}x\u{3000}", "x", " \r\n "] {
        assert_eq!(string_of(trimmed(&chars(s))), s.trim());
    }
}

#[test]
fn splitting_is_that_of_str() {
    for s in ["", "/", "a/b", "/a//b/", "abc"] {
        let rows: Vec<String> = split_at_char(&chars(s), '/').iter().map(|r| string_of(r)).collect();
        let expected: Vec<String> = s.split('/').map(|p| p.to_string()).collect();
        assert_eq!(rows, expected);
    }
}

#[test]
fn searches_find_the_first() {
    let s = chars("a: b: c");
    let pat = chars(": ");
    assert_eq!(find_from(&s, &pat, 0), Some(1));
    assert_eq!(find_from(&s, &pat, 2), Some(4));
    assert_eq!(find_from(&s, &pat, 5), None);
    assert_eq!(find_from(&s, &chars("x"), 0), None);
    assert!(text_at(&s, &chars("b:"), 3));
    assert!(!text_at(&s, &chars("b:"), 6));
    assert_eq!(find_from(&s, &[], 7), Some(7));
}

fn float_size(bytes: u64) -> String {
    if bytes < 1024 {
        return format!("{} B", bytes);
    }
    if bytes < 1024 * 1024 {
        return format!("{:.1} KB", bytes as f64 / 1024.0);
    }
    if bytes < 1024 * 1024 * 1024 {
        return format!("{:.2} MB", bytes as f64 / (1024.0 * 1024.0));
    }
    format!("{:.2} GB", bytes as f64 / (1024.0 * 1024.0 * 1024.0))
}

#[test]
fn sizes_have_their_unit() {
    assert_eq!(format_size(0), "0 B");
    assert_eq!(format_size(1023), "1023 B");
    assert_eq!(format_size(1024), "1.0 KB");
    assert_eq!(format_size(1536), "1.5 KB");
    assert_eq!(format_size(1024 * 1024 - 1), "1024.0 KB");
    assert_eq!(format_size(1024 * 1024), "1.00 MB");
    assert_eq!(format_size(5 * 1024 * 1024 + 300 * 1024), "5.29 MB");
    assert_eq!(format_size(1024 * 1024 * 1024), "1.00 GB");
    assert_eq!(format_size(u64::MAX), "17179869184.00 GB");
}

#[test]
fn sizes_are_those_of_double_precision() {
    let mut x: u64 = 1;
    let mut i = 0;
    while i < 200_000 {
        x = x.wrapping_mul(6364136223846793005).wrapping_add(1442695040888963407);
        let bytes = x >> (i % 64);
        assert_eq!(format_size(bytes), float_size(bytes), "{}", bytes);
        i += 1;
    }
    let mut bytes: u64 = 1000;
    while bytes < 200_000 {
        assert_eq!(format_size(bytes), float_size(bytes), "{}", bytes);
        bytes += 1;
    }
}

#[test]
fn quotients_round_half_to_even() {
    assert_eq!(rounded_quotient(5, 2), 2);
    assert_eq!(rounded_quotient(7, 2), 4);
    assert_eq!(rounded_quotient(9, 4), 2);
    assert_eq!(rounded_quotient(11, 4), 3);
    assert_eq!(rounded_quotient(0, 7), 0);
}

#[test]
fn doubles_are_those_of_the_machine() {
    assert_eq!(as_double(u64::MAX), 0x1_0000_0000_0000_0000);
    let mut x: u64 = 7;
    let mut i = 0;
    while i < 50_000 {
        x = x.wrapping_mul(6364136223846793005).wrapping_add(1442695040888963407);
        assert_eq!(as_double(x), (x as f64) as u128);
        let num = (x >> (i % 60)) | 1;
        let den = (x.rotate_left(17) >> (i % 53)) | 1;
        let n = nearest(as_double(num), as_double(den));
        let value = n.mantissa as f64 * (n.exponent as f64).exp2();
        assert_eq!(value, num as f64 / den as f64);
        i += 1;
    }
    let zero = nearest(0, 5);
    assert_eq!((zero.mantissa, zero.exponent), (0, 0));
    assert_eq!(power_of_two(0), 1);
    assert_eq!(power_of_two(63), 1 << 63);
}

#[test]
fn addresses_are_read_in_their_plain_form_alone() {
    assert_eq!(parse_address("192.168.1.20"), Some([192, 168, 1, 20]));
    assert_eq!(parse_address("  10.0.0.1\n"), Some([10, 0, 0, 1]));
    assert_eq!(parse_address("0.0.0.0"), Some([0, 0, 0, 0]));
    assert_eq!(parse_address("255.255.255.255"), Some([255, 255, 255, 255]));
    for bad in [
        "", " ", "1.2.3", "1.2.3.4.5", "256.1.1.1", "01.2.3.4", "1.2.3.04", "1.2.3.", ".1.2.3",
        "1..2.3", "a.b.c.d", "1.2.3.4a", "1.2.3.-4", "1 .2.3.4", "1.2.3.1000", "+1.2.3.4", "::1",
        "00.0.0.0", "1.2.3.٤",
    ] {
        assert_eq!(parse_address(bad), None, "{}", bad);
    }
}
