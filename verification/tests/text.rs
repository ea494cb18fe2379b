use kessel::bytes::{push_i16, push_le, read_i16, read_le};
use kessel::text::{
    chars_of, is_white, latin1_string, push_decimal, push_decimal_int, push_hex, read_i64,
    read_unsigned, same, split_char, split_words, starts_with, string_of, to_lowercase, trim,
};

#[test]
fn white_space_is_unicodes() {
    for u in 0..=0x10FFFFu32 {
        if let Some(c) = char::from_u32(u) {
            assert_eq!(is_white(c), c.is_whitespace(), "{u:#x}");
        }
    }
}

#[test]
fn numbers_are_read_as_they_are_parsed() {
    for s in [
        "0", "-0", "+5", "12", "-12", "", "-", "+", "1x", "x", " 1", "9223372036854775807",
        "9223372036854775808", "-9223372036854775808", "-9223372036854775809",
        "99999999999999999999999999", "007", "--1", "+-1", "١",
    ] {
        let chars: Vec<char> = s.chars().collect();
        assert_eq!(read_i64(&chars), s.parse::<i64>().ok(), "{s:?}");
        assert_eq!(read_unsigned(&chars, u64::MAX), s.parse::<u64>().ok(), "{s:?}");
        assert_eq!(
            read_unsigned(&chars, u32::MAX as u64).map(|n| n as u32),
            s.parse::<u32>().ok(),
            "{s:?}"
        );
    }
}

#[test]
fn numbers_are_written_in_decimal_and_hex() {
    for n in [0u64, 7, 10, 99, 100, 12345, u64::MAX] {
        let mut s = String::from(">");
        push_decimal(&mut s, n);
        assert_eq!(s, format!(">{n}"));
        let mut s = String::new();
        push_hex(&mut s, n, 16);
        assert_eq!(s, format!("{n:016x}"));
    }
    for n in [0i64, -1, 42, i64::MIN, i64::MAX] {
        let mut s = String::new();
        push_decimal_int(&mut s, n);
        assert_eq!(s, n.to_string());
    }
}

#[test]
fn texts_are_cut_like_the_standard_librarys() {
    for s in ["", " ", "a", " a b\tc ", "\u{3000}x\u{2003}y", "a,b,,c,", ",", "  , "] {
        let words: Vec<String> = split_words(s).iter().map(|w| string_of(w)).collect();
        assert_eq!(words, s.split_whitespace().collect::<Vec<_>>(), "{s:?}");
        let parts: Vec<String> = split_char(s, ',').iter().map(|w| string_of(w)).collect();
        assert_eq!(parts, s.split(',').collect::<Vec<_>>(), "{s:?}");
        assert_eq!(trim(&chars_of(s)), s.trim());
        assert_eq!(to_lowercase(s), s.to_ascii_lowercase());
        assert_eq!(starts_with(s, ' '), s.starts_with(' '));
    }
    assert_eq!(to_lowercase("ÄBcZ[`"), "Äbcz[`");
    assert!(same("é", "é") && !same("é", "e") && !same("a", "ab"));
    assert_eq!(latin1_string(&[0x41, 0xe9, 0x42], 1, 2), "é");
}

#[test]
fn numbers_survive_their_bytes() {
    for k in 1..=8usize {
        let n = 0x0102_0304_0506_0708u64;
        let mut v = vec![9];
        push_le(&mut v, n, k);
        assert_eq!(v[1..], n.to_le_bytes()[..k]);
        let mask = if k == 8 { u64::MAX } else { (1 << (8 * k)) - 1 };
        assert_eq!(read_le(&v, 1, k), n & mask);
    }
    for x in [0i16, 1, -1, i16::MIN, i16::MAX, 0x1234] {
        let mut v = Vec::new();
        push_i16(&mut v, x);
        assert_eq!(v, x.to_le_bytes());
        assert_eq!(read_i16(&v, 0), x);
    }
}
