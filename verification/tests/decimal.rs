use cooking_with_wasm::decimal::{format_u32, parse_usize};

#[test]
fn formats_like_to_string() {
    for n in [0u32, 5, 9, 10, 42, 100, 1000, 65536, 4_294_967_295] {
        assert_eq!(format_u32(n), n.to_string());
    }
}

#[test]
fn formats_exact_values() {
    assert_eq!(format_u32(0), "0");
    assert_eq!(format_u32(42), "42");
    assert_eq!(format_u32(u32::MAX), "4294967295");
}

#[test]
fn parses_like_std() {
    let cases = [
        "", "0", "+", "+0", "-0", "12", "+12", "012", "1_000", "ffff", "١٢", "9999999999",
        "18446744073709551615", "18446744073709551616", "99999999999999999999999",
    ];
    for c in cases {
        assert_eq!(parse_usize(c), c.parse::<usize>().ok(), "input {:?}", c);
    }
}

#[test]
fn parse_overflow_is_none() {
    assert_eq!(parse_usize("123456789012345678901234567890"), None);
}

#[test]
fn parse_after_format_roundtrip() {
    for n in [0u32, 7, 31, 1_000_000, u32::MAX] {
        assert_eq!(parse_usize(&format_u32(n)), Some(n as usize));
    }
}
