use time_hedge::dec::{i64_to_dec, parse_dec_i64, parse_dec_u64, u64_to_dec};
use time_hedge::text::{find_char, str_eq};

#[test]
fn str_eq_compares_characters() {
    assert!(str_eq("", ""));
    assert!(str_eq("abc", "abc"));
    assert!(!str_eq("abc", "abd"));
    assert!(!str_eq("abc", "ab"));
    assert!(str_eq("héllo", "héllo"));
    assert!(!str_eq("héllo", "hello"));
}

#[test]
fn find_char_returns_first_hit_at_or_after_from() {
    assert_eq!(find_char("a,b,c", 0, ','), Some(1));
    assert_eq!(find_char("a,b,c", 2, ','), Some(3));
    assert_eq!(find_char("a,b,c", 4, ','), None);
    assert_eq!(find_char("abc", 0, ','), None);
}

#[test]
fn decimal_strings_are_canonical() {
    assert_eq!(u64_to_dec(0), "0".to_string());
    assert_eq!(u64_to_dec(10), "10".to_string());
    assert_eq!(u64_to_dec(18_446_744_073_709_551_615), "18446744073709551615".to_string());
    assert_eq!(i64_to_dec(-1), "-1".to_string());
    assert_eq!(i64_to_dec(i64::MIN), "-9223372036854775808".to_string());
    assert_eq!(i64_to_dec(i64::MAX), "9223372036854775807".to_string());
}

#[test]
fn parsing_reads_canonical_decimals_back() {
    let s = "x123y";
    assert_eq!(parse_dec_u64(s, 1, 4), Some(123));
    assert_eq!(parse_dec_u64(s, 0, 4), None);
    assert_eq!(parse_dec_u64(s, 1, 1), None);
    assert_eq!(parse_dec_i64("-45", 0, 3), Some(-45));
    assert_eq!(parse_dec_i64("-9223372036854775808", 0, 20), Some(i64::MIN));
    assert_eq!(parse_dec_i64("9223372036854775808", 0, 19), None);
}
