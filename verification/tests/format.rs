use gamut::format::{decimal_string, group_i128, group_signed_integer_str};

#[test]
fn groups_i128_values() {
    assert_eq!(group_i128(1_234_567), "1,234,567");
    assert_eq!(group_i128(-1_234_567), "-1,234,567");
}

#[test]
fn groups_signed_integer_strings() {
    assert_eq!(group_signed_integer_str("12345"), "12,345");
    assert_eq!(group_signed_integer_str("-12345"), "-12,345");
}

#[test]
fn grouping_edges() {
    assert_eq!(group_signed_integer_str(""), "");
    assert_eq!(group_signed_integer_str("-"), "-");
    assert_eq!(group_signed_integer_str("123"), "123");
    assert_eq!(group_signed_integer_str("1234"), "1,234");
    assert_eq!(group_signed_integer_str("123456"), "123,456");
    assert_eq!(group_i128(0), "0");
    assert_eq!(group_i128(i128::MIN), "-170,141,183,460,469,231,731,687,303,715,884,105,728");
    assert_eq!(group_i128(i128::MAX), "170,141,183,460,469,231,731,687,303,715,884,105,727");
}

#[test]
fn decimal_text_matches_display() {
    for v in [0i128, 7, -7, 10, 999, -1000, i128::MAX, i128::MIN] {
        assert_eq!(decimal_string(v), v.to_string());
    }
}

#[test]
fn groups_are_lead_then_threes() {
    for (text, grouped) in [("1", "1"), ("12", "12"), ("123", "123"), ("1234", "1,234"), ("-12345", "-12,345"), ("123456", "123,456"), ("-1234567", "-1,234,567")] {
        let r = gamut::format::group_signed_integer_str(text);
        assert_eq!(r, grouped);
        assert_eq!(r.replace(',', ""), text);
        let digits = r.trim_start_matches('-');
        let groups: Vec<&str> = digits.split(',').collect();
        assert!((1..=3).contains(&groups[0].len()));
        assert!(groups[1..].iter().all(|g| g.len() == 3));
    }
}
