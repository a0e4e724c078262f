use gamut::display::{normalize_result_display_value, number_text_for_value, truncate_middle_with_ellipsis};

#[test]
fn truncation_uses_middle_three_dot_ellipsis() {
    let truncated = truncate_middle_with_ellipsis("abcdef", 5);

    assert_eq!(truncated.chars().count(), 5);
    assert!(truncated.starts_with('a'));
    assert!(truncated.ends_with('f'));
    assert!(truncated.contains("..."));
    assert_eq!(truncate_middle_with_ellipsis("abc", 5), "abc");
}

#[test]
fn value_fallback_converts_digits_to_words() {
    let spoken = number_text_for_value("-10.5");

    assert!(spoken.starts_with("Negative"));
    assert!(spoken.contains("One"));
    assert!(spoken.contains("Zero"));
    assert!(spoken.contains("Point"));
    assert!(spoken.ends_with("Five"));
    assert_eq!(number_text_for_value("abc"), "Result");
}

#[test]
fn result_display_is_grouped_with_commas() {
    assert_eq!(normalize_result_display_value("1234567"), "1,234,567");
    assert_eq!(normalize_result_display_value("1234567.89"), "1,234,567.89");
}

#[test]
fn display_edges() {
    assert_eq!(truncate_middle_with_ellipsis("abcdef", 3), "...");
    assert_eq!(truncate_middle_with_ellipsis("abcdefghij", 7), "ab...ij");
    assert_eq!(number_text_for_value("-10.5"), "Negative One Zero Point Five");
    assert_eq!(number_text_for_value("1,000"), "One Zero Zero Zero");
    assert_eq!(normalize_result_display_value("1,2,3,4"), "1,234");
    assert_eq!(normalize_result_display_value("+42"), "42");
    assert_eq!(normalize_result_display_value("-"), "-");
    assert_eq!(normalize_result_display_value("12a"), "12a");
    assert_eq!(normalize_result_display_value("-1000.5.5"), "-1,000.5.5");
    assert_eq!(normalize_result_display_value(".5"), ".5");
    assert_eq!(
        normalize_result_display_value("170141183460469231731687303715884105728"),
        "170141183460469231731687303715884105728"
    );
    assert_eq!(
        normalize_result_display_value("-170141183460469231731687303715884105728"),
        "-170,141,183,460,469,231,731,687,303,715,884,105,728"
    );
}
