use gamut::calculator::{calculation_input, literal_text, BinaryOperator, Expression, ExpressionParser};
use gamut::words::{chunk_to_words, integer_words};

fn literal(input: &str, e: &Expression) -> String {
    match e {
        Expression::Number { start, end } => literal_text(input.as_bytes(), *start, *end),
        _ => panic!("expected a number"),
    }
}

#[test]
fn detects_arithmetic_expression_with_operator() {
    let input = calculation_input("334+333").expect("expression should parse");
    assert_eq!(input.binary_operator_count, 1);
    let total: i64 = match &input.tree {
        Expression::Binary(BinaryOperator::Add, lhs, rhs) => {
            let l: i64 = literal(&input.expression, lhs).parse().unwrap();
            let r: i64 = literal(&input.expression, rhs).parse().unwrap();
            l + r
        }
        other => panic!("unexpected tree {other:?}"),
    };
    assert_eq!(gamut::format::group_i128(total as i128), "667");
    let words = integer_words(total).expect("whole-number result should expose spoken form");
    assert!(words.contains("Hundred"));
    assert!(words.contains("Sixty") || words.contains("Six"));
}

#[test]
fn plain_number_does_not_trigger_calculator_preview() {
    assert!(calculation_input("334").is_none());
}

#[test]
fn honors_parentheses_and_precedence() {
    let input = calculation_input("(10 + 2) * 3").expect("expression should parse");
    match &input.tree {
        Expression::Binary(BinaryOperator::Multiply, lhs, rhs) => {
            match lhs.as_ref() {
                Expression::Binary(BinaryOperator::Add, a, b) => {
                    assert_eq!(literal(&input.expression, a), "10");
                    assert_eq!(literal(&input.expression, b), "2");
                }
                other => panic!("unexpected left operand {other:?}"),
            }
            assert_eq!(literal(&input.expression, rhs), "3");
        }
        other => panic!("unexpected tree {other:?}"),
    }
    assert_eq!(input.binary_operator_count, 2);
}

#[test]
fn invalid_or_partial_expressions_are_ignored() {
    assert!(calculation_input("1234*").is_none());
    assert!(calculation_input("abc+123").is_none());
}

#[test]
fn chunk_wording_handles_hundreds() {
    let one_hundred_five = chunk_to_words(105);
    let nine_ninety_nine = chunk_to_words(999);

    assert!(one_hundred_five.contains("Hundred"));
    assert!(!one_hundred_five.is_empty());
    assert!(nine_ninety_nine.contains("Hundred"));
    assert!(!nine_ninety_nine.is_empty());
}

#[test]
fn chunk_words_exact() {
    assert_eq!(chunk_to_words(105), "One Hundred Five");
    assert_eq!(chunk_to_words(999), "Nine Hundred Ninety Nine");
    assert_eq!(chunk_to_words(40), "Forty");
    assert_eq!(chunk_to_words(13), "Thirteen");
    assert_eq!(chunk_to_words(0), "");
    assert_eq!(chunk_to_words(1200), "Twelve Hundred");
}

#[test]
fn integer_words_exact() {
    assert_eq!(integer_words(0).as_deref(), Some("Zero"));
    assert_eq!(integer_words(667).as_deref(), Some("Six Hundred Sixty Seven"));
    assert_eq!(integer_words(-1_000_001).as_deref(), Some("Negative One Million One"));
    assert_eq!(
        integer_words(999_999_999_999).as_deref(),
        Some("Nine Hundred Ninety Nine Billion Nine Hundred Ninety Nine Million Nine Hundred Ninety Nine Thousand Nine Hundred Ninety Nine")
    );
    assert_eq!(integer_words(1_000_000_000_000), None);
    assert_eq!(integer_words(-1_000_000_000_000), None);
}

#[test]
fn unary_signs_and_separators() {
    let input = calculation_input("  - -1,000_5 % .5 ").expect("should parse");
    assert_eq!(input.expression, "- -1,000_5 % .5");
    match &input.tree {
        Expression::Binary(BinaryOperator::Remainder, lhs, rhs) => {
            assert_eq!(literal(&input.expression, lhs), "10005");
            assert_eq!(literal(&input.expression, rhs), ".5");
        }
        other => panic!("unexpected tree {other:?}"),
    }
    let negated = calculation_input("-(1)-2").expect("should parse");
    match &negated.tree {
        Expression::Binary(BinaryOperator::Subtract, lhs, _) => {
            assert!(matches!(lhs.as_ref(), Expression::Negate(_)));
        }
        other => panic!("unexpected tree {other:?}"),
    }
    assert!(calculation_input("1..2+3").is_none());
    assert!(calculation_input("(1+2").is_none());
    assert!(calculation_input("").is_none());
    assert!(calculation_input("   ").is_none());
    assert!(calculation_input("-5").is_none());
}

#[test]
fn parser_reports_operator_count() {
    let parser = ExpressionParser::new("1+2*3-4/5");
    let (tree, count) = parser.parse().expect("should parse");
    assert_eq!(count, 4);
    assert!(matches!(tree, Expression::Binary(BinaryOperator::Subtract, _, _)));
    assert!(ExpressionParser::new("1 2").parse().is_none());
}

#[test]
fn chunk_words_are_single_spaced() {
    for v in 1u16..=999 {
        let r = chunk_to_words(v);
        assert!(!r.is_empty());
        assert_eq!(r, r.trim());
        assert!(!r.contains("  "));
        assert_eq!(r.contains("Hundred"), v >= 100);
        if v >= 100 && v % 100 != 0 {
            assert_eq!(r, format!("{} {}", chunk_to_words(v - v % 100), chunk_to_words(v % 100)));
        }
    }
    assert_eq!(chunk_to_words(0), "");
}
