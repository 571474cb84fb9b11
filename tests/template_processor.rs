use std::collections::HashMap;

use obsidian_notes::datetime::LocalDateTime;
use obsidian_notes::numeric::NumericError;
use obsidian_notes::template::{ExpressionType, TemplateProcessor};

fn at(year: i32, month: u32, day: u32) -> LocalDateTime {
    LocalDateTime::new(year, month, day, 12, 0, 0).unwrap()
}

fn render(template: &str, now: LocalDateTime) -> String {
    TemplateProcessor::process_at(template, &HashMap::new(), now)
}

#[test]
fn test_date_expression_parsing() {
    let expr = "date:YYYY-MM-DD| -7d";
    let result = TemplateProcessor::parse_date_expression(expr);
    assert!(matches!(result, Some(ExpressionType::DateExpression { .. })));
}

#[test]
fn test_numeric_expression() {
    let result = TemplateProcessor::evaluate_numeric_expression("2 + 3");
    assert_eq!(result, Ok("5".to_string()));
}

#[test]
fn date_expression_parts_are_trimmed() {
    let result = TemplateProcessor::parse_date_expression("date: YYYY-MM-DD | -7d | extra");
    assert_eq!(
        result,
        Some(ExpressionType::DateExpression {
            format: "YYYY-MM-DD".to_string(),
            offset: Some("-7d".to_string()),
        })
    );
    assert_eq!(
        TemplateProcessor::parse_date_expression("date:HH:mm"),
        Some(ExpressionType::DateExpression { format: "HH:mm".to_string(), offset: None })
    );
    assert_eq!(TemplateProcessor::parse_date_expression("title"), None);
}

#[test]
fn classify_placeholder_kinds() {
    assert!(matches!(
        TemplateProcessor::classify("date:YYYY"),
        ExpressionType::DateExpression { .. }
    ));
    assert_eq!(
        TemplateProcessor::classify("4 * 2"),
        ExpressionType::NumericExpression("4 * 2".to_string())
    );
    assert_eq!(
        TemplateProcessor::classify("title"),
        ExpressionType::SimpleVariable("title".to_string())
    );
    assert!(TemplateProcessor::is_numeric_expression("1-2"));
    assert!(!TemplateProcessor::is_numeric_expression("a-b"));
    assert!(!TemplateProcessor::is_numeric_expression("42"));
}

#[test]
fn date_with_offset_at_fixed_day() {
    let now = at(2024, 3, 15);
    assert_eq!(render("{{date:YYYY-MM-DD| -7d}}", now), "2024-03-08");
    assert_eq!(render("{{2 + 3}}", now), "5");
    assert_eq!(render("{{10 / 0}}", now), "{{10 / 0}}");
}

#[test]
fn whole_results_have_no_decimal_point() {
    let now = at(2024, 3, 15);
    assert_eq!(render("{{4/2}}", now), "2");
    assert_eq!(render("{{5/2}}", now), "2.5");
}

#[test]
fn numeric_results_are_exact() {
    let eval = TemplateProcessor::evaluate_numeric_expression;
    assert_eq!(eval("0.1 + 0.2"), Ok("0.3".to_string()));
    assert_eq!(eval("1/3"), Ok("0.333333333333333".to_string()));
    assert_eq!(eval("-7 / 2"), Ok("-3.5".to_string()));
    assert_eq!(eval("3 - 10"), Ok("-7".to_string()));
    assert_eq!(eval("2.5 * 4"), Ok("10".to_string()));
    assert_eq!(eval("1.5*1.5"), Ok("2.25".to_string()));
    assert_eq!(eval("7 % 3"), Ok("1".to_string()));
    assert_eq!(eval("-7 % 3"), Ok("-1".to_string()));
    assert_eq!(eval("7.9 % 2.5"), Ok("1".to_string()));
    assert_eq!(eval("5 -- 3"), Ok("8".to_string()));
    assert_eq!(eval("3000000000 + 1"), Ok("3000000001".to_string()));
}

#[test]
fn numeric_errors() {
    let eval = TemplateProcessor::evaluate_numeric_expression;
    assert_eq!(eval("10 / 0"), Err(NumericError::DivisionByZero));
    assert_eq!(eval("5 % 0.5"), Err(NumericError::DivisionByZero));
    assert_eq!(eval("2 + 3 + 4"), Err(NumericError::Unsupported));
    assert_eq!(eval("x + 1"), Err(NumericError::Unsupported));
    assert_eq!(eval("123456789012 + 1"), Err(NumericError::TooManyDigits));
}

#[test]
fn date_format_tokens() {
    let f = TemplateProcessor::moment_to_chrono_format;
    assert_eq!(f("YYYY-MM-DD"), "%Y-%m-%d");
    assert_eq!(f("YY M D"), "%y %-m %-d");
    assert_eq!(f("MMMM MMM DDD"), "%B %b %j");
    assert_eq!(f("dddd ddd dd d"), "%A %a %d %-d");
    assert_eq!(f("HH:mm:ss H:m:s"), "%H:%M:%S %-H:%-M:%-S");
    assert_eq!(f("ww w"), "%V %V");
    assert_eq!(f("a A aa"), "%p %p %p");
    assert_eq!(f("100% [x]"), "100%% [x]");
}

#[test]
fn date_rendering_through_chrono() {
    let now = LocalDateTime::new(2024, 3, 15, 14, 5, 9).unwrap();
    assert_eq!(
        render("{{date:dddd, MMMM D YYYY HH:mm:ss A}}", now),
        "Friday, March 15 2024 14:05:09 PM"
    );
    assert_eq!(render("{{date:DDD ww}}", now), "075 11");
}

#[test]
fn day_week_month_year_offsets() {
    let now = at(2024, 1, 31);
    assert_eq!(render("{{date:YYYY-MM-DD|+1m}}", now), "2024-02-29");
    assert_eq!(render("{{date:YYYY-MM-DD|-1m}}", now), "2023-12-31");
    assert_eq!(render("{{date:YYYY-MM-DD|1y}}", now), "2025-01-31");
    assert_eq!(render("{{date:YYYY-MM-DD|-1y}}", now), "2023-01-31");
    assert_eq!(render("{{date:YYYY-MM-DD|+2w}}", now), "2024-02-14");
    assert_eq!(render("{{date:YYYY-MM-DD|+1d}}", now), "2024-02-01");
    assert_eq!(render("{{date:YYYY-MM-DD|1m -1d}}", now), "2024-02-28");
}

#[test]
fn offsets_out_of_range_leave_placeholder() {
    let now = at(2024, 1, 31);
    let far = "{{date:YYYY|+99999999999d}}";
    assert_eq!(render(far, now), far);
    let years = "{{date:YYYY|+400000y}}";
    assert_eq!(render(years, now), years);
}

#[test]
fn offset_application_on_its_own() {
    let now = at(2024, 3, 15);
    let shifted = TemplateProcessor::apply_date_offset(now, "-7d").unwrap();
    assert_eq!((shifted.year, shifted.month, shifted.day), (2024, 3, 8));
    assert_eq!(TemplateProcessor::apply_date_offset(now, "   "), Some(now));
    assert_eq!(
        TemplateProcessor::evaluate_date_expression("YYYY/MM", Some("+1y2m"), now),
        Some("2025/05".to_string())
    );
}

#[test]
fn variables_and_unknown_placeholders() {
    let mut vars = HashMap::new();
    vars.insert("title".to_string(), "Weekly review".to_string());
    vars.insert("a-b".to_string(), "dash".to_string());
    let now = at(2024, 3, 15);
    let out = TemplateProcessor::process_at(
        "# {{title}} ({{missing}}) {{a-b}} {{ title }} {{}}",
        &vars,
        now,
    );
    assert_eq!(out, "# Weekly review ({{missing}}) dash {{ title }} {{}}");
}

#[test]
fn values_are_not_expanded_again() {
    let mut vars = HashMap::new();
    vars.insert("x".to_string(), "{{y}}".to_string());
    vars.insert("y".to_string(), "nested".to_string());
    let out = TemplateProcessor::process_at("{{x}} {{y}}", &vars, at(2024, 3, 15));
    assert_eq!(out, "{{y}} nested");
}

#[test]
fn process_uses_the_clock() {
    let out = TemplateProcessor::process("{{date:YYYY}}-{{1+1}}", &HashMap::new());
    assert_eq!(out.len(), 6);
    assert!(out.ends_with("-2"));
    assert!(out.chars().take(4).all(|c| c.is_ascii_digit()));
}

#[test]
fn invalid_dates_are_refused() {
    assert!(LocalDateTime::new(2023, 2, 29, 0, 0, 0).is_none());
    assert!(LocalDateTime::new(2024, 2, 29, 23, 59, 59).is_some());
    assert!(LocalDateTime::new(2024, 13, 1, 0, 0, 0).is_none());
}

#[test]
fn malformed_offsets_leave_placeholder() {
    let now = at(2024, 3, 15);
    assert_eq!(render("{{date:YYYY| 1q}}", now), "{{date:YYYY| 1q}}");
    assert_eq!(render("{{date:YYYY|abc}}", now), "{{date:YYYY|abc}}");
    assert_eq!(render("{{date:YYYY|-7d x}}", now), "{{date:YYYY|-7d x}}");
    assert_eq!(TemplateProcessor::apply_date_offset(now, "1q"), None);
    assert_eq!(TemplateProcessor::apply_date_offset(now, "abc"), None);
    let moved = TemplateProcessor::apply_date_offset(now, " +1m  2w ").unwrap();
    assert_eq!((moved.year, moved.month, moved.day), (2024, 4, 29));
}

#[test]
fn unsupported_arithmetic_is_a_variable() {
    let mut vars = HashMap::new();
    vars.insert("x-1".to_string(), "first".to_string());
    let now = at(2024, 3, 15);
    let out = TemplateProcessor::process_at("{{x-1}} {{y-2}} {{1/0}}", &vars, now);
    assert_eq!(out, "first {{y-2}} {{1/0}}");
}
