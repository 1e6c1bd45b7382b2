use rmcp::model::{CallToolResult, ContentBlock, TextContent};
use lazymcp::result::json_text_result;
use lazymcp::{IntoToolResult, ToolResult};

fn texts(r: &ToolResult) -> Vec<&str> {
    match r {
        ToolResult::Text { content, .. } => content.iter().map(|s| s.as_str()).collect(),
        ToolResult::Given(_) => panic!("expected a text result"),
    }
}

fn error_flag(r: &ToolResult) -> Option<bool> {
    match r {
        ToolResult::Text { is_error, .. } => *is_error,
        ToolResult::Given(c) => c.is_error,
    }
}

#[test]
fn string_is_success_text() {
    let r = "hello".to_string().into_tool_result();
    assert_eq!(texts(&r), vec!["hello"]);
    assert_eq!(error_flag(&r), Some(false));
    let r = "slice".into_tool_result();
    assert_eq!(texts(&r), vec!["slice"]);
}

#[test]
fn unit_and_none_are_empty_success() {
    let r = ().into_tool_result();
    assert!(texts(&r).is_empty());
    assert_eq!(error_flag(&r), Some(false));
    let r = Option::<String>::None.into_tool_result();
    assert!(texts(&r).is_empty());
    assert_eq!(error_flag(&r), Some(false));
}

#[test]
fn some_is_inner_result() {
    let r = Some(12u8).into_tool_result();
    assert_eq!(texts(&r), vec!["12"]);
}

#[test]
fn err_is_error_with_display_text() {
    let r: Result<i32, &'static str> = Err("ERROR: Division by zero.");
    let r = r.into_tool_result();
    assert_eq!(texts(&r), vec!["ERROR: Division by zero."]);
    assert_eq!(error_flag(&r), Some(true));
}

#[test]
fn ok_is_inner_result() {
    let r: Result<i32, String> = Ok(-7);
    let r = r.into_tool_result();
    assert_eq!(texts(&r), vec!["-7"]);
    assert_eq!(error_flag(&r), Some(false));
}

#[test]
fn integers_are_decimal() {
    assert_eq!(texts(&0u8.into_tool_result()), vec!["0"]);
    assert_eq!(texts(&i8::MIN.into_tool_result()), vec!["-128"]);
    assert_eq!(texts(&i64::MIN.into_tool_result()), vec!["-9223372036854775808"]);
    assert_eq!(texts(&u64::MAX.into_tool_result()), vec!["18446744073709551615"]);
    assert_eq!(texts(&u128::MAX.into_tool_result()), vec!["340282366920938463463374607431768211455"]);
    assert_eq!(texts(&i128::MIN.into_tool_result()), vec!["-170141183460469231731687303715884105728"]);
    assert_eq!(texts(&1234usize.into_tool_result()), vec!["1234"]);
    assert_eq!(texts(&(-5isize).into_tool_result()), vec!["-5"]);
    assert_eq!(texts(&65535u16.into_tool_result()), vec!["65535"]);
    assert_eq!(texts(&(-32768i16).into_tool_result()), vec!["-32768"]);
    assert_eq!(texts(&4000000000u32.into_tool_result()), vec!["4000000000"]);
    assert_eq!(texts(&(-2147483648i32).into_tool_result()), vec!["-2147483648"]);
}

#[test]
fn bool_and_char_texts() {
    assert_eq!(texts(&true.into_tool_result()), vec!["true"]);
    assert_eq!(texts(&false.into_tool_result()), vec!["false"]);
    assert_eq!(texts(&'é'.into_tool_result()), vec!["é"]);
}

#[test]
fn tool_result_passes_through() {
    let r = ToolResult::error(vec!["a".to_string(), "b".to_string()]);
    let r2 = r.into_tool_result();
    assert_eq!(texts(&r2), vec!["a", "b"]);
    assert_eq!(error_flag(&r2), Some(true));
}

#[test]
fn json_outcome_results() {
    let ok = json_text_result(Ok("{\n  \"id\": 1\n}".to_string()));
    assert_eq!(texts(&ok), vec!["{\n  \"id\": 1\n}"]);
    assert_eq!(error_flag(&ok), Some(false));
    let err = json_text_result(Err("key must be a string".to_string()));
    assert_eq!(texts(&err), vec!["key must be a string"]);
    assert_eq!(error_flag(&err), Some(true));
}

#[test]
fn call_tool_result_is_passed_on() {
    let given = CallToolResult::error(vec![ContentBlock::Text(TextContent::new("raw"))]);
    match given.clone().into_tool_result() {
        ToolResult::Given(c) => assert_eq!(c, given),
        ToolResult::Text { .. } => panic!("a built result is passed on"),
    }
}
