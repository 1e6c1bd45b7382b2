use lazymcp::{IntoToolResult, ToolResult};

struct Celsius(i32);

impl IntoToolResult for Celsius {
    fn into_tool_result(self) -> ToolResult {
        ToolResult::text(format!("{} C", self.0))
    }
}

#[test]
fn user_types_can_become_results() {
    let r = Some(Celsius(21)).into_tool_result();
    match r {
        ToolResult::Text { content, is_error } => {
            assert_eq!(content, vec!["21 C".to_string()]);
            assert_eq!(is_error, Some(false));
        }
        ToolResult::Given(_) => panic!("expected text"),
    }
}
