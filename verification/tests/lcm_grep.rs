use zeroclaw_memory::lcm_grep::{GrepArgs, GrepEntry, GrepRequest, LcmGrepTool, ToolResult};

/// A message log: role, content and the summary that covers a message.
struct Log(Vec<(&'static str, String, Option<String>)>);

impl Log {
    fn grep(&self, request: &GrepRequest) -> Result<Vec<GrepEntry>, String> {
        let re = regex::Regex::new(&request.pattern).map_err(|e| format!("invalid regex: {e}"))?;
        Ok(self
            .0
            .iter()
            .filter(|m| re.is_match(&m.1))
            .take(request.limit)
            .map(|m| GrepEntry {
                created_at: "2026-01-01".to_string(),
                role: m.0.to_string(),
                content: m.1.clone(),
                summary_id: m.2.clone(),
            })
            .collect())
    }
}

fn execute(tool: &LcmGrepTool<Log>, pattern: Option<&str>, limit: Option<u64>) -> ToolResult {
    let args = GrepArgs { pattern: pattern.map(|p| p.to_string()), session_id: None, limit };
    match tool.request(args) {
        Ok(request) => {
            let outcome = tool.sqlite.grep(&request);
            tool.respond(&request.pattern, outcome)
        }
        Err(answer) => answer,
    }
}

#[test]
fn lcm_grep_tool_returns_formatted_results() {
    let tool = LcmGrepTool::new(Log(vec![("user", "the answer is 42".to_string(), None)]));
    let result = execute(&tool, Some("answer is \\d+"), None);

    assert!(result.success, "expected success: {:?}", result.error);
    assert!(result.output.contains("answer is 42"), "output: {}", result.output);
    assert!(result.output.contains("active"), "should show 'active' annotation");
    assert_eq!(
        result.output,
        "1 result(s) for pattern `answer is \\d+`:\n\n[2026-01-01] user: the answer is 42\n(active)\n\n"
    );
}

#[test]
fn covered_messages_name_their_summary() {
    let tool =
        LcmGrepTool::new(Log(vec![("user", "x".to_string(), Some("sum-1".to_string()))]));
    let result = execute(&tool, Some("x"), None);
    assert!(result.output.ends_with("x\n(covered by summary sum-1)\n\n"));
}

#[test]
fn lcm_grep_tool_no_match() {
    let tool = LcmGrepTool::new(Log(vec![]));
    let result = execute(&tool, Some("zzznomatch"), None);
    assert!(result.success);
    assert!(result.output.contains("No messages matched"));
    assert_eq!(result.output, "No messages matched pattern `zzznomatch`.");
}

#[test]
fn lcm_grep_tool_invalid_regex() {
    let tool = LcmGrepTool::new(Log(vec![]));
    let result = execute(&tool, Some("[unclosed"), None);
    assert!(!result.success);
    assert!(result.error.is_some());
    let error = result.error.unwrap();
    assert!(error.contains("invalid regex"));
    assert!(error.starts_with("lcm_grep failed: "));
}

#[test]
fn lcm_grep_tool_limit_respected() {
    let log = (0..30).map(|i| ("user", format!("needle {i}"), None)).collect();
    let tool = LcmGrepTool::new(Log(log));
    let result = execute(&tool, Some("needle"), Some(5));
    assert!(result.success);
    let active_count = result.output.matches("active").count();
    assert!(active_count <= 5, "should respect limit=5, got {active_count}");
    assert_eq!(active_count, 5);
}

#[test]
fn limits_are_capped_and_defaulted() {
    let log = (0..80).map(|i| ("user", format!("needle {i}"), None)).collect();
    let tool = LcmGrepTool::new(Log(log));
    let count = |r: ToolResult| r.output.matches("active").count();
    assert_eq!(count(execute(&tool, Some("needle"), None)), 20);
    assert_eq!(count(execute(&tool, Some("needle"), Some(50))), 50);
    assert_eq!(count(execute(&tool, Some("needle"), Some(1000))), 50);
}

#[test]
fn lcm_grep_tool_missing_pattern() {
    let tool = LcmGrepTool::new(Log(vec![]));
    let result = execute(&tool, None, None);
    assert!(!result.success);
    assert!(result.error.unwrap().contains("missing required parameter"));
}

#[test]
fn name_and_schema() {
    let tool = LcmGrepTool::new(Log(vec![]));
    assert_eq!(tool.name(), "lcm_grep");
    let schema: serde_json::Value = serde_json::from_str(tool.parameters_schema()).unwrap();
    assert!(schema["properties"]["pattern"].is_object());
    assert!(schema["required"]
        .as_array()
        .unwrap()
        .contains(&serde_json::Value::from("pattern")));
    assert_eq!(schema["properties"]["limit"]["maximum"].as_u64(), Some(50));
    assert!(tool.description().starts_with("Regex search over the full verbatim"));
}
