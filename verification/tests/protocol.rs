use tinta_core::protocol::{
    access_result, method_not_found, not_allowed, protocol_version, registers_extension, route, session_of, tool_changes,
    McpMethod, Route, PROTOCOL_VERSION,
};

#[test]
fn each_helper_sends_its_own_requests() {
    assert_eq!(route("hello", ""), Route::Hello);
    assert_eq!(route("tools_call", "mcp"), Route::ToolsCall);
    assert_eq!(route("tools_call", "native-host"), Route::NotAllowed);
    assert_eq!(route("extension_message", "native-host"), Route::ExtensionMessage);
    assert_eq!(route("extension_message", "mcp"), Route::NotAllowed);
    assert_eq!(not_allowed("shutdown"), "method not allowed: shutdown");
    assert!(registers_extension("native-host", false));
    assert!(!registers_extension("native-host", true));
    assert!(!registers_extension("mcp", false));
    assert_eq!(session_of(None), "native-host");
    assert_eq!(session_of(Some("s1")), "s1");
}

#[test]
fn tool_calls_are_logged_and_reload_changed_meetings() {
    assert!(!tool_changes("get_notes"));
    assert!(tool_changes("edit_notes"));
    assert!(tool_changes("unknown"));
    assert_eq!(access_result(None), "ok");
    assert_eq!(access_result(Some("meeting not found: x")), "error: meeting not found: x");
}

#[test]
fn mcp_methods() {
    assert_eq!(McpMethod::of("initialize"), McpMethod::Initialize);
    assert_eq!(McpMethod::of("ping"), McpMethod::Ping);
    assert_eq!(McpMethod::of("tools/list"), McpMethod::ToolsList);
    assert_eq!(McpMethod::of("tools/call"), McpMethod::ToolsCall);
    assert_eq!(McpMethod::of("notifications/initialized"), McpMethod::Notification);
    assert_eq!(McpMethod::of("resources/list"), McpMethod::Unknown);
    assert_eq!(method_not_found("resources/list"), (-32601, "method not found: resources/list".to_string()));
    assert_eq!(protocol_version(None), PROTOCOL_VERSION);
    assert_eq!(protocol_version(Some("2024-11-05")), "2024-11-05");
}
