//! The rules of the app socket and of the MCP server: which requests each helper may send, and which
//! MCP methods the server answers.
use vstd::prelude::*;

use crate::text::{chars_of, concat, eq_chars, has_prefix, has_prefix_exec, string_of};

verus! {

broadcast use vstd::string::group_string_axioms;

/// The longest request line on the app socket, in bytes.
pub const MAX_LINE_BYTES: u64 = 1048576;

/// What the app does with a request on its socket.
#[derive(Debug, Clone, Copy, PartialEq, Eq, Structural)]
pub enum Route {
    /// The first request of a connection: the helper says who it is.
    Hello,
    /// A tool call of the MCP helper.
    ToolsCall,
    /// A message of the Meet extension, from the native host.
    ExtensionMessage,
    /// The helper may not send this request.
    NotAllowed,
}

/// The route of a request with `method` from the helper that said it is `client`: each helper
/// sends its own kind of request, and every helper says hello.
pub open spec fn route_of(method: Seq<char>, client: Seq<char>) -> Route {
    if method == "hello"@ {
        Route::Hello
    } else if method == "tools_call"@ && client == "mcp"@ {
        Route::ToolsCall
    } else if method == "extension_message"@ && client == "native-host"@ {
        Route::ExtensionMessage
    } else {
        Route::NotAllowed
    }
}

/// The route of a socket request, as `route_of` states.
pub fn route(method: &str, client: &str) -> (r: Route)
    ensures
        r == route_of(method@, client@),
{
    let m = chars_of(method);
    let c = chars_of(client);
    if eq_chars(&m, &chars_of("hello")) {
        Route::Hello
    } else if eq_chars(&m, &chars_of("tools_call")) && eq_chars(&c, &chars_of("mcp")) {
        Route::ToolsCall
    } else if eq_chars(&m, &chars_of("extension_message")) && eq_chars(&c, &chars_of("native-host")) {
        Route::ExtensionMessage
    } else {
        Route::NotAllowed
    }
}

/// The error of a request that the helper may not send.
pub fn not_allowed(method: &str) -> (r: String)
    ensures
        r@ == "method not allowed: "@ + method@,
{
    string_of(&concat(&chars_of("method not allowed: "), &chars_of(method)))
}

/// True when a hello registers a new connection of the native host: the first hello of a native
/// host connection does.
pub fn registers_extension(client: &str, registered: bool) -> (r: bool)
    ensures
        r == (client@ == "native-host"@ && !registered),
{
    !registered && eq_chars(&chars_of(client), &chars_of("native-host"))
}

/// The session of a helper: the one it names in its hello, else the native host's.
pub fn session_of(session: Option<&str>) -> (r: String)
    ensures
        r@ == (match session {
            Some(s) => s@,
            None => "native-host"@,
        }),
{
    match session {
        Some(s) => string_of(&chars_of(s)),
        None => string_of(&chars_of("native-host")),
    }
}

/// The tools that only read data, by name. All other tools change data.
pub open spec fn read_only_name(name: Seq<char>) -> bool {
    ||| name == "list_meetings"@
    ||| name == "search_meetings"@
    ||| name == "get_notes"@
    ||| name == "get_meeting"@
    ||| name == "get_summary"@
    ||| name == "get_transcript"@
    ||| name == "list_speakers"@
}

/// True when a successful tool call can change meetings, so the window reloads them: every tool
/// but the ones that only read.
pub fn tool_changes(name: &str) -> (r: bool)
    ensures
        r == !read_only_name(name@),
{
    let n = chars_of(name);
    !(eq_chars(&n, &chars_of("list_meetings")) || eq_chars(&n, &chars_of("search_meetings")) || eq_chars(
        &n,
        &chars_of("get_notes"),
    ) || eq_chars(&n, &chars_of("get_meeting")) || eq_chars(&n, &chars_of("get_summary")) || eq_chars(
        &n,
        &chars_of("get_transcript"),
    ) || eq_chars(&n, &chars_of("list_speakers")))
}

/// The result of a tool call in the MCP access log: "ok", or "error: " and the error.
pub fn access_result(error: Option<&str>) -> (r: String)
    ensures
        r@ == (match error {
            Some(e) => "error: "@ + e@,
            None => "ok"@,
        }),
{
    match error {
        Some(e) => string_of(&concat(&chars_of("error: "), &chars_of(e))),
        None => string_of(&chars_of("ok")),
    }
}

// MARK: MCP

/// The version of the MCP protocol that the server speaks when the client names none.
pub const PROTOCOL_VERSION: &'static str = "2025-06-18";

/// The JSON-RPC error code of an unknown method.
pub const METHOD_NOT_FOUND: i64 = -32601;

/// A method of the MCP protocol.
#[derive(Debug, Clone, Copy, PartialEq, Eq, Structural)]
pub enum McpMethod {
    Initialize,
    Ping,
    ToolsList,
    ToolsCall,
    /// A notification, which gets no reply.
    Notification,
    /// A method that the server does not know.
    Unknown,
}

/// The MCP method of a name.
pub open spec fn mcp_method_of(method: Seq<char>) -> McpMethod {
    if method == "initialize"@ {
        McpMethod::Initialize
    } else if method == "ping"@ {
        McpMethod::Ping
    } else if method == "tools/list"@ {
        McpMethod::ToolsList
    } else if method == "tools/call"@ {
        McpMethod::ToolsCall
    } else if has_prefix(method, "notifications/"@) {
        McpMethod::Notification
    } else {
        McpMethod::Unknown
    }
}

impl McpMethod {
    /// The MCP method of a request, as `mcp_method_of` states.
    pub fn of(method: &str) -> (r: McpMethod)
        ensures
            r == mcp_method_of(method@),
    {
        let m = chars_of(method);
        if eq_chars(&m, &chars_of("initialize")) {
            McpMethod::Initialize
        } else if eq_chars(&m, &chars_of("ping")) {
            McpMethod::Ping
        } else if eq_chars(&m, &chars_of("tools/list")) {
            McpMethod::ToolsList
        } else if eq_chars(&m, &chars_of("tools/call")) {
            McpMethod::ToolsCall
        } else if has_prefix_exec(&m, &chars_of("notifications/")) {
            McpMethod::Notification
        } else {
            McpMethod::Unknown
        }
    }
}

/// The error of an unknown MCP method: its code and message.
pub fn method_not_found(method: &str) -> (r: (i64, String))
    ensures
        r.0 == METHOD_NOT_FOUND,
        r.1@ == "method not found: "@ + method@,
{
    (METHOD_NOT_FOUND, string_of(&concat(&chars_of("method not found: "), &chars_of(method))))
}

/// The protocol version of the reply to `initialize`: the client's, else the server's.
pub fn protocol_version(client: Option<&str>) -> (r: String)
    ensures
        r@ == (match client {
            Some(v) => v@,
            None => PROTOCOL_VERSION@,
        }),
{
    match client {
        Some(v) => string_of(&chars_of(v)),
        None => string_of(&chars_of(PROTOCOL_VERSION)),
    }
}

} // verus!
