//! Calls of the service inside a base.

use onec_export::json::Json;
use onec_export::mcp_client::{flush_url, read_reply, HttpReply, McpClient, ToolReply};
use onec_export::storage_mapping::table_arguments;

#[test]
fn rpc_url_trims_trailing_slash() {
    let c = McpClient::new("http://h/base/hs/mcp/", "u", "p", "k".to_string());
    assert_eq!(c.rpc_url, "http://h/base/hs/mcp/rpc");
    let c = McpClient::new("http://h/base/hs/mcp", "u", "p", "k".to_string());
    assert_eq!(c.rpc_url, "http://h/base/hs/mcp/rpc");
}

#[test]
fn basic_auth_header_format() {
    let c = McpClient::new("http://h/x/hs/mcp", "user", "pwd", "k".to_string());
    // base64("user:pwd") = dXNlcjpwd2Q=
    assert_eq!(c.auth_header, "Basic dXNlcjpwd2Q=");
    assert_eq!(c.api_key, "k");
}

#[test]
fn reply_is_the_first_text() {
    let raw = r#"{"jsonrpc":"2.0","id":1,"result":{"content":[{"type":"text","text":"да"},{"text":"нет"}]}}"#;
    match read_reply(raw) {
        ToolReply::Text(s) => assert_eq!(s, "да"),
        other => panic!("{:?}", other),
    }
}

#[test]
fn replies_without_text_are_told_apart() {
    assert!(matches!(read_reply("<html>"), ToolReply::NotJson));
    match read_reply(r#"{"error": {"code": -32601, "message": "нет"}, "result": {}}"#) {
        ToolReply::Refused(e) => assert_eq!(e, r#"{"code":-32601,"message":"нет"}"#),
        other => panic!("{:?}", other),
    }
    for raw in [
        "{}",
        r#"{"result":{"content":[]}}"#,
        r#"{"result":{"content":[{"text":1}]}}"#,
        r#"{"result":{"content":{"text":"a"}}}"#,
    ] {
        assert!(matches!(read_reply(raw), ToolReply::NoText), "{}", raw);
    }
}

#[test]
fn proxy_is_told_of_the_base() {
    assert_eq!(flush_url("http://proxy:8080//", "ut"), "http://proxy:8080/flush?base=ut");
}

fn body(raw: &str) -> HttpReply {
    HttpReply::Body(raw.to_string())
}

#[test]
fn call_gives_the_text_or_says_what_went_wrong() {
    let ok = r#"{"result":{"content":[{"text":"да"}]}}"#;
    assert_eq!(McpClient::call_tool("t", body(ok)), Ok("да".to_string()));
    let failed = |reply: HttpReply| McpClient::call_tool("t", reply).unwrap_err();
    assert_eq!(
        failed(HttpReply::Unsent("нет связи".to_string())),
        "MCP tools/call 't' запрос упал: нет связи"
    );
    assert_eq!(
        failed(HttpReply::Status { status: "401 Unauthorized".to_string(), body: "нет".to_string() }),
        "MCP tools/call 't' вернул HTTP 401 Unauthorized: нет"
    );
    assert_eq!(
        failed(HttpReply::Unread("обрыв".to_string())),
        "MCP tools/call 't' чтение тела: обрыв"
    );
    let long = "ж".repeat(600);
    assert_eq!(
        failed(body(&long)),
        format!(
            "MCP tools/call 't' не JSON: expected value at line 1 column 1\nraw[:500]={}",
            "ж".repeat(500)
        )
    );
    assert_eq!(
        failed(body(r#"{"error": {"code": 1}}"#)),
        r#"MCP tools/call 't' JSON-RPC error: {"code":1}"#
    );
    // The body is written out again, its fields in order.
    assert_eq!(
        failed(body(r#"{ "b": [1, 2], "a": null }"#)),
        r#"MCP tools/call 't' нет result.content[0].text. body={"a":null,"b":[1,2]}"#
    );
}

#[test]
fn request_names_the_tool_and_its_arguments() {
    let Json::Object(fields) = McpClient::tool_request("tool", table_arguments("Т")) else {
        panic!("no object")
    };
    let names: Vec<&str> = fields.iter().map(|f| f.0.as_str()).collect();
    assert_eq!(names, vec!["id", "jsonrpc", "method", "params"]);
    assert!(matches!(&fields[0].1, Json::Number(n) if n == "1"));
    assert!(matches!(&fields[1].1, Json::Text(s) if s == "2.0"));
    assert!(matches!(&fields[2].1, Json::Text(s) if s == "tools/call"));
    assert_eq!(fields[3].1.text("name").as_deref(), Some("tool"));
    let arguments = fields[3].1.get("arguments").unwrap();
    assert_eq!(arguments.text("table").as_deref(), Some("Т"));
}
