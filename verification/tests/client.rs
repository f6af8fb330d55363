use mcp_manager::client::{
    parse_resources, parse_tools, ClientState, Incoming, InitStep, LaunchOutcome, McpClient,
    McpResource, McpTool, REQUEST_TIMEOUT_SECS,
};
use mcp_manager::error::McpError;
use mcp_manager::json::{Json, JsonNumber, Member};

fn json(text: &str) -> Json {
    Json::from_text(text).expect("valid JSON")
}

fn started(name: &str) -> McpClient {
    McpClient::spawn(name, LaunchOutcome::Started).expect("started")
}

fn ready(name: &str) -> McpClient {
    let mut client = started(name);
    client.initialize("tester", "1.0").expect("initialize");
    client.handle_line("{\"jsonrpc\":\"2.0\",\"id\":1,\"result\":{}}");
    client.advance(Ok(json("{}"))).expect("tools/list goes out");
    client.advance(Ok(json("{\"tools\":[]}"))).expect("resources/list goes out");
    client.advance(Ok(json("{\"resources\":[]}"))).expect("done");
    client
}

#[test]
fn a_new_client_is_created_with_nothing_waiting() {
    let client = started("files");
    assert_eq!(client.name(), "files");
    assert_eq!(client.state(), ClientState::Created);
    assert_eq!(client.pending_count(), 0);
    assert!(client.tools.is_empty());
    assert!(client.resources.is_empty());
}

#[test]
fn a_process_that_did_not_start_gives_spawn_failed() {
    let e = McpClient::spawn("files", LaunchOutcome::NotStarted("No such file".to_string()))
        .unwrap_err();
    assert_eq!(
        e,
        McpError::SpawnFailed { server: "files".to_string(), reason: "No such file".to_string() }
    );
    let e = McpClient::spawn("files", LaunchOutcome::NoStdin).unwrap_err();
    assert_eq!(
        e,
        McpError::SpawnFailed {
            server: "files".to_string(),
            reason: "Failed to get stdin".to_string()
        }
    );
    let e = McpClient::spawn("files", LaunchOutcome::NoStdout).unwrap_err();
    assert_eq!(
        e,
        McpError::SpawnFailed {
            server: "files".to_string(),
            reason: "Failed to get stdout".to_string()
        }
    );
    let e = McpClient::spawn("files", LaunchOutcome::NoStderr).unwrap_err();
    assert_eq!(
        e,
        McpError::SpawnFailed {
            server: "files".to_string(),
            reason: "Failed to get stderr".to_string()
        }
    );
}

#[test]
fn a_request_is_one_line_of_json_rpc() {
    let mut client = started("files");
    let out = client.send_request("ping", json("{\"a\":[1,2]}")).expect("sent");
    assert_eq!(out.id, 1);
    assert_eq!(out.timeout_secs, 30);
    assert_eq!(REQUEST_TIMEOUT_SECS, 30);
    assert_eq!(
        out.line,
        "{\"id\":1,\"jsonrpc\":\"2.0\",\"method\":\"ping\",\"params\":{\"a\":[1,2]}}\n"
    );
    assert!(client.is_pending(1));
    assert_eq!(client.pending_count(), 1);
}

#[test]
fn ids_start_at_one_and_are_never_reused() {
    let mut client = started("files");
    let a = client.send_request("a", Json::Null).expect("sent");
    let b = client.send_request("b", Json::Null).expect("sent");
    client.handle_line("{\"id\":1,\"result\":null}");
    let c = client.send_request("c", Json::Null).expect("sent");
    assert_eq!((a.id, b.id, c.id), (1, 2, 3));
    assert!(!client.is_pending(1));
    assert!(client.is_pending(2));
    assert!(client.is_pending(3));
}

#[test]
fn replies_out_of_order_reach_their_own_requests() {
    let mut client = started("files");
    for expected in 1..=5u64 {
        let out = client.send_request("work", Json::Null).expect("sent");
        assert_eq!(out.id, expected);
    }
    for id in [5u64, 3, 1, 4, 2] {
        let line = format!("{{\"jsonrpc\":\"2.0\",\"id\":{},\"result\":{{\"answer\":{}}}}}", id, id * 10);
        let incoming = client.handle_line(&line);
        let payload = Json::Object(vec![Member {
            key: "answer".to_string(),
            value: Json::Number(JsonNumber::PosInt(id * 10)),
        }]);
        assert_eq!(incoming, Incoming::Reply { id, outcome: Ok(payload) });
        assert!(!client.is_pending(id));
    }
    assert_eq!(client.pending_count(), 0);
}

#[test]
fn a_reply_takes_only_its_own_request_off_the_list() {
    let mut client = started("files");
    client.send_request("a", Json::Null).expect("sent");
    client.send_request("b", Json::Null).expect("sent");
    client.send_request("c", Json::Null).expect("sent");
    client.handle_line("{\"id\":2,\"result\":true}");
    assert!(client.is_pending(1));
    assert!(!client.is_pending(2));
    assert!(client.is_pending(3));
}

#[test]
fn a_request_without_reply_times_out_and_waits_no_longer() {
    let mut client = started("files");
    let out = client.send_request("tools/call", Json::Null).expect("sent");
    assert_eq!(out.timeout_secs, 30);
    let e = client.expire(out.id);
    assert_eq!(
        e,
        Some(McpError::Timeout { method: "tools/call".to_string(), timeout_secs: 30 })
    );
    assert!(!client.is_pending(out.id));
    assert_eq!(client.pending_count(), 0);
}

#[test]
fn a_reply_after_the_timeout_finds_no_request() {
    let mut client = started("files");
    let out = client.send_request("slow", Json::Null).expect("sent");
    client.expire(out.id);
    assert_eq!(client.handle_line("{\"id\":1,\"result\":1}"), Incoming::Unmatched { id: 1 });
}

#[test]
fn a_timeout_after_the_reply_does_nothing() {
    let mut client = started("files");
    let out = client.send_request("fast", Json::Null).expect("sent");
    client.handle_line("{\"id\":1,\"result\":1}");
    assert_eq!(client.expire(out.id), None);
    assert_eq!(client.expire(77), None);
}

#[test]
fn a_second_reply_finds_no_request() {
    let mut client = started("files");
    client.send_request("once", Json::Null).expect("sent");
    assert!(matches!(client.handle_line("{\"id\":1,\"result\":1}"), Incoming::Reply { .. }));
    assert_eq!(client.handle_line("{\"id\":1,\"result\":1}"), Incoming::Unmatched { id: 1 });
}

#[test]
fn a_line_that_is_no_json_is_skipped() {
    let mut client = started("files");
    client.send_request("a", Json::Null).expect("sent");
    client.send_request("b", Json::Null).expect("sent");
    assert_eq!(client.handle_line("Server listening on stdio"), Incoming::Malformed);
    assert_eq!(client.handle_line(""), Incoming::Malformed);
    assert_eq!(client.handle_line("{\"id\":1,"), Incoming::Malformed);
    assert_eq!(client.pending_count(), 2);
    assert!(client.is_pending(1));
    assert!(client.is_pending(2));
    assert_eq!(
        client.handle_line("{\"id\":2,\"result\":\"ok\"}"),
        Incoming::Reply { id: 2, outcome: Ok(Json::Str("ok".to_string())) }
    );
}

#[test]
fn an_error_object_gives_json_rpc() {
    let mut client = started("files");
    client.send_request("a", Json::Null).expect("sent");
    let incoming = client
        .handle_line("{\"id\":1,\"error\":{\"code\":-32601,\"message\":\"Method not found\"}}");
    assert_eq!(
        incoming,
        Incoming::Reply {
            id: 1,
            outcome: Err(McpError::JsonRpc {
                code: -32601,
                message: "Method not found".to_string()
            })
        }
    );
}

#[test]
fn an_error_wins_over_a_result() {
    let mut client = started("files");
    client.send_request("a", Json::Null).expect("sent");
    let incoming =
        client.handle_line("{\"id\":1,\"result\":5,\"error\":{\"code\":1,\"message\":\"no\"}}");
    assert_eq!(
        incoming,
        Incoming::Reply {
            id: 1,
            outcome: Err(McpError::JsonRpc { code: 1, message: "no".to_string() })
        }
    );
}

#[test]
fn an_error_without_code_and_message_is_given_as_its_text() {
    let mut client = started("files");
    client.send_request("a", Json::Null).expect("sent");
    let incoming = client.handle_line("{\"id\":1,\"error\":{\"message\":\"no code\"}}");
    assert_eq!(
        incoming,
        Incoming::Reply {
            id: 1,
            outcome: Err(McpError::Communication("{\"message\":\"no code\"}".to_string()))
        }
    );
}

#[test]
fn a_reply_with_neither_result_nor_error_cancels_the_request() {
    let mut client = started("files");
    client.send_request("a", Json::Null).expect("sent");
    assert_eq!(
        client.handle_line("{\"id\":1}"),
        Incoming::Reply { id: 1, outcome: Err(McpError::Cancelled) }
    );
    assert!(!client.is_pending(1));
}

#[test]
fn a_request_of_the_server_is_only_reported() {
    let mut client = started("files");
    client.send_request("a", Json::Null).expect("sent");
    assert_eq!(
        client.handle_line("{\"jsonrpc\":\"2.0\",\"method\":\"roots/list\"}"),
        Incoming::ServerRequest { method: "roots/list".to_string() }
    );
    assert_eq!(client.handle_line("{\"jsonrpc\":\"2.0\"}"), Incoming::Other);
    assert_eq!(client.handle_line("[1,2,3]"), Incoming::Other);
    assert_eq!(client.handle_line("{\"id\":\"abc\",\"result\":1}"), Incoming::Other);
    assert_eq!(client.handle_line("{\"id\":-1,\"result\":1}"), Incoming::Other);
    assert_eq!(client.pending_count(), 1);
}

#[test]
fn dispatch_takes_the_document_itself() {
    let mut client = started("files");
    client.send_request("a", Json::Null).expect("sent");
    assert_eq!(client.dispatch(None), Incoming::Malformed);
    assert_eq!(
        client.dispatch(Some(json("{\"id\":1,\"result\":[1]}"))),
        Incoming::Reply { id: 1, outcome: Ok(Json::Array(vec![Json::Number(JsonNumber::PosInt(1))])) }
    );
}

#[test]
fn the_handshake_leaves_the_client_ready_with_what_the_server_lists() {
    let mut client = started("files");
    let out = client.initialize("tester", "1.2.3").expect("initialize goes out");
    assert_eq!(out.id, 1);
    assert_eq!(
        out.line,
        "{\"id\":1,\"jsonrpc\":\"2.0\",\"method\":\"initialize\",\"params\":{\"capabilities\":{\"sampling\":{}},\"clientInfo\":{\"name\":\"tester\",\"version\":\"1.2.3\"},\"protocolVersion\":\"2024-11-05\"}}\n"
    );
    assert_eq!(client.state(), ClientState::AwaitingInitialize);

    let reply = match client.handle_line("{\"jsonrpc\":\"2.0\",\"id\":1,\"result\":{\"protocolVersion\":\"2024-11-05\"}}") {
        Incoming::Reply { id: 1, outcome } => outcome,
        other => panic!("unexpected {:?}", other),
    };
    let step = client.advance(reply).expect("handshake goes on");
    match step {
        InitStep::Send { notification, request } => {
            assert_eq!(
                notification,
                Some("{\"jsonrpc\":\"2.0\",\"method\":\"notifications/initialized\"}\n".to_string())
            );
            assert_eq!(request.id, 2);
            assert_eq!(
                request.line,
                "{\"id\":2,\"jsonrpc\":\"2.0\",\"method\":\"tools/list\",\"params\":{}}\n"
            );
        }
        InitStep::Done => panic!("too early"),
    }
    assert_eq!(client.state(), ClientState::AwaitingTools);

    let tools = "{\"jsonrpc\":\"2.0\",\"id\":2,\"result\":{\"tools\":[{\"name\":\"read_file\",\"description\":\"Reads a file\",\"inputSchema\":{\"type\":\"object\"}},{\"name\":\"list\"}]}}";
    let reply = match client.handle_line(tools) {
        Incoming::Reply { id: 2, outcome } => outcome,
        other => panic!("unexpected {:?}", other),
    };
    let step = client.advance(reply).expect("handshake goes on");
    match step {
        InitStep::Send { notification, request } => {
            assert_eq!(notification, None);
            assert_eq!(request.id, 3);
            assert_eq!(
                request.line,
                "{\"id\":3,\"jsonrpc\":\"2.0\",\"method\":\"resources/list\",\"params\":{}}\n"
            );
        }
        InitStep::Done => panic!("too early"),
    }
    assert_eq!(client.state(), ClientState::AwaitingResources);

    let resources = "{\"jsonrpc\":\"2.0\",\"id\":3,\"result\":{\"resources\":[{\"uri\":\"file:///a\",\"name\":\"a\",\"mimeType\":\"text/plain\"}]}}";
    let reply = match client.handle_line(resources) {
        Incoming::Reply { id: 3, outcome } => outcome,
        other => panic!("unexpected {:?}", other),
    };
    assert_eq!(client.advance(reply), Ok(InitStep::Done));
    assert_eq!(client.state(), ClientState::Ready);
    assert_eq!(client.pending_count(), 0);
    assert_eq!(
        client.tools,
        vec![
            McpTool {
                name: "read_file".to_string(),
                description: Some("Reads a file".to_string()),
                input_schema: json("{\"type\":\"object\"}"),
            },
            McpTool { name: "list".to_string(), description: None, input_schema: Json::Null },
        ]
    );
    assert_eq!(
        client.resources,
        vec![McpResource {
            uri: "file:///a".to_string(),
            name: "a".to_string(),
            description: None,
            mime_type: Some("text/plain".to_string()),
        }]
    );
    assert_eq!(client.tools(), &client.tools);
    assert_eq!(client.resources(), &client.resources);
}

#[test]
fn a_failed_initialize_fails_the_handshake_for_good() {
    let mut client = started("files");
    client.initialize("tester", "1.0").expect("initialize goes out");
    let e = client
        .advance(Err(McpError::JsonRpc { code: -1, message: "unsupported".to_string() }))
        .unwrap_err();
    assert_eq!(
        e,
        McpError::InitFailed {
            server: "files".to_string(),
            reason: "JSON-RPC error -1: unsupported".to_string()
        }
    );
    assert_eq!(client.state(), ClientState::Failed);
    assert!(client.send_request("ping", Json::Null).is_err());
    assert!(client.call_tool("t", Json::Null).is_err());
    assert_eq!(
        client.advance(Ok(Json::Null)),
        Err(McpError::Communication("no handshake in progress".to_string()))
    );
}

#[test]
fn failed_listings_do_not_fail_the_handshake() {
    let mut client = started("files");
    client.initialize("tester", "1.0").expect("initialize goes out");
    client.advance(Ok(Json::Null)).expect("tools/list goes out");
    client.advance(Err(McpError::Timeout { method: "tools/list".to_string(), timeout_secs: 30 }))
        .expect("resources/list goes out");
    assert_eq!(client.advance(Ok(json("{\"other\":1}"))), Ok(InitStep::Done));
    assert_eq!(client.state(), ClientState::Ready);
    assert!(client.tools.is_empty());
    assert!(client.resources.is_empty());
}

#[test]
fn initialize_is_for_a_new_client_only() {
    let mut client = started("files");
    client.initialize("tester", "1.0").expect("initialize goes out");
    let e = client.initialize("tester", "1.0").unwrap_err();
    assert_eq!(
        e,
        McpError::InitFailed {
            server: "files".to_string(),
            reason: "handshake cannot begin".to_string()
        }
    );
    assert_eq!(client.state(), ClientState::AwaitingInitialize);
    assert_eq!(client.pending_count(), 1);
}

#[test]
fn entries_of_the_wrong_shape_are_dropped() {
    let items = json(
        "[{\"name\":\"ok\"},{\"description\":\"no name\"},{\"name\":5},\"text\",{\"name\":\"d\",\"description\":7},{\"name\":\"both\",\"input_schema\":1,\"inputSchema\":2},{\"name\":\"snake\",\"input_schema\":{\"a\":1},\"description\":null}]",
    );
    let items = match items {
        Json::Array(items) => items,
        _ => unreachable!(),
    };
    let tools = parse_tools(&items);
    assert_eq!(
        tools,
        vec![
            McpTool { name: "ok".to_string(), description: None, input_schema: Json::Null },
            McpTool {
                name: "snake".to_string(),
                description: None,
                input_schema: json("{\"a\":1}")
            },
        ]
    );
    let items = match json(
        "[{\"uri\":\"u\",\"name\":\"n\",\"description\":\"d\"},{\"uri\":\"u\"},{\"name\":\"n\"},{\"uri\":\"u\",\"name\":\"n\",\"mimeType\":3},null]",
    ) {
        Json::Array(items) => items,
        _ => unreachable!(),
    };
    assert_eq!(
        parse_resources(&items),
        vec![McpResource {
            uri: "u".to_string(),
            name: "n".to_string(),
            description: Some("d".to_string()),
            mime_type: None,
        }]
    );
    assert_eq!(McpTool::from_json(&Json::Null), None);
    assert_eq!(McpResource::from_json(&json("[]")), None);
}

#[test]
fn calls_go_to_a_ready_client_only() {
    let mut client = started("files");
    assert_eq!(
        client.call_tool("read_file", Json::Null),
        Err(McpError::Communication("server is not ready".to_string()))
    );
    assert_eq!(
        client.read_resource("file:///a"),
        Err(McpError::Communication("server is not ready".to_string()))
    );
    assert_eq!(client.pending_count(), 0);

    let mut client = ready("files");
    let out = client.call_tool("read_file", json("{\"path\":\"/tmp/x\"}")).expect("sent");
    assert_eq!(out.id, 4);
    assert_eq!(
        out.line,
        "{\"id\":4,\"jsonrpc\":\"2.0\",\"method\":\"tools/call\",\"params\":{\"arguments\":{\"path\":\"/tmp/x\"},\"name\":\"read_file\"}}\n"
    );
    let out = client.read_resource("file:///a").expect("sent");
    assert_eq!(out.id, 5);
    assert_eq!(
        out.line,
        "{\"id\":5,\"jsonrpc\":\"2.0\",\"method\":\"resources/read\",\"params\":{\"uri\":\"file:///a\"}}\n"
    );
    assert_eq!(
        client.expire(4),
        Some(McpError::Timeout { method: "tools/call".to_string(), timeout_secs: 30 })
    );
    assert_eq!(
        client.expire(5),
        Some(McpError::Timeout { method: "resources/read".to_string(), timeout_secs: 30 })
    );
}

#[test]
fn stopping_is_final_and_may_be_repeated() {
    let mut client = ready("files");
    client.call_tool("t", Json::Null).expect("sent");
    client.stop();
    assert_eq!(client.state(), ClientState::Stopped);
    assert_eq!(client.pending_count(), 0);
    client.stop();
    assert_eq!(client.state(), ClientState::Stopped);
    assert_eq!(
        client.send_request("ping", Json::Null),
        Err(McpError::Communication("client cannot issue requests".to_string()))
    );
    assert_eq!(
        client.call_tool("t", Json::Null),
        Err(McpError::Communication("server is not ready".to_string()))
    );
    assert_eq!(client.handle_line("{\"id\":4,\"result\":1}"), Incoming::Unmatched { id: 4 });
}

#[test]
fn the_notification_has_no_id() {
    assert_eq!(
        McpClient::initialized_notification(),
        "{\"jsonrpc\":\"2.0\",\"method\":\"notifications/initialized\"}\n"
    );
}

#[test]
fn a_closed_transport_cancels_what_waits() {
    let mut client = started("files");
    client.send_request("a", Json::Null).expect("sent");
    client.send_request("b", Json::Null).expect("sent");
    assert_eq!(client.transport_closed(), McpError::Cancelled);
    assert_eq!(client.pending_count(), 0);
    assert_eq!(client.state(), ClientState::Created);
    assert_eq!(client.handle_line("{\"id\":1,\"result\":1}"), Incoming::Unmatched { id: 1 });
    assert_eq!(client.expire(2), None);
}
