use mcp_manager::client::{ClientState, Incoming, LaunchOutcome, McpClient, McpTool};
use mcp_manager::config::{McpConfig, McpServerConfig};
use mcp_manager::error::McpError;
use mcp_manager::extensions::ExtensionMcpServer;
use mcp_manager::json::Json;
use mcp_manager::manager::{LoadPlan, McpManager, ServerInfo};

fn json(text: &str) -> Json {
    Json::from_text(text).expect("valid JSON")
}

fn ready(name: &str) -> McpClient {
    let mut client = McpClient::spawn(name, LaunchOutcome::Started).expect("started");
    client.initialize("tester", "1.0").expect("initialize");
    client.handle_line("{\"id\":1,\"result\":{}}");
    client.advance(Ok(json("{}"))).expect("tools/list goes out");
    client.handle_line("{\"id\":2,\"result\":{}}");
    client
        .advance(Ok(json("{\"tools\":[{\"name\":\"echo\"}]}")))
        .expect("resources/list goes out");
    client.handle_line("{\"id\":3,\"result\":{}}");
    client.advance(Ok(json("{\"resources\":[]}"))).expect("done");
    client
}

fn server(command: &str) -> McpServerConfig {
    McpServerConfig { command: command.to_string(), args: Vec::new(), env: Vec::new() }
}

fn config(names: &[&str]) -> McpConfig {
    McpConfig {
        mcp_servers: names.iter().map(|n| (n.to_string(), server("run"))).collect(),
    }
}

fn extension(id: &str) -> ExtensionMcpServer {
    ExtensionMcpServer {
        extension_id: id.to_string(),
        name: "Shown".to_string(),
        command: "node".to_string(),
        args: vec!["index.js".to_string()],
        env: vec![("KEY".to_string(), "value".to_string())],
    }
}

fn planned(plan: LoadPlan) -> Vec<(String, McpServerConfig)> {
    match plan {
        LoadPlan::Spawn(list) => list,
        LoadPlan::Busy(_) => panic!("a reload is under way"),
    }
}

#[test]
fn a_new_registry_is_empty() {
    let manager = McpManager::new();
    assert!(manager.server_names().is_empty());
    assert!(manager.list_servers().is_empty());
    assert!(!manager.is_loading());
    assert!(!manager.contains("a"));
}

#[test]
fn a_reload_plans_configured_servers_then_those_of_extensions() {
    let mut manager = McpManager::new();
    let plan = planned(manager.load_servers(&config(&["b", "a"]), &vec![extension("fs")]));
    assert_eq!(
        plan,
        vec![
            ("b".to_string(), server("run")),
            ("a".to_string(), server("run")),
            (
                "ext_fs".to_string(),
                McpServerConfig {
                    command: "node".to_string(),
                    args: vec!["index.js".to_string()],
                    env: vec![("KEY".to_string(), "value".to_string())],
                }
            ),
        ]
    );
    assert!(manager.is_loading());
}

#[test]
fn a_reload_never_starts_what_is_indexed() {
    let mut manager = McpManager::new();
    assert!(manager.register(ready("a")).is_none());
    assert!(manager.register(ready("ext_fs")).is_none());
    let plan = planned(manager.load_servers(&config(&["a", "b"]), &vec![extension("fs"), extension("git")]));
    let names: Vec<String> = plan.into_iter().map(|(n, _)| n).collect();
    assert_eq!(names, vec!["b".to_string(), "ext_git".to_string()]);
    assert_eq!(
        manager.do_load_servers(&config(&["a"]), &Vec::new()),
        Vec::<(String, McpServerConfig)>::new()
    );
}

#[test]
fn a_second_reload_during_the_first_changes_nothing() {
    let mut manager = McpManager::new();
    assert!(manager.register(ready("old")).is_none());
    planned(manager.load_servers(&config(&["a", "b"]), &Vec::new()));
    assert!(manager.register(ready("a")).is_none());

    let second = manager.load_servers(&config(&["a", "b", "c"]), &Vec::new());
    assert_eq!(second, LoadPlan::Busy(vec!["old".to_string(), "a".to_string()]));
    assert!(manager.is_loading());

    assert!(manager.register(ready("b")).is_none());
    let loaded = manager.finish_load();
    assert_eq!(loaded, vec!["a".to_string(), "b".to_string()]);
    assert!(!manager.is_loading());
    assert_eq!(
        manager.server_names(),
        vec!["old".to_string(), "a".to_string(), "b".to_string()]
    );

    let third = planned(manager.load_servers(&config(&["a", "b", "c"]), &Vec::new()));
    let names: Vec<String> = third.into_iter().map(|(n, _)| n).collect();
    assert_eq!(names, vec!["c".to_string()]);
    assert_eq!(manager.finish_load(), Vec::<String>::new());
}

#[test]
fn no_name_is_indexed_twice() {
    let mut manager = McpManager::new();
    assert!(manager.register(ready("a")).is_none());
    let back = manager.register(ready("a"));
    assert_eq!(back.map(|c| c.name().to_string()), Some("a".to_string()));
    assert_eq!(manager.server_names(), vec!["a".to_string()]);
}

#[test]
fn only_a_ready_client_is_indexed() {
    let mut manager = McpManager::new();
    let created = McpClient::spawn("a", LaunchOutcome::Started).expect("started");
    assert!(manager.register(created).is_some());

    let mut failed = McpClient::spawn("b", LaunchOutcome::Started).expect("started");
    failed.initialize("tester", "1.0").expect("initialize");
    assert!(failed.advance(Err(McpError::Cancelled)).is_err());
    assert_eq!(failed.state(), ClientState::Failed);
    assert!(manager.register(failed).is_some());

    assert!(manager.server_names().is_empty());
    assert!(manager.list_servers().is_empty());
}

#[test]
fn the_list_tells_what_each_server_offers() {
    let mut manager = McpManager::new();
    assert!(manager.register(ready("a")).is_none());
    assert_eq!(
        manager.list_servers(),
        vec![ServerInfo {
            name: "a".to_string(),
            tools: vec![McpTool {
                name: "echo".to_string(),
                description: None,
                input_schema: Json::Null
            }],
            resources: Vec::new(),
        }]
    );
}

#[test]
fn calls_are_routed_by_exact_name() {
    let mut manager = McpManager::new();
    assert!(manager.register(ready("a")).is_none());
    assert!(manager.register(ready("b")).is_none());

    assert_eq!(
        manager.call_tool("A", "echo", Json::Null),
        Err(McpError::ServerNotFound("A".to_string()))
    );
    assert_eq!(
        manager.read_resource("c", "file:///x"),
        Err(McpError::ServerNotFound("c".to_string()))
    );

    let out = manager.call_tool("b", "echo", json("{\"text\":\"hi\"}")).expect("sent");
    assert_eq!(out.id, 4);
    assert_eq!(
        out.line,
        "{\"id\":4,\"jsonrpc\":\"2.0\",\"method\":\"tools/call\",\"params\":{\"arguments\":{\"text\":\"hi\"},\"name\":\"echo\"}}\n"
    );
    let out = manager.read_resource("b", "file:///x").expect("sent");
    assert_eq!(out.id, 5);

    assert_eq!(manager.handle_line("a", "{\"id\":4,\"result\":1}"), Some(Incoming::Unmatched { id: 4 }));
    assert_eq!(
        manager.handle_line("b", "{\"id\":4,\"result\":\"hi\"}"),
        Some(Incoming::Reply { id: 4, outcome: Ok(Json::Str("hi".to_string())) })
    );
    assert_eq!(manager.handle_line("c", "{\"id\":4,\"result\":1}"), None);
    assert_eq!(manager.handle_line("b", "not json"), Some(Incoming::Malformed));
    assert_eq!(
        manager.expire("b", 5),
        Some(McpError::Timeout { method: "resources/read".to_string(), timeout_secs: 30 })
    );
    assert_eq!(manager.expire("b", 5), None);
    assert_eq!(manager.expire("c", 5), None);
}

#[test]
fn stopping_takes_a_server_out_of_the_index() {
    let mut manager = McpManager::new();
    assert!(manager.register(ready("a")).is_none());
    assert!(manager.register(ready("b")).is_none());
    assert!(manager.register(ready("c")).is_none());

    assert_eq!(manager.stop_server("b"), Ok(()));
    assert_eq!(manager.server_names(), vec!["a".to_string(), "c".to_string()]);
    assert_eq!(manager.stop_server("b"), Err(McpError::ServerNotFound("b".to_string())));
    assert_eq!(
        manager.call_tool("b", "echo", Json::Null),
        Err(McpError::ServerNotFound("b".to_string()))
    );

    manager.stop_all();
    assert!(manager.server_names().is_empty());
    manager.stop_all();
    assert!(manager.server_names().is_empty());
    assert!(manager.register(ready("b")).is_none());
}

#[test]
fn a_closed_transport_is_routed_by_name() {
    let mut manager = McpManager::new();
    assert!(manager.register(ready("a")).is_none());
    manager.call_tool("a", "echo", Json::Null).expect("sent");
    assert_eq!(manager.transport_closed("b"), None);
    assert_eq!(manager.transport_closed("a"), Some(McpError::Cancelled));
    assert_eq!(manager.expire("a", 4), None);
    assert!(manager.contains("a"));
}

#[test]
fn a_reload_plans_no_name_twice() {
    let mut manager = McpManager::new();
    let mut config = config(&["a", "ext_fs"]);
    config.mcp_servers[1].1.command = "configured".to_string();
    let plan = planned(manager.load_servers(&config, &vec![extension("fs"), extension("fs"), extension("git")]));
    let summary: Vec<(String, String)> = plan.into_iter().map(|(n, s)| (n, s.command)).collect();
    assert_eq!(
        summary,
        vec![
            ("a".to_string(), "run".to_string()),
            ("ext_fs".to_string(), "configured".to_string()),
            ("ext_git".to_string(), "node".to_string()),
        ]
    );
}

#[test]
fn the_names_of_a_reload_are_indexed_and_distinct() {
    let mut manager = McpManager::new();
    planned(manager.load_servers(&config(&["a", "b", "c"]), &Vec::new()));
    assert!(manager.register(ready("a")).is_none());
    assert!(manager.register(ready("b")).is_none());
    assert!(manager.register(ready("a")).is_some());
    assert_eq!(manager.stop_server("a"), Ok(()));
    assert!(manager.register(ready("a")).is_none());
    assert!(manager.register(ready("c")).is_none());
    assert_eq!(manager.stop_server("b"), Ok(()));
    let loaded = manager.finish_load();
    assert_eq!(loaded, vec!["a".to_string(), "c".to_string()]);
    for name in &loaded {
        assert!(manager.contains(name));
    }
    assert_eq!(manager.server_names(), loaded);
}

#[test]
fn stopping_all_during_a_reload_forgets_what_was_loaded() {
    let mut manager = McpManager::new();
    planned(manager.load_servers(&config(&["a"]), &Vec::new()));
    assert!(manager.register(ready("a")).is_none());
    manager.stop_all();
    assert!(manager.is_loading());
    assert_eq!(manager.finish_load(), Vec::<String>::new());
}
