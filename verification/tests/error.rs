use mcp_manager::error::{AppError, ConfigError, ErrorResponse, ExtensionError, McpError};

#[test]
fn mcp_errors_have_their_text() {
    assert_eq!(McpError::ServerNotFound("fs".to_string()).message(), "Server 'fs' not found");
    assert_eq!(
        McpError::SpawnFailed { server: "fs".to_string(), reason: "no such file".to_string() }
            .message(),
        "Failed to spawn server 'fs': no such file"
    );
    assert_eq!(
        McpError::InitFailed { server: "fs".to_string(), reason: "closed".to_string() }.message(),
        "Failed to initialize server 'fs': closed"
    );
    assert_eq!(
        McpError::Timeout { method: "tools/call".to_string(), timeout_secs: 30 }.message(),
        "Request 'tools/call' timed out after 30s"
    );
    assert_eq!(McpError::Cancelled.message(), "Request cancelled");
    assert_eq!(
        McpError::JsonRpc { code: -32601, message: "Method not found".to_string() }.message(),
        "JSON-RPC error -32601: Method not found"
    );
    assert_eq!(
        McpError::Communication("broken pipe".to_string()).message(),
        "Communication error: broken pipe"
    );
}

#[test]
fn numbers_in_messages_are_decimal() {
    assert_eq!(
        McpError::Timeout { method: "m".to_string(), timeout_secs: 0 }.message(),
        "Request 'm' timed out after 0s"
    );
    assert_eq!(
        McpError::Timeout { method: "m".to_string(), timeout_secs: u64::MAX }.message(),
        "Request 'm' timed out after 18446744073709551615s"
    );
    assert_eq!(
        McpError::JsonRpc { code: i64::MIN, message: "x".to_string() }.message(),
        "JSON-RPC error -9223372036854775808: x"
    );
    assert_eq!(
        McpError::JsonRpc { code: i64::MAX, message: "x".to_string() }.message(),
        "JSON-RPC error 9223372036854775807: x"
    );
    assert_eq!(
        McpError::JsonRpc { code: 0, message: "x".to_string() }.message(),
        "JSON-RPC error 0: x"
    );
    assert_eq!(
        McpError::JsonRpc { code: 1005, message: "x".to_string() }.message(),
        "JSON-RPC error 1005: x"
    );
}

#[test]
fn extension_errors_have_their_text() {
    assert_eq!(ExtensionError::NotFound("e".to_string()).message(), "Extension 'e' not found");
    assert_eq!(
        ExtensionError::InvalidManifest { id: "e".to_string(), reason: "r".to_string() }.message(),
        "Invalid manifest for 'e': r"
    );
    assert_eq!(
        ExtensionError::InstallFailed { id: "e".to_string(), reason: "r".to_string() }.message(),
        "Failed to install 'e': r"
    );
    assert_eq!(
        ExtensionError::MissingConfig { id: "e".to_string(), field: "f".to_string() }.message(),
        "Missing required config 'f' for 'e'"
    );
    assert_eq!(
        ExtensionError::InvalidPackage("r".to_string()).message(),
        "Invalid extension package: r"
    );
}

#[test]
fn config_errors_have_their_text() {
    assert_eq!(ConfigError::NotFound("p".to_string()).message(), "Config file not found: p");
    assert_eq!(ConfigError::ReadFailed("r".to_string()).message(), "Failed to read config: r");
    assert_eq!(ConfigError::WriteFailed("r".to_string()).message(), "Failed to write config: r");
    assert_eq!(ConfigError::InvalidFormat("r".to_string()).message(), "Invalid config format: r");
}

#[test]
fn app_errors_name_their_kind() {
    assert_eq!(
        AppError::Mcp(McpError::Cancelled).message(),
        "MCP error: Request cancelled"
    );
    assert_eq!(
        AppError::Extension(ExtensionError::NotFound("e".to_string())).message(),
        "Extension error: Extension 'e' not found"
    );
    assert_eq!(
        AppError::Config(ConfigError::NotFound("p".to_string())).message(),
        "Config error: Config file not found: p"
    );
    assert_eq!(AppError::Io("denied".to_string()).message(), "I/O error: denied");
    assert_eq!(AppError::Json("eof".to_string()).message(), "JSON error: eof");
    assert_eq!(AppError::Other("plain".to_string()).message(), "plain");
}

fn response(e: AppError) -> (String, String) {
    let r = ErrorResponse::from(e);
    (r.code, r.message)
}

#[test]
fn responses_carry_a_code_word() {
    assert_eq!(
        response(AppError::Mcp(McpError::ServerNotFound("fs".to_string()))),
        ("MCP_SERVER_NOT_FOUND".to_string(), "MCP error: Server 'fs' not found".to_string())
    );
    assert_eq!(
        response(AppError::Mcp(McpError::Timeout { method: "m".to_string(), timeout_secs: 30 })),
        ("MCP_TIMEOUT".to_string(), "MCP error: Request 'm' timed out after 30s".to_string())
    );
    assert_eq!(
        response(AppError::Mcp(McpError::Cancelled)),
        ("MCP_ERROR".to_string(), "MCP error: Request cancelled".to_string())
    );
    assert_eq!(
        response(AppError::Extension(ExtensionError::NotFound("e".to_string()))).0,
        "EXT_NOT_FOUND"
    );
    assert_eq!(
        response(AppError::Extension(ExtensionError::InvalidPackage("r".to_string()))).0,
        "EXT_ERROR"
    );
    assert_eq!(response(AppError::Config(ConfigError::ReadFailed("r".to_string()))).0, "CONFIG_ERROR");
    assert_eq!(response(AppError::Io("x".to_string())).0, "IO_ERROR");
    assert_eq!(response(AppError::Json("x".to_string())).0, "JSON_ERROR");
    assert_eq!(
        response(AppError::Other("x".to_string())),
        ("UNKNOWN_ERROR".to_string(), "x".to_string())
    );
}

#[test]
fn errors_convert_into_app_errors() {
    assert_eq!(AppError::from(McpError::Cancelled), AppError::Mcp(McpError::Cancelled));
    assert_eq!(
        AppError::from(ExtensionError::NotFound("e".to_string())),
        AppError::Extension(ExtensionError::NotFound("e".to_string()))
    );
    assert_eq!(
        AppError::from(ConfigError::NotFound("p".to_string())),
        AppError::Config(ConfigError::NotFound("p".to_string()))
    );
    assert_eq!(AppError::from("plain".to_string()), AppError::Other("plain".to_string()));
}

#[test]
fn a_text_converts_into_an_app_error_and_back() {
    assert_eq!(AppError::from("plain"), AppError::Other("plain".to_string()));
    assert_eq!(String::from(AppError::Other("plain".to_string())), "plain");
    assert_eq!(
        String::from(AppError::Mcp(McpError::ServerNotFound("fs".to_string()))),
        "MCP error: Server 'fs' not found"
    );
    let text: String = AppError::Io("denied".to_string()).into();
    assert_eq!(text, "I/O error: denied");
}
