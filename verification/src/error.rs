//! The errors of the library, and the text each one is reported with.

use vstd::prelude::*;
use vstd::string::*;
use crate::text::{decimal, i64_text, signed_decimal, u64_text};

verus! {

/// What can go wrong with a server or with a request to it.
#[derive(Clone, Debug, PartialEq, Eq)]
pub enum McpError {
    /// No server of that name is indexed.
    ServerNotFound(String),
    /// The process could not be started.
    SpawnFailed { server: String, reason: String },
    /// The handshake failed.
    InitFailed { server: String, reason: String },
    /// No reply came within the time allowed.
    Timeout { method: String, timeout_secs: u64 },
    /// The transport closed before a reply came.
    Cancelled,
    /// The server answered with a JSON-RPC error object.
    JsonRpc { code: i64, message: String },
    /// The exchange itself failed.
    Communication(String),
}

/// What can go wrong with an extension.
#[derive(Clone, Debug, PartialEq, Eq)]
pub enum ExtensionError {
    NotFound(String),
    InvalidManifest { id: String, reason: String },
    InstallFailed { id: String, reason: String },
    MissingConfig { id: String, field: String },
    InvalidPackage(String),
}

/// What can go wrong with the configuration file.
#[derive(Clone, Debug, PartialEq, Eq)]
pub enum ConfigError {
    NotFound(String),
    ReadFailed(String),
    WriteFailed(String),
    InvalidFormat(String),
}

/// Any error of the application. `Io` and `Json` hold the text of the error
/// that the system or the JSON reader gave.
#[derive(Clone, Debug, PartialEq, Eq)]
pub enum AppError {
    Mcp(McpError),
    Extension(ExtensionError),
    Config(ConfigError),
    Io(String),
    Json(String),
    Other(String),
}

/// An error as the caller receives it: a code word and the text.
#[derive(Clone, Debug, PartialEq, Eq)]
pub struct ErrorResponse {
    pub code: String,
    pub message: String,
}

fn join3(a: &str, b: &str, c: &str) -> (out: String)
    ensures
        out@ == a@ + b@ + c@,
{
    let mut out = String::from_str(a);
    out.append(b);
    out.append(c);
    out
}

fn join4(a: &str, b: &str, c: &str, d: &str) -> (out: String)
    ensures
        out@ == a@ + b@ + c@ + d@,
{
    let mut out = join3(a, b, c);
    out.append(d);
    out
}

fn join5(a: &str, b: &str, c: &str, d: &str, e: &str) -> (out: String)
    ensures
        out@ == a@ + b@ + c@ + d@ + e@,
{
    let mut out = join4(a, b, c, d);
    out.append(e);
    out
}

impl McpError {
    /// The text of the error.
    pub open spec fn text(&self) -> Seq<char> {
        match self {
            McpError::ServerNotFound(name) => "Server '"@ + name@ + "' not found"@,
            McpError::SpawnFailed { server, reason } => "Failed to spawn server '"@ + server@ + "': "@
                + reason@,
            McpError::InitFailed { server, reason } => "Failed to initialize server '"@ + server@
                + "': "@ + reason@,
            McpError::Timeout { method, timeout_secs } => "Request '"@ + method@ + "' timed out after "@
                + decimal(*timeout_secs as nat) + "s"@,
            McpError::Cancelled => "Request cancelled"@,
            McpError::JsonRpc { code, message } => "JSON-RPC error "@ + signed_decimal(*code as int)
                + ": "@ + message@,
            McpError::Communication(msg) => "Communication error: "@ + msg@,
        }
    }

    /// The text of the error.
    pub fn message(&self) -> (out: String)
        ensures
            out@ == self.text(),
    {
        match self {
            McpError::ServerNotFound(name) => join3("Server '", name.as_str(), "' not found"),
            McpError::SpawnFailed { server, reason } => join4(
                "Failed to spawn server '",
                server.as_str(),
                "': ",
                reason.as_str(),
            ),
            McpError::InitFailed { server, reason } => join4(
                "Failed to initialize server '",
                server.as_str(),
                "': ",
                reason.as_str(),
            ),
            McpError::Timeout { method, timeout_secs } => {
                let secs = u64_text(*timeout_secs);
                join5("Request '", method.as_str(), "' timed out after ", secs.as_str(), "s")
            },
            McpError::Cancelled => String::from_str("Request cancelled"),
            McpError::JsonRpc { code, message } => {
                let number = i64_text(*code);
                join4("JSON-RPC error ", number.as_str(), ": ", message.as_str())
            },
            McpError::Communication(msg) => {
                let mut out = String::from_str("Communication error: ");
                out.append(msg.as_str());
                out
            },
        }
    }
}

impl ExtensionError {
    /// The text of the error.
    pub open spec fn text(&self) -> Seq<char> {
        match self {
            ExtensionError::NotFound(id) => "Extension '"@ + id@ + "' not found"@,
            ExtensionError::InvalidManifest { id, reason } => "Invalid manifest for '"@ + id@ + "': "@
                + reason@,
            ExtensionError::InstallFailed { id, reason } => "Failed to install '"@ + id@ + "': "@
                + reason@,
            ExtensionError::MissingConfig { id, field } => "Missing required config '"@ + field@
                + "' for '"@ + id@ + "'"@,
            ExtensionError::InvalidPackage(reason) => "Invalid extension package: "@ + reason@,
        }
    }

    /// The text of the error.
    pub fn message(&self) -> (out: String)
        ensures
            out@ == self.text(),
    {
        match self {
            ExtensionError::NotFound(id) => join3("Extension '", id.as_str(), "' not found"),
            ExtensionError::InvalidManifest { id, reason } => join4(
                "Invalid manifest for '",
                id.as_str(),
                "': ",
                reason.as_str(),
            ),
            ExtensionError::InstallFailed { id, reason } => join4(
                "Failed to install '",
                id.as_str(),
                "': ",
                reason.as_str(),
            ),
            ExtensionError::MissingConfig { id, field } => join5(
                "Missing required config '",
                field.as_str(),
                "' for '",
                id.as_str(),
                "'",
            ),
            ExtensionError::InvalidPackage(reason) => {
                let mut out = String::from_str("Invalid extension package: ");
                out.append(reason.as_str());
                out
            },
        }
    }
}

impl ConfigError {
    /// The text of the error.
    pub open spec fn text(&self) -> Seq<char> {
        match self {
            ConfigError::NotFound(path) => "Config file not found: "@ + path@,
            ConfigError::ReadFailed(reason) => "Failed to read config: "@ + reason@,
            ConfigError::WriteFailed(reason) => "Failed to write config: "@ + reason@,
            ConfigError::InvalidFormat(reason) => "Invalid config format: "@ + reason@,
        }
    }

    /// The text of the error.
    pub fn message(&self) -> (out: String)
        ensures
            out@ == self.text(),
    {
        let (head, tail) = match self {
            ConfigError::NotFound(path) => ("Config file not found: ", path),
            ConfigError::ReadFailed(reason) => ("Failed to read config: ", reason),
            ConfigError::WriteFailed(reason) => ("Failed to write config: ", reason),
            ConfigError::InvalidFormat(reason) => ("Invalid config format: ", reason),
        };
        let mut out = String::from_str(head);
        out.append(tail.as_str());
        out
    }
}

impl AppError {
    /// The text of the error.
    pub open spec fn text(&self) -> Seq<char> {
        match self {
            AppError::Mcp(e) => "MCP error: "@ + e.text(),
            AppError::Extension(e) => "Extension error: "@ + e.text(),
            AppError::Config(e) => "Config error: "@ + e.text(),
            AppError::Io(e) => "I/O error: "@ + e@,
            AppError::Json(e) => "JSON error: "@ + e@,
            AppError::Other(msg) => msg@,
        }
    }

    /// The code word under which the error is reported.
    pub open spec fn code(&self) -> Seq<char> {
        match self {
            AppError::Mcp(McpError::ServerNotFound(_)) => "MCP_SERVER_NOT_FOUND"@,
            AppError::Mcp(McpError::Timeout { .. }) => "MCP_TIMEOUT"@,
            AppError::Mcp(_) => "MCP_ERROR"@,
            AppError::Extension(ExtensionError::NotFound(_)) => "EXT_NOT_FOUND"@,
            AppError::Extension(_) => "EXT_ERROR"@,
            AppError::Config(_) => "CONFIG_ERROR"@,
            AppError::Io(_) => "IO_ERROR"@,
            AppError::Json(_) => "JSON_ERROR"@,
            AppError::Other(_) => "UNKNOWN_ERROR"@,
        }
    }

    /// The text of the error.
    pub fn message(&self) -> (out: String)
        ensures
            out@ == self.text(),
    {
        match self {
            AppError::Mcp(e) => {
                let inner = e.message();
                let mut out = String::from_str("MCP error: ");
                out.append(inner.as_str());
                out
            },
            AppError::Extension(e) => {
                let inner = e.message();
                let mut out = String::from_str("Extension error: ");
                out.append(inner.as_str());
                out
            },
            AppError::Config(e) => {
                let inner = e.message();
                let mut out = String::from_str("Config error: ");
                out.append(inner.as_str());
                out
            },
            AppError::Io(e) => {
                let mut out = String::from_str("I/O error: ");
                out.append(e.as_str());
                out
            },
            AppError::Json(e) => {
                let mut out = String::from_str("JSON error: ");
                out.append(e.as_str());
                out
            },
            AppError::Other(msg) => msg.clone(),
        }
    }
}

impl From<McpError> for AppError {
    fn from(e: McpError) -> (r: AppError) {
        AppError::Mcp(e)
    }
}

impl vstd::std_specs::convert::FromSpecImpl<McpError> for AppError {
    open spec fn obeys_from_spec() -> bool {
        true
    }

    open spec fn from_spec(e: McpError) -> AppError {
        AppError::Mcp(e)
    }
}

impl From<ExtensionError> for AppError {
    fn from(e: ExtensionError) -> (r: AppError) {
        AppError::Extension(e)
    }
}

impl vstd::std_specs::convert::FromSpecImpl<ExtensionError> for AppError {
    open spec fn obeys_from_spec() -> bool {
        true
    }

    open spec fn from_spec(e: ExtensionError) -> AppError {
        AppError::Extension(e)
    }
}

impl From<ConfigError> for AppError {
    fn from(e: ConfigError) -> (r: AppError) {
        AppError::Config(e)
    }
}

impl vstd::std_specs::convert::FromSpecImpl<ConfigError> for AppError {
    open spec fn obeys_from_spec() -> bool {
        true
    }

    open spec fn from_spec(e: ConfigError) -> AppError {
        AppError::Config(e)
    }
}

impl From<String> for AppError {
    fn from(s: String) -> (r: AppError) {
        AppError::Other(s)
    }
}

impl vstd::std_specs::convert::FromSpecImpl<String> for AppError {
    open spec fn obeys_from_spec() -> bool {
        true
    }

    open spec fn from_spec(s: String) -> AppError {
        AppError::Other(s)
    }
}

impl<'a> From<&'a str> for AppError {
    /// The error that only has a text.
    fn from(s: &'a str) -> (r: AppError)
        ensures
            r matches AppError::Other(text) && text@ == s@,
    {
        AppError::Other(s.to_owned())
    }
}

impl<'a> vstd::std_specs::convert::FromSpecImpl<&'a str> for AppError {
    open spec fn obeys_from_spec() -> bool {
        false
    }

    open spec fn from_spec(s: &'a str) -> AppError {
        AppError::Other(choose|text: String| text@ == s@)
    }
}

impl From<AppError> for String {
    /// The text of the error.
    fn from(e: AppError) -> (r: String)
        ensures
            r@ == e.text(),
    {
        e.message()
    }
}

impl vstd::std_specs::convert::FromSpecImpl<AppError> for String {
    open spec fn obeys_from_spec() -> bool {
        false
    }

    open spec fn from_spec(e: AppError) -> String {
        choose|text: String| text@ == e.text()
    }
}

impl ErrorResponse {
    /// The response that reports `e`: its code word and its text.
    pub fn from(e: AppError) -> (r: ErrorResponse)
        ensures
            r.code@ == e.code(),
            r.message@ == e.text(),
    {
        let code = match &e {
            AppError::Mcp(McpError::ServerNotFound(_)) => "MCP_SERVER_NOT_FOUND",
            AppError::Mcp(McpError::Timeout { .. }) => "MCP_TIMEOUT",
            AppError::Mcp(_) => "MCP_ERROR",
            AppError::Extension(ExtensionError::NotFound(_)) => "EXT_NOT_FOUND",
            AppError::Extension(_) => "EXT_ERROR",
            AppError::Config(_) => "CONFIG_ERROR",
            AppError::Io(_) => "IO_ERROR",
            AppError::Json(_) => "JSON_ERROR",
            AppError::Other(_) => "UNKNOWN_ERROR",
        };
        ErrorResponse { code: String::from_str(code), message: e.message() }
    }
}

} // verus!
