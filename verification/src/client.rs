//! One server process as the library sees it: the tools and resources it
//! offers, the requests that wait for a reply, and what each line that the
//! process writes means for them.

use vstd::prelude::*;
use vstd::string::*;
use std::collections::HashMap;
use crate::error::McpError;
use crate::json::{compact_text, document, entries, items_view, items_view_index, items_view_len};
use crate::json::{push_member, view_of, Json, JsonNumber, JsonView, Member, NumberView};

verus! {

/// A tool that a server offers.
#[derive(Debug, PartialEq, Eq)]
pub struct McpTool {
    pub name: String,
    pub description: Option<String>,
    pub input_schema: Json,
}

/// A resource that a server offers.
#[derive(Debug, PartialEq, Eq)]
pub struct McpResource {
    pub uri: String,
    pub name: String,
    pub description: Option<String>,
    pub mime_type: Option<String>,
}

/// What an `McpTool` is.
pub struct ToolView {
    pub name: Seq<char>,
    pub description: Option<Seq<char>>,
    pub input_schema: JsonView,
}

/// What an `McpResource` is.
pub struct ResourceView {
    pub uri: Seq<char>,
    pub name: Seq<char>,
    pub description: Option<Seq<char>>,
    pub mime_type: Option<Seq<char>>,
}

/// The characters of a string that may be missing.
pub open spec fn text_of(s: Option<String>) -> Option<Seq<char>> {
    match s {
        Some(t) => Some(t@),
        None => None,
    }
}

impl View for McpTool {
    type V = ToolView;

    open spec fn view(&self) -> ToolView {
        ToolView {
            name: self.name@,
            description: text_of(self.description),
            input_schema: self.input_schema@,
        }
    }
}

impl View for McpResource {
    type V = ResourceView;

    open spec fn view(&self) -> ResourceView {
        ResourceView {
            uri: self.uri@,
            name: self.name@,
            description: text_of(self.description),
            mime_type: text_of(self.mime_type),
        }
    }
}

/// The views of a list of tools.
pub open spec fn tools_view(list: Seq<McpTool>) -> Seq<ToolView> {
    Seq::new(list.len(), |i: int| list[i]@)
}

/// The views of a list of resources.
pub open spec fn resources_view(list: Seq<McpResource>) -> Seq<ResourceView> {
    Seq::new(list.len(), |i: int| list[i]@)
}

/// The string under `key`; `None` where the key is missing or holds
/// something else.
pub open spec fn text_field(doc: JsonView, key: Seq<char>) -> Option<Seq<char>> {
    match doc.field(key) {
        Some(JsonView::Str(s)) => Some(s),
        _ => None,
    }
}

/// The string under `key` where one may be left out: `Some(None)` where the
/// key is missing or holds `null`, `None` where it holds anything but a
/// string.
pub open spec fn optional_text_field(doc: JsonView, key: Seq<char>) -> Option<Option<Seq<char>>> {
    match doc.field(key) {
        None => Some(None),
        Some(JsonView::Null) => Some(None),
        Some(JsonView::Str(s)) => Some(Some(s)),
        Some(_) => None,
    }
}

/// The input schema of a tool entry: under `input_schema` or under
/// `inputSchema`, `null` where neither is there; `None` where both are.
pub open spec fn schema_field(doc: JsonView) -> Option<JsonView> {
    match (doc.field("input_schema"@), doc.field("inputSchema"@)) {
        (Some(_), Some(_)) => None,
        (Some(s), None) => Some(s),
        (None, Some(s)) => Some(s),
        (None, None) => Some(JsonView::Null),
    }
}

/// The tool that an entry of a `tools/list` reply describes, if it has the
/// shape of one: a string `name`, a `description` that is a string, `null`
/// or missing, and at most one input schema.
pub open spec fn tool_of(doc: JsonView) -> Option<ToolView> {
    match (text_field(doc, "name"@), optional_text_field(doc, "description"@), schema_field(doc)) {
        (Some(name), Some(description), Some(input_schema)) => Some(
            ToolView { name, description, input_schema },
        ),
        _ => None,
    }
}

/// The resource that an entry of a `resources/list` reply describes, if it
/// has the shape of one: strings `uri` and `name`, and a `description` and a
/// `mimeType` that are each a string, `null` or missing.
pub open spec fn resource_of(doc: JsonView) -> Option<ResourceView> {
    match (
        text_field(doc, "uri"@),
        text_field(doc, "name"@),
        optional_text_field(doc, "description"@),
        optional_text_field(doc, "mimeType"@),
    ) {
        (Some(uri), Some(name), Some(description), Some(mime_type)) => Some(
            ResourceView { uri, name, description, mime_type },
        ),
        _ => None,
    }
}

/// The tools that a list of entries describes: the entries that have the
/// shape of a tool, in their order.
pub open spec fn tools_of(items: Seq<JsonView>) -> Seq<ToolView>
    decreases items.len(),
{
    if items.len() == 0 {
        Seq::empty()
    } else {
        let before = tools_of(items.drop_last());
        match tool_of(items.last()) {
            Some(tool) => before.push(tool),
            None => before,
        }
    }
}

/// The resources that a list of entries describes: the entries that have the
/// shape of a resource, in their order.
pub open spec fn resources_of(items: Seq<JsonView>) -> Seq<ResourceView>
    decreases items.len(),
{
    if items.len() == 0 {
        Seq::empty()
    } else {
        let before = resources_of(items.drop_last());
        match resource_of(items.last()) {
            Some(resource) => before.push(resource),
            None => before,
        }
    }
}

/// The entries that a reply lists under `key`, where it lists any.
pub open spec fn listed(result: JsonView, key: Seq<char>) -> Option<Seq<JsonView>> {
    match result.field(key) {
        Some(JsonView::Array(items)) => Some(items),
        _ => None,
    }
}

fn copy_optional(o: &Option<String>) -> (r: Option<String>)
    ensures
        text_of(r) == text_of(*o),
{
    match o {
        Some(s) => Some(s.clone()),
        None => None,
    }
}

impl Clone for McpTool {
    fn clone(&self) -> (r: McpTool)
        ensures
            r@ == self@,
    {
        McpTool {
            name: self.name.clone(),
            description: copy_optional(&self.description),
            input_schema: self.input_schema.clone(),
        }
    }
}

impl Clone for McpResource {
    fn clone(&self) -> (r: McpResource)
        ensures
            r@ == self@,
    {
        McpResource {
            uri: self.uri.clone(),
            name: self.name.clone(),
            description: copy_optional(&self.description),
            mime_type: copy_optional(&self.mime_type),
        }
    }
}

/// A copy of a list of tools.
pub fn copy_tools(list: &Vec<McpTool>) -> (out: Vec<McpTool>)
    ensures
        tools_view(out@) == tools_view(list@),
{
    let mut out: Vec<McpTool> = Vec::new();
    let mut i: usize = 0;
    while i < list.len()
        invariant
            i <= list@.len(),
            out@.len() == i,
            forall|j: int| 0 <= j < i ==> out@[j]@ == list@[j]@,
        decreases list@.len() - i,
    {
        out.push(list[i].clone());
        i += 1;
    }
    assert(tools_view(out@) =~= tools_view(list@));
    out
}

/// A copy of a list of resources.
pub fn copy_resources(list: &Vec<McpResource>) -> (out: Vec<McpResource>)
    ensures
        resources_view(out@) == resources_view(list@),
{
    let mut out: Vec<McpResource> = Vec::new();
    let mut i: usize = 0;
    while i < list.len()
        invariant
            i <= list@.len(),
            out@.len() == i,
            forall|j: int| 0 <= j < i ==> out@[j]@ == list@[j]@,
        decreases list@.len() - i,
    {
        out.push(list[i].clone());
        i += 1;
    }
    assert(resources_view(out@) =~= resources_view(list@));
    out
}

fn get_text(doc: &Json, key: &str) -> (r: Option<String>)
    ensures
        text_of(r) == text_field(doc@, key@),
{
    match doc.get(key) {
        Some(Json::Str(s)) => Some(s.clone()),
        _ => None,
    }
}

fn get_optional_text(doc: &Json, key: &str) -> (r: Option<Option<String>>)
    ensures
        match r {
            Some(t) => optional_text_field(doc@, key@) == Some(text_of(t)),
            None => optional_text_field(doc@, key@).is_none(),
        },
{
    match doc.get(key) {
        None => Some(None),
        Some(Json::Null) => Some(None),
        Some(Json::Str(s)) => Some(Some(s.clone())),
        Some(_) => None,
    }
}

impl McpTool {
    /// Reads a tool from an entry of a `tools/list` reply; `None` where the
    /// entry has not the shape of a tool.
    pub fn from_json(doc: &Json) -> (r: Option<McpTool>)
        ensures
            match r {
                Some(tool) => tool_of(doc@) == Some(tool@),
                None => tool_of(doc@).is_none(),
            },
    {
        let name = match get_text(doc, "name") {
            Some(n) => n,
            None => {
                return None;
            },
        };
        let description = match get_optional_text(doc, "description") {
            Some(d) => d,
            None => {
                return None;
            },
        };
        let input_schema = match (doc.get("input_schema"), doc.get("inputSchema")) {
            (Some(_), Some(_)) => {
                return None;
            },
            (Some(s), None) => s.clone(),
            (None, Some(s)) => s.clone(),
            (None, None) => Json::Null,
        };
        Some(McpTool { name, description, input_schema })
    }
}

impl McpResource {
    /// Reads a resource from an entry of a `resources/list` reply; `None`
    /// where the entry has not the shape of a resource.
    pub fn from_json(doc: &Json) -> (r: Option<McpResource>)
        ensures
            match r {
                Some(resource) => resource_of(doc@) == Some(resource@),
                None => resource_of(doc@).is_none(),
            },
    {
        let uri = match get_text(doc, "uri") {
            Some(u) => u,
            None => {
                return None;
            },
        };
        let name = match get_text(doc, "name") {
            Some(n) => n,
            None => {
                return None;
            },
        };
        let description = match get_optional_text(doc, "description") {
            Some(d) => d,
            None => {
                return None;
            },
        };
        let mime_type = match get_optional_text(doc, "mimeType") {
            Some(m) => m,
            None => {
                return None;
            },
        };
        Some(McpResource { uri, name, description, mime_type })
    }
}

/// The tools among the entries of a `tools/list` reply: each entry that has
/// the shape of a tool, in the order of the list; the others are dropped.
pub fn parse_tools(items: &Vec<Json>) -> (out: Vec<McpTool>)
    ensures
        tools_view(out@) == tools_of(items_view(items@)),
{
    let mut out: Vec<McpTool> = Vec::new();
    let mut i: usize = 0;
    proof {
        items_view_len(items@);
    }
    assert(items_view(items@).subrange(0, 0) =~= Seq::<JsonView>::empty());
    assert(tools_view(out@) =~= Seq::<ToolView>::empty());
    while i < items.len()
        invariant
            i <= items@.len(),
            items_view(items@).len() == items@.len(),
            tools_view(out@) == tools_of(items_view(items@).subrange(0, i as int)),
        decreases items@.len() - i,
    {
        let ghost before = tools_view(out@);
        proof {
            items_view_index(items@, i as int);
            let upto = items_view(items@).subrange(0, i + 1);
            assert(upto.drop_last() =~= items_view(items@).subrange(0, i as int));
            assert(upto.last() == items@[i as int]@);
        }
        match McpTool::from_json(&items[i]) {
            Some(tool) => {
                out.push(tool);
                assert(tools_view(out@) =~= before.push(tool@));
            },
            None => {},
        }
        i += 1;
    }
    assert(items_view(items@).subrange(0, items@.len() as int) == items_view(items@));
    out
}

/// The resources among the entries of a `resources/list` reply: each entry
/// that has the shape of a resource, in the order of the list; the others
/// are dropped.
pub fn parse_resources(items: &Vec<Json>) -> (out: Vec<McpResource>)
    ensures
        resources_view(out@) == resources_of(items_view(items@)),
{
    let mut out: Vec<McpResource> = Vec::new();
    let mut i: usize = 0;
    proof {
        items_view_len(items@);
    }
    assert(items_view(items@).subrange(0, 0) =~= Seq::<JsonView>::empty());
    assert(resources_view(out@) =~= Seq::<ResourceView>::empty());
    while i < items.len()
        invariant
            i <= items@.len(),
            items_view(items@).len() == items@.len(),
            resources_view(out@) == resources_of(items_view(items@).subrange(0, i as int)),
        decreases items@.len() - i,
    {
        let ghost before = resources_view(out@);
        proof {
            items_view_index(items@, i as int);
            let upto = items_view(items@).subrange(0, i + 1);
            assert(upto.drop_last() =~= items_view(items@).subrange(0, i as int));
            assert(upto.last() == items@[i as int]@);
        }
        match McpResource::from_json(&items[i]) {
            Some(resource) => {
                out.push(resource);
                assert(resources_view(out@) =~= before.push(resource@));
            },
            None => {},
        }
        i += 1;
    }
    assert(items_view(items@).subrange(0, items@.len() as int) == items_view(items@));
    out
}

/// The seconds a request may wait for its reply.
pub const REQUEST_TIMEOUT_SECS: u64 = 30;

/// Where a client stands in its life.
#[derive(Clone, Copy, Debug, PartialEq, Eq, Structural)]
pub enum ClientState {
    /// The process runs; the handshake has not begun.
    Created,
    /// The `initialize` request is out.
    AwaitingInitialize,
    /// The `tools/list` request is out.
    AwaitingTools,
    /// The `resources/list` request is out.
    AwaitingResources,
    /// The handshake is done: tools may be called and resources read.
    Ready,
    /// The handshake failed; the client is of no further use.
    Failed,
    /// The process was killed.
    Stopped,
}

/// How the attempt to start the process ended.
#[derive(Clone, Debug, PartialEq, Eq)]
pub enum LaunchOutcome {
    Started,
    /// The system could not start the process; the text says why.
    NotStarted(String),
    NoStdin,
    NoStdout,
    NoStderr,
}

/// A request as it goes out: its id, the line to write to the process, and
/// the seconds to wait for the reply.
#[derive(Clone, Debug, PartialEq, Eq)]
pub struct Outgoing {
    pub id: u64,
    pub line: String,
    pub timeout_secs: u64,
}

/// What a line from the process turned out to be.
#[derive(Debug, PartialEq, Eq)]
pub enum Incoming {
    /// The reply to a waiting request, which waits no longer.
    Reply { id: u64, outcome: Result<Json, McpError> },
    /// A reply with an id that no request waits for.
    Unmatched { id: u64 },
    /// A request or notification of the server's own; it gets no answer.
    ServerRequest { method: String },
    /// JSON that is none of these.
    Other,
    /// No JSON at all.
    Malformed,
}

/// What a reply brings to the request it answers.
pub enum OutcomeView {
    Success(JsonView),
    Rejected { code: i64, message: Seq<char> },
    /// An error member that has no integer `code` or no string `message`;
    /// the text is that of the member.
    Garbled(Seq<char>),
    /// Neither a result nor an error.
    Dropped,
}

/// What an `Incoming` should be.
pub enum IncomingView {
    Reply { id: u64, outcome: OutcomeView },
    Unmatched { id: u64 },
    ServerRequest { method: Seq<char> },
    Other,
    Malformed,
}

/// The state of a client as a mathematical value. `pending` maps the id of
/// each waiting request to its method.
pub struct ClientView {
    pub name: Seq<char>,
    pub state: ClientState,
    pub next_id: u64,
    pub pending: Map<u64, Seq<char>>,
    pub tools: Seq<ToolView>,
    pub resources: Seq<ResourceView>,
}

/// The client of one server process.
#[derive(Debug)]
pub struct McpClient {
    name: String,
    state: ClientState,
    next_id: u64,
    pending: HashMap<u64, String>,
    pub tools: Vec<McpTool>,
    pub resources: Vec<McpResource>,
}

/// The request document with the given id, method and parameters.
pub open spec fn request_view(id: u64, method: Seq<char>, params: JsonView) -> JsonView {
    JsonView::Object(
        seq![
            ("jsonrpc"@, JsonView::Str("2.0"@)),
            ("id"@, JsonView::Number(NumberView::PosInt(id))),
            ("method"@, JsonView::Str(method)),
            ("params"@, params),
        ],
    )
}

/// The line that carries a request: its JSON text and a line feed.
pub open spec fn request_line(id: u64, method: Seq<char>, params: JsonView) -> Seq<char> {
    compact_text(request_view(id, method, params)).push('\n')
}

/// The id that a document answers to: its member `id`, where that is a whole
/// number from 0 up.
pub open spec fn reply_id(doc: JsonView) -> Option<u64> {
    match doc.field("id"@) {
        Some(v) => v.as_u64(),
        None => None,
    }
}

/// The integer under `code`.
pub open spec fn code_field(doc: JsonView) -> Option<i64> {
    match doc.field("code"@) {
        Some(v) => v.as_i64(),
        None => None,
    }
}

/// What a reply brings: its `error` member where it has one, else its
/// `result`.
pub open spec fn outcome_of(doc: JsonView) -> OutcomeView {
    match doc.field("error"@) {
        Some(e) => match (code_field(e), text_field(e, "message"@)) {
            (Some(code), Some(message)) => OutcomeView::Rejected { code, message },
            _ => OutcomeView::Garbled(compact_text(e)),
        },
        None => match doc.field("result"@) {
            Some(v) => OutcomeView::Success(v),
            None => OutcomeView::Dropped,
        },
    }
}

/// What a line means, given the requests that wait: `doc` is what the line
/// holds, `None` where it is no JSON.
pub open spec fn incoming_of(doc: Option<JsonView>, pending: Map<u64, Seq<char>>) -> IncomingView {
    match doc {
        None => IncomingView::Malformed,
        Some(d) => match reply_id(d) {
            Some(id) => if pending.dom().contains(id) {
                IncomingView::Reply { id, outcome: outcome_of(d) }
            } else {
                IncomingView::Unmatched { id }
            },
            None => match text_field(d, "method"@) {
                Some(method) => IncomingView::ServerRequest { method },
                None => IncomingView::Other,
            },
        },
    }
}

/// The waiting requests after a line: the answered one is gone, all others
/// stay.
pub open spec fn pending_after(doc: Option<JsonView>, pending: Map<u64, Seq<char>>) -> Map<
    u64,
    Seq<char>,
> {
    match incoming_of(doc, pending) {
        IncomingView::Reply { id, .. } => pending.remove(id),
        _ => pending,
    }
}

/// The outcome `o` is what `expected` says.
pub open spec fn outcome_is(o: Result<Json, McpError>, expected: OutcomeView) -> bool {
    match (o, expected) {
        (Ok(v), OutcomeView::Success(w)) => v@ == w,
        (Err(McpError::JsonRpc { code, message }), OutcomeView::Rejected { code: c, message: m }) => code
            == c && message@ == m,
        (Err(McpError::Communication(t)), OutcomeView::Garbled(g)) => t@ == g,
        (Err(McpError::Cancelled), OutcomeView::Dropped) => true,
        _ => false,
    }
}

/// The value `r` is what `expected` says.
pub open spec fn incoming_is(r: Incoming, expected: IncomingView) -> bool {
    match (r, expected) {
        (Incoming::Reply { id, outcome }, IncomingView::Reply { id: i, outcome: o }) => id == i
            && outcome_is(outcome, o),
        (Incoming::Unmatched { id }, IncomingView::Unmatched { id: i }) => id == i,
        (Incoming::ServerRequest { method }, IncomingView::ServerRequest { method: m }) => method@ == m,
        (Incoming::Other, IncomingView::Other) => true,
        (Incoming::Malformed, IncomingView::Malformed) => true,
        _ => false,
    }
}

/// One step of the handshake, for the caller to carry out.
#[derive(Clone, Debug, PartialEq, Eq)]
pub enum InitStep {
    /// Write the notification, if there is one, then the request, and bring
    /// the reply to the request back.
    Send { notification: Option<String>, request: Outgoing },
    /// The handshake is complete.
    Done,
}

/// An object without members.
pub open spec fn empty_object() -> JsonView {
    JsonView::Object(Seq::empty())
}

/// The parameters of the `initialize` request: the protocol version, the
/// capabilities, and the name and version by which the client makes itself
/// known.
pub open spec fn initialize_params(client_name: Seq<char>, client_version: Seq<char>) -> JsonView {
    JsonView::Object(
        seq![
            ("protocolVersion"@, JsonView::Str("2024-11-05"@)),
            ("capabilities"@, JsonView::Object(seq![("sampling"@, empty_object())])),
            (
                "clientInfo"@,
                JsonView::Object(
                    seq![
                        ("name"@, JsonView::Str(client_name)),
                        ("version"@, JsonView::Str(client_version)),
                    ],
                ),
            ),
        ],
    )
}

/// The line that tells the server that the client is initialized. It has no
/// id: no reply is expected.
pub open spec fn initialized_line() -> Seq<char> {
    compact_text(
        JsonView::Object(
            seq![
                ("jsonrpc"@, JsonView::Str("2.0"@)),
                ("method"@, JsonView::Str("notifications/initialized"@)),
            ],
        ),
    ).push('\n')
}

/// The parameters of a `tools/call` request.
pub open spec fn call_params(name: Seq<char>, arguments: JsonView) -> JsonView {
    JsonView::Object(seq![("name"@, JsonView::Str(name)), ("arguments"@, arguments)])
}

/// The parameters of a `resources/read` request.
pub open spec fn read_params(uri: Seq<char>) -> JsonView {
    JsonView::Object(seq![("uri"@, JsonView::Str(uri))])
}

/// The tools of a client after the reply to `tools/list`: those that the
/// reply lists, where it lists any; else the ones it had.
pub open spec fn tools_after(tools: Seq<ToolView>, reply: Result<Json, McpError>) -> Seq<ToolView> {
    match reply {
        Ok(result) => match listed(result@, "tools"@) {
            Some(items) => tools_of(items),
            None => tools,
        },
        Err(_) => tools,
    }
}

/// The resources of a client after the reply to `resources/list`: those
/// that the reply lists, where it lists any; else the ones it had.
pub open spec fn resources_after(resources: Seq<ResourceView>, reply: Result<Json, McpError>) -> Seq<
    ResourceView,
> {
    match reply {
        Ok(result) => match listed(result@, "resources"@) {
            Some(items) => resources_of(items),
            None => resources,
        },
        Err(_) => resources,
    }
}

/// The step `step` asks to write `notification`, where there is one, and
/// then the request `method` with an empty object as parameters, under the
/// id `id`.
pub open spec fn step_sends(step: InitStep, notification: Option<Seq<char>>, id: u64, method: Seq<char>) -> bool {
    &&& step matches InitStep::Send { notification: n, request }
    &&& text_of(n) == notification
    &&& request.id == id
    &&& request.timeout_secs == REQUEST_TIMEOUT_SECS
    &&& request.line@ == request_line(id, method, empty_object())
}

/// The error `e` says that the handshake with `server` failed for `reason`.
pub open spec fn init_failed(e: McpError, server: Seq<char>, reason: Seq<char>) -> bool {
    &&& e matches McpError::InitFailed { server: s, reason: r }
    &&& s@ == server
    &&& r@ == reason
}

/// The client as `advance` leaves it, given the reply to the request of
/// the handshake that was out.
pub open spec fn after_advance(v: ClientView, reply: Result<Json, McpError>) -> ClientView {
    match v.state {
        ClientState::AwaitingInitialize => if reply is Ok && v.next_id < u64::MAX {
            ClientView {
                state: ClientState::AwaitingTools,
                next_id: (v.next_id + 1) as u64,
                pending: v.pending.insert(v.next_id, "tools/list"@),
                ..v
            }
        } else {
            ClientView { state: ClientState::Failed, ..v }
        },
        ClientState::AwaitingTools => if v.next_id < u64::MAX {
            ClientView {
                state: ClientState::AwaitingResources,
                next_id: (v.next_id + 1) as u64,
                pending: v.pending.insert(v.next_id, "resources/list"@),
                tools: tools_after(v.tools, reply),
                ..v
            }
        } else {
            ClientView { state: ClientState::Failed, tools: tools_after(v.tools, reply), ..v }
        },
        ClientState::AwaitingResources => ClientView {
            state: ClientState::Ready,
            resources: resources_after(v.resources, reply),
            ..v
        },
        _ => v,
    }
}

/// What `advance` returns is what the state and the reply call for.
pub open spec fn advance_result(v: ClientView, reply: Result<Json, McpError>, r: Result<InitStep, McpError>) -> bool {
    match v.state {
        ClientState::AwaitingInitialize => match reply {
            Err(e) => r is Err && init_failed(r->Err_0, v.name, e.text()),
            Ok(_) => if v.next_id < u64::MAX {
                r is Ok && step_sends(r->Ok_0, Some(initialized_line()), v.next_id, "tools/list"@)
            } else {
                r is Err && init_failed(r->Err_0, v.name, refusal_text())
            },
        },
        ClientState::AwaitingTools => if v.next_id < u64::MAX {
            r is Ok && step_sends(r->Ok_0, None, v.next_id, "resources/list"@)
        } else {
            r is Err && init_failed(r->Err_0, v.name, refusal_text())
        },
        ClientState::AwaitingResources => r == Ok::<InitStep, McpError>(InitStep::Done),
        _ => {
            &&& r is Err
            &&& r->Err_0 matches McpError::Communication(why)
            &&& why@ == "no handshake in progress"@
        },
    }
}

impl ClientView {
    /// A request can be issued: the client is neither failed nor stopped,
    /// and an id is left.
    pub open spec fn accepts_requests(self) -> bool {
        self.state != ClientState::Failed && self.state != ClientState::Stopped && self.next_id
            < u64::MAX
    }

    /// Every waiting request has an id that was handed out: from 1 up, and
    /// below the next one.
    pub open spec fn wf(self) -> bool {
        self.next_id >= 1 && forall|id: u64| #[trigger]
            self.pending.dom().contains(id) ==> 1 <= id < self.next_id
    }
}

impl View for McpClient {
    type V = ClientView;

    closed spec fn view(&self) -> ClientView {
        ClientView {
            name: self.name@,
            state: self.state,
            next_id: self.next_id,
            pending: self.pending@.map_values(|m: String| m@),
            tools: tools_view(self.tools@),
            resources: resources_view(self.resources@),
        }
    }
}

/// The id that the next request gets is the id of no waiting request: no id
/// is in use twice.
pub proof fn next_id_is_fresh(v: ClientView)
    requires
        v.wf(),
    ensures
        !v.pending.dom().contains(v.next_id),
{
}

/// A line that is no JSON takes no request off the list.
pub proof fn malformed_line_changes_nothing(pending: Map<u64, Seq<char>>)
    ensures
        incoming_of(None, pending) == IncomingView::Malformed,
        pending_after(None, pending) == pending,
{
}

/// A line takes no request off the list but the one it answers: every other
/// request waits on, with its method.
pub proof fn line_leaves_others(doc: Option<JsonView>, pending: Map<u64, Seq<char>>, other: u64)
    requires
        doc is None || reply_id(doc->Some_0) != Some(other),
    ensures
        pending_after(doc, pending).dom().contains(other) == pending.dom().contains(other),
        pending.dom().contains(other) ==> pending_after(doc, pending)[other] == pending[other],
{
}

/// Replies to two different requests may come in either order: each is
/// taken as it would be alone, and the same requests wait afterwards.
pub proof fn replies_commute(a: JsonView, b: JsonView, pending: Map<u64, Seq<char>>)
    requires
        reply_id(a) is Some,
        reply_id(b) is Some,
        reply_id(a) != reply_id(b),
    ensures
        incoming_of(Some(b), pending_after(Some(a), pending)) == incoming_of(Some(b), pending),
        incoming_of(Some(a), pending_after(Some(b), pending)) == incoming_of(Some(a), pending),
        pending_after(Some(b), pending_after(Some(a), pending)) == pending_after(
            Some(a),
            pending_after(Some(b), pending),
        ),
{
    let ia = reply_id(a)->Some_0;
    let ib = reply_id(b)->Some_0;
    assert(pending.remove(ia).remove(ib) =~= pending.remove(ib).remove(ia));
    assert(pending.remove(ia).dom().contains(ib) == pending.dom().contains(ib));
    assert(pending.remove(ib).dom().contains(ia) == pending.dom().contains(ia));
}

/// A request is resolved once: the second reply to it finds no request, and
/// so does a reply that comes after its time ran out.
pub proof fn resolved_once(doc: JsonView, pending: Map<u64, Seq<char>>)
    requires
        reply_id(doc) is Some,
    ensures
        incoming_of(Some(doc), pending_after(Some(doc), pending)) == (IncomingView::Unmatched {
            id: reply_id(doc)->Some_0,
        }),
        incoming_of(Some(doc), pending.remove(reply_id(doc)->Some_0)) == (IncomingView::Unmatched {
            id: reply_id(doc)->Some_0,
        }),
{
}

/// The text of the error for a request that cannot be issued.
pub open spec fn refusal_text() -> Seq<char> {
    "client cannot issue requests"@
}

/// The text of the error for a call to a server that is not ready.
pub open spec fn not_ready_text() -> Seq<char> {
    "server is not ready"@
}

fn decode_outcome(doc: &Json) -> (o: Result<Json, McpError>)
    ensures
        outcome_is(o, outcome_of(doc@)),
{
    match doc.get("error") {
        Some(e) => {
            let code = match e.get("code") {
                Some(v) => v.as_i64(),
                None => None,
            };
            match (code, get_text(e, "message")) {
                (Some(code), Some(message)) => Err(McpError::JsonRpc { code, message }),
                _ => Err(McpError::Communication(e.to_text())),
            }
        },
        None => match doc.get("result") {
            Some(v) => Ok(v.clone()),
            None => Err(McpError::Cancelled),
        },
    }
}

impl McpClient {
    /// The client's invariant: that of its view.
    pub open spec fn wf(&self) -> bool {
        self@.wf()
    }

    /// The client of a process that was just started, or the error where it
    /// was not. A new client has no tools and no waiting requests, and its
    /// first request will have the id 1.
    pub fn spawn(name: &str, launch: LaunchOutcome) -> (r: Result<McpClient, McpError>)
        ensures
            match r {
                Ok(client) => launch == LaunchOutcome::Started && client.wf() && client@ == (ClientView {
                    name: name@,
                    state: ClientState::Created,
                    next_id: 1,
                    pending: Map::empty(),
                    tools: Seq::empty(),
                    resources: Seq::empty(),
                }),
                Err(e) => {
                    &&& launch != LaunchOutcome::Started
                    &&& e matches McpError::SpawnFailed { server, reason }
                    &&& server@ == name@
                    &&& reason@ == match launch {
                        LaunchOutcome::NotStarted(why) => why@,
                        LaunchOutcome::NoStdin => "Failed to get stdin"@,
                        LaunchOutcome::NoStdout => "Failed to get stdout"@,
                        _ => "Failed to get stderr"@,
                    }
                },
            },
    {
        broadcast use vstd::std_specs::hash::group_hash_axioms;

        let reason = match launch {
            LaunchOutcome::Started => {
                let client = McpClient {
                    name: name.to_owned(),
                    state: ClientState::Created,
                    next_id: 1,
                    pending: HashMap::new(),
                    tools: Vec::new(),
                    resources: Vec::new(),
                };
                assert(client@.pending =~= Map::<u64, Seq<char>>::empty());
                assert(client@.tools =~= Seq::<ToolView>::empty());
                assert(client@.resources =~= Seq::<ResourceView>::empty());
                return Ok(client);
            },
            LaunchOutcome::NotStarted(why) => why,
            LaunchOutcome::NoStdin => String::from_str("Failed to get stdin"),
            LaunchOutcome::NoStdout => String::from_str("Failed to get stdout"),
            LaunchOutcome::NoStderr => String::from_str("Failed to get stderr"),
        };
        Err(McpError::SpawnFailed { server: name.to_owned(), reason })
    }

    /// The name of the server.
    pub fn name(&self) -> (r: &str)
        ensures
            r@ == self@.name,
    {
        self.name.as_str()
    }

    /// Where the client stands in its life.
    pub fn state(&self) -> (r: ClientState)
        ensures
            r == self@.state,
    {
        self.state
    }

    /// The tools that the server offers.
    pub fn tools(&self) -> (r: &Vec<McpTool>)
        ensures
            tools_view(r@) == self@.tools,
    {
        &self.tools
    }

    /// The resources that the server offers.
    pub fn resources(&self) -> (r: &Vec<McpResource>)
        ensures
            resources_view(r@) == self@.resources,
    {
        &self.resources
    }

    /// How many requests wait for a reply.
    pub fn pending_count(&self) -> (n: usize)
        ensures
            n == self@.pending.dom().len(),
    {
        broadcast use vstd::std_specs::hash::group_hash_axioms;

        proof {
            assert(self@.pending.dom() =~= self.pending@.dom());
        }
        self.pending.len()
    }

    /// Whether the request with this id waits for a reply.
    pub fn is_pending(&self, id: u64) -> (b: bool)
        ensures
            b == self@.pending.dom().contains(id),
    {
        broadcast use vstd::std_specs::hash::group_hash_axioms;

        self.pending.contains_key(&id)
    }

    /// Issues a request: gives it the next id, notes it as waiting, and
    /// returns the line to write. Fails, and changes nothing, where the
    /// client is failed or stopped or no id is left.
    pub fn send_request(&mut self, method: &str, params: Json) -> (r: Result<Outgoing, McpError>)
        requires
            old(self).wf(),
        ensures
            final(self).wf(),
            match r {
                Ok(out) => old(self)@.accepts_requests() && out.id == old(self)@.next_id
                    && out.timeout_secs == REQUEST_TIMEOUT_SECS && out.line@ == request_line(
                    out.id,
                    method@,
                    params@,
                ) && final(self)@ == (ClientView {
                    next_id: (out.id + 1) as u64,
                    pending: old(self)@.pending.insert(out.id, method@),
                    ..old(self)@
                }),
                Err(e) => {
                    &&& !old(self)@.accepts_requests()
                    &&& final(self)@ == old(self)@
                    &&& e matches McpError::Communication(why)
                    &&& why@ == refusal_text()
                },
            },
    {
        broadcast use vstd::std_specs::hash::group_hash_axioms;

        if self.state == ClientState::Failed || self.state == ClientState::Stopped || self.next_id
            == u64::MAX {
            return Err(McpError::Communication(String::from_str("client cannot issue requests")));
        }
        let id: u64 = self.next_id;
        let mut members: Vec<Member> = Vec::new();
        assert(entries(members@) =~= Seq::<(Seq<char>, JsonView)>::empty()) by {
            crate::json::entries_len(members@);
        }
        push_member(&mut members, "jsonrpc", Json::Str(String::from_str("2.0")));
        push_member(&mut members, "id", Json::Number(JsonNumber::PosInt(id)));
        push_member(&mut members, "method", Json::Str(method.to_owned()));
        push_member(&mut members, "params", params);
        let request = Json::Object(members);
        assert(request@ == request_view(id, method@, params@)) by {
            assert(entries(members@) =~= request_view(id, method@, params@)->Object_0);
        }
        let mut line = request.to_text();
        line.push('\n');
        let ghost before = self.pending@;
        self.pending.insert(id, method.to_owned());
        self.next_id = id + 1;
        proof {
            assert(self@.pending =~= old(self)@.pending.insert(id, method@));
        }
        Ok(Outgoing { id, line, timeout_secs: REQUEST_TIMEOUT_SECS })
    }

    /// Takes what a line from the process holds, `None` where the line is no
    /// JSON, and says what it means. The reply to a waiting request takes
    /// that request, and no other, off the list; anything else leaves the
    /// client as it was.
    pub fn dispatch(&mut self, doc: Option<Json>) -> (r: Incoming)
        requires
            old(self).wf(),
        ensures
            final(self).wf(),
            incoming_is(r, incoming_of(view_of(doc), old(self)@.pending)),
            final(self)@ == (ClientView {
                pending: pending_after(view_of(doc), old(self)@.pending),
                ..old(self)@
            }),
    {
        broadcast use vstd::std_specs::hash::group_hash_axioms;

        let d = match doc {
            None => {
                assert(self@.pending =~= old(self)@.pending);
                return Incoming::Malformed;
            },
            Some(d) => d,
        };
        let id = match d.get("id") {
            Some(v) => v.as_u64(),
            None => None,
        };
        match id {
            Some(id) => {
                assert(self@.pending.dom() =~= self.pending@.dom());
                match self.pending.remove(&id) {
                    Some(_) => {
                        assert(self@.pending =~= old(self)@.pending.remove(id));
                        Incoming::Reply { id, outcome: decode_outcome(&d) }
                    },
                    None => {
                        assert(self@.pending =~= old(self)@.pending);
                        Incoming::Unmatched { id }
                    },
                }
            },
            None => {
                assert(self@.pending =~= old(self)@.pending);
                match get_text(&d, "method") {
                    Some(method) => Incoming::ServerRequest { method },
                    None => Incoming::Other,
                }
            },
        }
    }

    /// Takes a line that the process wrote and says what it means. A line
    /// that is no JSON changes nothing.
    pub fn handle_line(&mut self, line: &str) -> (r: Incoming)
        requires
            old(self).wf(),
        ensures
            final(self).wf(),
            incoming_is(r, incoming_of(document(line@), old(self)@.pending)),
            final(self)@ == (ClientView {
                pending: pending_after(document(line@), old(self)@.pending),
                ..old(self)@
            }),
            document(line@).is_none() ==> r == Incoming::Malformed && final(self)@ == old(self)@,
    {
        self.dispatch(Json::from_text(line))
    }

    /// The time for the request with this id has run out. Where it still
    /// waits, it is taken off the list and fails with `Timeout`; where its
    /// reply has come meanwhile, nothing happens.
    pub fn expire(&mut self, id: u64) -> (r: Option<McpError>)
        requires
            old(self).wf(),
        ensures
            final(self).wf(),
            final(self)@ == (ClientView { pending: old(self)@.pending.remove(id), ..old(self)@ }),
            !final(self)@.pending.dom().contains(id),
            match r {
                Some(e) => {
                    &&& old(self)@.pending.dom().contains(id)
                    &&& e matches McpError::Timeout { method, timeout_secs }
                    &&& method@ == old(self)@.pending[id]
                    &&& timeout_secs == REQUEST_TIMEOUT_SECS
                },
                None => !old(self)@.pending.dom().contains(id),
            },
    {
        broadcast use vstd::std_specs::hash::group_hash_axioms;

        assert(self@.pending.dom() =~= self.pending@.dom());
        match self.pending.remove(&id) {
            Some(method) => {
                assert(self@.pending =~= old(self)@.pending.remove(id));
                Some(McpError::Timeout { method, timeout_secs: REQUEST_TIMEOUT_SECS })
            },
            None => {
                assert(self@.pending =~= old(self)@.pending.remove(id));
                None
            },
        }
    }

    /// Begins the handshake: issues the `initialize` request, in which the
    /// client makes itself known under the given name and version. This is
    /// for a client that was just created; on any other, and where no
    /// request can be issued, it fails and changes nothing.
    pub fn initialize(&mut self, client_name: &str, client_version: &str) -> (r: Result<
        Outgoing,
        McpError,
    >)
        requires
            old(self).wf(),
        ensures
            final(self).wf(),
            match r {
                Ok(out) => old(self)@.state == ClientState::Created && old(self)@.accepts_requests()
                    && out.id == old(self)@.next_id && out.timeout_secs == REQUEST_TIMEOUT_SECS
                    && out.line@ == request_line(
                    out.id,
                    "initialize"@,
                    initialize_params(client_name@, client_version@),
                )
                    && final(self)@ == (ClientView {
                    state: ClientState::AwaitingInitialize,
                    next_id: (out.id + 1) as u64,
                    pending: old(self)@.pending.insert(out.id, "initialize"@),
                    ..old(self)@
                }),
                Err(e) => !(old(self)@.state == ClientState::Created && old(self)@.accepts_requests())
                    && final(self)@ == old(self)@ && init_failed(
                    e,
                    old(self)@.name,
                    "handshake cannot begin"@,
                ),
            },
    {
        if self.state != ClientState::Created || self.next_id == u64::MAX {
            return Err(
                McpError::InitFailed {
                    server: self.name.clone(),
                    reason: String::from_str("handshake cannot begin"),
                },
            );
        }
        let mut sampling: Vec<Member> = Vec::new();
        let mut capabilities: Vec<Member> = Vec::new();
        let mut info: Vec<Member> = Vec::new();
        let mut params: Vec<Member> = Vec::new();
        proof {
            crate::json::entries_len(sampling@);
            assert(entries(sampling@) =~= Seq::<(Seq<char>, JsonView)>::empty());
        }
        proof {
            crate::json::entries_len(capabilities@);
            crate::json::entries_len(info@);
            crate::json::entries_len(params@);
        }
        push_member(&mut capabilities, "sampling", Json::Object(sampling));
        push_member(&mut info, "name", Json::Str(client_name.to_owned()));
        push_member(&mut info, "version", Json::Str(client_version.to_owned()));
        let capabilities = Json::Object(capabilities);
        let info = Json::Object(info);
        let ghost expected = initialize_params(client_name@, client_version@);
        assert(capabilities@ == expected->Object_0[1].1) by {
            assert(capabilities@->Object_0 =~= seq![("sampling"@, empty_object())]);
        }
        assert(info@ == expected->Object_0[2].1) by {
            assert(info@->Object_0 =~= seq![
                ("name"@, JsonView::Str(client_name@)),
                ("version"@, JsonView::Str(client_version@)),
            ]);
        }
        push_member(&mut params, "protocolVersion", Json::Str(String::from_str("2024-11-05")));
        push_member(&mut params, "capabilities", capabilities);
        push_member(&mut params, "clientInfo", info);
        let params = Json::Object(params);
        assert(params@ == expected) by {
            assert(params@->Object_0 =~= expected->Object_0);
        }
        match self.send_request("initialize", params) {
            Ok(out) => {
                self.state = ClientState::AwaitingInitialize;
                Ok(out)
            },
            Err(e) => Err(
                McpError::InitFailed {
                    server: self.name.clone(),
                    reason: String::from_str("handshake cannot begin"),
                },
            ),
        }
    }

    /// The line that tells the server that the client is initialized.
    pub fn initialized_notification() -> (line: String)
        ensures
            line@ == initialized_line(),
    {
        let mut members: Vec<Member> = Vec::new();
        proof {
            crate::json::entries_len(members@);
            assert(entries(members@) =~= Seq::<(Seq<char>, JsonView)>::empty());
        }
        push_member(&mut members, "jsonrpc", Json::Str(String::from_str("2.0")));
        push_member(&mut members, "method", Json::Str(String::from_str("notifications/initialized")));
        let doc = Json::Object(members);
        assert(doc@->Object_0 =~= seq![
            ("jsonrpc"@, JsonView::Str("2.0"@)),
            ("method"@, JsonView::Str("notifications/initialized"@)),
        ]);
        let mut line = doc.to_text();
        line.push('\n');
        line
    }

    /// The next request of the handshake, with an empty object as
    /// parameters; where none can be issued, the handshake has failed.
    fn handshake_request(&mut self, method: &str, notification: Option<String>, next: ClientState) -> (r:
        Result<InitStep, McpError>)
        requires
            old(self).wf(),
            old(self)@.state != ClientState::Failed,
            old(self)@.state != ClientState::Stopped,
        ensures
            final(self).wf(),
            old(self)@.next_id < u64::MAX ==> r is Ok && step_sends(
                r->Ok_0,
                text_of(notification),
                old(self)@.next_id,
                method@,
            ) && final(self)@ == (ClientView {
                state: next,
                next_id: (old(self)@.next_id + 1) as u64,
                pending: old(self)@.pending.insert(old(self)@.next_id, method@),
                ..old(self)@
            }),
            old(self)@.next_id == u64::MAX ==> r is Err && init_failed(
                r->Err_0,
                old(self)@.name,
                refusal_text(),
            ) && final(self)@ == (ClientView { state: ClientState::Failed, ..old(self)@ }),
    {
        let empty: Vec<Member> = Vec::new();
        proof {
            crate::json::entries_len(empty@);
            assert(entries(empty@) =~= Seq::<(Seq<char>, JsonView)>::empty());
        }
        match self.send_request(method, Json::Object(empty)) {
            Ok(request) => {
                self.state = next;
                Ok(InitStep::Send { notification, request })
            },
            Err(_) => {
                self.state = ClientState::Failed;
                Err(
                    McpError::InitFailed {
                        server: self.name.clone(),
                        reason: String::from_str("client cannot issue requests"),
                    },
                )
            },
        }
    }

    /// Carries the handshake one step on, given the reply to its request
    /// that was out. After `initialize` succeeded, the notification and
    /// `tools/list` go out; after the reply to `tools/list`, whatever it
    /// was, `resources/list` goes out; after the reply to that, whatever it
    /// was, the client is ready. A failed `initialize` fails the handshake
    /// for good. The entries of a listing that have not the expected shape
    /// are dropped.
    pub fn advance(&mut self, reply: Result<Json, McpError>) -> (r: Result<InitStep, McpError>)
        requires
            old(self).wf(),
        ensures
            final(self).wf(),
            final(self)@ == after_advance(old(self)@, reply),
            advance_result(old(self)@, reply, r),
    {
        match self.state {
            ClientState::AwaitingInitialize => match reply {
                Err(e) => {
                    self.state = ClientState::Failed;
                    Err(McpError::InitFailed { server: self.name.clone(), reason: e.message() })
                },
                Ok(_) => {
                    let line = McpClient::initialized_notification();
                    self.handshake_request("tools/list", Some(line), ClientState::AwaitingTools)
                },
            },
            ClientState::AwaitingTools => {
                match &reply {
                    Ok(result) => match result.get("tools") {
                        Some(Json::Array(items)) => {
                            self.tools = parse_tools(items);
                        },
                        _ => {},
                    },
                    Err(_) => {},
                }
                self.handshake_request("resources/list", None, ClientState::AwaitingResources)
            },
            ClientState::AwaitingResources => {
                match &reply {
                    Ok(result) => match result.get("resources") {
                        Some(Json::Array(items)) => {
                            self.resources = parse_resources(items);
                        },
                        _ => {},
                    },
                    Err(_) => {},
                }
                self.state = ClientState::Ready;
                Ok(InitStep::Done)
            },
            _ => Err(McpError::Communication(String::from_str("no handshake in progress"))),
        }
    }

    /// Issues a `tools/call` request for the tool `name`. Only a ready
    /// client may be called.
    pub fn call_tool(&mut self, name: &str, arguments: Json) -> (r: Result<Outgoing, McpError>)
        requires
            old(self).wf(),
        ensures
            final(self).wf(),
            match r {
                Ok(out) => old(self)@.state == ClientState::Ready && old(self)@.next_id < u64::MAX
                    && out.id == old(self)@.next_id && out.timeout_secs == REQUEST_TIMEOUT_SECS
                    && out.line@ == request_line(out.id, "tools/call"@, call_params(name@, arguments@))
                    && final(self)@ == (ClientView {
                    next_id: (out.id + 1) as u64,
                    pending: old(self)@.pending.insert(out.id, "tools/call"@),
                    ..old(self)@
                }),
                Err(e) => {
                    &&& !(old(self)@.state == ClientState::Ready && old(self)@.next_id < u64::MAX)
                    &&& final(self)@ == old(self)@
                    &&& e matches McpError::Communication(why)
                    &&& why@ == if old(self)@.state == ClientState::Ready {
                        refusal_text()
                    } else {
                        not_ready_text()
                    }
                },
            },
    {
        if self.state != ClientState::Ready {
            return Err(McpError::Communication(String::from_str("server is not ready")));
        }
        let mut params: Vec<Member> = Vec::new();
        proof {
            crate::json::entries_len(params@);
            assert(entries(params@) =~= Seq::<(Seq<char>, JsonView)>::empty());
        }
        push_member(&mut params, "name", Json::Str(name.to_owned()));
        push_member(&mut params, "arguments", arguments);
        let params = Json::Object(params);
        assert(params@->Object_0 =~= call_params(name@, arguments@)->Object_0);
        self.send_request("tools/call", params)
    }

    /// Issues a `resources/read` request for `uri`. Only a ready client may
    /// be read from.
    pub fn read_resource(&mut self, uri: &str) -> (r: Result<Outgoing, McpError>)
        requires
            old(self).wf(),
        ensures
            final(self).wf(),
            match r {
                Ok(out) => old(self)@.state == ClientState::Ready && old(self)@.next_id < u64::MAX
                    && out.id == old(self)@.next_id && out.timeout_secs == REQUEST_TIMEOUT_SECS
                    && out.line@ == request_line(out.id, "resources/read"@, read_params(uri@))
                    && final(self)@ == (ClientView {
                    next_id: (out.id + 1) as u64,
                    pending: old(self)@.pending.insert(out.id, "resources/read"@),
                    ..old(self)@
                }),
                Err(e) => {
                    &&& !(old(self)@.state == ClientState::Ready && old(self)@.next_id < u64::MAX)
                    &&& final(self)@ == old(self)@
                    &&& e matches McpError::Communication(why)
                    &&& why@ == if old(self)@.state == ClientState::Ready {
                        refusal_text()
                    } else {
                        not_ready_text()
                    }
                },
            },
    {
        if self.state != ClientState::Ready {
            return Err(McpError::Communication(String::from_str("server is not ready")));
        }
        let mut params: Vec<Member> = Vec::new();
        proof {
            crate::json::entries_len(params@);
            assert(entries(params@) =~= Seq::<(Seq<char>, JsonView)>::empty());
        }
        push_member(&mut params, "uri", Json::Str(uri.to_owned()));
        let params = Json::Object(params);
        assert(params@->Object_0 =~= read_params(uri@)->Object_0);
        self.send_request("resources/read", params)
    }

    /// The process has closed its output: no reply can come any more. No
    /// request waits any longer, and each one that waited fails with the
    /// error returned, `Cancelled`.
    pub fn transport_closed(&mut self) -> (e: McpError)
        requires
            old(self).wf(),
        ensures
            final(self).wf(),
            e == McpError::Cancelled,
            final(self)@ == (ClientView { pending: Map::empty(), ..old(self)@ }),
    {
        broadcast use vstd::std_specs::hash::group_hash_axioms;

        self.pending.clear();
        assert(self@.pending =~= Map::<u64, Seq<char>>::empty());
        McpError::Cancelled
    }

    /// The process is killed: the client is stopped and no request waits any
    /// longer. Stopping a stopped client changes nothing.
    pub fn stop(&mut self)
        requires
            old(self).wf(),
        ensures
            final(self).wf(),
            final(self)@ == (ClientView {
                state: ClientState::Stopped,
                pending: Map::empty(),
                ..old(self)@
            }),
    {
        broadcast use vstd::std_specs::hash::group_hash_axioms;

        self.state = ClientState::Stopped;
        self.pending.clear();
        assert(self@.pending =~= Map::<u64, Seq<char>>::empty());
    }
}

} // verus!
