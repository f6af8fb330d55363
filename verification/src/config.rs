//! The configuration file: the servers it names and how each is launched.

use vstd::prelude::*;
use vstd::string::*;
use crate::error::ConfigError;
use crate::text::{copy_pairs, copy_texts};
use crate::json::{entries, entries_index, entries_len, items_view, items_view_index};
use crate::json::{items_view_len, parsed, pretty_text, push_member, same_text, Json};
use crate::json::{JsonView, Member};

verus! {

/// How one server is launched: the command, its arguments and the
/// variables added to its environment.
#[derive(Debug, PartialEq, Eq)]
pub struct McpServerConfig {
    pub command: String,
    pub args: Vec<String>,
    pub env: Vec<(String, String)>,
}

/// The configured servers, each under its name. No name occurs twice.
#[derive(Clone, Debug, PartialEq, Eq)]
pub struct McpConfig {
    pub mcp_servers: Vec<(String, McpServerConfig)>,
}

/// What an `McpServerConfig` is.
pub struct ServerConfigView {
    pub command: Seq<char>,
    pub args: Seq<Seq<char>>,
    pub env: Seq<(Seq<char>, Seq<char>)>,
}

impl View for McpServerConfig {
    type V = ServerConfigView;

    open spec fn view(&self) -> ServerConfigView {
        ServerConfigView {
            command: self.command@,
            args: self.args.deep_view(),
            env: self.env.deep_view(),
        }
    }
}

/// The views of a list of named servers.
pub open spec fn servers_view(list: Seq<(String, McpServerConfig)>) -> Seq<(Seq<char>, ServerConfigView)> {
    Seq::new(list.len(), |i: int| (list[i].0@, list[i].1@))
}

impl View for McpConfig {
    type V = Seq<(Seq<char>, ServerConfigView)>;

    open spec fn view(&self) -> Seq<(Seq<char>, ServerConfigView)> {
        servers_view(self.mcp_servers@)
    }
}

/// Some entry of the list has the name.
pub open spec fn has_name(list: Seq<(Seq<char>, ServerConfigView)>, name: Seq<char>) -> bool {
    exists|i: int| 0 <= i < list.len() && #[trigger] list[i].0 == name
}

/// No name occurs twice in the list.
pub open spec fn distinct_names(list: Seq<(Seq<char>, ServerConfigView)>) -> bool {
    forall|i: int, j: int| 0 <= i < j < list.len() ==> #[trigger] list[i].0 != #[trigger] list[j].0
}

/// The strings of a list of documents; `None` where one of them is no
/// string.
pub open spec fn strings_of(items: Seq<JsonView>) -> Option<Seq<Seq<char>>>
    decreases items.len(),
{
    if items.len() == 0 {
        Some(Seq::empty())
    } else {
        match (strings_of(items.drop_last()), items.last()) {
            (Some(before), JsonView::Str(s)) => Some(before.push(s)),
            _ => None,
        }
    }
}

/// The pairs of a list of members whose values are strings; `None` where a
/// value is no string.
pub open spec fn pairs_of(members: Seq<(Seq<char>, JsonView)>) -> Option<Seq<(Seq<char>, Seq<char>)>>
    decreases members.len(),
{
    if members.len() == 0 {
        Some(Seq::empty())
    } else {
        match (pairs_of(members.drop_last()), members.last().1) {
            (Some(before), JsonView::Str(s)) => Some(before.push((members.last().0, s))),
            _ => None,
        }
    }
}

/// The arguments of a server entry: the strings under `args`, none where
/// the key is missing; `None` where it holds anything but an array of
/// strings.
pub open spec fn args_of(doc: JsonView) -> Option<Seq<Seq<char>>> {
    match doc.field("args"@) {
        None => Some(Seq::empty()),
        Some(JsonView::Array(items)) => strings_of(items),
        Some(_) => None,
    }
}

/// The environment of a server entry: the pairs under `env`, none where the
/// key is missing; `None` where it holds anything but an object of strings.
pub open spec fn env_of(doc: JsonView) -> Option<Seq<(Seq<char>, Seq<char>)>> {
    match doc.field("env"@) {
        None => Some(Seq::empty()),
        Some(JsonView::Object(members)) => pairs_of(members),
        Some(_) => None,
    }
}

/// The launch entry that a document describes, if it has the shape of one:
/// a string `command`, and `args` and `env` as above.
pub open spec fn server_of(doc: JsonView) -> Option<ServerConfigView> {
    match (doc.field("command"@), args_of(doc), env_of(doc)) {
        (Some(JsonView::Str(command)), Some(args), Some(env)) => Some(
            ServerConfigView { command, args, env },
        ),
        _ => None,
    }
}

/// The named servers that the members of an object describe, in their
/// order, a name that occurs again being ignored; `None` where a member has
/// not the shape of a launch entry.
pub open spec fn servers_of(members: Seq<(Seq<char>, JsonView)>) -> Option<
    Seq<(Seq<char>, ServerConfigView)>,
>
    decreases members.len(),
{
    if members.len() == 0 {
        Some(Seq::empty())
    } else {
        match (servers_of(members.drop_last()), server_of(members.last().1)) {
            (Some(before), Some(server)) => if has_name(before, members.last().0) {
                Some(before)
            } else {
                Some(before.push((members.last().0, server)))
            },
            _ => None,
        }
    }
}

/// The member of the document that holds the servers: `mcpServers` where it
/// is there, else `mcp_servers`.
pub open spec fn servers_member(doc: JsonView) -> Option<JsonView> {
    match doc.field("mcpServers"@) {
        Some(s) => Some(s),
        None => doc.field("mcp_servers"@),
    }
}

/// The servers that a configuration document names. Where the member that
/// holds them is missing, is no object, or has an entry that is no launch
/// entry, there are none.
pub open spec fn config_of(doc: JsonView) -> Seq<(Seq<char>, ServerConfigView)> {
    match servers_member(doc) {
        Some(JsonView::Object(members)) => match servers_of(members) {
            Some(list) => list,
            None => Seq::empty(),
        },
        _ => Seq::empty(),
    }
}

/// The strings of a list as JSON strings.
pub open spec fn strings_json(list: Seq<Seq<char>>) -> Seq<JsonView> {
    Seq::new(list.len(), |i: int| JsonView::Str(list[i]))
}

/// The pairs of a list as members with JSON strings.
pub open spec fn pairs_json(list: Seq<(Seq<char>, Seq<char>)>) -> Seq<(Seq<char>, JsonView)> {
    Seq::new(list.len(), |i: int| (list[i].0, JsonView::Str(list[i].1)))
}

/// The document of one launch entry.
pub open spec fn server_json(server: ServerConfigView) -> JsonView {
    JsonView::Object(
        seq![
            ("command"@, JsonView::Str(server.command)),
            ("args"@, JsonView::Array(strings_json(server.args))),
            ("env"@, JsonView::Object(pairs_json(server.env))),
        ],
    )
}

/// The named servers as members.
pub open spec fn servers_json(list: Seq<(Seq<char>, ServerConfigView)>) -> Seq<(Seq<char>, JsonView)> {
    Seq::new(list.len(), |i: int| (list[i].0, server_json(list[i].1)))
}

/// The document of a configuration: the servers under `mcpServers`.
pub open spec fn config_json(list: Seq<(Seq<char>, ServerConfigView)>) -> JsonView {
    JsonView::Object(seq![("mcpServers"@, JsonView::Object(servers_json(list)))])
}

fn read_strings(items: &Vec<Json>) -> (r: Option<Vec<String>>)
    ensures
        match r {
            Some(list) => strings_of(items_view(items@)) == Some(list.deep_view()),
            None => strings_of(items_view(items@)).is_none(),
        },
{
    let mut out: Vec<String> = Vec::new();
    let mut i: usize = 0;
    proof {
        items_view_len(items@);
    }
    assert(items_view(items@).subrange(0, 0) =~= Seq::<JsonView>::empty());
    assert(out.deep_view() =~= Seq::<Seq<char>>::empty());
    while i < items.len()
        invariant
            i <= items@.len(),
            items_view(items@).len() == items@.len(),
            strings_of(items_view(items@).subrange(0, i as int)) == Some(out.deep_view()),
        decreases items@.len() - i,
    {
        let ghost before = out.deep_view();
        proof {
            items_view_index(items@, i as int);
            let upto = items_view(items@).subrange(0, i + 1);
            assert(upto.drop_last() =~= items_view(items@).subrange(0, i as int));
            assert(upto.last() == items@[i as int]@);
        }
        match &items[i] {
            Json::Str(s) => {
                out.push(s.clone());
                assert(out.deep_view() =~= before.push(s@));
            },
            _ => {
                proof {
                    strings_none_stays(items_view(items@), i + 1);
                }
                return None;
            },
        }
        i += 1;
    }
    assert(items_view(items@).subrange(0, items@.len() as int) == items_view(items@));
    Some(out)
}

/// Once a prefix of a list holds something that is no string, so does the
/// whole list.
proof fn strings_none_stays(items: Seq<JsonView>, n: int)
    requires
        0 <= n <= items.len(),
        strings_of(items.subrange(0, n)).is_none(),
    ensures
        strings_of(items).is_none(),
    decreases items.len() - n,
{
    if n < items.len() {
        let upto = items.subrange(0, n + 1);
        assert(upto.drop_last() =~= items.subrange(0, n));
        strings_none_stays(items, n + 1);
    } else {
        assert(items.subrange(0, n) =~= items);
    }
}

/// Once a prefix of a list of members holds a value that is no string, so
/// does the whole list.
proof fn pairs_none_stays(members: Seq<(Seq<char>, JsonView)>, n: int)
    requires
        0 <= n <= members.len(),
        pairs_of(members.subrange(0, n)).is_none(),
    ensures
        pairs_of(members).is_none(),
    decreases members.len() - n,
{
    if n < members.len() {
        let upto = members.subrange(0, n + 1);
        assert(upto.drop_last() =~= members.subrange(0, n));
        pairs_none_stays(members, n + 1);
    } else {
        assert(members.subrange(0, n) =~= members);
    }
}

/// Once a prefix of a list of members holds one that is no launch entry, so
/// does the whole list.
proof fn servers_none_stays(members: Seq<(Seq<char>, JsonView)>, n: int)
    requires
        0 <= n <= members.len(),
        servers_of(members.subrange(0, n)).is_none(),
    ensures
        servers_of(members).is_none(),
    decreases members.len() - n,
{
    if n < members.len() {
        let upto = members.subrange(0, n + 1);
        assert(upto.drop_last() =~= members.subrange(0, n));
        servers_none_stays(members, n + 1);
    } else {
        assert(members.subrange(0, n) =~= members);
    }
}

fn read_pairs(members: &Vec<Member>) -> (r: Option<Vec<(String, String)>>)
    ensures
        match r {
            Some(list) => pairs_of(entries(members@)) == Some(list.deep_view()),
            None => pairs_of(entries(members@)).is_none(),
        },
{
    let mut out: Vec<(String, String)> = Vec::new();
    let mut i: usize = 0;
    proof {
        entries_len(members@);
    }
    assert(entries(members@).subrange(0, 0) =~= Seq::<(Seq<char>, JsonView)>::empty());
    assert(out.deep_view() =~= Seq::<(Seq<char>, Seq<char>)>::empty());
    while i < members.len()
        invariant
            i <= members@.len(),
            entries(members@).len() == members@.len(),
            pairs_of(entries(members@).subrange(0, i as int)) == Some(out.deep_view()),
        decreases members@.len() - i,
    {
        let ghost before = out.deep_view();
        proof {
            entries_index(members@, i as int);
            let upto = entries(members@).subrange(0, i + 1);
            assert(upto.drop_last() =~= entries(members@).subrange(0, i as int));
            assert(upto.last() == (members@[i as int].key@, members@[i as int].value@));
        }
        match &members[i].value {
            Json::Str(s) => {
                out.push((members[i].key.clone(), s.clone()));
                assert(out.deep_view() =~= before.push((members@[i as int].key@, s@)));
            },
            _ => {
                proof {
                    pairs_none_stays(entries(members@), i + 1);
                }
                return None;
            },
        }
        i += 1;
    }
    assert(entries(members@).subrange(0, members@.len() as int) == entries(members@));
    Some(out)
}

impl Clone for McpServerConfig {
    fn clone(&self) -> (r: McpServerConfig)
        ensures
            r@ == self@,
    {
        McpServerConfig {
            command: self.command.clone(),
            args: copy_texts(&self.args),
            env: copy_pairs(&self.env),
        }
    }
}

impl McpServerConfig {
    /// Reads a launch entry from a document; `None` where the document has
    /// not the shape of one.
    pub fn from_json(doc: &Json) -> (r: Option<McpServerConfig>)
        ensures
            match r {
                Some(server) => server_of(doc@) == Some(server@),
                None => server_of(doc@).is_none(),
            },
    {
        let command = match doc.get("command") {
            Some(Json::Str(s)) => s.clone(),
            _ => {
                return None;
            },
        };
        let args = match doc.get("args") {
            None => {
                let none: Vec<String> = Vec::new();
                assert(none.deep_view() =~= Seq::<Seq<char>>::empty());
                none
            },
            Some(Json::Array(items)) => match read_strings(items) {
                Some(list) => list,
                None => {
                    return None;
                },
            },
            Some(_) => {
                return None;
            },
        };
        let env = match doc.get("env") {
            None => {
                let none: Vec<(String, String)> = Vec::new();
                assert(none.deep_view() =~= Seq::<(Seq<char>, Seq<char>)>::empty());
                none
            },
            Some(Json::Object(members)) => match read_pairs(members) {
                Some(list) => list,
                None => {
                    return None;
                },
            },
            Some(_) => {
                return None;
            },
        };
        Some(McpServerConfig { command, args, env })
    }

    /// The document of the launch entry.
    pub fn to_json(&self) -> (doc: Json)
        ensures
            doc@ == server_json(self@),
    {
        let mut args: Vec<Json> = Vec::new();
        let mut i: usize = 0;
        while i < self.args.len()
            invariant
                i <= self.args@.len(),
                args@.len() == i,
                forall|j: int| 0 <= j < i ==> args@[j]@ == JsonView::Str(self.args@[j]@),
            decreases self.args@.len() - i,
        {
            args.push(Json::Str(self.args[i].clone()));
            i += 1;
        }
        let mut env: Vec<Member> = Vec::new();
        let mut k: usize = 0;
        while k < self.env.len()
            invariant
                k <= self.env@.len(),
                env@.len() == k,
                forall|j: int|
                    0 <= j < k ==> env@[j].key@ == self.env@[j].0@ && env@[j].value@ == JsonView::Str(
                        self.env@[j].1@,
                    ),
            decreases self.env@.len() - k,
        {
            env.push(Member { key: self.env[k].0.clone(), value: Json::Str(self.env[k].1.clone()) });
            k += 1;
        }
        proof {
            items_view_len(args@);
            assert forall|j: int| 0 <= j < args@.len() implies items_view(args@)[j] == strings_json(
                self@.args,
            )[j] by {
                items_view_index(args@, j);
            }
            assert(items_view(args@) =~= strings_json(self@.args));
            entries_len(env@);
            assert forall|j: int| 0 <= j < env@.len() implies entries(env@)[j] == pairs_json(
                self@.env,
            )[j] by {
                entries_index(env@, j);
            }
            assert(entries(env@) =~= pairs_json(self@.env));
        }
        let mut members: Vec<Member> = Vec::new();
        proof {
            entries_len(members@);
            assert(entries(members@) =~= Seq::<(Seq<char>, JsonView)>::empty());
        }
        push_member(&mut members, "command", Json::Str(self.command.clone()));
        push_member(&mut members, "args", Json::Array(args));
        push_member(&mut members, "env", Json::Object(env));
        let doc = Json::Object(members);
        assert(doc@->Object_0 =~= server_json(self@)->Object_0);
        doc
    }
}

/// The position of a named server in a list, if it is there.
pub fn find_server(list: &Vec<(String, McpServerConfig)>, name: &str) -> (at: Option<usize>)
    ensures
        match at {
            Some(i) => i < list@.len() && list@[i as int].0@ == name@,
            None => !has_name(servers_view(list@), name@),
        },
{
    let mut i: usize = 0;
    while i < list.len()
        invariant
            i <= list@.len(),
            forall|j: int| 0 <= j < i ==> servers_view(list@)[j].0 != name@,
        decreases list@.len() - i,
    {
        if same_text(list[i].0.as_str(), name) {
            return Some(i);
        }
        i += 1;
    }
    None
}

fn read_servers(members: &Vec<Member>) -> (r: Option<Vec<(String, McpServerConfig)>>)
    ensures
        match r {
            Some(list) => servers_of(entries(members@)) == Some(servers_view(list@)) && distinct_names(
                servers_view(list@),
            ),
            None => servers_of(entries(members@)).is_none(),
        },
{
    let mut out: Vec<(String, McpServerConfig)> = Vec::new();
    let mut i: usize = 0;
    proof {
        entries_len(members@);
    }
    assert(entries(members@).subrange(0, 0) =~= Seq::<(Seq<char>, JsonView)>::empty());
    assert(servers_view(out@) =~= Seq::<(Seq<char>, ServerConfigView)>::empty());
    while i < members.len()
        invariant
            i <= members@.len(),
            entries(members@).len() == members@.len(),
            servers_of(entries(members@).subrange(0, i as int)) == Some(servers_view(out@)),
            distinct_names(servers_view(out@)),
        decreases members@.len() - i,
    {
        let ghost before = servers_view(out@);
        proof {
            entries_index(members@, i as int);
            let upto = entries(members@).subrange(0, i + 1);
            assert(upto.drop_last() =~= entries(members@).subrange(0, i as int));
            assert(upto.last() == (members@[i as int].key@, members@[i as int].value@));
        }
        match McpServerConfig::from_json(&members[i].value) {
            Some(server) => {
                match find_server(&out, members[i].key.as_str()) {
                    Some(at) => {
                        assert(servers_view(out@)[at as int].0 == members@[i as int].key@);
                    },
                    None => {
                        out.push((members[i].key.clone(), server));
                        assert(servers_view(out@) =~= before.push((members@[i as int].key@, server@)));
                    },
                }
            },
            None => {
                proof {
                    servers_none_stays(entries(members@), i + 1);
                }
                return None;
            },
        }
        i += 1;
    }
    assert(entries(members@).subrange(0, members@.len() as int) == entries(members@));
    Some(out)
}

impl Default for McpConfig {
    /// The configuration without servers.
    fn default() -> (r: McpConfig)
        ensures
            r@ == Seq::<(Seq<char>, ServerConfigView)>::empty(),
            r.wf(),
    {
        let r = McpConfig { mcp_servers: Vec::new() };
        assert(r@ =~= Seq::<(Seq<char>, ServerConfigView)>::empty());
        r
    }
}

impl McpConfig {
    /// No name occurs twice.
    pub open spec fn wf(&self) -> bool {
        distinct_names(self@)
    }

    /// Reads the configuration from its document: the servers under
    /// `mcpServers`, or under `mcp_servers` where the first is missing. A
    /// document without them, or with an entry that is no launch entry,
    /// gives the configuration without servers.
    pub fn from_json(doc: &Json) -> (r: McpConfig)
        ensures
            r@ == config_of(doc@),
            r.wf(),
    {
        let servers = match doc.get("mcpServers") {
            Some(s) => Some(s),
            None => doc.get("mcp_servers"),
        };
        match servers {
            Some(Json::Object(members)) => match read_servers(members) {
                Some(list) => McpConfig { mcp_servers: list },
                None => McpConfig::default(),
            },
            _ => McpConfig::default(),
        }
    }

    /// The document of the configuration, with the servers under
    /// `mcpServers`.
    pub fn to_json(&self) -> (doc: Json)
        ensures
            doc@ == config_json(self@),
    {
        let mut servers: Vec<Member> = Vec::new();
        let mut i: usize = 0;
        while i < self.mcp_servers.len()
            invariant
                i <= self.mcp_servers@.len(),
                servers@.len() == i,
                forall|j: int|
                    0 <= j < i ==> servers@[j].key@ == self.mcp_servers@[j].0@ && servers@[j].value@
                        == server_json(self.mcp_servers@[j].1@),
            decreases self.mcp_servers@.len() - i,
        {
            servers.push(
                Member { key: self.mcp_servers[i].0.clone(), value: self.mcp_servers[i].1.to_json() },
            );
            i += 1;
        }
        proof {
            entries_len(servers@);
            assert forall|j: int| 0 <= j < servers@.len() implies entries(servers@)[j] == servers_json(
                self@,
            )[j] by {
                entries_index(servers@, j);
            }
            assert(entries(servers@) =~= servers_json(self@));
        }
        let mut members: Vec<Member> = Vec::new();
        proof {
            entries_len(members@);
            assert(entries(members@) =~= Seq::<(Seq<char>, JsonView)>::empty());
        }
        push_member(&mut members, "mcpServers", Json::Object(servers));
        let doc = Json::Object(members);
        assert(doc@->Object_0 =~= config_json(self@)->Object_0);
        doc
    }

    /// Reads the configuration from the content of its file. `None` stands
    /// for a file that is missing or cannot be read: the configuration is
    /// then without servers. A content that is no JSON is an error, which
    /// carries the reader's reason.
    pub fn load(content: Option<&str>) -> (r: Result<McpConfig, ConfigError>)
        ensures
            match r {
                Ok(config) => config.wf() && match content {
                    Some(text) => match parsed(text@) {
                        Ok(doc) => config@ == config_of(doc),
                        Err(_) => false,
                    },
                    None => config@ == Seq::<(Seq<char>, ServerConfigView)>::empty(),
                },
                Err(e) => {
                    &&& content is Some
                    &&& parsed(content->Some_0@) is Err
                    &&& e matches ConfigError::InvalidFormat(why)
                    &&& why@ == "Failed to parse config: "@ + parsed(content->Some_0@)->Err_0
                },
            },
    {
        match content {
            None => Ok(McpConfig::default()),
            Some(text) => match Json::read(text) {
                Ok(doc) => Ok(McpConfig::from_json(&doc)),
                Err(reason) => {
                    let mut why = String::from_str("Failed to parse config: ");
                    why.append(reason.as_str());
                    Err(ConfigError::InvalidFormat(why))
                },
            },
        }
    }

    /// The content to write to the configuration file: the document of the
    /// configuration as indented JSON.
    pub fn save(&self) -> (text: String)
        ensures
            text@ == pretty_text(config_json(self@)),
    {
        self.to_json().to_pretty_text()
    }
}

/// Strings written as JSON strings are read back as they were.
pub proof fn strings_round_trip(list: Seq<Seq<char>>)
    ensures
        strings_of(strings_json(list)) == Some(list),
    decreases list.len(),
{
    if list.len() == 0 {
        assert(list =~= Seq::<Seq<char>>::empty());
    } else {
        strings_round_trip(list.drop_last());
        assert(strings_json(list).drop_last() =~= strings_json(list.drop_last()));
        assert(list.drop_last().push(list.last()) =~= list);
    }
}

/// Pairs written as members with JSON strings are read back as they were.
pub proof fn pairs_round_trip(list: Seq<(Seq<char>, Seq<char>)>)
    ensures
        pairs_of(pairs_json(list)) == Some(list),
    decreases list.len(),
{
    if list.len() == 0 {
        assert(list =~= Seq::<(Seq<char>, Seq<char>)>::empty());
    } else {
        pairs_round_trip(list.drop_last());
        assert(pairs_json(list).drop_last() =~= pairs_json(list.drop_last()));
        assert(list.drop_last().push(list.last()) =~= list);
    }
}

/// A launch entry written as a document is read back as it was.
pub proof fn server_round_trip(server: ServerConfigView)
    ensures
        server_of(server_json(server)) == Some(server),
{
    reveal_strlit("command");
    reveal_strlit("args");
    reveal_strlit("env");
    let list = server_json(server)->Object_0;
    assert(list[0].0 == "command"@);
    assert(list[1].0 == "args"@);
    assert(list[2].0 == "env"@);
    assert("command"@.len() != "args"@.len());
    assert("command"@.len() != "env"@.len());
    assert("args"@.len() != "env"@.len());
    assert(crate::json::entry_index(list, "command"@, 0) == Some(0int));
    assert(crate::json::entry_index(list, "args"@, 1) == Some(1int));
    assert(crate::json::entry_index(list, "args"@, 0) == Some(1int));
    assert(crate::json::entry_index(list, "env"@, 2) == Some(2int));
    assert(crate::json::entry_index(list, "env"@, 1) == Some(2int));
    assert(crate::json::entry_index(list, "env"@, 0) == Some(2int));
    strings_round_trip(server.args);
    pairs_round_trip(server.env);
}

/// Named servers with distinct names, written as members, are read back as
/// they were.
pub proof fn servers_round_trip(list: Seq<(Seq<char>, ServerConfigView)>)
    requires
        distinct_names(list),
    ensures
        servers_of(servers_json(list)) == Some(list),
    decreases list.len(),
{
    if list.len() == 0 {
        assert(list =~= Seq::<(Seq<char>, ServerConfigView)>::empty());
    } else {
        let before = list.drop_last();
        servers_round_trip(before);
        server_round_trip(list.last().1);
        assert(servers_json(list).drop_last() =~= servers_json(before));
        assert(!has_name(before, list.last().0)) by {
            if has_name(before, list.last().0) {
                let i = choose|i: int| 0 <= i < before.len() && #[trigger] before[i].0 == list.last().0;
                assert(list[i].0 != list[list.len() - 1].0);
            }
        }
        assert(before.push(list.last()) =~= list);
    }
}

/// Writing a configuration as a document and reading the document gives
/// the configuration back: the same servers under the same names, each with
/// its command, arguments and environment.
pub proof fn config_round_trip(list: Seq<(Seq<char>, ServerConfigView)>)
    requires
        distinct_names(list),
    ensures
        config_of(config_json(list)) == list,
{
    let members = config_json(list)->Object_0;
    assert(members[0].0 == "mcpServers"@);
    assert(crate::json::entry_index(members, "mcpServers"@, 0) == Some(0int));
    servers_round_trip(list);
}

} // verus!
