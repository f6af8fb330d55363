//! The registry of running servers: which are indexed under which name, what
//! a reload has to start, and where a call goes.

use vstd::prelude::*;
use vstd::string::*;
use crate::client::{copy_resources, copy_tools, incoming_is, incoming_of, not_ready_text};
use crate::client::{call_params, pending_after, read_params, refusal_text, request_line};
use crate::client::{resources_view, tools_view, ClientState, ClientView, Incoming, McpClient};
use crate::client::{McpResource, McpTool, Outgoing, ResourceView, ToolView, REQUEST_TIMEOUT_SECS};
use crate::config::{distinct_names, find_server, has_name, servers_view, McpConfig};
use crate::config::{McpServerConfig, ServerConfigView};
use crate::error::McpError;
use crate::extensions::{entries_view, ExtensionMcpServer};
use crate::extensions::ExtensionMcpServerView;
use crate::json::{document, same_text, Json};
use crate::text::{copy_pairs, copy_texts};

verus! {

/// What a running server offers, under its name.
#[derive(Clone, Debug, PartialEq, Eq)]
pub struct ServerInfo {
    pub name: String,
    pub tools: Vec<McpTool>,
    pub resources: Vec<McpResource>,
}

/// What a `ServerInfo` is.
pub struct ServerInfoView {
    pub name: Seq<char>,
    pub tools: Seq<ToolView>,
    pub resources: Seq<ResourceView>,
}

impl View for ServerInfo {
    type V = ServerInfoView;

    open spec fn view(&self) -> ServerInfoView {
        ServerInfoView {
            name: self.name@,
            tools: tools_view(self.tools@),
            resources: resources_view(self.resources@),
        }
    }
}

/// The views of a list of infos.
pub open spec fn infos_view(list: Seq<ServerInfo>) -> Seq<ServerInfoView> {
    Seq::new(list.len(), |i: int| list[i]@)
}

/// What a request to reload leads to.
#[derive(Debug, PartialEq, Eq)]
pub enum LoadPlan {
    /// A reload is under way: nothing is to be done, and these are the names
    /// indexed now.
    Busy(Vec<String>),
    /// The reload has begun: these servers are to be started, in this order.
    Spawn(Vec<(String, McpServerConfig)>),
}

/// The registry of running servers.
#[derive(Debug)]
pub struct McpManager {
    clients: Vec<McpClient>,
    loading: bool,
    loaded: Vec<String>,
}

/// The state of the registry as a mathematical value: the indexed clients,
/// whether a reload is under way, and the names that it has added so far.
pub struct ManagerView {
    pub clients: Seq<ClientView>,
    pub loading: bool,
    pub loaded: Seq<Seq<char>>,
}

/// The position of the first client at or after `from` whose name is
/// `name`.
pub open spec fn client_index(clients: Seq<ClientView>, name: Seq<char>, from: int) -> Option<int>
    decreases clients.len() - from,
{
    if from < 0 || from >= clients.len() {
        None
    } else if clients[from].name == name {
        Some(from)
    } else {
        client_index(clients, name, from + 1)
    }
}

/// What `client_index` finds is in range, has the name, and is the first.
pub proof fn client_index_is_first(clients: Seq<ClientView>, name: Seq<char>, from: int)
    requires
        0 <= from,
    ensures
        match client_index(clients, name, from) {
            Some(i) => from <= i < clients.len() && clients[i].name == name && forall|j: int|
                from <= j < i ==> clients[j].name != name,
            None => forall|j: int| from <= j < clients.len() ==> clients[j].name != name,
        },
    decreases clients.len() - from,
{
    if from < clients.len() && clients[from].name != name {
        client_index_is_first(clients, name, from + 1);
    }
}

/// The launch entry of a resolved extension entry, under the name `ext_`
/// and the extension's id.
pub open spec fn extension_candidate(entry: ExtensionMcpServerView) -> (Seq<char>, ServerConfigView) {
    (
        "ext_"@ + entry.extension_id,
        ServerConfigView { command: entry.command, args: entry.args, env: entry.env },
    )
}

/// All servers that a reload considers: the configured ones, then those of
/// the extensions.
pub open spec fn candidates(
    config: Seq<(Seq<char>, ServerConfigView)>,
    extensions: Seq<ExtensionMcpServerView>,
) -> Seq<(Seq<char>, ServerConfigView)> {
    config + Seq::new(extensions.len(), |i: int| extension_candidate(extensions[i]))
}

/// The entries of `list` that a reload has to start, in their order: those
/// whose name no client has, each name once, the first entry of a name
/// standing for it.
pub open spec fn not_indexed(list: Seq<(Seq<char>, ServerConfigView)>, clients: Seq<ClientView>) -> Seq<
    (Seq<char>, ServerConfigView),
>
    decreases list.len(),
{
    if list.len() == 0 {
        Seq::empty()
    } else {
        let before = not_indexed(list.drop_last(), clients);
        if client_index(clients, list.last().0, 0).is_some() || has_name(before, list.last().0) {
            before
        } else {
            before.push(list.last())
        }
    }
}

/// A reload starts no server whose name is indexed.
pub proof fn plan_skips_indexed(list: Seq<(Seq<char>, ServerConfigView)>, clients: Seq<ClientView>, i: int)
    requires
        0 <= i < not_indexed(list, clients).len(),
    ensures
        client_index(clients, not_indexed(list, clients)[i].0, 0).is_none(),
    decreases list.len(),
{
    if list.len() > 0 {
        let before = not_indexed(list.drop_last(), clients);
        if i < before.len() {
            plan_skips_indexed(list.drop_last(), clients, i);
        }
    }
}

/// A reload starts no server twice: no name occurs twice among the servers
/// it has to start.
pub proof fn plan_names_distinct(list: Seq<(Seq<char>, ServerConfigView)>, clients: Seq<ClientView>)
    ensures
        distinct_names(not_indexed(list, clients)),
    decreases list.len(),
{
    if list.len() > 0 {
        plan_names_distinct(list.drop_last(), clients);
        let before = not_indexed(list.drop_last(), clients);
        let plan = not_indexed(list, clients);
        assert forall|i: int, j: int| 0 <= i < j < plan.len() implies plan[i].0 != plan[j].0 by {
            if j == before.len() {
                assert(!has_name(before, list.last().0));
                assert(before[i].0 != list.last().0);
            }
        }
    }
}

/// Every server that a reload has to start is one of those it considers.
pub proof fn plan_is_of_candidates(list: Seq<(Seq<char>, ServerConfigView)>, clients: Seq<ClientView>, i: int)
    requires
        0 <= i < not_indexed(list, clients).len(),
    ensures
        list.contains(not_indexed(list, clients)[i]),
    decreases list.len(),
{
    if list.len() > 0 {
        let before = not_indexed(list.drop_last(), clients);
        if i < before.len() {
            plan_is_of_candidates(list.drop_last(), clients, i);
            let k = choose|k: int| 0 <= k < list.drop_last().len() && list.drop_last()[k] == before[i];
            assert(list[k] == before[i]);
        } else {
            assert(list[list.len() - 1] == not_indexed(list, clients)[i]);
        }
    }
}

/// Where nothing is indexed under a name, that name is not among the names
/// of the index; where something is, it is.
pub proof fn has_means_named(v: ManagerView, name: Seq<char>)
    ensures
        v.has(name) == v.names().contains(name),
{
    client_index_is_first(v.clients, name, 0);
    if v.has(name) {
        let i = client_index(v.clients, name, 0)->Some_0;
        assert(v.names()[i] == name);
    } else if v.names().contains(name) {
        let i = choose|i: int| 0 <= i < v.names().len() && v.names()[i] == name;
        assert(v.clients[i].name == name);
    }
}

/// A sound index has no name twice.
pub proof fn names_are_unique(v: ManagerView)
    requires
        v.wf(),
    ensures
        v.names().no_duplicates(),
{
    assert forall|i: int, j: int|
        0 <= i < v.names().len() && 0 <= j < v.names().len() && i != j implies v.names()[i]
        != v.names()[j] by {
        if i < j {
            assert(v.clients[i].name != v.clients[j].name);
        } else {
            assert(v.clients[j].name != v.clients[i].name);
        }
    }
}

impl ManagerView {
    /// The names of the indexed clients.
    pub open spec fn names(self) -> Seq<Seq<char>> {
        Seq::new(self.clients.len(), |i: int| self.clients[i].name)
    }

    /// A client is indexed under the name.
    pub open spec fn has(self, name: Seq<char>) -> bool {
        client_index(self.clients, name, 0).is_some()
    }

    /// Every indexed client is sound and ready, and no two have one name.
    /// Every name noted as loaded is indexed, and none is noted twice.
    pub open spec fn wf(self) -> bool {
        &&& forall|i: int|
            0 <= i < self.clients.len() ==> (#[trigger] self.clients[i]).wf() && self.clients[i].state
                == ClientState::Ready
        &&& forall|i: int, j: int|
            0 <= i < j < self.clients.len() ==> (#[trigger] self.clients[i]).name
                != (#[trigger] self.clients[j]).name
        &&& forall|i: int| 0 <= i < self.loaded.len() ==> self.names().contains(#[trigger] self.loaded[i])
        &&& forall|i: int, j: int|
            0 <= i < j < self.loaded.len() ==> #[trigger] self.loaded[i] != #[trigger] self.loaded[j]
    }

    /// The registry after a client was handed to it: taken into the index
    /// where it is ready and its name is not indexed, its name noted as
    /// loaded during a reload; else the registry as it was.
    pub open spec fn registered(self, client: ClientView) -> ManagerView {
        if client.state == ClientState::Ready && !self.has(client.name) {
            ManagerView {
                clients: self.clients.push(client),
                loaded: if self.loading {
                    self.loaded.push(client.name)
                } else {
                    self.loaded
                },
                ..self
            }
        } else {
            self
        }
    }

    /// The registry after each of the clients was handed to it, in their
    /// order.
    pub open spec fn registered_all(self, clients: Seq<ClientView>) -> ManagerView
        decreases clients.len(),
    {
        if clients.len() == 0 {
            self
        } else {
            self.registered_all(clients.drop_last()).registered(clients.last())
        }
    }

    /// What the registry tells of its servers.
    pub open spec fn infos(self) -> Seq<ServerInfoView> {
        Seq::new(
            self.clients.len(),
            |i: int|
                ServerInfoView {
                    name: self.clients[i].name,
                    tools: self.clients[i].tools,
                    resources: self.clients[i].resources,
                },
        )
    }
    /// The id that the next request to the server of that name will have; 0
    /// where there is no such server.
    pub open spec fn next_id_of(self, name: Seq<char>) -> u64 {
        match client_index(self.clients, name, 0) {
            Some(i) => self.clients[i].next_id,
            None => 0,
        }
    }
}

/// A request `method` for the server `name` was routed: where the server is
/// indexed and has an id left, the request is out under that id with the
/// line `line`, and waits at that server; where it is indexed and has none
/// left, the server's refusal comes back; where it is not indexed, the error
/// is `ServerNotFound`. In both failures nothing changes.
pub open spec fn routed(
    before: ManagerView,
    after: ManagerView,
    name: Seq<char>,
    method: Seq<char>,
    line: Seq<char>,
    r: Result<Outgoing, McpError>,
) -> bool {
    match client_index(before.clients, name, 0) {
        None => {
            &&& after == before
            &&& r is Err
            &&& r->Err_0 matches McpError::ServerNotFound(n)
            &&& n@ == name
        },
        Some(i) => {
            let client = before.clients[i];
            if client.next_id < u64::MAX {
                &&& r is Ok
                &&& r->Ok_0.id == client.next_id
                &&& r->Ok_0.timeout_secs == REQUEST_TIMEOUT_SECS
                &&& r->Ok_0.line@ == line
                &&& after == (ManagerView {
                    clients: before.clients.update(
                        i,
                        ClientView {
                            next_id: (client.next_id + 1) as u64,
                            pending: client.pending.insert(client.next_id, method),
                            ..client
                        },
                    ),
                    ..before
                })
            } else {
                &&& after == before
                &&& r is Err
                &&& r->Err_0 matches McpError::Communication(why)
                &&& why@ == refusal_text()
            }
        },
    }
}

/// `list` without the name.
pub open spec fn without(list: Seq<Seq<char>>, name: Seq<char>) -> Seq<Seq<char>>
    decreases list.len(),
{
    if list.len() == 0 {
        Seq::empty()
    } else if list.last() == name {
        without(list.drop_last(), name)
    } else {
        without(list.drop_last(), name).push(list.last())
    }
}

/// `without` holds what the list held but the name, and nothing twice that
/// the list held once.
pub proof fn without_keeps_others(list: Seq<Seq<char>>, name: Seq<char>)
    ensures
        forall|x: Seq<char>| #[trigger]
            without(list, name).contains(x) ==> list.contains(x) && x != name,
        forall|x: Seq<char>| #[trigger] list.contains(x) && x != name ==> without(list, name).contains(x),
        (forall|i: int, j: int| 0 <= i < j < list.len() ==> list[i] != list[j]) ==> forall|
            i: int,
            j: int,
        | 0 <= i < j < without(list, name).len() ==> without(list, name)[i] != without(list, name)[j],
    decreases list.len(),
{
    let out = without(list, name);
    if list.len() > 0 {
        let before = list.drop_last();
        without_keeps_others(before, name);
        let kept = without(before, name);
        assert forall|x: Seq<char>| #[trigger] out.contains(x) implies list.contains(x) && x
            != name by {
            let k = choose|k: int| 0 <= k < out.len() && out[k] == x;
            if k < kept.len() {
                assert(kept[k] == x);
                assert(kept.contains(x));
                assert(before.contains(x));
                let m = choose|m: int| 0 <= m < before.len() && before[m] == x;
                assert(list[m] == x);
            } else {
                assert(list[list.len() - 1] == x);
            }
        }
        assert forall|x: Seq<char>| #[trigger] list.contains(x) && x != name implies out.contains(
            x,
        ) by {
            let m = choose|m: int| 0 <= m < list.len() && list[m] == x;
            if m < before.len() {
                assert(before[m] == x);
                assert(before.contains(x));
                assert(kept.contains(x));
                let k = choose|k: int| 0 <= k < kept.len() && kept[k] == x;
                assert(out[k] == x);
            } else {
                assert(out[out.len() - 1] == x);
            }
        }
        if forall|i: int, j: int| 0 <= i < j < list.len() ==> list[i] != list[j] {
            assert forall|i: int, j: int| 0 <= i < j < out.len() implies out[i] != out[j] by {
                if j == kept.len() {
                    assert(kept[i] == out[i]);
                    assert(kept.contains(out[i]));
                    assert(before.contains(out[i]));
                    let m = choose|m: int| 0 <= m < before.len() && before[m] == out[i];
                    assert(list[m] != list[list.len() - 1]);
                }
            }
        }
    }
}

/// Handing a sound client to a sound registry leaves it sound, and indexes
/// the name of the client, where it is ready, beside those that were.
pub proof fn registered_keeps_wf(v: ManagerView, client: ClientView)
    requires
        v.wf(),
        client.wf(),
    ensures
        v.registered(client).wf(),
        forall|name: Seq<char>| #[trigger]
            v.registered(client).names().contains(name) <==> v.names().contains(name) || (client.state
                == ClientState::Ready && client.name == name),
{
    let w = v.registered(client);
    has_means_named(v, client.name);
    client_index_is_first(v.clients, client.name, 0);
    if client.state == ClientState::Ready && !v.has(client.name) {
        assert(w.names() =~= v.names().push(client.name));
        assert forall|i: int, j: int| 0 <= i < j < w.clients.len() implies w.clients[i].name
            != w.clients[j].name by {
            if j < v.clients.len() {
                assert(v.clients[i].name != v.clients[j].name);
            }
        }
        assert forall|name: Seq<char>|
            w.names().contains(name) <==> v.names().contains(name) || client.name == name by {
            if w.names().contains(name) {
                let k = choose|k: int| 0 <= k < w.names().len() && w.names()[k] == name;
                if k < v.names().len() {
                    assert(v.names()[k] == name);
                }
            }
            if v.names().contains(name) {
                let k = choose|k: int| 0 <= k < v.names().len() && v.names()[k] == name;
                assert(w.names()[k] == name);
            }
            if client.name == name {
                assert(w.names()[w.names().len() - 1] == name);
            }
        }
        assert forall|i: int| 0 <= i < w.loaded.len() implies w.names().contains(
            #[trigger] w.loaded[i],
        ) by {
            if i < v.loaded.len() {
                assert(v.names().contains(v.loaded[i]));
            }
        }
        assert forall|i: int, j: int| 0 <= i < j < w.loaded.len() implies w.loaded[i]
            != w.loaded[j] by {
            if j < v.loaded.len() {
                assert(v.loaded[i] != v.loaded[j]);
            } else {
                assert(v.names().contains(v.loaded[i]));
            }
        }
    }
}

/// Whatever clients are handed to a sound registry, in whatever number, it
/// stays sound, so that no name is indexed twice; and the names indexed
/// afterwards are those that were, and those of the clients that were
/// ready.
pub proof fn registrations_give_union(v: ManagerView, clients: Seq<ClientView>)
    requires
        v.wf(),
        forall|i: int| 0 <= i < clients.len() ==> (#[trigger] clients[i]).wf(),
    ensures
        v.registered_all(clients).wf(),
        v.registered_all(clients).names().no_duplicates(),
        forall|name: Seq<char>| #[trigger]
            v.registered_all(clients).names().contains(name) <==> v.names().contains(name) || exists|
                i: int,
            |
                0 <= i < clients.len() && (#[trigger] clients[i]).state == ClientState::Ready
                    && clients[i].name == name,
    decreases clients.len(),
{
    let w = v.registered_all(clients);
    if clients.len() > 0 {
        let before = clients.drop_last();
        let u = v.registered_all(before);
        assert forall|i: int| 0 <= i < before.len() implies (#[trigger] before[i]).wf() by {
            assert(before[i] == clients[i]);
        }
        registrations_give_union(v, before);
        assert(clients.last() == clients[clients.len() - 1]);
        registered_keeps_wf(u, clients.last());
        let last = clients[clients.len() - 1];
        assert forall|name: Seq<char>|
            w.names().contains(name) <==> v.names().contains(name) || exists|i: int|
                0 <= i < clients.len() && (#[trigger] clients[i]).state == ClientState::Ready
                    && clients[i].name == name by {
            let among_earlier = exists|i: int|
                0 <= i < before.len() && (#[trigger] before[i]).state == ClientState::Ready
                    && before[i].name == name;
            let among_all = exists|i: int|
                0 <= i < clients.len() && (#[trigger] clients[i]).state == ClientState::Ready
                    && clients[i].name == name;
            assert(u.names().contains(name) <==> v.names().contains(name) || among_earlier);
            assert(w.names().contains(name) <==> u.names().contains(name) || (last.state
                == ClientState::Ready && last.name == name));
            if among_earlier {
                let i = choose|i: int|
                    0 <= i < before.len() && (#[trigger] before[i]).state == ClientState::Ready
                        && before[i].name == name;
                assert(clients[i] == before[i]);
                assert(among_all);
            }
            if last.state == ClientState::Ready && last.name == name {
                assert(clients[clients.len() - 1].state == ClientState::Ready);
                assert(among_all);
            }
            if among_all {
                let i = choose|i: int|
                    0 <= i < clients.len() && (#[trigger] clients[i]).state == ClientState::Ready
                        && clients[i].name == name;
                if i < before.len() {
                    assert(before[i] == clients[i]);
                    assert(among_earlier);
                }
            }
        }
    }
    names_are_unique(w);
}

impl View for McpManager {
    type V = ManagerView;

    closed spec fn view(&self) -> ManagerView {
        ManagerView {
            clients: Seq::new(self.clients@.len(), |i: int| self.clients@[i]@),
            loading: self.loading,
            loaded: self.loaded.deep_view(),
        }
    }
}

impl Default for McpManager {
    /// A registry without servers.
    fn default() -> (r: McpManager)
        ensures
            r.wf(),
            r@ == (ManagerView { clients: Seq::empty(), loading: false, loaded: Seq::empty() }),
    {
        McpManager::new()
    }
}

impl McpManager {
    /// The registry's invariant: that of its view.
    pub open spec fn wf(&self) -> bool {
        self@.wf()
    }

    /// A registry without servers.
    pub fn new() -> (r: McpManager)
        ensures
            r.wf(),
            r@ == (ManagerView { clients: Seq::empty(), loading: false, loaded: Seq::empty() }),
    {
        let r = McpManager { clients: Vec::new(), loading: false, loaded: Vec::new() };
        assert(r@.clients =~= Seq::<ClientView>::empty());
        assert(r@.loaded =~= Seq::<Seq<char>>::empty());
        r
    }

    fn find(&self, name: &str) -> (at: Option<usize>)
        ensures
            match at {
                Some(i) => i < self.clients@.len() && client_index(self@.clients, name@, 0) == Some(
                    i as int,
                ),
                None => client_index(self@.clients, name@, 0).is_none(),
            },
    {
        let mut i: usize = 0;
        while i < self.clients.len()
            invariant
                i <= self.clients@.len(),
                client_index(self@.clients, name@, 0) == client_index(self@.clients, name@, i as int),
            decreases self.clients@.len() - i,
        {
            if same_text(self.clients[i].name(), name) {
                return Some(i);
            }
            i += 1;
        }
        None
    }

    /// Whether a server is indexed under the name.
    pub fn contains(&self, name: &str) -> (b: bool)
        ensures
            b == self@.has(name@),
    {
        self.find(name).is_some()
    }

    /// Whether a reload is under way.
    pub fn is_loading(&self) -> (b: bool)
        ensures
            b == self@.loading,
    {
        self.loading
    }

    /// The names of the indexed servers, in the order in which they came.
    pub fn server_names(&self) -> (names: Vec<String>)
        ensures
            names.deep_view() == self@.names(),
    {
        let mut names: Vec<String> = Vec::new();
        let mut i: usize = 0;
        while i < self.clients.len()
            invariant
                i <= self.clients@.len(),
                names@.len() == i,
                forall|j: int| 0 <= j < i ==> names@[j]@ == self@.clients[j].name,
            decreases self.clients@.len() - i,
        {
            names.push(self.clients[i].name().to_owned());
            i += 1;
        }
        assert(names.deep_view() =~= self@.names());
        names
    }

    /// The servers that a reload has to start: of the configured ones and
    /// then of those that the extensions contribute, each under `ext_` and
    /// its extension's id, the ones whose name is not indexed, in that
    /// order, no name twice.
    pub fn do_load_servers(&self, config: &McpConfig, extensions: &Vec<ExtensionMcpServer>) -> (plan: Vec<
        (String, McpServerConfig),
    >)
        ensures
            servers_view(plan@) == not_indexed(
                candidates(config@, entries_view(extensions@)),
                self@.clients,
            ),
            distinct_names(servers_view(plan@)),
            forall|i: int| 0 <= i < plan@.len() ==> !self@.has(#[trigger] servers_view(plan@)[i].0),
    {
        let ghost all = candidates(config@, entries_view(extensions@));
        proof {
            plan_names_distinct(all, self@.clients);
            assert forall|i: int| 0 <= i < not_indexed(all, self@.clients).len() implies !self@.has(
                #[trigger] not_indexed(all, self@.clients)[i].0,
            ) by {
                plan_skips_indexed(all, self@.clients, i);
            }
        }
        let ghost configured = config@.len() as int;
        let mut plan: Vec<(String, McpServerConfig)> = Vec::new();
        assert(all.subrange(0, 0) =~= Seq::<(Seq<char>, ServerConfigView)>::empty());
        assert(servers_view(plan@) =~= Seq::<(Seq<char>, ServerConfigView)>::empty());
        let mut i: usize = 0;
        while i < config.mcp_servers.len()
            invariant
                i <= config.mcp_servers@.len(),
                all == candidates(config@, entries_view(extensions@)),
                servers_view(plan@) == not_indexed(all.subrange(0, i as int), self@.clients),
            decreases config.mcp_servers@.len() - i,
        {
            let ghost before = servers_view(plan@);
            proof {
                let upto = all.subrange(0, i + 1);
                assert(upto.drop_last() =~= all.subrange(0, i as int));
                assert(upto.last() == config@[i as int]);
            }
            let entry = &config.mcp_servers[i];
            let planned = find_server(&plan, entry.0.as_str());
            proof {
                if planned is Some {
                    assert(servers_view(plan@)[planned->Some_0 as int].0 == entry.0@);
                }
            }
            if !self.contains(entry.0.as_str()) && planned.is_none() {
                plan.push((entry.0.clone(), entry.1.clone()));
                assert(servers_view(plan@) =~= before.push(config@[i as int]));
            }
            i += 1;
        }
        let mut k: usize = 0;
        while k < extensions.len()
            invariant
                k <= extensions@.len(),
                all == candidates(config@, entries_view(extensions@)),
                configured == config@.len(),
                servers_view(plan@) == not_indexed(all.subrange(0, configured + k), self@.clients),
            decreases extensions@.len() - k,
        {
            let ghost before = servers_view(plan@);
            proof {
                let upto = all.subrange(0, configured + k + 1);
                assert(upto.drop_last() =~= all.subrange(0, configured + k));
                assert(upto.last() == extension_candidate(extensions@[k as int]@));
            }
            let entry = &extensions[k];
            let mut name = String::from_str("ext_");
            name.append(entry.extension_id.as_str());
            let planned = find_server(&plan, name.as_str());
            proof {
                if planned is Some {
                    assert(servers_view(plan@)[planned->Some_0 as int].0 == name@);
                }
            }
            if !self.contains(name.as_str()) && planned.is_none() {
                let server = McpServerConfig {
                    command: entry.command.clone(),
                    args: copy_texts(&entry.args),
                    env: copy_pairs(&entry.env),
                };
                plan.push((name, server));
                assert(servers_view(plan@) =~= before.push(extension_candidate(extensions@[k as int]@)));
            }
            k += 1;
        }
        assert(all.subrange(0, configured + extensions@.len()) =~= all);
        plan
    }

    /// Asks for a reload. Where one is under way, nothing changes and the
    /// names indexed now are returned. Else the reload begins, and the
    /// servers to start are returned: the caller starts each one that is
    /// still not indexed, hands the clients that became ready to `register`,
    /// and ends the reload with `finish_load`.
    pub fn load_servers(&mut self, config: &McpConfig, extensions: &Vec<ExtensionMcpServer>) -> (r:
        LoadPlan)
        requires
            old(self).wf(),
        ensures
            final(self).wf(),
            match r {
                LoadPlan::Busy(names) => old(self)@.loading && final(self)@ == old(self)@
                    && names.deep_view() == old(self)@.names(),
                LoadPlan::Spawn(plan) => !old(self)@.loading && final(self)@ == (ManagerView {
                    loading: true,
                    loaded: Seq::empty(),
                    ..old(self)@
                }) && servers_view(plan@) == not_indexed(
                    candidates(config@, entries_view(extensions@)),
                    old(self)@.clients,
                ) && distinct_names(servers_view(plan@)) && forall|i: int|
                    0 <= i < plan@.len() ==> !old(self)@.has(#[trigger] servers_view(plan@)[i].0),
            },
    {
        if self.loading {
            return LoadPlan::Busy(self.server_names());
        }
        self.loading = true;
        self.loaded = Vec::new();
        assert(self@.loaded =~= Seq::<Seq<char>>::empty());
        assert(self@.clients =~= old(self)@.clients);
        LoadPlan::Spawn(self.do_load_servers(config, extensions))
    }

    /// Takes a client into the index, where it is ready and its name is not
    /// indexed; during a reload its name is noted as loaded. Any other
    /// client is handed back and nothing changes.
    pub fn register(&mut self, client: McpClient) -> (back: Option<McpClient>)
        requires
            old(self).wf(),
            client.wf(),
        ensures
            final(self).wf(),
            final(self)@ == old(self)@.registered(client@),
            match back {
                None => client@.state == ClientState::Ready && !old(self)@.has(client@.name),
                Some(c) => c == client && !(client@.state == ClientState::Ready && !old(self)@.has(
                    client@.name,
                )),
            },
    {
        proof {
            registered_keeps_wf(self@, client@);
        }
        if client.state() != ClientState::Ready || self.contains(client.name()) {
            return Some(client);
        }
        if self.loading {
            let ghost before = self.loaded.deep_view();
            self.loaded.push(client.name().to_owned());
            assert(self.loaded.deep_view() =~= before.push(client@.name));
        }
        self.clients.push(client);
        assert(self@.clients =~= old(self)@.clients.push(client@));
        None
    }

    /// Ends the reload and returns the names that it added to the index:
    /// each of them is indexed, and none is returned twice.
    pub fn finish_load(&mut self) -> (loaded: Vec<String>)
        requires
            old(self).wf(),
        ensures
            final(self).wf(),
            loaded.deep_view() == old(self)@.loaded,
            loaded.deep_view().no_duplicates(),
            forall|i: int|
                0 <= i < loaded.deep_view().len() ==> final(self)@.names().contains(
                    #[trigger] loaded.deep_view()[i],
                ),
            final(self)@ == (ManagerView { loading: false, loaded: Seq::empty(), ..old(self)@ }),
    {
        self.loading = false;
        let mut loaded: Vec<String> = Vec::new();
        std::mem::swap(&mut self.loaded, &mut loaded);
        assert(self@.loaded =~= Seq::<Seq<char>>::empty());
        assert(self@.clients =~= old(self)@.clients);
        proof {
            let names = old(self)@.loaded;
            assert forall|i: int, j: int| 0 <= i < names.len() && 0 <= j < names.len() && i
                != j implies names[i] != names[j] by {
                if i < j {
                    assert(names[i] != names[j]);
                } else {
                    assert(names[j] != names[i]);
                }
            }
            assert(self@.names() =~= old(self)@.names());
        }
        loaded
    }

    /// What each indexed server offers, in the order in which they came.
    pub fn list_servers(&self) -> (infos: Vec<ServerInfo>)
        ensures
            infos_view(infos@) == self@.infos(),
    {
        let mut infos: Vec<ServerInfo> = Vec::new();
        let mut i: usize = 0;
        while i < self.clients.len()
            invariant
                i <= self.clients@.len(),
                infos@.len() == i,
                forall|j: int| 0 <= j < i ==> infos@[j]@ == self@.infos()[j],
            decreases self.clients@.len() - i,
        {
            let client = &self.clients[i];
            infos.push(
                ServerInfo {
                    name: client.name().to_owned(),
                    tools: copy_tools(client.tools()),
                    resources: copy_resources(client.resources()),
                },
            );
            i += 1;
        }
        assert(infos_view(infos@) =~= self@.infos());
        infos
    }

    /// Issues a `tools/call` request to the server of that name.
    pub fn call_tool(&mut self, server: &str, tool: &str, arguments: Json) -> (r: Result<
        Outgoing,
        McpError,
    >)
        requires
            old(self).wf(),
        ensures
            final(self).wf(),
            routed(
                old(self)@,
                final(self)@,
                server@,
                "tools/call"@,
                request_line(old(self)@.next_id_of(server@), "tools/call"@, call_params(tool@, arguments@)),
                r,
            ),
    {
        let at = match self.find(server) {
            Some(at) => at,
            None => {
                return Err(McpError::ServerNotFound(server.to_owned()));
            },
        };
        let ghost before = self@.clients;
        assert(before[at as int].wf() && before[at as int].state == ClientState::Ready);
        let mut client = self.clients.remove(at);
        assert(client@ == before[at as int]);
        let r = client.call_tool(tool, arguments);
        self.clients.insert(at, client);
        assert(self@.clients =~= before.update(at as int, client@));
        assert(self@.names() =~= old(self)@.names());
        assert(self@.loaded == old(self)@.loaded);
        assert forall|k: int| 0 <= k < self@.loaded.len() implies self@.names().contains(
            #[trigger] self@.loaded[k],
        ) by {
            assert(old(self)@.names().contains(old(self)@.loaded[k]));
        }
        proof {
            if r is Err {
                assert(self@.clients =~= before);
            }
            assert(old(self)@.next_id_of(server@) == before[at as int].next_id);
        }
        r
    }

    /// Issues a `resources/read` request to the server of that name.
    pub fn read_resource(&mut self, server: &str, uri: &str) -> (r: Result<Outgoing, McpError>)
        requires
            old(self).wf(),
        ensures
            final(self).wf(),
            routed(
                old(self)@,
                final(self)@,
                server@,
                "resources/read"@,
                request_line(old(self)@.next_id_of(server@), "resources/read"@, read_params(uri@)),
                r,
            ),
    {
        let at = match self.find(server) {
            Some(at) => at,
            None => {
                return Err(McpError::ServerNotFound(server.to_owned()));
            },
        };
        let ghost before = self@.clients;
        assert(before[at as int].wf() && before[at as int].state == ClientState::Ready);
        let mut client = self.clients.remove(at);
        assert(client@ == before[at as int]);
        let r = client.read_resource(uri);
        self.clients.insert(at, client);
        assert(self@.clients =~= before.update(at as int, client@));
        assert(self@.names() =~= old(self)@.names());
        assert(self@.loaded == old(self)@.loaded);
        assert forall|k: int| 0 <= k < self@.loaded.len() implies self@.names().contains(
            #[trigger] self@.loaded[k],
        ) by {
            assert(old(self)@.names().contains(old(self)@.loaded[k]));
        }
        proof {
            if r is Err {
                assert(self@.clients =~= before);
            }
            assert(old(self)@.next_id_of(server@) == before[at as int].next_id);
        }
        r
    }

    /// Takes a line that the server of that name wrote; `None` where no
    /// such server is indexed.
    pub fn handle_line(&mut self, server: &str, line: &str) -> (r: Option<Incoming>)
        requires
            old(self).wf(),
        ensures
            final(self).wf(),
            match client_index(old(self)@.clients, server@, 0) {
                Some(i) => r is Some && incoming_is(
                    r->Some_0,
                    incoming_of(document(line@), old(self)@.clients[i].pending),
                ) && final(self)@ == (ManagerView {
                    clients: old(self)@.clients.update(
                        i,
                        ClientView {
                            pending: pending_after(document(line@), old(self)@.clients[i].pending),
                            ..old(self)@.clients[i]
                        },
                    ),
                    ..old(self)@
                }),
                None => r is None && final(self)@ == old(self)@,
            },
    {
        let at = match self.find(server) {
            Some(at) => at,
            None => {
                return None;
            },
        };
        let ghost before = self@.clients;
        assert(before[at as int].wf() && before[at as int].state == ClientState::Ready);
        let mut client = self.clients.remove(at);
        assert(client@ == before[at as int]);
        let r = client.handle_line(line);
        self.clients.insert(at, client);
        assert(self@.clients =~= before.update(at as int, client@));
        assert(self@.names() =~= old(self)@.names());
        assert(self@.loaded == old(self)@.loaded);
        assert forall|k: int| 0 <= k < self@.loaded.len() implies self@.names().contains(
            #[trigger] self@.loaded[k],
        ) by {
            assert(old(self)@.names().contains(old(self)@.loaded[k]));
        }
        Some(r)
    }

    /// The time for a request to the server of that name has run out; see
    /// `McpClient::expire`. `None` too where no such server is indexed.
    pub fn expire(&mut self, server: &str, id: u64) -> (r: Option<McpError>)
        requires
            old(self).wf(),
        ensures
            final(self).wf(),
            match client_index(old(self)@.clients, server@, 0) {
                Some(i) => final(self)@ == (ManagerView {
                    clients: old(self)@.clients.update(
                        i,
                        ClientView {
                            pending: old(self)@.clients[i].pending.remove(id),
                            ..old(self)@.clients[i]
                        },
                    ),
                    ..old(self)@
                }) && match r {
                    Some(e) => {
                        &&& old(self)@.clients[i].pending.dom().contains(id)
                        &&& e matches McpError::Timeout { method, timeout_secs }
                        &&& method@ == old(self)@.clients[i].pending[id]
                        &&& timeout_secs == REQUEST_TIMEOUT_SECS
                    },
                    None => !old(self)@.clients[i].pending.dom().contains(id),
                },
                None => r is None && final(self)@ == old(self)@,
            },
    {
        let at = match self.find(server) {
            Some(at) => at,
            None => {
                return None;
            },
        };
        let ghost before = self@.clients;
        assert(before[at as int].wf() && before[at as int].state == ClientState::Ready);
        let mut client = self.clients.remove(at);
        assert(client@ == before[at as int]);
        let r = client.expire(id);
        self.clients.insert(at, client);
        assert(self@.clients =~= before.update(at as int, client@));
        assert(self@.names() =~= old(self)@.names());
        assert(self@.loaded == old(self)@.loaded);
        assert forall|k: int| 0 <= k < self@.loaded.len() implies self@.names().contains(
            #[trigger] self@.loaded[k],
        ) by {
            assert(old(self)@.names().contains(old(self)@.loaded[k]));
        }
        r
    }

    /// The server of that name has closed its output; see
    /// `McpClient::transport_closed`. `None` where no such server is
    /// indexed.
    pub fn transport_closed(&mut self, server: &str) -> (r: Option<McpError>)
        requires
            old(self).wf(),
        ensures
            final(self).wf(),
            match client_index(old(self)@.clients, server@, 0) {
                Some(i) => r == Some(McpError::Cancelled) && final(self)@ == (ManagerView {
                    clients: old(self)@.clients.update(
                        i,
                        ClientView { pending: Map::empty(), ..old(self)@.clients[i] },
                    ),
                    ..old(self)@
                }),
                None => r is None && final(self)@ == old(self)@,
            },
    {
        let at = match self.find(server) {
            Some(at) => at,
            None => {
                return None;
            },
        };
        let ghost before = self@.clients;
        assert(before[at as int].wf() && before[at as int].state == ClientState::Ready);
        let mut client = self.clients.remove(at);
        assert(client@ == before[at as int]);
        let e = client.transport_closed();
        self.clients.insert(at, client);
        assert(self@.clients =~= before.update(at as int, client@));
        assert(self@.names() =~= old(self)@.names());
        assert(self@.loaded == old(self)@.loaded);
        assert forall|k: int| 0 <= k < self@.loaded.len() implies self@.names().contains(
            #[trigger] self@.loaded[k],
        ) by {
            assert(old(self)@.names().contains(old(self)@.loaded[k]));
        }
        Some(e)
    }

    /// Takes the server of that name out of the index and stops it. Its
    /// name is no longer noted as loaded.
    pub fn stop_server(&mut self, name: &str) -> (r: Result<(), McpError>)
        requires
            old(self).wf(),
        ensures
            final(self).wf(),
            match r {
                Ok(_) => old(self)@.has(name@) && final(self)@ == (ManagerView {
                    clients: old(self)@.clients.remove(
                        client_index(old(self)@.clients, name@, 0)->Some_0,
                    ),
                    loaded: without(old(self)@.loaded, name@),
                    ..old(self)@
                }) && !final(self)@.has(name@),
                Err(e) => {
                    &&& !old(self)@.has(name@)
                    &&& final(self)@ == old(self)@
                    &&& e matches McpError::ServerNotFound(n)
                    &&& n@ == name@
                },
            },
    {
        let at = match self.find(name) {
            Some(at) => at,
            None => {
                return Err(McpError::ServerNotFound(name.to_owned()));
            },
        };
        let ghost before = self@.clients;
        let ghost noted = self@.loaded;
        let ghost names = self@.names();
        assert(before[at as int].wf());
        let mut client = self.clients.remove(at);
        assert(client@ == before[at as int]);
        client.stop();
        assert(self@.clients =~= before.remove(at as int));
        let mut kept: Vec<String> = Vec::new();
        let mut i: usize = 0;
        assert(noted.subrange(0, 0) =~= Seq::<Seq<char>>::empty());
        assert(kept.deep_view() =~= Seq::<Seq<char>>::empty());
        while i < self.loaded.len()
            invariant
                i <= self.loaded@.len(),
                noted == self.loaded.deep_view(),
                kept.deep_view() == without(noted.subrange(0, i as int), name@),
            decreases self.loaded@.len() - i,
        {
            let ghost sofar = kept.deep_view();
            proof {
                let upto = noted.subrange(0, i + 1);
                assert(upto.drop_last() =~= noted.subrange(0, i as int));
                assert(upto.last() == self.loaded@[i as int]@);
            }
            if !same_text(self.loaded[i].as_str(), name) {
                kept.push(self.loaded[i].clone());
                assert(kept.deep_view() =~= sofar.push(self.loaded@[i as int]@));
            }
            i += 1;
        }
        assert(noted.subrange(0, self.loaded@.len() as int) =~= noted);
        self.loaded = kept;
        proof {
            client_index_is_first(before, name@, 0);
            client_index_is_first(self@.clients, name@, 0);
            without_keeps_others(noted, name@);
            assert(self@.names() =~= names.remove(at as int));
            assert forall|k: int| 0 <= k < self@.loaded.len() implies self@.names().contains(
                #[trigger] self@.loaded[k],
            ) by {
                let x = self@.loaded[k];
                assert(without(noted, name@).contains(x));
                assert(noted.contains(x) && x != name@);
                let n = choose|n: int| 0 <= n < noted.len() && noted[n] == x;
                assert(names.contains(noted[n]));
                let m = choose|m: int| 0 <= m < names.len() && names[m] == x;
                assert(names[at as int] == name@);
                if m < at {
                    assert(self@.names()[m] == x);
                } else {
                    assert(self@.names()[m - 1] == x);
                }
            }
        }
        Ok(())
    }

    /// Takes every server out of the index and stops it. No name is noted
    /// as loaded any longer.
    pub fn stop_all(&mut self)
        requires
            old(self).wf(),
        ensures
            final(self).wf(),
            final(self)@ == (ManagerView {
                clients: Seq::empty(),
                loaded: Seq::empty(),
                ..old(self)@
            }),
    {
        self.clients.clear();
        self.loaded = Vec::new();
        assert(self@.clients =~= Seq::<ClientView>::empty());
        assert(self@.loaded =~= Seq::<Seq<char>>::empty());
    }
}

} // verus!
