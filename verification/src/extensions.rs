//! Launch entries that installed extensions contribute: their templates and
//! how the placeholders in them are filled in.

use vstd::prelude::*;
use crate::json::{compact_text, entries, entry_value, find_member, same_text, Json, JsonView, Member};
use crate::json::{entries_index, entries_len, items_view, items_view_index, items_view_len};
use crate::text::{chars_of, find_from, first_occurrence, first_occurrence_found};
use crate::text::{first_occurrence_is_first, occurs_at, replace_all};
use crate::text::{copy_pairs, replaced, string_of};

verus! {

/// Who wrote an extension.
#[derive(Clone, Debug, PartialEq, Eq)]
pub struct ExtensionAuthor {
    pub name: String,
    pub email: Option<String>,
    pub url: Option<String>,
}

/// How a manifest describes one value that the user may set.
#[derive(Debug, PartialEq, Eq)]
pub struct UserConfigField {
    pub field_type: String,
    pub title: Option<String>,
    pub description: Option<String>,
    pub multiple: Option<bool>,
    pub required: Option<bool>,
    pub default: Option<Json>,
}

/// The launch template of an extension's server: a command, its arguments
/// and its environment, the arguments possibly with placeholders.
#[derive(Clone, Debug, PartialEq, Eq)]
pub struct McpConfig {
    pub command: String,
    pub args: Vec<String>,
    pub env: Vec<(String, String)>,
}

/// The server entry of a manifest.
#[derive(Clone, Debug, PartialEq, Eq)]
pub struct ExtensionServer {
    pub server_type: String,
    pub entry_point: String,
    pub mcp_config: Option<McpConfig>,
}

/// The manifest that an extension package carries.
#[derive(Debug, PartialEq, Eq)]
pub struct ExtensionManifest {
    pub name: String,
    pub display_name: Option<String>,
    pub version: String,
    pub description: Option<String>,
    pub author: Option<ExtensionAuthor>,
    pub server: Option<ExtensionServer>,
    pub user_config: Option<Vec<(String, UserConfigField)>>,
}

/// What is stored for an extension: whether it is switched on, and the
/// values the user has set, by key.
#[derive(Debug, PartialEq, Eq)]
pub struct ExtensionSettings {
    pub is_enabled: bool,
    pub user_config: Vec<Member>,
}

/// An extension as installed: its id, manifest and directory.
#[derive(Debug, PartialEq, Eq)]
pub struct InstalledExtension {
    pub id: String,
    pub manifest: ExtensionManifest,
    pub path: String,
    pub enabled: bool,
}

/// A launch entry resolved from an extension: its arguments with the
/// directory and the user's values filled in, its command and environment
/// as the template has them.
#[derive(Clone, Debug, PartialEq, Eq)]
pub struct ExtensionMcpServer {
    pub extension_id: String,
    pub name: String,
    pub command: String,
    pub args: Vec<String>,
    pub env: Vec<(String, String)>,
}

/// What an `ExtensionMcpServer` is.
pub struct ExtensionMcpServerView {
    pub extension_id: Seq<char>,
    pub name: Seq<char>,
    pub command: Seq<char>,
    pub args: Seq<Seq<char>>,
    pub env: Seq<(Seq<char>, Seq<char>)>,
}

impl View for ExtensionMcpServer {
    type V = ExtensionMcpServerView;

    open spec fn view(&self) -> ExtensionMcpServerView {
        ExtensionMcpServerView {
            extension_id: self.extension_id@,
            name: self.name@,
            command: self.command@,
            args: self.args.deep_view(),
            env: self.env.deep_view(),
        }
    }
}

impl Default for ExtensionSettings {
    fn default() -> (r: ExtensionSettings)
        ensures
            !r.is_enabled,
            r.user_config@.len() == 0,
    {
        ExtensionSettings { is_enabled: false, user_config: Vec::new() }
    }
}

/// The value of a switch that a settings file leaves out: on.
pub fn default_true() -> (on: bool)
    ensures
        on,
{
    true
}

/// The text that opens a placeholder for a value the user has set.
pub open spec fn user_prefix() -> Seq<char> {
    "${user_config."@
}

/// The text that closes a placeholder.
pub open spec fn closing() -> Seq<char> {
    seq!['}']
}

/// Where the first user placeholder of `arg` opens and where it closes: the
/// first `${user_config.` and the first `}` after it.
pub open spec fn placeholder_span(arg: Seq<char>) -> Option<(int, int)> {
    match first_occurrence(arg, user_prefix(), 0) {
        Some(start) => match first_occurrence(arg, closing(), start + user_prefix().len()) {
            Some(close) => Some((start, close)),
            None => None,
        },
        None => None,
    }
}

/// The key that the first user placeholder of `arg` names.
pub open spec fn placeholder_key(arg: Seq<char>) -> Option<Seq<char>> {
    match placeholder_span(arg) {
        Some((start, close)) => Some(arg.subrange(start + user_prefix().len(), close)),
        None => None,
    }
}

/// The text that a value puts in the place of a placeholder: a string as it
/// is, anything else as its JSON text.
pub open spec fn element_text(item: JsonView) -> Seq<char> {
    match item {
        JsonView::Str(s) => s,
        other => compact_text(other),
    }
}

/// The texts of the elements of an array, one for each element, in their
/// order.
pub open spec fn fan_out(items: Seq<JsonView>) -> Seq<Seq<char>>
    decreases items.len(),
{
    if items.len() == 0 {
        Seq::empty()
    } else {
        fan_out(items.drop_last()).push(element_text(items.last()))
    }
}

/// The texts that take the place of a placeholder, given the value of its
/// key: none for a key without a value, one for each element of an array,
/// the one text of any other value.
pub open spec fn texts_of(value: Option<JsonView>) -> Seq<Seq<char>> {
    match value {
        None => Seq::empty(),
        Some(JsonView::Array(items)) => fan_out(items),
        Some(other) => seq![element_text(other)],
    }
}

/// The arguments that `done`, followed by what `rest` stands for, gives.
/// Every placeholder of `rest` is filled in, from the left, the search going
/// on behind the text put in. A placeholder with several texts gives the
/// arguments of the first text, then those of the second, and so on; one
/// with no text gives no argument.
pub open spec fn expansion_from(
    done: Seq<char>,
    rest: Seq<char>,
    user_config: Seq<(Seq<char>, JsonView)>,
) -> Seq<Seq<char>>
    decreases rest.len(), 0nat,
{
    let span = placeholder_span(rest);
    if span is Some && 0 <= span->Some_0.0 <= span->Some_0.1 < rest.len() {
        let start = span->Some_0.0;
        let close = span->Some_0.1;
        let key = rest.subrange(start + user_prefix().len(), close);
        branches(
            done + rest.subrange(0, start),
            texts_of(entry_value(user_config, key)),
            rest.subrange(close + 1, rest.len() as int),
            user_config,
        )
    } else {
        seq![done + rest]
    }
}

/// The arguments of `head` followed by each of `texts` in turn and then by
/// what `rest` stands for.
pub open spec fn branches(
    head: Seq<char>,
    texts: Seq<Seq<char>>,
    rest: Seq<char>,
    user_config: Seq<(Seq<char>, JsonView)>,
) -> Seq<Seq<char>>
    decreases rest.len(), texts.len() + 1,
{
    if texts.len() == 0 {
        Seq::empty()
    } else {
        branches(head, texts.drop_last(), rest, user_config) + expansion_from(
            head + texts.last(),
            rest,
            user_config,
        )
    }
}

/// The arguments that `arg` stands for, given the values the user has set.
/// An argument without a complete placeholder stands for itself. Each
/// placeholder is replaced: by a string in place; by each element of an
/// array in turn, which gives one argument for each element; by the JSON
/// text of any other value. A key without a value gives no argument.
pub open spec fn expansion(arg: Seq<char>, user_config: Seq<(Seq<char>, JsonView)>) -> Seq<Seq<char>> {
    expansion_from(Seq::empty(), arg, user_config)
}

/// A placeholder lies within its argument: it opens, then closes, before
/// the end.
pub proof fn span_in_bounds(arg: Seq<char>)
    ensures
        match placeholder_span(arg) {
            Some((start, close)) => 0 <= start && start + user_prefix().len() <= close < arg.len(),
            None => true,
        },
{
    first_occurrence_is_first(arg, user_prefix(), 0);
    match first_occurrence(arg, user_prefix(), 0) {
        Some(start) => {
            first_occurrence_is_first(arg, closing(), start + user_prefix().len());
        },
        None => {},
    }
}

/// `fan_out` gives one text for each element, in their order.
pub proof fn fan_out_index(items: Seq<JsonView>, i: int)
    requires
        0 <= i < items.len(),
    ensures
        fan_out(items).len() == items.len(),
        fan_out(items)[i] == element_text(items[i]),
    decreases items.len(),
{
    fan_out_len(items);
    fan_out_len(items.drop_last());
    if i < items.len() - 1 {
        fan_out_index(items.drop_last(), i);
    }
}

/// `fan_out` gives as many texts as there are elements.
pub proof fn fan_out_len(items: Seq<JsonView>)
    ensures
        fan_out(items).len() == items.len(),
    decreases items.len(),
{
    if items.len() > 0 {
        fan_out_len(items.drop_last());
    }
}

/// The characters `v[from..to]`.
fn slice_of(v: &Vec<char>, from: usize, to: usize) -> (out: Vec<char>)
    requires
        from <= to <= v@.len(),
    ensures
        out@ == v@.subrange(from as int, to as int),
{
    let mut out: Vec<char> = Vec::new();
    let mut i: usize = from;
    while i < to
        invariant
            from <= i <= to <= v@.len(),
            out@ == v@.subrange(from as int, i as int),
        decreases to - i,
    {
        out.push(v[i]);
        i += 1;
    }
    out
}

/// `a` followed by `b[..to]`.
fn joined(a: &Vec<char>, b: &Vec<char>, to: usize) -> (out: Vec<char>)
    requires
        to <= b@.len(),
    ensures
        out@ == a@ + b@.subrange(0, to as int),
{
    let mut out = slice_of(a, 0, a.len());
    assert(a@.subrange(0, a@.len() as int) == a@);
    let mut i: usize = 0;
    while i < to
        invariant
            i <= to <= b@.len(),
            out@ == a@ + b@.subrange(0, i as int),
        decreases to - i,
    {
        out.push(b[i]);
        assert(out@ =~= a@ + b@.subrange(0, i + 1));
        i += 1;
    }
    out
}

/// The text that a value puts in the place of a placeholder.
fn element_chars(item: &Json) -> (out: Vec<char>)
    ensures
        out@ == element_text(item@),
{
    match item {
        Json::Str(s) => chars_of(s.as_str()),
        other => {
            let written = other.to_text();
            chars_of(written.as_str())
        },
    }
}

/// Where the first user placeholder of `text` opens and closes.
fn locate_placeholder(text: &Vec<char>, prefix: &Vec<char>) -> (span: Option<(usize, usize)>)
    requires
        prefix@ == user_prefix(),
    ensures
        match span {
            Some((start, close)) => placeholder_span(text@) == Some((start as int, close as int))
                && start + prefix@.len() <= close < text@.len(),
            None => placeholder_span(text@).is_none(),
        },
{
    match find_from(text, prefix, 0) {
        None => None,
        Some(start) => {
            proof {
                first_occurrence_is_first(text@, prefix@, 0);
            }
            let mut close_pat: Vec<char> = Vec::new();
            close_pat.push('}');
            assert(close_pat@ =~= closing());
            let n: usize = text.len();
            assert(start + prefix@.len() <= n);
            let from: usize = start + prefix.len();
            match find_from(text, &close_pat, from) {
                None => None,
                Some(close) => {
                    proof {
                        first_occurrence_is_first(text@, close_pat@, from as int);
                    }
                    Some((start, close))
                },
            }
        },
    }
}

/// Adds to `out` the arguments that `done`, followed by what `rest` stands
/// for, gives.
fn expand_into(
    done: &Vec<char>,
    rest: &Vec<char>,
    user_config: &Vec<Member>,
    prefix: &Vec<char>,
    out: &mut Vec<String>,
)
    requires
        prefix@ == user_prefix(),
    ensures
        final(out).deep_view() == old(out).deep_view() + expansion_from(
            done@,
            rest@,
            entries(user_config@),
        ),
    decreases rest@.len(),
{
    let ghost before = out.deep_view();
    let ghost values = entries(user_config@);
    let n: usize = rest.len();
    match locate_placeholder(rest, prefix) {
        None => {
            let whole = joined(done, rest, n);
            assert(rest@.subrange(0, n as int) == rest@);
            out.push(string_of(&whole, 0, whole.len()));
            assert(whole@.subrange(0, whole@.len() as int) == whole@);
            assert(out.deep_view() =~= before + seq![done@ + rest@]);
        },
        Some((start, close)) => {
            let head = joined(done, rest, start);
            let key = string_of(rest, start + prefix.len(), close);
            let after = slice_of(rest, close + 1, n);
            match find_member(user_config, key.as_str()) {
                None => {
                    assert(out.deep_view() =~= before + Seq::<Seq<char>>::empty());
                },
                Some(at) => {
                    proof {
                        entries_index(user_config@, at as int);
                    }
                    match &user_config[at].value {
                        Json::Array(items) => {
                            let mut i: usize = 0;
                            proof {
                                items_view_len(items@);
                            }
                            assert(items_view(items@).subrange(0, 0) =~= Seq::<JsonView>::empty());
                            assert(out.deep_view() =~= before + Seq::<Seq<char>>::empty());
                            while i < items.len()
                                invariant
                                    i <= items@.len(),
                                    prefix@ == user_prefix(),
                                    values == entries(user_config@),
                                    after@.len() < rest@.len(),
                                    items_view(items@).len() == items@.len(),
                                    out.deep_view() == before + branches(
                                        head@,
                                        fan_out(items_view(items@).subrange(0, i as int)),
                                        after@,
                                        values,
                                    ),
                                decreases items@.len() - i,
                            {
                                let ghost sofar = out.deep_view();
                                let ghost texts = fan_out(items_view(items@).subrange(0, i as int));
                                let text = element_chars(&items[i]);
                                proof {
                                    items_view_index(items@, i as int);
                                    let upto = items_view(items@).subrange(0, i + 1);
                                    assert(upto.drop_last() =~= items_view(items@).subrange(0, i as int));
                                    assert(upto.last() == items@[i as int]@);
                                    assert(fan_out(upto) == texts.push(text@));
                                    assert(texts.push(text@).drop_last() =~= texts);
                                }
                                let next = joined(&head, &text, text.len());
                                assert(text@.subrange(0, text@.len() as int) == text@);
                                expand_into(&next, &after, user_config, prefix, out);
                                assert(out.deep_view() =~= before + branches(
                                    head@,
                                    texts.push(text@),
                                    after@,
                                    values,
                                ));
                                i += 1;
                            }
                            assert(items_view(items@).subrange(0, items@.len() as int) == items_view(
                                items@,
                            ));
                        },
                        other => {
                            let text = element_chars(other);
                            let next = joined(&head, &text, text.len());
                            assert(text@.subrange(0, text@.len() as int) == text@);
                            expand_into(&next, &after, user_config, prefix, out);
                            proof {
                                let texts = seq![text@];
                                assert(texts.drop_last() =~= Seq::<Seq<char>>::empty());
                                assert(texts.last() == text@);
                                assert(branches(head@, texts.drop_last(), after@, values)
                                    =~= Seq::<Seq<char>>::empty());
                                assert(branches(head@, texts, after@, values) == branches(
                                    head@,
                                    texts.drop_last(),
                                    after@,
                                    values,
                                ) + expansion_from(head@ + texts.last(), after@, values));
                                assert(branches(head@, texts, after@, values) =~= expansion_from(
                                    head@ + text@,
                                    after@,
                                    values,
                                ));
                            }
                        },
                    }
                },
            }
        },
    }
}

/// Fills in every `${user_config.KEY}` placeholder of one argument: the
/// arguments it stands for, given the user's values.
pub fn resolve_user_config_placeholder(arg: &str, user_config: &Vec<Member>) -> (out: Vec<String>)
    ensures
        out.deep_view() == expansion(arg@, entries(user_config@)),
{
    let text = chars_of(arg);
    let prefix = chars_of("${user_config.");
    let done: Vec<char> = Vec::new();
    let mut out: Vec<String> = Vec::new();
    assert(out.deep_view() =~= Seq::<Seq<char>>::empty());
    expand_into(&done, &text, user_config, &prefix, &mut out);
    assert(Seq::<Seq<char>>::empty() + expansion(arg@, entries(user_config@)) =~= expansion(
        arg@,
        entries(user_config@),
    ));
    out
}

/// The text that stands for the extension's own directory.
pub open spec fn dir_placeholder() -> Seq<char> {
    "${__dirname}"@
}

/// `arg` with the directory placeholder replaced by `path`.
pub open spec fn with_dir(arg: Seq<char>, path: Seq<char>) -> Seq<char> {
    replaced(arg, dir_placeholder(), path)
}

/// The position of the first definition at or after `from` whose key is
/// `key`.
pub open spec fn schema_index(schema: Seq<(String, UserConfigField)>, key: Seq<char>, from: int) -> Option<int>
    decreases schema.len() - from,
{
    if from < 0 || from >= schema.len() {
        None
    } else if schema[from].0@ == key {
        Some(from)
    } else {
        schema_index(schema, key, from + 1)
    }
}

/// The manifest declares `key`, and declares it required.
pub open spec fn is_required(schema: Option<Vec<(String, UserConfigField)>>, key: Seq<char>) -> bool {
    match schema {
        Some(defs) => match schema_index(defs@, key, 0) {
            Some(i) => defs@[i].1.required == Some(true),
            None => false,
        },
        None => false,
    }
}

/// Some placeholder of `rest` has no text to put in, and its key is
/// required.
pub open spec fn required_missing(
    rest: Seq<char>,
    user_config: Seq<(Seq<char>, JsonView)>,
    schema: Option<Vec<(String, UserConfigField)>>,
) -> bool
    decreases rest.len(),
{
    let span = placeholder_span(rest);
    if span is Some && 0 <= span->Some_0.0 <= span->Some_0.1 < rest.len() {
        let start = span->Some_0.0;
        let close = span->Some_0.1;
        let key = rest.subrange(start + user_prefix().len(), close);
        (texts_of(entry_value(user_config, key)).len() == 0 && is_required(schema, key))
            || required_missing(rest.subrange(close + 1, rest.len() as int), user_config, schema)
    } else {
        false
    }
}

/// The template argument `arg` has a placeholder without a text to put in
/// whose key is required.
pub open spec fn arg_lacks_required(
    arg: Seq<char>,
    path: Seq<char>,
    user_config: Seq<(Seq<char>, JsonView)>,
    schema: Option<Vec<(String, UserConfigField)>>,
) -> bool {
    required_missing(with_dir(arg, path), user_config, schema)
}

/// Some template argument lacks a required value.
pub open spec fn lacks_required(
    args: Seq<Seq<char>>,
    path: Seq<char>,
    user_config: Seq<(Seq<char>, JsonView)>,
    schema: Option<Vec<(String, UserConfigField)>>,
) -> bool
    decreases args.len(),
{
    if args.len() == 0 {
        false
    } else {
        lacks_required(args.drop_last(), path, user_config, schema) || arg_lacks_required(
            args.last(),
            path,
            user_config,
            schema,
        )
    }
}

/// The arguments that the template arguments stand for, one expansion after
/// the other.
pub open spec fn resolved_args(
    args: Seq<Seq<char>>,
    path: Seq<char>,
    user_config: Seq<(Seq<char>, JsonView)>,
) -> Seq<Seq<char>>
    decreases args.len(),
{
    if args.len() == 0 {
        Seq::empty()
    } else {
        resolved_args(args.drop_last(), path, user_config) + expansion(
            with_dir(args.last(), path),
            user_config,
        )
    }
}

/// The launch entry that one extension contributes, if it contributes one:
/// it is enabled, its stored settings are switched on, its manifest has a
/// server entry with a launch template, and no required value is missing.
pub open spec fn server_entry(
    ext: InstalledExtension,
    switched_on: bool,
    user_config: Seq<(Seq<char>, JsonView)>,
) -> Option<ExtensionMcpServerView> {
    if !ext.enabled || !switched_on {
        None
    } else {
        match ext.manifest.server {
            Some(ExtensionServer { mcp_config: Some(template), .. }) => {
                if lacks_required(template.args.deep_view(), ext.path@, user_config, ext.manifest.user_config) {
                    None
                } else {
                    Some(
                        ExtensionMcpServerView {
                            extension_id: ext.id@,
                            name: match ext.manifest.display_name {
                                Some(shown) => shown@,
                                None => ext.manifest.name@,
                            },
                            command: template.command@,
                            args: resolved_args(template.args.deep_view(), ext.path@, user_config),
                            env: template.env.deep_view(),
                        },
                    )
                }
            },
            _ => None,
        }
    }
}

/// The user's values for the extension at position `i`: those of the
/// settings at that position, none where the list of settings is shorter.
pub open spec fn user_config_at(settings: Seq<ExtensionSettings>, i: int) -> Seq<(Seq<char>, JsonView)> {
    if 0 <= i < settings.len() {
        entries(settings[i].user_config@)
    } else {
        Seq::empty()
    }
}

/// Whether the settings of the extension at position `i` are switched on;
/// they count as switched on where the list of settings is shorter.
pub open spec fn switched_on_at(settings: Seq<ExtensionSettings>, i: int) -> bool {
    if 0 <= i < settings.len() {
        settings[i].is_enabled
    } else {
        true
    }
}

/// The launch entries of the first `n` extensions, in their order.
pub open spec fn server_entries(
    extensions: Seq<InstalledExtension>,
    settings: Seq<ExtensionSettings>,
    n: int,
) -> Seq<ExtensionMcpServerView>
    decreases n,
{
    if n <= 0 || n > extensions.len() {
        Seq::empty()
    } else {
        let before = server_entries(extensions, settings, n - 1);
        match server_entry(
            extensions[n - 1],
            switched_on_at(settings, n - 1),
            user_config_at(settings, n - 1),
        ) {
            Some(entry) => before.push(entry),
            None => before,
        }
    }
}

/// The views of a list of launch entries.
pub open spec fn entries_view(list: Seq<ExtensionMcpServer>) -> Seq<ExtensionMcpServerView> {
    Seq::new(list.len(), |i: int| list[i]@)
}

/// Whether the manifest declares `key`, and declares it required.
fn field_required(schema: &Option<Vec<(String, UserConfigField)>>, key: &str) -> (b: bool)
    ensures
        b == is_required(*schema, key@),
{
    match schema {
        None => false,
        Some(defs) => {
            let mut i: usize = 0;
            while i < defs.len()
                invariant
                    i <= defs@.len(),
                    *schema == Some(*defs),
                    schema_index(defs@, key@, 0) == schema_index(defs@, key@, i as int),
                decreases defs@.len() - i,
            {
                if same_text(defs[i].0.as_str(), key) {
                    assert(schema_index(defs@, key@, i as int) == Some(i as int));
                    return match defs[i].1.required {
                        Some(r) => r,
                        None => false,
                    };
                }
                i += 1;
            }
            false
        },
    }
}

/// Whether a value gives no text to put in.
fn gives_nothing(user_config: &Vec<Member>, key: &str) -> (b: bool)
    ensures
        b == (texts_of(entry_value(entries(user_config@), key@)).len() == 0),
{
    match find_member(user_config, key) {
        None => true,
        Some(at) => {
            proof {
                entries_index(user_config@, at as int);
            }
            match &user_config[at].value {
                Json::Array(items) => {
                    proof {
                        items_view_len(items@);
                        fan_out_len(items_view(items@));
                    }
                    items.len() == 0
                },
                _ => false,
            }
        },
    }
}

/// Whether some placeholder of `rest` has no text to put in and a required
/// key.
fn lacks_required_value(
    rest: &Vec<char>,
    user_config: &Vec<Member>,
    schema: &Option<Vec<(String, UserConfigField)>>,
    prefix: &Vec<char>,
) -> (b: bool)
    requires
        prefix@ == user_prefix(),
    ensures
        b == required_missing(rest@, entries(user_config@), *schema),
    decreases rest@.len(),
{
    match locate_placeholder(rest, prefix) {
        None => false,
        Some((start, close)) => {
            let n: usize = rest.len();
            let key = string_of(rest, start + prefix.len(), close);
            if gives_nothing(user_config, key.as_str()) && field_required(schema, key.as_str()) {
                return true;
            }
            let after = slice_of(rest, close + 1, n);
            lacks_required_value(&after, user_config, schema, prefix)
        },
    }
}

/// The launch entry that one extension contributes, given its stored
/// settings; `None` where it is disabled or switched off, has no launch
/// template, or lacks a required value.
pub fn extension_mcp_server(ext: &InstalledExtension, settings: &ExtensionSettings) -> (r: Option<
    ExtensionMcpServer,
>)
    ensures
        match r {
            Some(entry) => server_entry(*ext, settings.is_enabled, entries(settings.user_config@))
                == Some(entry@),
            None => server_entry(*ext, settings.is_enabled, entries(settings.user_config@)).is_none(),
        },
{
    if !ext.enabled || !settings.is_enabled {
        return None;
    }
    let template = match &ext.manifest.server {
        Some(server) => match &server.mcp_config {
            Some(t) => t,
            None => {
                return None;
            },
        },
        None => {
            return None;
        },
    };
    let user_config = &settings.user_config;
    let path = chars_of(ext.path.as_str());
    let dir = chars_of("${__dirname}");
    let prefix = chars_of("${user_config.");
    let ghost templ = template.args.deep_view();
    let ghost values = entries(user_config@);
    let mut args: Vec<String> = Vec::new();
    let mut missing: bool = false;
    let mut i: usize = 0;
    assert(templ.subrange(0, 0) =~= Seq::<Seq<char>>::empty());
    assert(args.deep_view() =~= Seq::<Seq<char>>::empty());
    while i < template.args.len()
        invariant
            i <= template.args@.len(),
            templ == template.args.deep_view(),
            values == entries(user_config@),
            path@ == ext.path@,
            dir@ == dir_placeholder(),
            prefix@ == user_prefix(),
            args.deep_view() == resolved_args(templ.subrange(0, i as int), ext.path@, values),
            missing == lacks_required(
                templ.subrange(0, i as int),
                ext.path@,
                values,
                ext.manifest.user_config,
            ),
        decreases template.args@.len() - i,
    {
        proof {
            let upto = templ.subrange(0, i + 1);
            assert(upto.drop_last() =~= templ.subrange(0, i as int));
            assert(upto.last() == template.args@[i as int]@);
        }
        let raw = chars_of(template.args[i].as_str());
        let filled = replace_all(&raw, &dir, &path);
        let done: Vec<char> = Vec::new();
        let ghost before = args.deep_view();
        expand_into(&done, &filled, user_config, &prefix, &mut args);
        assert(args.deep_view() == before + expansion(filled@, values));
        if lacks_required_value(&filled, user_config, &ext.manifest.user_config, &prefix) {
            missing = true;
        }
        i += 1;
    }
    assert(templ.subrange(0, template.args@.len() as int) == templ);
    if missing {
        return None;
    }
    let name = match &ext.manifest.display_name {
        Some(shown) => shown.clone(),
        None => ext.manifest.name.clone(),
    };
    Some(
        ExtensionMcpServer {
            extension_id: ext.id.clone(),
            name,
            command: template.command.clone(),
            args,
            env: copy_pairs(&template.env),
        },
    )
}

/// The launch entries of all enabled extensions, in the order of the list:
/// each with its directory and the user's values filled in, named by its
/// extension's id. `settings` holds the stored settings of each extension at
/// the same position; an extension without settings counts as switched on
/// and has no values set.
pub fn extension_get_mcp_servers(extensions: &Vec<InstalledExtension>, settings: &Vec<ExtensionSettings>) -> (out:
    Vec<ExtensionMcpServer>)
    ensures
        entries_view(out@) == server_entries(extensions@, settings@, extensions@.len() as int),
{
    let mut out: Vec<ExtensionMcpServer> = Vec::new();
    let none = ExtensionSettings { is_enabled: true, user_config: Vec::new() };
    let mut i: usize = 0;
    assert(entries_view(out@) =~= Seq::<ExtensionMcpServerView>::empty());
    proof {
        entries_len(none.user_config@);
        assert(entries(none.user_config@) =~= Seq::<(Seq<char>, JsonView)>::empty());
    }
    while i < extensions.len()
        invariant
            i <= extensions@.len(),
            none.is_enabled,
            entries(none.user_config@) == Seq::<(Seq<char>, JsonView)>::empty(),
            entries_view(out@) == server_entries(extensions@, settings@, i as int),
        decreases extensions@.len() - i,
    {
        let ghost before = entries_view(out@);
        let stored: &ExtensionSettings = if i < settings.len() {
            &settings[i]
        } else {
            &none
        };
        match extension_mcp_server(&extensions[i], stored) {
            Some(entry) => {
                out.push(entry);
                assert(entries_view(out@) =~= before.push(entry@));
            },
            None => {},
        }
        i += 1;
    }
    out
}

/// In an argument that is one placeholder and nothing else, the placeholder
/// spans the whole and names the key between the opening and the `}`.
pub proof fn lone_placeholder(key: Seq<char>)
    requires
        forall|i: int| 0 <= i < key.len() ==> key[i] != '}',
    ensures
        placeholder_span(user_prefix() + key + closing()) == Some(
            (0int, (user_prefix().len() + key.len()) as int),
        ),
        placeholder_key(user_prefix() + key + closing()) == Some(key),
{
    let arg = user_prefix() + key + closing();
    let opened = user_prefix().len() as int;
    let close = opened + key.len();
    assert(arg.subrange(0, opened) =~= user_prefix());
    assert(occurs_at(arg, user_prefix(), 0));
    assert(arg.subrange(close, close + 1) =~= closing());
    assert forall|j: int| opened <= j < close implies !occurs_at(arg, closing(), j) by {
        assert(arg[j] == key[j - opened]);
        if occurs_at(arg, closing(), j) {
            assert(arg.subrange(j, j + 1)[0] == closing()[0]);
        }
    }
    first_occurrence_found(arg, closing(), opened, close);
    assert(arg.subrange(opened, close) =~= key);
}

/// Text without a `$` holds no placeholder: it stands for itself.
pub proof fn plain_text_stands_for_itself(
    done: Seq<char>,
    rest: Seq<char>,
    user_config: Seq<(Seq<char>, JsonView)>,
)
    requires
        forall|i: int| 0 <= i < rest.len() ==> rest[i] != '$',
    ensures
        placeholder_span(rest).is_none(),
        expansion_from(done, rest, user_config) == seq![done + rest],
{
    reveal_strlit("${user_config.");
    first_occurrence_is_first(rest, user_prefix(), 0);
    match first_occurrence(rest, user_prefix(), 0) {
        Some(i) => {
            assert(rest.subrange(i, i + user_prefix().len())[0] == user_prefix()[0]);
            assert(rest[i] == '$');
        },
        None => {},
    }
}

/// In `lead`, then a placeholder for `key`, then `rest`, where `lead` has no
/// `$` and `key` no `}`, the first placeholder is that one.
pub proof fn placeholder_after_lead(lead: Seq<char>, key: Seq<char>, rest: Seq<char>)
    requires
        forall|i: int| 0 <= i < lead.len() ==> lead[i] != '$',
        forall|i: int| 0 <= i < key.len() ==> key[i] != '}',
    ensures
        placeholder_span(lead + user_prefix() + key + closing() + rest) == Some(
            (lead.len() as int, (lead.len() + user_prefix().len() + key.len()) as int),
        ),
{
    reveal_strlit("${user_config.");
    let arg = lead + user_prefix() + key + closing() + rest;
    let start = lead.len() as int;
    let opened = start + user_prefix().len();
    let close = opened + key.len();
    assert(arg.subrange(start, opened) =~= user_prefix());
    assert forall|j: int| 0 <= j < start implies !occurs_at(arg, user_prefix(), j) by {
        assert(arg[j] == lead[j]);
        if occurs_at(arg, user_prefix(), j) {
            assert(arg.subrange(j, j + user_prefix().len())[0] == user_prefix()[0]);
        }
    }
    first_occurrence_found(arg, user_prefix(), 0, start);
    assert(arg.subrange(close, close + 1) =~= closing());
    assert forall|j: int| opened <= j < close implies !occurs_at(arg, closing(), j) by {
        assert(arg[j] == key[j - opened]);
        if occurs_at(arg, closing(), j) {
            assert(arg.subrange(j, j + 1)[0] == closing()[0]);
        }
    }
    first_occurrence_found(arg, closing(), opened, close);
}

/// An argument is filled in placeholder by placeholder: `lead`, then a
/// placeholder for `key`, then `rest` gives, for each text of the key's
/// value in turn, what `lead`, the text and then `rest` give. Here `lead`
/// has no `$` and `key` no `}`.
pub proof fn expansion_step(
    done: Seq<char>,
    lead: Seq<char>,
    key: Seq<char>,
    rest: Seq<char>,
    user_config: Seq<(Seq<char>, JsonView)>,
)
    requires
        forall|i: int| 0 <= i < lead.len() ==> lead[i] != '$',
        forall|i: int| 0 <= i < key.len() ==> key[i] != '}',
    ensures
        expansion_from(done, lead + user_prefix() + key + closing() + rest, user_config) == branches(
            done + lead,
            texts_of(entry_value(user_config, key)),
            rest,
            user_config,
        ),
{
    let arg = lead + user_prefix() + key + closing() + rest;
    let start = lead.len() as int;
    let opened = start + user_prefix().len();
    let close = opened + key.len();
    placeholder_after_lead(lead, key, rest);
    assert(arg.subrange(0, start) =~= lead);
    assert(arg.subrange(opened, close) =~= key);
    assert(arg.subrange(close + 1, arg.len() as int) =~= rest);
}

/// A placeholder with one text goes on with that text in its place.
pub proof fn branches_of_one(
    head: Seq<char>,
    text: Seq<char>,
    rest: Seq<char>,
    user_config: Seq<(Seq<char>, JsonView)>,
)
    ensures
        branches(head, seq![text], rest, user_config) == expansion_from(head + text, rest, user_config),
{
    let texts = seq![text];
    assert(texts.drop_last() =~= Seq::<Seq<char>>::empty());
    assert(texts.last() == text);
    assert(branches(head, texts.drop_last(), rest, user_config) =~= Seq::<Seq<char>>::empty());
    assert(branches(head, texts, rest, user_config) == branches(
        head,
        texts.drop_last(),
        rest,
        user_config,
    ) + expansion_from(head + texts.last(), rest, user_config));
    assert(Seq::<Seq<char>>::empty() + expansion_from(head + text, rest, user_config)
        =~= expansion_from(head + text, rest, user_config));
}

/// Two placeholders bound to strings, with text without `$` around them,
/// give one argument, with each string in the place of its placeholder.
pub proof fn two_strings_fill_two_placeholders(
    lead: Seq<char>,
    first: Seq<char>,
    between: Seq<char>,
    second: Seq<char>,
    tail: Seq<char>,
    x: Seq<char>,
    y: Seq<char>,
    user_config: Seq<(Seq<char>, JsonView)>,
)
    requires
        forall|i: int| 0 <= i < lead.len() ==> lead[i] != '$',
        forall|i: int| 0 <= i < between.len() ==> between[i] != '$',
        forall|i: int| 0 <= i < tail.len() ==> tail[i] != '$',
        forall|i: int| 0 <= i < first.len() ==> first[i] != '}',
        forall|i: int| 0 <= i < second.len() ==> second[i] != '}',
        entry_value(user_config, first) == Some(JsonView::Str(x)),
        entry_value(user_config, second) == Some(JsonView::Str(y)),
    ensures
        expansion(
            lead + user_prefix() + first + closing() + (between + user_prefix() + second + closing()
                + tail),
            user_config,
        ) == seq![lead + x + between + y + tail],
{
    let none = Seq::<char>::empty();
    let after = between + user_prefix() + second + closing() + tail;
    expansion_step(none, lead, first, after, user_config);
    branches_of_one(none + lead, x, after, user_config);
    expansion_step(none + lead + x, between, second, tail, user_config);
    branches_of_one(none + lead + x + between, y, tail, user_config);
    plain_text_stands_for_itself(none + lead + x + between + y, tail, user_config);
    assert(none + lead + x + between + y + tail =~= lead + x + between + y + tail);
}

/// Where nothing follows a placeholder, each of its texts gives one
/// argument: what stood before it, then the text.
pub proof fn branches_at_end(
    head: Seq<char>,
    texts: Seq<Seq<char>>,
    user_config: Seq<(Seq<char>, JsonView)>,
)
    ensures
        branches(head, texts, Seq::empty(), user_config) == Seq::new(
            texts.len(),
            |i: int| head + texts[i],
        ),
    decreases texts.len(),
{
    let end = Seq::<char>::empty();
    if texts.len() == 0 {
        assert(branches(head, texts, end, user_config) =~= Seq::new(
            texts.len(),
            |i: int| head + texts[i],
        ));
    } else {
        branches_at_end(head, texts.drop_last(), user_config);
        span_in_bounds(end);
        assert(placeholder_span(end).is_none());
        assert(head + texts.last() + end =~= head + texts.last());
        assert(expansion_from(head + texts.last(), end, user_config) == seq![head + texts.last() + end]);
        assert(branches(head, texts, end, user_config) == branches(
            head,
            texts.drop_last(),
            end,
            user_config,
        ) + expansion_from(head + texts.last(), end, user_config));
        assert(branches(head, texts, end, user_config) =~= Seq::new(
            texts.len(),
            |i: int| head + texts[i],
        ));
    }
}

/// A template argument that is one placeholder and nothing else, bound to
/// an array, stands for one argument for each element of the array, in
/// their order: a string as it is, any other element as its JSON text.
pub proof fn lone_placeholder_fans_out(
    key: Seq<char>,
    items: Seq<JsonView>,
    user_config: Seq<(Seq<char>, JsonView)>,
)
    requires
        forall|i: int| 0 <= i < key.len() ==> key[i] != '}',
        entry_value(user_config, key) == Some(JsonView::Array(items)),
    ensures
        expansion(user_prefix() + key + closing(), user_config) == fan_out(items),
        expansion(user_prefix() + key + closing(), user_config).len() == items.len(),
        forall|i: int|
            0 <= i < items.len() ==> expansion(user_prefix() + key + closing(), user_config)[i]
                == element_text(items[i]),
{
    let arg = user_prefix() + key + closing();
    let none = Seq::<char>::empty();
    lone_placeholder(key);
    assert(arg.subrange(user_prefix().len() as int, (user_prefix().len() + key.len()) as int) =~= key);
    assert(arg.subrange(0, 0) =~= none);
    assert(none + none =~= none);
    assert(arg.subrange(arg.len() as int, arg.len() as int) =~= none);
    branches_at_end(none, fan_out(items), user_config);
    fan_out_len(items);
    assert(expansion(arg, user_config) =~= fan_out(items)) by {
        assert forall|i: int| 0 <= i < fan_out(items).len() implies none + fan_out(items)[i]
            == fan_out(items)[i] by {
            assert(none + fan_out(items)[i] =~= fan_out(items)[i]);
        }
    }
    assert forall|i: int| 0 <= i < items.len() implies expansion(arg, user_config)[i]
        == element_text(items[i]) by {
        fan_out_index(items, i);
    }
}

/// A placeholder without a text to put in gives no argument, whatever
/// follows it.
pub proof fn unbound_gives_nothing(arg: Seq<char>, user_config: Seq<(Seq<char>, JsonView)>)
    requires
        placeholder_key(arg) is Some,
        texts_of(entry_value(user_config, placeholder_key(arg)->Some_0)).len() == 0,
    ensures
        expansion(arg, user_config).len() == 0,
{
    span_in_bounds(arg);
}

/// An argument in which a required key has no text to put in gives no
/// argument: it is the dropped argument that excludes the entry.
pub proof fn required_missing_gives_nothing(
    done: Seq<char>,
    rest: Seq<char>,
    user_config: Seq<(Seq<char>, JsonView)>,
    schema: Option<Vec<(String, UserConfigField)>>,
)
    requires
        required_missing(rest, user_config, schema),
    ensures
        expansion_from(done, rest, user_config).len() == 0,
    decreases rest.len(), 0nat,
{
    span_in_bounds(rest);
    let span = placeholder_span(rest)->Some_0;
    let key = rest.subrange(span.0 + user_prefix().len(), span.1);
    let after = rest.subrange(span.1 + 1, rest.len() as int);
    let texts = texts_of(entry_value(user_config, key));
    if texts.len() > 0 {
        branches_give_nothing(done + rest.subrange(0, span.0), texts, after, user_config, schema);
    }
}

/// Where what follows gives no argument, no text before it gives one.
proof fn branches_give_nothing(
    head: Seq<char>,
    texts: Seq<Seq<char>>,
    rest: Seq<char>,
    user_config: Seq<(Seq<char>, JsonView)>,
    schema: Option<Vec<(String, UserConfigField)>>,
)
    requires
        required_missing(rest, user_config, schema),
    ensures
        branches(head, texts, rest, user_config).len() == 0,
    decreases rest.len(), texts.len() + 1,
{
    if texts.len() > 0 {
        branches_give_nothing(head, texts.drop_last(), rest, user_config, schema);
        required_missing_gives_nothing(head + texts.last(), rest, user_config, schema);
    }
}

/// Where one template argument lacks a required value, some does.
pub proof fn lacks_required_at(
    args: Seq<Seq<char>>,
    i: int,
    path: Seq<char>,
    user_config: Seq<(Seq<char>, JsonView)>,
    schema: Option<Vec<(String, UserConfigField)>>,
)
    requires
        0 <= i < args.len(),
        arg_lacks_required(args[i], path, user_config, schema),
    ensures
        lacks_required(args, path, user_config, schema),
    decreases args.len(),
{
    if i < args.len() - 1 {
        lacks_required_at(args.drop_last(), i, path, user_config, schema);
    }
}

/// An extension with a template argument that lacks a required value
/// contributes no launch entry.
pub proof fn missing_required_excludes(
    ext: InstalledExtension,
    switched_on: bool,
    user_config: Seq<(Seq<char>, JsonView)>,
    i: int,
)
    requires
        ext.manifest.server is Some,
        ext.manifest.server->Some_0.mcp_config is Some,
        0 <= i < ext.manifest.server->Some_0.mcp_config->Some_0.args.deep_view().len(),
        arg_lacks_required(
            ext.manifest.server->Some_0.mcp_config->Some_0.args.deep_view()[i],
            ext.path@,
            user_config,
            ext.manifest.user_config,
        ),
    ensures
        server_entry(ext, switched_on, user_config).is_none(),
{
    lacks_required_at(
        ext.manifest.server->Some_0.mcp_config->Some_0.args.deep_view(),
        i,
        ext.path@,
        user_config,
        ext.manifest.user_config,
    );
}

/// The arguments of two lists of template arguments, one after the other,
/// are those of the first and then those of the second.
pub proof fn resolved_args_append(
    a: Seq<Seq<char>>,
    b: Seq<Seq<char>>,
    path: Seq<char>,
    user_config: Seq<(Seq<char>, JsonView)>,
)
    ensures
        resolved_args(a + b, path, user_config) == resolved_args(a, path, user_config) + resolved_args(
            b,
            path,
            user_config,
        ),
    decreases b.len(),
{
    if b.len() == 0 {
        assert(a + b =~= a);
        assert(resolved_args(a, path, user_config) + Seq::<Seq<char>>::empty() =~= resolved_args(
            a,
            path,
            user_config,
        ));
    } else {
        assert((a + b).drop_last() =~= a + b.drop_last());
        assert((a + b).last() == b.last());
        resolved_args_append(a, b.drop_last(), path, user_config);
        let tail = expansion(with_dir(b.last(), path), user_config);
        assert((resolved_args(a, path, user_config) + resolved_args(b.drop_last(), path, user_config))
            + tail =~= resolved_args(a, path, user_config) + (resolved_args(
            b.drop_last(),
            path,
            user_config,
        ) + tail));
    }
}

/// A template argument that stands for no argument is dropped, and only it:
/// the others give what they give without it.
pub proof fn empty_expansion_is_dropped(
    args: Seq<Seq<char>>,
    i: int,
    path: Seq<char>,
    user_config: Seq<(Seq<char>, JsonView)>,
)
    requires
        0 <= i < args.len(),
        expansion(with_dir(args[i], path), user_config).len() == 0,
    ensures
        resolved_args(args, path, user_config) == resolved_args(args.remove(i), path, user_config),
{
    let before = args.subrange(0, i);
    let one = seq![args[i]];
    let after = args.subrange(i + 1, args.len() as int);
    assert(args =~= (before + one) + after);
    assert(args.remove(i) =~= before + after);
    resolved_args_append(before + one, after, path, user_config);
    resolved_args_append(before, one, path, user_config);
    resolved_args_append(before, after, path, user_config);
    assert(one.drop_last() =~= Seq::<Seq<char>>::empty());
    assert(one.last() == args[i]);
    assert(resolved_args(one.drop_last(), path, user_config) =~= Seq::<Seq<char>>::empty());
    assert(resolved_args(one, path, user_config) == resolved_args(one.drop_last(), path, user_config)
        + expansion(with_dir(one.last(), path), user_config));
    assert(resolved_args(one, path, user_config) =~= expansion(with_dir(args[i], path), user_config));
    assert(resolved_args(one, path, user_config) =~= Seq::<Seq<char>>::empty());
    assert(resolved_args(before, path, user_config) + Seq::<Seq<char>>::empty() =~= resolved_args(
        before,
        path,
        user_config,
    ));
}

} // verus!
