//! The server's registry: its name and version, the tools it offers by name,
//! the shared state it hands to tools by type, its instructions and its
//! capabilities.
use std::any::TypeId;

use rmcp::model::ServerCapabilities;
use vstd::prelude::*;

use crate::error::McpError;
use crate::result::{IntoToolResult, ToolResult};

verus! {

#[verifier::external_type_specification]
#[verifier::external_body]
pub struct ExTypeId(TypeId);

#[verifier::external_type_specification]
#[verifier::external_body]
pub struct ExServerCapabilities(ServerCapabilities);

/// `TypeId == TypeId`: two type ids are equal exactly when they are the same
/// value, that is, ids of the same type.
#[verifier::external_body]
fn same_type_id(a: &TypeId, b: &TypeId) -> (r: bool)
    ensures
        r == (*a == *b),
{
    *a == *b
}

/// `ServerCapabilities::builder().enable_tools().build()`: the capabilities
/// of a server that offers tools. Nothing is stated of the value.
#[verifier::external_body]
fn tools_capabilities() -> ServerCapabilities {
    ServerCapabilities::builder().enable_tools().build()
}

/// A server under construction, and the registry it serves from. `T` is the
/// type of a registered tool, `S` that of a piece of shared state.
pub struct LazyMcp<T, S> {
    name: String,
    version: String,
    tools: Vec<(String, T)>,
    states: Vec<(TypeId, S)>,
    instructions: Option<String>,
    capabilities: ServerCapabilities,
}

/// A server's registry as mathematical values.
#[verifier::ext_equal]
pub struct ServerView<T, S> {
    pub name: Seq<char>,
    pub version: Seq<char>,
    /// The names of the registered tools, in the order they were first registered.
    pub tool_names: Seq<Seq<char>>,
    /// The registered tools by name.
    pub tools: Map<Seq<char>, T>,
    /// The registered state by type.
    pub states: Map<TypeId, S>,
    pub instructions: Option<Seq<char>>,
    pub capabilities: ServerCapabilities,
}

/// Whether no two entries carry the same key.
pub open spec fn keys_unique<K, V>(entries: Seq<(K, V)>) -> bool {
    forall|i: int, j: int|
        0 <= i < entries.len() && 0 <= j < entries.len() && i != j ==> #[trigger] entries[i].0
            != #[trigger] entries[j].0
}

/// The map from key to value that a list of uniquely keyed entries holds.
pub open spec fn map_of<K, V>(entries: Seq<(K, V)>) -> Map<K, V> {
    Map::new(
        |k: K| exists|i: int| 0 <= i < entries.len() && #[trigger] entries[i].0 == k,
        |k: K| entries[choose|i: int| 0 <= i < entries.len() && #[trigger] entries[i].0 == k].1,
    )
}

/// The registered tools as entries keyed by the view of their names.
pub open spec fn tool_entries<T>(tools: Seq<(String, T)>) -> Seq<(Seq<char>, T)> {
    tools.map_values(|e: (String, T)| (e.0@, e.1))
}

/// In a uniquely keyed list, the entry at `i` is what the map holds for its key.
pub proof fn lemma_map_of_at<K, V>(entries: Seq<(K, V)>, i: int)
    requires
        keys_unique(entries),
        0 <= i < entries.len(),
    ensures
        map_of(entries).contains_key(entries[i].0),
        map_of(entries)[entries[i].0] == entries[i].1,
{
    let k = entries[i].0;
    assert(entries[i].0 == k);
    let j = choose|j: int| 0 <= j < entries.len() && #[trigger] entries[j].0 == k;
    assert(j == i);
}

/// Replacing the entry at `i` by one with the same key replaces that key's
/// value and keeps the keys unique.
proof fn lemma_map_of_update<K, V>(entries: Seq<(K, V)>, i: int, entry: (K, V))
    requires
        keys_unique(entries),
        0 <= i < entries.len(),
        entries[i].0 == entry.0,
    ensures
        keys_unique(entries.update(i, entry)),
        map_of(entries.update(i, entry)) == map_of(entries).insert(entry.0, entry.1),
{
    let new = entries.update(i, entry);
    assert(keys_unique(new)) by {
        assert forall|a: int, b: int|
            0 <= a < new.len() && 0 <= b < new.len() && a != b implies #[trigger] new[a].0
            != #[trigger] new[b].0 by {
            assert(new[a].0 == entries[a].0);
            assert(new[b].0 == entries[b].0);
        }
    }
    let m_old = map_of(entries);
    let m_new = map_of(new);
    assert forall|k: K| #[trigger] m_new.contains_key(k) <==> m_old.insert(entry.0, entry.1).contains_key(k) by {
        if m_new.contains_key(k) {
            let j = choose|j: int| 0 <= j < new.len() && #[trigger] new[j].0 == k;
            assert(entries[j].0 == k);
        }
        if m_old.contains_key(k) {
            let j = choose|j: int| 0 <= j < entries.len() && #[trigger] entries[j].0 == k;
            assert(new[j].0 == k);
        }
        if k == entry.0 {
            assert(new[i].0 == k);
        }
    }
    assert forall|k: K| #[trigger] m_new.contains_key(k) implies m_new[k] == m_old.insert(entry.0, entry.1)[k] by {
        let j = choose|j: int| 0 <= j < new.len() && #[trigger] new[j].0 == k;
        lemma_map_of_at(new, j);
        if j != i {
            assert(entries[j] == new[j]);
            lemma_map_of_at(entries, j);
        }
    }
    assert(m_new =~= m_old.insert(entry.0, entry.1));
}

/// Appending an entry with a new key adds that key's value and keeps the
/// keys unique.
proof fn lemma_map_of_push<K, V>(entries: Seq<(K, V)>, entry: (K, V))
    requires
        keys_unique(entries),
        forall|j: int| 0 <= j < entries.len() ==> #[trigger] entries[j].0 != entry.0,
    ensures
        keys_unique(entries.push(entry)),
        map_of(entries.push(entry)) == map_of(entries).insert(entry.0, entry.1),
{
    let new = entries.push(entry);
    let n = entries.len() as int;
    assert(keys_unique(new)) by {
        assert forall|a: int, b: int|
            0 <= a < new.len() && 0 <= b < new.len() && a != b implies #[trigger] new[a].0
            != #[trigger] new[b].0 by {
            if a < n && b < n {
                assert(new[a] == entries[a]);
                assert(new[b] == entries[b]);
            } else if a < n {
                assert(new[a] == entries[a]);
            } else {
                assert(new[b] == entries[b]);
            }
        }
    }
    let m_old = map_of(entries);
    let m_new = map_of(new);
    assert forall|k: K| #[trigger] m_new.contains_key(k) <==> m_old.insert(entry.0, entry.1).contains_key(k) by {
        if m_new.contains_key(k) {
            let j = choose|j: int| 0 <= j < new.len() && #[trigger] new[j].0 == k;
            if j < n {
                assert(entries[j].0 == k);
            }
        }
        if m_old.contains_key(k) {
            let j = choose|j: int| 0 <= j < entries.len() && #[trigger] entries[j].0 == k;
            assert(new[j].0 == k);
        }
        if k == entry.0 {
            assert(new[n].0 == k);
        }
    }
    assert forall|k: K| #[trigger] m_new.contains_key(k) implies m_new[k] == m_old.insert(entry.0, entry.1)[k] by {
        let j = choose|j: int| 0 <= j < new.len() && #[trigger] new[j].0 == k;
        lemma_map_of_at(new, j);
        if j < n {
            assert(entries[j] == new[j]);
            lemma_map_of_at(entries, j);
        }
    }
    assert(m_new =~= m_old.insert(entry.0, entry.1));
}

/// The registry after `tool` is registered under `name`: the name maps to
/// the tool, and a name not registered before is listed last.
pub open spec fn with_tool_spec<T, S>(v: ServerView<T, S>, name: Seq<char>, tool: T) -> ServerView<T, S> {
    ServerView {
        name: v.name,
        version: v.version,
        tool_names: if v.tools.contains_key(name) {
            v.tool_names
        } else {
            v.tool_names.push(name)
        },
        tools: v.tools.insert(name, tool),
        states: v.states,
        instructions: v.instructions,
        capabilities: v.capabilities,
    }
}

/// The registry after `state` is registered for the type `key`.
pub open spec fn with_state_spec<T, S>(v: ServerView<T, S>, key: TypeId, state: S) -> ServerView<T, S> {
    ServerView {
        name: v.name,
        version: v.version,
        tool_names: v.tool_names,
        tools: v.tools,
        states: v.states.insert(key, state),
        instructions: v.instructions,
        capabilities: v.capabilities,
    }
}

/// The registry after its instructions are set to `instructions`.
pub open spec fn with_instructions_spec<T, S>(v: ServerView<T, S>, instructions: Seq<char>) -> ServerView<T, S> {
    ServerView {
        name: v.name,
        version: v.version,
        tool_names: v.tool_names,
        tools: v.tools,
        states: v.states,
        instructions: Some(instructions),
        capabilities: v.capabilities,
    }
}

/// The registry after its capabilities are replaced by `capabilities`.
pub open spec fn with_capabilities_spec<T, S>(v: ServerView<T, S>, capabilities: ServerCapabilities) -> ServerView<T, S> {
    ServerView {
        name: v.name,
        version: v.version,
        tool_names: v.tool_names,
        tools: v.tools,
        states: v.states,
        instructions: v.instructions,
        capabilities,
    }
}

/// One builder call on a server.
pub enum BuildStep<T, S> {
    /// `with_tool(name, tool)`.
    Tool(Seq<char>, T),
    /// `with_state(key, state)`.
    State(TypeId, S),
    /// `with_instructions(instructions)`.
    Instructions(Seq<char>),
    /// `with_capabilities(capabilities)`.
    Capabilities(ServerCapabilities),
}

/// The registry after one builder call.
pub open spec fn apply_step<T, S>(v: ServerView<T, S>, step: BuildStep<T, S>) -> ServerView<T, S> {
    match step {
        BuildStep::Tool(name, tool) => with_tool_spec(v, name, tool),
        BuildStep::State(key, state) => with_state_spec(v, key, state),
        BuildStep::Instructions(text) => with_instructions_spec(v, text),
        BuildStep::Capabilities(c) => with_capabilities_spec(v, c),
    }
}

/// The registry after a sequence of builder calls, first to last.
pub open spec fn apply_steps<T, S>(v: ServerView<T, S>, steps: Seq<BuildStep<T, S>>) -> ServerView<T, S>
    decreases steps.len(),
{
    if steps.len() == 0 {
        v
    } else {
        apply_step(apply_steps(v, steps.drop_last()), steps.last())
    }
}

/// The state of the last `with_state` call for `key` among the steps.
pub open spec fn last_state<T, S>(steps: Seq<BuildStep<T, S>>, key: TypeId) -> Option<S>
    decreases steps.len(),
{
    if steps.len() == 0 {
        None
    } else {
        match steps.last() {
            BuildStep::State(k, s) => if k == key {
                Some(s)
            } else {
                last_state(steps.drop_last(), key)
            },
            _ => last_state(steps.drop_last(), key),
        }
    }
}

/// The tool of the last `with_tool` call for `name` among the steps.
pub open spec fn last_tool<T, S>(steps: Seq<BuildStep<T, S>>, name: Seq<char>) -> Option<T>
    decreases steps.len(),
{
    if steps.len() == 0 {
        None
    } else {
        match steps.last() {
            BuildStep::Tool(n, t) => if n == name {
                Some(t)
            } else {
                last_tool(steps.drop_last(), name)
            },
            _ => last_tool(steps.drop_last(), name),
        }
    }
}

/// The text of the last `with_instructions` call among the steps.
pub open spec fn last_instructions<T, S>(steps: Seq<BuildStep<T, S>>) -> Option<Seq<char>>
    decreases steps.len(),
{
    if steps.len() == 0 {
        None
    } else {
        match steps.last() {
            BuildStep::Instructions(text) => Some(text),
            _ => last_instructions(steps.drop_last()),
        }
    }
}

/// The argument of the last `with_capabilities` call among the steps.
pub open spec fn last_capabilities<T, S>(steps: Seq<BuildStep<T, S>>) -> Option<ServerCapabilities>
    decreases steps.len(),
{
    if steps.len() == 0 {
        None
    } else {
        match steps.last() {
            BuildStep::Capabilities(c) => Some(c),
            _ => last_capabilities(steps.drop_last()),
        }
    }
}

/// After any builder calls, the state of a type is the state of the last
/// `with_state` for it, or what it was before when there was none.
pub proof fn law_state_after_builder_calls<T, S>(v: ServerView<T, S>, steps: Seq<BuildStep<T, S>>, key: TypeId)
    ensures
        state_spec(apply_steps(v, steps), key) == match last_state(steps, key) {
            Some(s) => Some(s),
            None => state_spec(v, key),
        },
    decreases steps.len(),
{
    if steps.len() > 0 {
        law_state_after_builder_calls(v, steps.drop_last(), key);
    }
}

/// After any builder calls, a call of a name resolves to the tool of the
/// last `with_tool` for it, or to what it resolved to before when there
/// was none.
pub proof fn law_tool_after_builder_calls<T, S>(v: ServerView<T, S>, steps: Seq<BuildStep<T, S>>, name: Seq<char>)
    ensures
        resolve_spec(apply_steps(v, steps), name) == match last_tool(steps, name) {
            Some(t) => Some(t),
            None => resolve_spec(v, name),
        },
    decreases steps.len(),
{
    if steps.len() > 0 {
        law_tool_after_builder_calls(v, steps.drop_last(), name);
    }
}

/// After any builder calls, the server keeps its name and version, its
/// instructions are those of the last `with_instructions` (else as before)
/// and its capabilities those of the last `with_capabilities` (else as
/// before): what the server tells a client about itself.
pub proof fn law_info_after_builder_calls<T, S>(v: ServerView<T, S>, steps: Seq<BuildStep<T, S>>)
    ensures
        apply_steps(v, steps).name == v.name,
        apply_steps(v, steps).version == v.version,
        apply_steps(v, steps).instructions == match last_instructions(steps) {
            Some(text) => Some(text),
            None => v.instructions,
        },
        apply_steps(v, steps).capabilities == match last_capabilities(steps) {
            Some(c) => c,
            None => v.capabilities,
        },
    decreases steps.len(),
{
    if steps.len() > 0 {
        law_info_after_builder_calls(v, steps.drop_last());
    }
}

/// The tool that a call of `name` resolves to, if any.
pub open spec fn resolve_spec<T, S>(v: ServerView<T, S>, name: Seq<char>) -> Option<T> {
    if v.tools.contains_key(name) {
        Some(v.tools[name])
    } else {
        None
    }
}

/// The state registered for the type `key`, if any.
pub open spec fn state_spec<T, S>(v: ServerView<T, S>, key: TypeId) -> Option<S> {
    if v.states.contains_key(key) {
        Some(v.states[key])
    } else {
        None
    }
}

/// Whether the listing names each registered tool exactly once.
pub open spec fn listing_consistent<T, S>(v: ServerView<T, S>) -> bool {
    &&& v.tool_names.no_duplicates()
    &&& v.tool_names.to_set() == v.tools.dom()
}

/// A call of a name resolves to the tool last registered under it.
pub proof fn law_call_finds_registered_tool<T, S>(v: ServerView<T, S>, name: Seq<char>, tool: T)
    ensures
        resolve_spec(with_tool_spec(v, name, tool), name) == Some(tool),
{
}

/// Registering a tool leaves the calls of every other name as they were.
pub proof fn law_registration_keeps_other_tools<T, S>(
    v: ServerView<T, S>,
    name: Seq<char>,
    tool: T,
    other: Seq<char>,
)
    requires
        other != name,
    ensures
        resolve_spec(with_tool_spec(v, name, tool), other) == resolve_spec(v, other),
{
}

/// Registering twice under one name is registering the second tool once:
/// the later registration wins and the name is listed once.
pub proof fn law_last_registration_wins<T, S>(v: ServerView<T, S>, name: Seq<char>, first: T, second: T)
    ensures
        with_tool_spec(with_tool_spec(v, name, first), name, second) == with_tool_spec(v, name, second),
{
    let a = with_tool_spec(with_tool_spec(v, name, first), name, second);
    let b = with_tool_spec(v, name, second);
    assert(a.tools =~= b.tools);
    assert(a.tool_names =~= b.tool_names);
    assert(a =~= b);
}

/// Registering a tool keeps each registered tool listed exactly once.
pub proof fn law_registration_keeps_listing<T, S>(v: ServerView<T, S>, name: Seq<char>, tool: T)
    requires
        listing_consistent(v),
    ensures
        listing_consistent(with_tool_spec(v, name, tool)),
{
    let w = with_tool_spec(v, name, tool);
    if !v.tools.contains_key(name) {
        assert(!v.tool_names.contains(name)) by {
            if v.tool_names.contains(name) {
                assert(v.tool_names.to_set().contains(name));
            }
        }
        assert forall|i: int, j: int|
            0 <= i < w.tool_names.len() && 0 <= j < w.tool_names.len() && i != j implies w.tool_names[i]
            != w.tool_names[j] by {
            if i == v.tool_names.len() as int {
                assert(v.tool_names.contains(v.tool_names[j]));
            } else if j == v.tool_names.len() as int {
                assert(v.tool_names.contains(v.tool_names[i]));
            }
        }
        assert forall|x: Seq<char>| #[trigger] w.tool_names.contains(x) <==> (v.tool_names.contains(x) || x == name) by {
            if v.tool_names.contains(x) {
                let i = choose|i: int| 0 <= i < v.tool_names.len() && v.tool_names[i] == x;
                assert(w.tool_names[i] == x);
            }
            if x == name {
                assert(w.tool_names[v.tool_names.len() as int] == x);
            }
            if w.tool_names.contains(x) {
                let i = choose|i: int| 0 <= i < w.tool_names.len() && w.tool_names[i] == x;
                if i < v.tool_names.len() {
                    assert(v.tool_names[i] == x);
                }
            }
        }
        assert(w.tool_names.to_set() =~= v.tool_names.to_set().insert(name));
    }
    assert(w.tools.dom() =~= v.tools.dom().insert(name));
    assert(w.tool_names.to_set() =~= w.tools.dom());
}

/// The state registered for a type is what a request for that type gets,
/// and the state of every other type stays as it was.
pub proof fn law_state_finds_registered_state<T, S>(v: ServerView<T, S>, key: TypeId, state: S, other: TypeId)
    ensures
        state_spec(with_state_spec(v, key, state), key) == Some(state),
        other != key ==> state_spec(with_state_spec(v, key, state), other) == state_spec(v, other),
{
}

/// Registering state does not change which tools calls resolve to, and
/// registering a tool does not change the state.
pub proof fn law_tools_and_state_independent<T, S>(
    v: ServerView<T, S>,
    name: Seq<char>,
    tool: T,
    key: TypeId,
    state: S,
)
    ensures
        forall|n: Seq<char>| resolve_spec(with_state_spec(v, key, state), n) == resolve_spec(v, n),
        forall|k: TypeId| state_spec(with_tool_spec(v, name, tool), k) == state_spec(v, k),
{
}

impl<T, S> View for LazyMcp<T, S> {
    type V = ServerView<T, S>;

    closed spec fn view(&self) -> ServerView<T, S> {
        ServerView {
            name: self.name@,
            version: self.version@,
            tool_names: self.tools@.map_values(|e: (String, T)| e.0@),
            tools: map_of(tool_entries(self.tools@)),
            states: map_of(self.states@),
            instructions: match self.instructions {
                Some(s) => Some(s@),
                None => None,
            },
            capabilities: self.capabilities,
        }
    }
}

/// The index of the entry named `name`, if there is one.
fn find_tool<T>(tools: &Vec<(String, T)>, name: &String) -> (r: Option<usize>)
    ensures
        match r {
            Some(i) => i < tools@.len() && tools@[i as int].0@ == name@,
            None => forall|j: int| 0 <= j < tools@.len() ==> #[trigger] tools@[j].0@ != name@,
        },
{
    let mut i: usize = 0;
    while i < tools.len()
        invariant
            i <= tools@.len(),
            forall|j: int| 0 <= j < i ==> #[trigger] tools@[j].0@ != name@,
        decreases tools.len() - i,
    {
        if tools[i].0 == *name {
            return Some(i);
        }
        i = i + 1;
    }
    None
}

/// The index of the entry with key `key`, if there is one.
fn find_state<S>(states: &Vec<(TypeId, S)>, key: &TypeId) -> (r: Option<usize>)
    ensures
        match r {
            Some(i) => i < states@.len() && states@[i as int].0 == *key,
            None => forall|j: int| 0 <= j < states@.len() ==> #[trigger] states@[j].0 != *key,
        },
{
    let mut i: usize = 0;
    while i < states.len()
        invariant
            i <= states@.len(),
            forall|j: int| 0 <= j < i ==> #[trigger] states@[j].0 != *key,
        decreases states.len() - i,
    {
        if same_type_id(&states[i].0, key) {
            return Some(i);
        }
        i = i + 1;
    }
    None
}

impl<T, S> LazyMcp<T, S> {
    #[verifier::type_invariant]
    closed spec fn well_formed(self) -> bool {
        &&& keys_unique(tool_entries(self.tools@))
        &&& keys_unique(self.states@)
    }

    /// A server named `name` at version `version`, with no tools, no state,
    /// no instructions, and the capabilities of a server that offers tools.
    pub fn new(name: &str, version: &str) -> (s: Self)
        ensures
            s@.name == name@,
            s@.version == version@,
            s@.tool_names == Seq::<Seq<char>>::empty(),
            s@.tools == Map::<Seq<char>, T>::empty(),
            s@.states == Map::<TypeId, S>::empty(),
            s@.instructions is None,
    {
        let s = LazyMcp {
            name: String::from_str(name),
            version: String::from_str(version),
            tools: Vec::new(),
            states: Vec::new(),
            instructions: None,
            capabilities: tools_capabilities(),
        };
        assert(s@.tools =~= Map::<Seq<char>, T>::empty());
        assert(s@.states =~= Map::<TypeId, S>::empty());
        assert(s@.tool_names =~= Seq::<Seq<char>>::empty());
        s
    }

    /// Registers `tool` under `name`. A tool already registered under that
    /// name is replaced and keeps its place in the listing; a new name is
    /// listed last.
    pub fn with_tool(self, name: String, tool: T) -> (s: Self)
        ensures
            s@ == with_tool_spec(self@, name@, tool),
    {
        proof {
            use_type_invariant(&self);
        }
        let ghost old_view = self@;
        let LazyMcp { name: server_name, version, mut tools, states, instructions, capabilities } =
            self;
        let ghost old_tools = tools@;
        let ghost key = name@;
        let ghost tool_ghost = tool;
        match find_tool(&tools, &name) {
            Some(i) => {
                proof {
                    let entries = tool_entries(old_tools);
                    assert(tool_entries(old_tools.update(i as int, (name, tool))) =~= entries.update(
                        i as int,
                        (key, tool),
                    ));
                    lemma_map_of_update(entries, i as int, (key, tool));
                    assert(old_tools.update(i as int, (name, tool)).map_values(|e: (String, T)| e.0@)
                        =~= old_tools.map_values(|e: (String, T)| e.0@));
                }
                tools.set(i, (name, tool));
            },
            None => {
                proof {
                    let entries = tool_entries(old_tools);
                    assert(tool_entries(old_tools.push((name, tool))) =~= entries.push((key, tool)));
                    assert forall|j: int| 0 <= j < entries.len() implies #[trigger] entries[j].0 != key by {
                        assert(entries[j].0 == old_tools[j].0@);
                    }
                    lemma_map_of_push(entries, (key, tool));
                    if map_of(entries).contains_key(key) {
                        let j = choose|j: int| 0 <= j < entries.len() && #[trigger] entries[j].0 == key;
                    }
                    assert(old_tools.push((name, tool)).map_values(|e: (String, T)| e.0@)
                        =~= old_tools.map_values(|e: (String, T)| e.0@).push(key));
                }
                tools.push((name, tool));
            },
        }
        let s = LazyMcp { name: server_name, version, tools, states, instructions, capabilities };
        assert(s@ =~= with_tool_spec(old_view, key, tool_ghost));
        s
    }

    /// Registers `state` as the shared state of the type `key`, replacing
    /// state registered before for that type.
    pub fn with_state(self, key: TypeId, state: S) -> (s: Self)
        ensures
            s@ == with_state_spec(self@, key, state),
    {
        proof {
            use_type_invariant(&self);
        }
        let ghost old_view = self@;
        let ghost state_ghost = state;
        let LazyMcp { name, version, tools, mut states, instructions, capabilities } = self;
        let ghost old_states = states@;
        match find_state(&states, &key) {
            Some(i) => {
                proof {
                    lemma_map_of_update(old_states, i as int, (key, state));
                }
                states.set(i, (key, state));
            },
            None => {
                proof {
                    lemma_map_of_push(old_states, (key, state));
                }
                states.push((key, state));
            },
        }
        let s = LazyMcp { name, version, tools, states, instructions, capabilities };
        assert(s@ =~= with_state_spec(old_view, key, state_ghost));
        s
    }

    /// The shared state registered for the type `key`, if any.
    pub fn get_state(&self, key: &TypeId) -> (r: Option<&S>)
        ensures
            match r {
                Some(v) => self@.states.contains_key(*key) && *v == self@.states[*key],
                None => !self@.states.contains_key(*key),
            },
    {
        proof {
            use_type_invariant(self);
        }
        match find_state(&self.states, key) {
            Some(i) => {
                proof {
                    lemma_map_of_at(self.states@, i as int);
                }
                Some(&self.states[i].1)
            },
            None => None,
        }
    }

    /// The inputs of a call of a tool: first the tool's arguments, as the
    /// outcome `parsed` of reading them (an error text when they could not be
    /// read), then the state of each type in `wanted`, in order, each given
    /// with the type's name. Fails with `InvalidArguments` carrying the error
    /// text when the arguments could not be read, else with the "not
    /// registered" error of the first wanted type that has no state.
    pub fn prepare_call<A>(&self, parsed: Result<A, String>, wanted: &Vec<(TypeId, String)>) -> (r:
        Result<(A, Vec<&S>), McpError>)
        ensures
            match parsed {
                Err(m) => r matches Err(e) && e == McpError::InvalidArguments(m),
                Ok(a) => match r {
                    Ok(p) => {
                        &&& p.0 == a
                        &&& p.1@.len() == wanted@.len()
                        &&& forall|i: int|
                            0 <= i < wanted@.len() ==> state_spec(self@, #[trigger] wanted@[i].0)
                                == Some(*p.1@[i])
                    },
                    Err(e) => exists|i: int|
                        0 <= i < wanted@.len() && state_spec(self@, #[trigger] wanted@[i].0) is None
                            && (forall|j: int|
                            0 <= j < i ==> state_spec(self@, #[trigger] wanted@[j].0) is Some)
                            && e is InternalError && e.message_spec()
                            == crate::error::state_not_registered_message(wanted@[i].1@),
                },
            },
    {
        match parsed {
            Err(m) => Err(McpError::InvalidArguments(m)),
            Ok(args) => match self.gather_states(wanted) {
                Ok(states) => Ok((args, states)),
                Err(e) => Err(e),
            },
        }
    }

    /// Runs a call of a tool whose function does not await: gathers the
    /// inputs as `prepare_call` does, then calls `run` once on the parsed
    /// arguments and the gathered state, and converts what it returns into a
    /// tool result. An error of `prepare_call` is returned without calling
    /// `run`; an error that `run` returns is passed on.
    pub fn call_with<'a, A, R: IntoToolResult, F: FnOnce(A, Vec<&'a S>) -> Result<R, McpError>>(
        &'a self,
        parsed: Result<A, String>,
        wanted: &Vec<(TypeId, String)>,
        run: F,
    ) -> (r: Result<ToolResult, McpError>)
        requires
            forall|a: A, states: Vec<&'a S>| call_requires(run, (a, states)),
        ensures
            match parsed {
                Err(m) => r matches Err(e) && e == McpError::InvalidArguments(m),
                Ok(a) => {
                    ||| exists|i: int|
                        {
                            &&& 0 <= i < wanted@.len()
                            &&& state_spec(self@, #[trigger] wanted@[i].0) is None
                            &&& forall|j: int|
                                0 <= j < i ==> state_spec(self@, #[trigger] wanted@[j].0) is Some
                            &&& (r matches Err(e) && e is InternalError && e.message_spec()
                                == crate::error::state_not_registered_message(wanted@[i].1@))
                        }
                    ||| exists|states: Vec<&'a S>, out: Result<R, McpError>|
                        {
                            &&& states@.len() == wanted@.len()
                            &&& forall|i: int|
                                0 <= i < wanted@.len() ==> state_spec(self@, #[trigger] wanted@[i].0)
                                    == Some(*states@[i])
                            &&& call_ensures(run, (a, states), out)
                            &&& match out {
                                Ok(v) => (r matches Ok(t) && v.converts_to(t@)),
                                Err(e) => r == Err::<ToolResult, McpError>(e),
                            }
                        }
                },
            },
    {
        match parsed {
            Err(m) => Err(McpError::InvalidArguments(m)),
            Ok(args) => {
                let ghost a = args;
                match self.gather_states(wanted) {
                    Err(e) => Err(e),
                    Ok(states) => {
                        let ghost gathered = states;
                        let out = run(args, states);
                        let ghost out_ghost = out;
                        let r = match out {
                            Ok(v) => Ok(v.into_tool_result()),
                            Err(e) => Err(e),
                        };
                        assert(call_ensures(run, (a, gathered), out_ghost));
                        r
                    },
                }
            },
        }
    }

    /// The state of each type in `wanted`, in order, or the "not registered"
    /// error of the first type that has none.
    fn gather_states(&self, wanted: &Vec<(TypeId, String)>) -> (r: Result<Vec<&S>, McpError>)
        ensures
            match r {
                Ok(states) => {
                    &&& states@.len() == wanted@.len()
                    &&& forall|i: int|
                        0 <= i < wanted@.len() ==> state_spec(self@, #[trigger] wanted@[i].0)
                            == Some(*states@[i])
                },
                Err(e) => exists|i: int|
                    0 <= i < wanted@.len() && state_spec(self@, #[trigger] wanted@[i].0) is None
                        && (forall|j: int|
                        0 <= j < i ==> state_spec(self@, #[trigger] wanted@[j].0) is Some)
                        && e is InternalError && e.message_spec()
                        == crate::error::state_not_registered_message(wanted@[i].1@),
            },
    {
        let mut states: Vec<&S> = Vec::new();
        let mut i: usize = 0;
        while i < wanted.len()
            invariant
                i <= wanted@.len(),
                states@.len() == i,
                forall|j: int|
                    0 <= j < i ==> state_spec(self@, #[trigger] wanted@[j].0) == Some(*states@[j]),
            decreases wanted.len() - i,
        {
            match self.get_state(&wanted[i].0) {
                Some(v) => {
                    states.push(v);
                },
                None => {
                    let e = McpError::state_not_registered(wanted[i].1.as_str());
                    assert(state_spec(self@, wanted@[i as int].0) is None);
                    assert(forall|j: int|
                        0 <= j < i ==> state_spec(self@, #[trigger] wanted@[j].0) is Some);
                    return Err(e);
                },
            }
            i = i + 1;
        }
        Ok(states)
    }

    /// Sets the instructions that the server gives its clients.
    pub fn with_instructions(self, instructions: &str) -> (s: Self)
        ensures
            s@ == with_instructions_spec(self@, instructions@),
    {
        proof {
            use_type_invariant(&self);
        }
        let LazyMcp { name, version, tools, states, instructions: _, capabilities } = self;
        LazyMcp {
            name,
            version,
            tools,
            states,
            instructions: Some(String::from_str(instructions)),
            capabilities,
        }
    }

    /// Replaces the server's capabilities.
    pub fn with_capabilities(self, capabilities: ServerCapabilities) -> (s: Self)
        ensures
            s@ == with_capabilities_spec(self@, capabilities),
    {
        proof {
            use_type_invariant(&self);
        }
        let LazyMcp { name, version, tools, states, instructions, capabilities: _ } = self;
        LazyMcp { name, version, tools, states, instructions, capabilities }
    }

    /// Resolves a call of the tool `name`: the tool registered under that
    /// name, or `MethodNotFound("Tool '<name>' not found")`.
    pub fn call_tool(&self, name: &str) -> (r: Result<&T, McpError>)
        ensures
            match r {
                Ok(t) => self@.tools.contains_key(name@) && *t == self@.tools[name@],
                Err(e) => !self@.tools.contains_key(name@) && e is MethodNotFound && e.message_spec()
                    == crate::error::tool_not_found_message(name@),
            },
    {
        proof {
            use_type_invariant(self);
        }
        let key = String::from_str(name);
        match find_tool(&self.tools, &key) {
            Some(i) => {
                proof {
                    lemma_map_of_at(tool_entries(self.tools@), i as int);
                }
                Ok(&self.tools[i].1)
            },
            None => {
                proof {
                    let entries = tool_entries(self.tools@);
                    if map_of(entries).contains_key(name@) {
                        let j = choose|j: int| 0 <= j < entries.len() && #[trigger] entries[j].0 == name@;
                        assert(self.tools@[j].0@ != name@);
                    }
                }
                Err(McpError::tool_not_found(name))
            },
        }
    }

    /// The registered tools with their names, in the order of `tool_names`.
    pub fn list_tools(&self) -> (r: Vec<(String, &T)>)
        ensures
            listing_consistent(self@),
            r@.len() == self@.tool_names.len(),
            forall|i: int|
                0 <= i < r@.len() ==> (#[trigger] r@[i]).0@ == self@.tool_names[i]
                    && self@.tools.contains_key(r@[i].0@) && *r@[i].1 == self@.tools[r@[i].0@],
    {
        proof {
            use_type_invariant(self);
        }
        let mut r: Vec<(String, &T)> = Vec::new();
        let mut i: usize = 0;
        while i < self.tools.len()
            invariant
                i <= self.tools@.len(),
                keys_unique(tool_entries(self.tools@)),
                r@.len() == i,
                forall|j: int|
                    0 <= j < i ==> (#[trigger] r@[j]).0@ == self.tools@[j].0@ && *r@[j].1
                        == self.tools@[j].1,
            decreases self.tools.len() - i,
        {
            let entry = &self.tools[i];
            r.push((entry.0.clone(), &entry.1));
            i = i + 1;
        }
        proof {
            assert forall|j: int| 0 <= j < r@.len() implies (#[trigger] r@[j]).0@ == self@.tool_names[j]
                && self@.tools.contains_key(r@[j].0@) && *r@[j].1 == self@.tools[r@[j].0@] by {
                lemma_map_of_at(tool_entries(self.tools@), j);
            }
            let entries = tool_entries(self.tools@);
            let names = self@.tool_names;
            assert(names.no_duplicates()) by {
                assert forall|i: int, j: int| 0 <= i < names.len() && 0 <= j < names.len() && i != j
                    implies names[i] != names[j] by {
                    assert(names[i] == entries[i].0);
                    assert(names[j] == entries[j].0);
                }
            }
            assert forall|k: Seq<char>| #[trigger] names.to_set().contains(k) <==> self@.tools.dom().contains(k) by {
                if names.contains(k) {
                    let i = choose|i: int| 0 <= i < names.len() && names[i] == k;
                    assert(entries[i].0 == k);
                }
                if self@.tools.dom().contains(k) {
                    let i = choose|i: int| 0 <= i < entries.len() && #[trigger] entries[i].0 == k;
                    assert(names[i] == k);
                }
            }
            assert(names.to_set() =~= self@.tools.dom());
        }
        r
    }

    /// The server's name.
    pub fn name(&self) -> (r: &String)
        ensures
            r@ == self@.name,
    {
        &self.name
    }

    /// The server's version.
    pub fn version(&self) -> (r: &String)
        ensures
            r@ == self@.version,
    {
        &self.version
    }

    /// The instructions for clients, if any were set.
    pub fn instructions(&self) -> (r: Option<&String>)
        ensures
            match r {
                Some(t) => self@.instructions == Some(t@),
                None => self@.instructions is None,
            },
    {
        match &self.instructions {
            Some(t) => Some(t),
            None => None,
        }
    }

    /// The server's capabilities.
    pub fn capabilities(&self) -> (r: &ServerCapabilities)
        ensures
            *r == self@.capabilities,
    {
        &self.capabilities
    }
}

} // verus!
