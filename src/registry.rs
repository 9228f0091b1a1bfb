//! The registry of plugins, events and endpoints, and the rules that decide
//! every registration, trigger and request.
//!
//! A registry value is one snapshot: the host keeps the current one behind
//! an atomic pointer, and a writer changes a copy and swaps it in, so a
//! reader always sees a whole registry. The handler function pointers are
//! the type parameters `F` (event handlers) and `R` (request handlers).
use vstd::prelude::*;
use crate::error::ServiceError;
use crate::ident::CUuid;
use crate::init_order::{acyclic, deps_in_range, graph_of, init_order, is_topological, lemma_init_order, mount_order};
use crate::json::{is_json, is_schema, json_valid, schema_accepts, schema_admits, schema_valid};
use crate::names::{
    core_name, full_name, full_name_of, is_full_name, is_valid_local_name, is_valid_plugin_name,
    lemma_full_name_parts, valid_local_name, valid_plugin_name,
};
use crate::power::{is_stopping, PowerState};
use crate::version::{compatible, CApiVersion};

verus! {

/// Name of the event fired once after all plugins are mounted.
pub const CORE_INIT: &'static str = "core:init";

/// Name of the event fired after each event registration.
pub const CORE_EVENT: &'static str = "core:event";

/// Name of the event fired after each endpoint registration.
pub const CORE_ENDPOINT: &'static str = "core:endpoint";

/// Name of the event fired when a power command is issued, and of the
/// endpoint that issues it.
pub const CORE_POWER: &'static str = "core:power";

/// Name of the endpoint that serves plugin configuration.
pub const CORE_CONFIG: &'static str = "core:config";

/// Argument schema of `core:init`.
pub const INIT_SCHEMA: &'static str = "{\"type\":\"object\",\"required\":[\"core_version\",\"plugins\"],\"properties\":{\"core_version\":{\"type\":\"string\"},\"plugins\":{\"type\":\"array\",\"items\":{\"type\":\"object\",\"required\":[\"name\",\"version\"],\"properties\":{\"name\":{\"type\":\"string\"},\"version\":{\"type\":\"string\"}}}}}}";

/// Argument schema of `core:event`.
pub const EVENT_SCHEMA: &'static str = "{\"type\":\"object\",\"required\":[\"event_name\",\"argument_schema\"],\"properties\":{\"event_name\":{\"type\":\"string\"},\"argument_schema\":{\"type\":\"object\"}}}";

/// Argument schema of `core:endpoint`.
pub const ENDPOINT_SCHEMA: &'static str = "{\"type\":\"object\",\"required\":[\"endpoint_name\",\"argument_schema\",\"response_schema\"],\"properties\":{\"endpoint_name\":{\"type\":\"string\"},\"argument_schema\":{\"type\":\"object\"},\"response_schema\":{\"type\":\"object\"}}}";

/// Argument schema of the `core:power` event.
pub const POWER_EVENT_SCHEMA: &'static str = "{\"type\":\"object\",\"required\":[\"command\",\"timestamp\"],\"properties\":{\"command\":{\"enum\":[\"shutdown\",\"restart\",\"cancel\"]},\"timestamp\":{\"type\":\"string\"},\"delay\":{\"type\":\"integer\",\"minimum\":0,\"maximum\":4294967295}}}";

/// Argument schema of the `core:power` endpoint.
pub const POWER_ARGS_SCHEMA: &'static str = "{\"type\":\"object\",\"required\":[\"command\"],\"properties\":{\"command\":{\"enum\":[\"shutdown\",\"restart\",\"cancel\"]},\"delay\":{\"type\":\"integer\",\"minimum\":0,\"maximum\":4294967295}}}";

/// Response schema of the `core:power` endpoint.
pub const POWER_RESPONSE_SCHEMA: &'static str = "{\"type\":\"object\",\"properties\":{\"canceled\":{\"type\":\"boolean\"}}}";

/// Argument schema of the `core:config` endpoint.
pub const CONFIG_ARGS_SCHEMA: &'static str = "{\"type\":\"object\",\"required\":[\"action\"],\"properties\":{\"action\":{\"enum\":[\"load\",\"save\",\"reload\"]},\"key\":{\"type\":\"string\"}}}";

/// Response schema of the `core:config` endpoint: any JSON value.
pub const CONFIG_RESPONSE_SCHEMA: &'static str = "{}";

/// A mounted plugin.
#[derive(Clone)]
pub struct Plugin {
    pub id: CUuid,
    pub name: String,
    pub version: String,
    pub dependencies: Vec<String>,
    pub api_version: CApiVersion,
}

/// What a mounted plugin holds, for contracts.
pub struct PluginView {
    pub id: CUuid,
    pub name: Seq<char>,
    pub version: Seq<char>,
    pub dependencies: Seq<Seq<char>>,
    pub api_version: CApiVersion,
}

impl View for Plugin {
    type V = PluginView;

    open spec fn view(&self) -> PluginView {
        PluginView {
            id: self.id,
            name: self.name@,
            version: self.version@,
            dependencies: self.dependencies@.map_values(|d: String| d@),
            api_version: self.api_version,
        }
    }
}

/// An event handler as registered: its id, the plugin that registered it
/// and the function to call. Identity is the pair (plugin, handler id).
#[derive(Debug, Clone, Copy)]
pub struct HandlerRef<F> {
    pub handler_id: CUuid,
    pub plugin_id: CUuid,
    pub handler: F,
}

/// A registered event.
#[derive(Clone)]
pub struct Event<F> {
    pub name: String,
    pub argument_schema: String,
    pub owner: CUuid,
    pub handlers: Vec<HandlerRef<F>>,
}

/// What a registered event holds, for contracts.
pub struct EventView<F> {
    pub name: Seq<char>,
    pub argument_schema: Seq<char>,
    pub owner: CUuid,
    pub handlers: Seq<HandlerRef<F>>,
}

impl<F> View for Event<F> {
    type V = EventView<F>;

    open spec fn view(&self) -> EventView<F> {
        EventView {
            name: self.name@,
            argument_schema: self.argument_schema@,
            owner: self.owner,
            handlers: self.handlers@,
        }
    }
}

/// A registered endpoint.
#[derive(Clone)]
pub struct Endpoint<R> {
    pub name: String,
    pub argument_schema: String,
    pub response_schema: String,
    pub owner: CUuid,
    pub handler: R,
}

/// What a registered endpoint holds, for contracts.
pub struct EndpointView<R> {
    pub name: Seq<char>,
    pub argument_schema: Seq<char>,
    pub response_schema: Seq<char>,
    pub owner: CUuid,
    pub handler: R,
}

impl<R> View for Endpoint<R> {
    type V = EndpointView<R>;

    open spec fn view(&self) -> EndpointView<R> {
        EndpointView {
            name: self.name@,
            argument_schema: self.argument_schema@,
            response_schema: self.response_schema@,
            owner: self.owner,
            handler: self.handler,
        }
    }
}

/// Why a plugin could not be mounted.
#[derive(Debug, Clone, Copy, PartialEq, Eq, Structural)]
pub enum MountError {
    /// The plugin was built against an incompatible API version.
    ApiVersion,
    /// The plugin's name holds `:`, is empty or is `core`.
    InvalidName,
    /// A mounted plugin has the same name.
    DuplicateName,
    /// The registry has no `core:init` event to queue the init handler on.
    CoreEventsMissing,
    /// A service error: a null init handler, or an identifier in use.
    Service(ServiceError),
}

/// The registry: plugins in mount order, events and endpoints in
/// registration order.
#[derive(Clone)]
pub struct Registry<F, R> {
    core_id: CUuid,
    plugins: Vec<Plugin>,
    events: Vec<Event<F>>,
    endpoints: Vec<Endpoint<R>>,
}

/// What a registry holds, for contracts.
pub struct RegistryView<F, R> {
    pub core_id: CUuid,
    pub plugins: Seq<PluginView>,
    pub events: Seq<EventView<F>>,
    pub endpoints: Seq<EndpointView<R>>,
}

impl<F, R> View for Registry<F, R> {
    type V = RegistryView<F, R>;

    closed spec fn view(&self) -> RegistryView<F, R> {
        RegistryView {
            core_id: self.core_id,
            plugins: self.plugins@.map_values(|p: Plugin| p@),
            events: self.events@.map_values(|e: Event<F>| e@),
            endpoints: self.endpoints@.map_values(|e: Endpoint<R>| e@),
        }
    }
}

/// The handlers of `hs` that plugin `id` registered, in order.
pub open spec fn handlers_of<F>(hs: Seq<HandlerRef<F>>, id: CUuid) -> Seq<HandlerRef<F>>
    decreases hs.len(),
{
    if hs.len() == 0 {
        Seq::empty()
    } else {
        let rest = handlers_of(hs.drop_last(), id);
        if hs.last().plugin_id == id {
            rest.push(hs.last())
        } else {
            rest
        }
    }
}

/// The handlers of each plugin of `ids` in turn, in registration order
/// within a plugin.
pub open spec fn gather<F>(hs: Seq<HandlerRef<F>>, ids: Seq<CUuid>) -> Seq<HandlerRef<F>>
    decreases ids.len(),
{
    if ids.len() == 0 {
        Seq::empty()
    } else {
        gather(hs, ids.drop_last()) + handlers_of(hs, ids.last())
    }
}


impl<F, R> RegistryView<F, R> {
    pub open spec fn has_plugin(self, id: CUuid) -> bool {
        exists|i: int| 0 <= i < self.plugins.len() && #[trigger] self.plugins[i].id == id
    }

    pub open spec fn plugin_of(self, id: CUuid) -> PluginView {
        self.plugins[choose|i: int| 0 <= i < self.plugins.len() && #[trigger] self.plugins[i].id == id]
    }

    pub open spec fn has_plugin_named(self, name: Seq<char>) -> bool {
        exists|i: int| 0 <= i < self.plugins.len() && #[trigger] self.plugins[i].name == name
    }

    /// The position of the plugin named `name`.
    pub open spec fn plugin_index_named(self, name: Seq<char>) -> int {
        choose|i: int| 0 <= i < self.plugins.len() && #[trigger] self.plugins[i].name == name
    }

    pub open spec fn event_index(self, name: Seq<char>) -> int {
        choose|i: int| 0 <= i < self.events.len() && #[trigger] self.events[i].name == name
    }

    pub open spec fn has_event(self, name: Seq<char>) -> bool {
        exists|i: int| 0 <= i < self.events.len() && #[trigger] self.events[i].name == name
    }

    pub open spec fn event_of(self, name: Seq<char>) -> EventView<F> {
        self.events[self.event_index(name)]
    }

    pub open spec fn endpoint_index(self, name: Seq<char>) -> int {
        choose|i: int| 0 <= i < self.endpoints.len() && #[trigger] self.endpoints[i].name == name
    }

    pub open spec fn has_endpoint(self, name: Seq<char>) -> bool {
        exists|i: int| 0 <= i < self.endpoints.len() && #[trigger] self.endpoints[i].name == name
    }

    pub open spec fn endpoint_of(self, name: Seq<char>) -> EndpointView<R> {
        self.endpoints[self.endpoint_index(name)]
    }

    /// Some event holds a handler registered by `plugin_id` under
    /// `handler_id`.
    pub open spec fn handler_taken(self, plugin_id: CUuid, handler_id: CUuid) -> bool {
        exists|i: int, k: int|
            0 <= i < self.events.len() && 0 <= k < self.events[i].handlers.len()
                && #[trigger] self.events[i].handlers[k].plugin_id == plugin_id
                && self.events[i].handlers[k].handler_id == handler_id
    }

    /// The owner is the host or a mounted plugin.
    pub open spec fn known_owner(self, id: CUuid) -> bool {
        id == self.core_id || self.has_plugin(id)
    }

    /// The registry's invariant.
    pub open spec fn wf(self) -> bool {
        &&& forall|i: int, j: int|
            0 <= i < j < self.plugins.len() ==> #[trigger] self.plugins[i].id != #[trigger] self.plugins[j].id
                && self.plugins[i].name != self.plugins[j].name
        &&& forall|i: int|
            0 <= i < self.plugins.len() ==> valid_plugin_name(#[trigger] self.plugins[i].name)
                && self.plugins[i].id != self.core_id
        &&& forall|i: int, j: int|
            0 <= i < j < self.events.len() ==> #[trigger] self.events[i].name != #[trigger] self.events[j].name
        &&& forall|i: int|
            0 <= i < self.events.len() ==> is_full_name((#[trigger] self.events[i]).name)
                && self.known_owner(self.events[i].owner)
        &&& forall|i: int, j: int|
            0 <= i < j < self.endpoints.len() ==> #[trigger] self.endpoints[i].name
                != #[trigger] self.endpoints[j].name
        &&& forall|i: int|
            0 <= i < self.endpoints.len() ==> is_full_name((#[trigger] self.endpoints[i]).name)
                && self.known_owner(self.endpoints[i].owner)
        &&& forall|i1: int, k1: int, i2: int, k2: int|
            0 <= i1 < self.events.len() && 0 <= k1 < self.events[i1].handlers.len() && 0 <= i2
                < self.events.len() && 0 <= k2 < self.events[i2].handlers.len() && (i1 != i2 || k1
                != k2) ==> (#[trigger] self.events[i1].handlers[k1]).plugin_id != (
            #[trigger] self.events[i2].handlers[k2]).plugin_id || self.events[i1].handlers[k1].handler_id
                != self.events[i2].handlers[k2].handler_id
    }
}

impl<F, R> RegistryView<F, R> {
    /// The registry with `e` added as its last event.
    pub open spec fn with_event(self, e: EventView<F>) -> RegistryView<F, R> {
        RegistryView { core_id: self.core_id, plugins: self.plugins, events: self.events.push(e), endpoints: self.endpoints }
    }

    /// The registry with its events replaced.
    pub open spec fn with_events(self, events: Seq<EventView<F>>) -> RegistryView<F, R> {
        RegistryView { core_id: self.core_id, plugins: self.plugins, events, endpoints: self.endpoints }
    }

    /// The registry with its endpoints replaced.
    pub open spec fn with_endpoints(self, endpoints: Seq<EndpointView<R>>) -> RegistryView<F, R> {
        RegistryView { core_id: self.core_id, plugins: self.plugins, events: self.events, endpoints }
    }

    /// What registering an event named `local` with `schema` for
    /// `plugin_id` answers: its full name, or the first check that fails.
    pub open spec fn register_event_outcome(self, schema: Seq<char>, plugin_id: CUuid, local: Seq<char>) -> Result<Seq<char>, ServiceError> {
        if !valid_local_name(local) {
            Err(ServiceError::InvalidString)
        } else if !json_valid(schema) {
            Err(ServiceError::InvalidJson)
        } else if !schema_valid(schema) {
            Err(ServiceError::InvalidSchema)
        } else if !self.has_plugin(plugin_id) {
            Err(ServiceError::NotFound)
        } else if self.has_event(full_name_of(self.plugin_of(plugin_id).name, local)) {
            Err(ServiceError::Duplicate)
        } else {
            Ok(full_name_of(self.plugin_of(plugin_id).name, local))
        }
    }

    /// What unregistering the event `name` for `plugin_id` answers.
    pub open spec fn unregister_event_outcome(self, plugin_id: CUuid, name: Seq<char>) -> Result<(), ServiceError> {
        if !self.has_event(name) {
            Err(ServiceError::NotFound)
        } else if self.event_of(name).owner != plugin_id {
            Err(ServiceError::Unauthorized)
        } else {
            Ok(())
        }
    }

    /// What registering a handler under `handler_id` for `plugin_id` on
    /// the event `name` answers.
    pub open spec fn register_handler_outcome(self, handler_id: CUuid, plugin_id: CUuid, name: Seq<char>) -> Result<(), ServiceError> {
        if !self.has_event(name) {
            Err(ServiceError::NotFound)
        } else if self.handler_taken(plugin_id, handler_id) {
            Err(ServiceError::Duplicate)
        } else {
            Ok(())
        }
    }

    /// The event `name` holds a handler registered by `plugin_id` under
    /// `handler_id`.
    pub open spec fn event_has_handler(self, name: Seq<char>, plugin_id: CUuid, handler_id: CUuid) -> bool {
        exists|k: int| 0 <= k < self.event_of(name).handlers.len()
            && #[trigger] self.event_of(name).handlers[k].plugin_id == plugin_id
            && self.event_of(name).handlers[k].handler_id == handler_id
    }

    /// The event `name` holds a handler with id `handler_id`, of any plugin.
    pub open spec fn event_has_handler_id(self, name: Seq<char>, handler_id: CUuid) -> bool {
        exists|k: int| 0 <= k < self.event_of(name).handlers.len()
            && #[trigger] self.event_of(name).handlers[k].handler_id == handler_id
    }

    /// The position of that handler within the event.
    pub open spec fn handler_index(self, name: Seq<char>, plugin_id: CUuid, handler_id: CUuid) -> int {
        choose|k: int| 0 <= k < self.event_of(name).handlers.len()
            && #[trigger] self.event_of(name).handlers[k].plugin_id == plugin_id
            && self.event_of(name).handlers[k].handler_id == handler_id
    }

    /// What unregistering the handler `handler_id` of `plugin_id` from the
    /// event `name` answers.
    pub open spec fn unregister_handler_outcome(self, handler_id: CUuid, plugin_id: CUuid, name: Seq<char>) -> Result<(), ServiceError> {
        if !self.has_event(name) {
            Err(ServiceError::NotFound)
        } else if self.event_has_handler(name, plugin_id, handler_id) {
            Ok(())
        } else if self.event_has_handler_id(name, handler_id) {
            Err(ServiceError::Unauthorized)
        } else {
            Err(ServiceError::NotFound)
        }
    }
}

impl<F: Copy, R: Copy> Registry<F, R> {
    proof fn lemma_event_index(&self, i: int)
        requires
            self@.wf(),
            0 <= i < self@.events.len(),
        ensures
            self@.has_event(self@.events[i].name),
            self@.event_index(self@.events[i].name) == i,
    {
        let n = self@.events[i].name;
        assert(self@.has_event(n));
        let j = self@.event_index(n);
        if j != i {
            if j < i {
                assert(self@.events[j].name != self@.events[i].name);
            } else {
                assert(self@.events[i].name != self@.events[j].name);
            }
        }
    }

    proof fn lemma_endpoint_index(&self, i: int)
        requires
            self@.wf(),
            0 <= i < self@.endpoints.len(),
        ensures
            self@.has_endpoint(self@.endpoints[i].name),
            self@.endpoint_index(self@.endpoints[i].name) == i,
    {
        let n = self@.endpoints[i].name;
        assert(self@.has_endpoint(n));
        let j = self@.endpoint_index(n);
        if j != i {
            if j < i {
                assert(self@.endpoints[j].name != self@.endpoints[i].name);
            } else {
                assert(self@.endpoints[i].name != self@.endpoints[j].name);
            }
        }
    }

    proof fn lemma_plugin_of(&self, i: int)
        requires
            self@.wf(),
            0 <= i < self@.plugins.len(),
        ensures
            self@.has_plugin(self@.plugins[i].id),
            self@.plugin_of(self@.plugins[i].id) == self@.plugins[i],
    {
        let id = self@.plugins[i].id;
        assert(self@.has_plugin(id));
        let j = choose|j: int| 0 <= j < self@.plugins.len() && #[trigger] self@.plugins[j].id == id;
        if j != i {
            if j < i {
                assert(self@.plugins[j].id != self@.plugins[i].id);
            } else {
                assert(self@.plugins[i].id != self@.plugins[j].id);
            }
        }
    }

    /// The id under which the host owns the core events and endpoints.
    pub fn core_id(&self) -> (r: CUuid)
        ensures
            r == self@.core_id,
    {
        self.core_id
    }

    /// The number of mounted plugins.
    pub fn plugin_count(&self) -> (r: usize)
        ensures
            r == self@.plugins.len(),
    {
        self.plugins.len()
    }

    /// The mounted plugin at position `i` in mount order.
    pub fn plugin_at(&self, i: usize) -> (r: &Plugin)
        requires
            i < self@.plugins.len(),
        ensures
            r@ == self@.plugins[i as int],
    {
        &self.plugins[i]
    }

    fn find_plugin(&self, id: CUuid) -> (r: Option<usize>)
        ensures
            r is None <==> !self@.has_plugin(id),
            r matches Some(i) ==> i < self@.plugins.len() && self@.plugins[i as int].id == id,
    {
        let mut i: usize = 0;
        while i < self.plugins.len()
            invariant
                i <= self.plugins@.len(),
                forall|j: int| 0 <= j < i ==> self@.plugins[j].id != id,
            decreases self.plugins@.len() - i,
        {
            if self.plugins[i].id == id {
                assert(self@.plugins[i as int] == self.plugins@[i as int]@);
                assert(self@.plugins[i as int].id == id);
                return Some(i);
            }
            i = i + 1;
        }
        None
    }

    fn find_plugin_named(&self, name: &String) -> (r: Option<usize>)
        ensures
            r is None <==> !self@.has_plugin_named(name@),
            r matches Some(i) ==> i < self@.plugins.len() && self@.plugins[i as int].name == name@,
    {
        let mut i: usize = 0;
        while i < self.plugins.len()
            invariant
                i <= self.plugins@.len(),
                forall|j: int| 0 <= j < i ==> self@.plugins[j].name != name@,
            decreases self.plugins@.len() - i,
        {
            if self.plugins[i].name == *name {
                assert(self@.plugins[i as int] == self.plugins@[i as int]@);
                assert(self@.plugins[i as int].name == name@);
                return Some(i);
            }
            i = i + 1;
        }
        None
    }

    fn find_event(&self, name: &String) -> (r: Option<usize>)
        ensures
            r is None <==> !self@.has_event(name@),
            r matches Some(i) ==> i < self@.events.len() && self@.events[i as int].name == name@,
    {
        let mut i: usize = 0;
        while i < self.events.len()
            invariant
                i <= self.events@.len(),
                forall|j: int| 0 <= j < i ==> self@.events[j].name != name@,
            decreases self.events@.len() - i,
        {
            if self.events[i].name == *name {
                assert(self@.events[i as int] == self.events@[i as int]@);
                assert(self@.events[i as int].name == name@);
                return Some(i);
            }
            i = i + 1;
        }
        None
    }

    fn find_endpoint(&self, name: &String) -> (r: Option<usize>)
        ensures
            r is None <==> !self@.has_endpoint(name@),
            r matches Some(i) ==> i < self@.endpoints.len() && self@.endpoints[i as int].name == name@,
    {
        let mut i: usize = 0;
        while i < self.endpoints.len()
            invariant
                i <= self.endpoints@.len(),
                forall|j: int| 0 <= j < i ==> self@.endpoints[j].name != name@,
            decreases self.endpoints@.len() - i,
        {
            if self.endpoints[i].name == *name {
                assert(self@.endpoints[i as int] == self.endpoints@[i as int]@);
                assert(self@.endpoints[i as int].name == name@);
                return Some(i);
            }
            i = i + 1;
        }
        None
    }

    /// Registers the event `event_name` of `plugin_id` with the argument
    /// schema `schema`. On success the registry holds one more event, named
    /// `"<plugin>:<event_name>"`, with no handlers, and that name is
    /// returned; on failure nothing changes.
    pub fn register_event(&mut self, schema: &str, plugin_id: CUuid, event_name: &str) -> (r: Result<String, ServiceError>)
        requires
            old(self)@.wf(),
        ensures
            final(self)@.wf(),
            match r {
                Ok(full) => old(self)@.register_event_outcome(schema@, plugin_id, event_name@) == Ok::<Seq<char>, ServiceError>(full@)
                    && final(self)@ == old(self)@.with_event(EventView { name: full@, argument_schema: schema@, owner: plugin_id, handlers: Seq::empty() }),
                Err(e) => old(self)@.register_event_outcome(schema@, plugin_id, event_name@) == Err::<Seq<char>, ServiceError>(e)
                    && final(self)@ == old(self)@,
            },
    {
        if !is_valid_local_name(event_name) {
            return Err(ServiceError::InvalidString);
        }
        if !is_json(schema) {
            return Err(ServiceError::InvalidJson);
        }
        if !is_schema(schema) {
            return Err(ServiceError::InvalidSchema);
        }
        let p = match self.find_plugin(plugin_id) {
            None => return Err(ServiceError::NotFound),
            Some(p) => p,
        };
        proof {
            self.lemma_plugin_of(p as int);
            lemma_full_name_parts(self@.plugins[p as int].name, event_name@);
        }
        let full = full_name(self.plugins[p].name.as_str(), event_name);
        if self.find_event(&full).is_some() {
            return Err(ServiceError::Duplicate);
        }
        let ghost prev = self@;
        let event = Event { name: full.clone(), argument_schema: String::from_str(schema), owner: plugin_id, handlers: Vec::new() };
        self.events.push(event);
        proof {
            assert(self@.events =~= prev.events.push(event@));
            assert(self@ == prev.with_event(event@));
            assert(prev.has_plugin(plugin_id));
            assert(forall|i: int| 0 <= i < prev.events.len() ==> #[trigger] prev.events[i].name != full@);
            lemma_add_event_keeps_wf(prev, event@);
        }
        Ok(full)
    }

    /// Removes the event `event_name`, which only its owner may do.
    pub fn unregister_event(&mut self, plugin_id: CUuid, event_name: &str) -> (r: Result<(), ServiceError>)
        requires
            old(self)@.wf(),
        ensures
            final(self)@.wf(),
            r == old(self)@.unregister_event_outcome(plugin_id, event_name@),
            r is Ok ==> final(self)@ == old(self)@.with_events(old(self)@.events.remove(old(self)@.event_index(event_name@))),
            r is Err ==> final(self)@ == old(self)@,
    {
        let key = String::from_str(event_name);
        let i = match self.find_event(&key) {
            None => return Err(ServiceError::NotFound),
            Some(i) => i,
        };
        proof {
            self.lemma_event_index(i as int);
        }
        if self.events[i].owner != plugin_id {
            return Err(ServiceError::Unauthorized);
        }
        let ghost prev = self@;
        let _removed = self.events.remove(i);
        proof {
            assert(self@.events =~= prev.events.remove(i as int));
            assert(self@ == prev.with_events(prev.events.remove(i as int)));
            lemma_remove_keeps_wf(prev, i as int);
        }
        Ok(())
    }

    /// Adds the handler `handler`, registered by `plugin_id` under
    /// `handler_id`, to the event `event_name`.
    pub fn register_handler(&mut self, handler: F, handler_id: CUuid, plugin_id: CUuid, event_name: &str) -> (r: Result<(), ServiceError>)
        requires
            old(self)@.wf(),
        ensures
            final(self)@.wf(),
            r == old(self)@.register_handler_outcome(handler_id, plugin_id, event_name@),
            r is Ok ==> final(self)@ == old(self)@.with_events(old(self)@.events.update(
                old(self)@.event_index(event_name@),
                EventView {
                    handlers: old(self)@.event_of(event_name@).handlers.push(HandlerRef { handler_id, plugin_id, handler }),
                    ..old(self)@.event_of(event_name@)
                },
            )),
            r is Err ==> final(self)@ == old(self)@,
    {
        let key = String::from_str(event_name);
        let i = match self.find_event(&key) {
            None => return Err(ServiceError::NotFound),
            Some(i) => i,
        };
        proof {
            self.lemma_event_index(i as int);
        }
        if self.is_handler_taken(plugin_id, handler_id) {
            return Err(ServiceError::Duplicate);
        }
        let ghost prev = self@;
        let mut event = self.events.remove(i);
        let h = HandlerRef { handler_id, plugin_id, handler };
        event.handlers.push(h);
        self.events.insert(i, event);
        proof {
            let ne = EventView { handlers: prev.events[i as int].handlers.push(h), ..prev.events[i as int] };
            assert(event@ == ne);
            assert(self@.events =~= prev.events.update(i as int, ne));
            assert(self@ == prev.with_events(prev.events.update(i as int, ne)));
            lemma_add_handler_keeps_wf(prev, i as int, h);
        }
        Ok(())
    }

    fn is_handler_taken(&self, plugin_id: CUuid, handler_id: CUuid) -> (r: bool)
        ensures
            r == self@.handler_taken(plugin_id, handler_id),
    {
        let mut i: usize = 0;
        while i < self.events.len()
            invariant
                i <= self.events@.len(),
                forall|a: int, k: int| 0 <= a < i && 0 <= k < self@.events[a].handlers.len()
                    ==> !(#[trigger] self@.events[a].handlers[k].plugin_id == plugin_id
                    && self@.events[a].handlers[k].handler_id == handler_id),
            decreases self.events@.len() - i,
        {
            let hs = &self.events[i].handlers;
            let mut k: usize = 0;
            while k < hs.len()
                invariant
                    i < self.events@.len(),
                    hs@ == self@.events[i as int].handlers,
                    k <= hs@.len(),
                    forall|a: int, m: int| 0 <= a < i && 0 <= m < self@.events[a].handlers.len()
                        ==> !(#[trigger] self@.events[a].handlers[m].plugin_id == plugin_id
                        && self@.events[a].handlers[m].handler_id == handler_id),
                    forall|m: int| 0 <= m < k ==> !(#[trigger] hs@[m].plugin_id == plugin_id && hs@[m].handler_id == handler_id),
                decreases hs@.len() - k,
            {
                if hs[k].plugin_id == plugin_id && hs[k].handler_id == handler_id {
                    assert(self@.events[i as int].handlers[k as int] == hs@[k as int]);
                    return true;
                }
                k = k + 1;
            }
            i = i + 1;
        }
        false
    }

    /// Removes the handler that `plugin_id` registered under `handler_id`
    /// from the event `event_name`. A handler with that id registered by
    /// another plugin is not removed: the answer is Unauthorized.
    pub fn unregister_handler(&mut self, handler_id: CUuid, plugin_id: CUuid, event_name: &str) -> (r: Result<(), ServiceError>)
        requires
            old(self)@.wf(),
        ensures
            final(self)@.wf(),
            r == old(self)@.unregister_handler_outcome(handler_id, plugin_id, event_name@),
            r is Ok ==> final(self)@ == old(self)@.with_events(old(self)@.events.update(
                old(self)@.event_index(event_name@),
                EventView {
                    handlers: old(self)@.event_of(event_name@).handlers.remove(
                        old(self)@.handler_index(event_name@, plugin_id, handler_id),
                    ),
                    ..old(self)@.event_of(event_name@)
                },
            )),
            r is Err ==> final(self)@ == old(self)@,
    {
        let key = String::from_str(event_name);
        let i = match self.find_event(&key) {
            None => return Err(ServiceError::NotFound),
            Some(i) => i,
        };
        proof {
            self.lemma_event_index(i as int);
        }
        let ghost hs = self@.events[i as int].handlers;
        let mut k: usize = 0;
        let mut other = false;
        let n = self.events[i].handlers.len();
        while k < n
            invariant
                i < self.events@.len(),
                hs == self@.events[i as int].handlers,
                n == hs.len(),
                k <= n,
                forall|m: int| 0 <= m < k ==> !(#[trigger] hs[m].plugin_id == plugin_id && hs[m].handler_id == handler_id),
                other <==> exists|m: int| 0 <= m < k && #[trigger] hs[m].handler_id == handler_id,
            ensures
                i < self.events@.len(),
                k <= n,
                k < n ==> hs[k as int].plugin_id == plugin_id && hs[k as int].handler_id == handler_id,
                k == n ==> forall|m: int| 0 <= m < n ==> !(#[trigger] hs[m].plugin_id == plugin_id && hs[m].handler_id == handler_id),
                k == n ==> (other <==> exists|m: int| 0 <= m < n && #[trigger] hs[m].handler_id == handler_id),
            decreases n - k,
        {
            let h = self.events[i].handlers[k];
            assert(h == hs[k as int]);
            if h.handler_id == handler_id {
                if h.plugin_id == plugin_id {
                    break;
                }
                other = true;
            }
            k = k + 1;
        }
        assert(self@.event_of(event_name@).handlers == hs);
        if k == n {
            if other {
                return Err(ServiceError::Unauthorized);
            }
            return Err(ServiceError::NotFound);
        }
        proof {
            lemma_handler_index(self@, i as int, k as int);
        }
        let ghost prev = self@;
        let mut event = self.events.remove(i);
        let _h = event.handlers.remove(k);
        self.events.insert(i, event);
        proof {
            let ne = EventView { handlers: prev.events[i as int].handlers.remove(k as int), ..prev.events[i as int] };
            assert(event@ == ne);
            assert(self@.events =~= prev.events.update(i as int, ne));
            assert(self@ == prev.with_events(prev.events.update(i as int, ne)));
            lemma_remove_handler_keeps_wf(prev, i as int, k as int);
        }
        Ok(())
    }
}

/// Adding an event with a new, valid full name, a known owner and no
/// handlers keeps the invariant.
proof fn lemma_add_event_keeps_wf<F, R>(v: RegistryView<F, R>, e: EventView<F>)
    requires
        v.wf(),
        !v.has_event(e.name),
        is_full_name(e.name),
        v.known_owner(e.owner),
        e.handlers.len() == 0,
    ensures
        v.with_event(e).wf(),
{
    let w = v.with_event(e);
    assert(w.plugins == v.plugins && w.core_id == v.core_id && w.endpoints == v.endpoints);
    assert forall|a: int| 0 <= a < v.events.len() implies w.events[a] == v.events[a] by {}
    assert(w.events[v.events.len() as int] == e);
    assert forall|a: int, b: int| 0 <= a < b < w.events.len() implies #[trigger] w.events[a].name != #[trigger] w.events[b].name by {
        if b == v.events.len() {
            assert(v.events[a].name != e.name);
        }
    }
    assert forall|i1: int, k1: int, i2: int, k2: int|
        0 <= i1 < w.events.len() && 0 <= k1 < w.events[i1].handlers.len() && 0 <= i2 < w.events.len()
            && 0 <= k2 < w.events[i2].handlers.len() && (i1 != i2 || k1 != k2) implies (#[trigger] w.events[i1].handlers[k1]).plugin_id
        != (#[trigger] w.events[i2].handlers[k2]).plugin_id || w.events[i1].handlers[k1].handler_id
        != w.events[i2].handlers[k2].handler_id by {
        assert(i1 < v.events.len() && i2 < v.events.len());
        assert(w.events[i1].handlers[k1] == v.events[i1].handlers[k1]);
        assert(w.events[i2].handlers[k2] == v.events[i2].handlers[k2]);
    }
}

/// Removing an event keeps the invariant.
proof fn lemma_remove_keeps_wf<F, R>(v: RegistryView<F, R>, i: int)
    requires
        v.wf(),
        0 <= i < v.events.len(),
    ensures
        v.with_events(v.events.remove(i)).wf(),
{
    let w = v.with_events(v.events.remove(i));
    assert forall|a: int| 0 <= a < w.events.len() implies w.events[a] == v.events[if a < i { a } else { a + 1 }] by {}
    assert forall|a: int| 0 <= a < w.events.len() implies w.known_owner(#[trigger] w.events[a].owner) by {
        let b = if a < i { a } else { a + 1 };
        assert(v.known_owner(v.events[b].owner));
        if v.has_plugin(v.events[b].owner) {
            let j = choose|j: int| 0 <= j < v.plugins.len() && #[trigger] v.plugins[j].id == v.events[b].owner;
            assert(w.plugins[j].id == w.events[a].owner);
        }
    }
    assert forall|a: int| 0 <= a < w.endpoints.len() implies w.known_owner(#[trigger] w.endpoints[a].owner) by {
        assert(v.known_owner(v.endpoints[a].owner));
        if v.has_plugin(v.endpoints[a].owner) {
            let j = choose|j: int| 0 <= j < v.plugins.len() && #[trigger] v.plugins[j].id == v.endpoints[a].owner;
            assert(w.plugins[j].id == w.endpoints[a].owner);
        }
    }
    assert forall|a: int, b: int| 0 <= a < b < w.events.len() implies #[trigger] w.events[a].name != #[trigger] w.events[b].name by {
        let a2 = if a < i { a } else { a + 1 };
        let b2 = if b < i { b } else { b + 1 };
        assert(v.events[a2].name != v.events[b2].name);
    }
    assert forall|i1: int, k1: int, i2: int, k2: int|
        0 <= i1 < w.events.len() && 0 <= k1 < w.events[i1].handlers.len() && 0 <= i2 < w.events.len()
            && 0 <= k2 < w.events[i2].handlers.len() && (i1 != i2 || k1 != k2) implies (#[trigger] w.events[i1].handlers[k1]).plugin_id
        != (#[trigger] w.events[i2].handlers[k2]).plugin_id || w.events[i1].handlers[k1].handler_id
        != w.events[i2].handlers[k2].handler_id by {
        let j1 = if i1 < i { i1 } else { i1 + 1 };
        let j2 = if i2 < i { i2 } else { i2 + 1 };
        assert(w.events[i1].handlers[k1] == v.events[j1].handlers[k1]);
        assert(w.events[i2].handlers[k2] == v.events[j2].handlers[k2]);
    }
}

/// Adding a handler whose (plugin, id) pair no event holds keeps the
/// invariant.
proof fn lemma_add_handler_keeps_wf<F, R>(v: RegistryView<F, R>, i: int, h: HandlerRef<F>)
    requires
        v.wf(),
        0 <= i < v.events.len(),
        !v.handler_taken(h.plugin_id, h.handler_id),
    ensures
        v.with_events(v.events.update(i, EventView { handlers: v.events[i].handlers.push(h), ..v.events[i] })).wf(),
{
    let ne = EventView { handlers: v.events[i].handlers.push(h), ..v.events[i] };
    let w = v.with_events(v.events.update(i, ne));
    assert(w.plugins == v.plugins && w.core_id == v.core_id && w.endpoints == v.endpoints);
    assert(w.events.len() == v.events.len());
    assert forall|a: int| 0 <= a < w.events.len() implies w.events[a].name == v.events[a].name && w.events[a].owner == v.events[a].owner by {}
    assert forall|a: int| 0 <= a < w.events.len() implies w.known_owner(#[trigger] w.events[a].owner) by {
        assert(v.known_owner(v.events[a].owner));
    }
    assert forall|i1: int, k1: int, i2: int, k2: int|
        0 <= i1 < w.events.len() && 0 <= k1 < w.events[i1].handlers.len() && 0 <= i2 < w.events.len()
            && 0 <= k2 < w.events[i2].handlers.len() && (i1 != i2 || k1 != k2) implies (#[trigger] w.events[i1].handlers[k1]).plugin_id
        != (#[trigger] w.events[i2].handlers[k2]).plugin_id || w.events[i1].handlers[k1].handler_id
        != w.events[i2].handlers[k2].handler_id by {
        let last = v.events[i].handlers.len() as int;
        if i1 == i && k1 == last {
            assert(w.events[i1].handlers[k1] == h);
            assert(w.events[i2].handlers[k2] == v.events[i2].handlers[k2]);
        } else if i2 == i && k2 == last {
            assert(w.events[i2].handlers[k2] == h);
            assert(w.events[i1].handlers[k1] == v.events[i1].handlers[k1]);
        } else {
            assert(w.events[i1].handlers[k1] == v.events[i1].handlers[k1]);
            assert(w.events[i2].handlers[k2] == v.events[i2].handlers[k2]);
        }
    }
}

/// The handler at position `k` of event `i` is the one `handler_index`
/// names.
proof fn lemma_handler_index<F, R>(v: RegistryView<F, R>, i: int, k: int)
    requires
        v.wf(),
        0 <= i < v.events.len(),
        0 <= k < v.events[i].handlers.len(),
        v.event_index(v.events[i].name) == i,
    ensures
        v.event_has_handler(v.events[i].name, v.events[i].handlers[k].plugin_id, v.events[i].handlers[k].handler_id),
        v.handler_index(v.events[i].name, v.events[i].handlers[k].plugin_id, v.events[i].handlers[k].handler_id) == k,
{
    let name = v.events[i].name;
    let h = v.events[i].handlers[k];
    assert(v.event_of(name) == v.events[i]);
    assert(v.event_of(name).handlers[k].plugin_id == h.plugin_id);
    let j = v.handler_index(name, h.plugin_id, h.handler_id);
    assert(0 <= j < v.events[i].handlers.len());
    if j != k {
        assert(v.events[i].handlers[j].plugin_id == h.plugin_id);
    }
}

/// Removing one handler keeps the invariant.
proof fn lemma_remove_handler_keeps_wf<F, R>(v: RegistryView<F, R>, i: int, k: int)
    requires
        v.wf(),
        0 <= i < v.events.len(),
        0 <= k < v.events[i].handlers.len(),
    ensures
        v.with_events(v.events.update(i, EventView { handlers: v.events[i].handlers.remove(k), ..v.events[i] })).wf(),
{
    let ne = EventView { handlers: v.events[i].handlers.remove(k), ..v.events[i] };
    let w = v.with_events(v.events.update(i, ne));
    assert(w.plugins == v.plugins && w.core_id == v.core_id && w.endpoints == v.endpoints);
    assert(w.events.len() == v.events.len());
    assert forall|a: int| 0 <= a < w.events.len() implies w.events[a].name == v.events[a].name && w.events[a].owner == v.events[a].owner by {}
    assert forall|a: int| 0 <= a < w.events.len() implies w.known_owner(#[trigger] w.events[a].owner) by {
        assert(v.known_owner(v.events[a].owner));
    }
    assert forall|i1: int, k1: int, i2: int, k2: int|
        0 <= i1 < w.events.len() && 0 <= k1 < w.events[i1].handlers.len() && 0 <= i2 < w.events.len()
            && 0 <= k2 < w.events[i2].handlers.len() && (i1 != i2 || k1 != k2) implies (#[trigger] w.events[i1].handlers[k1]).plugin_id
        != (#[trigger] w.events[i2].handlers[k2]).plugin_id || w.events[i1].handlers[k1].handler_id
        != w.events[i2].handlers[k2].handler_id by {
        let m1 = if i1 == i && k1 >= k { k1 + 1 } else { k1 };
        let m2 = if i2 == i && k2 >= k { k2 + 1 } else { k2 };
        assert(w.events[i1].handlers[k1] == v.events[i1].handlers[m1]);
        assert(w.events[i2].handlers[k2] == v.events[i2].handlers[m2]);
    }
}

/// The full name `core:init`.
pub open spec fn core_init_name() -> Seq<char> {
    full_name_of(core_name(), seq!['i', 'n', 'i', 't'])
}

/// What a plugin hands over when it is mounted.
pub struct PluginManifest<F> {
    pub name: String,
    pub version: String,
    pub dependencies: Vec<String>,
    pub api_version: CApiVersion,
    pub init_handler: Option<F>,
}

impl<F> PluginManifest<F> {
    /// The plugin this manifest describes, mounted under `id`.
    pub open spec fn plugin_view(&self, id: CUuid) -> PluginView {
        PluginView {
            id,
            name: self.name@,
            version: self.version@,
            dependencies: self.dependencies@.map_values(|d: String| d@),
            api_version: self.api_version,
        }
    }
}

impl<F, R> RegistryView<F, R> {
    /// The registry with `e` added as its last endpoint.
    pub open spec fn with_endpoint(self, e: EndpointView<R>) -> RegistryView<F, R> {
        self.with_endpoints(self.endpoints.push(e))
    }

    /// What registering an endpoint named `local` answers: its full name,
    /// or the first check that fails.
    pub open spec fn register_endpoint_outcome(
        self,
        args_schema: Seq<char>,
        response_schema: Seq<char>,
        plugin_id: CUuid,
        local: Seq<char>,
    ) -> Result<Seq<char>, ServiceError> {
        if !valid_local_name(local) {
            Err(ServiceError::InvalidString)
        } else if !json_valid(args_schema) {
            Err(ServiceError::InvalidJson)
        } else if !schema_valid(args_schema) {
            Err(ServiceError::InvalidSchema)
        } else if !json_valid(response_schema) {
            Err(ServiceError::InvalidJson)
        } else if !schema_valid(response_schema) {
            Err(ServiceError::InvalidSchema)
        } else if !self.has_plugin(plugin_id) {
            Err(ServiceError::NotFound)
        } else if self.has_endpoint(full_name_of(self.plugin_of(plugin_id).name, local)) {
            Err(ServiceError::Duplicate)
        } else {
            Ok(full_name_of(self.plugin_of(plugin_id).name, local))
        }
    }

    /// What unregistering the endpoint `name` for `plugin_id` answers.
    pub open spec fn unregister_endpoint_outcome(self, plugin_id: CUuid, name: Seq<char>) -> Result<(), ServiceError> {
        if !self.has_endpoint(name) {
            Err(ServiceError::NotFound)
        } else if self.endpoint_of(name).owner != plugin_id {
            Err(ServiceError::Unauthorized)
        } else {
            Ok(())
        }
    }

    /// Every dependency of every plugin names a mounted plugin.
    pub open spec fn deps_resolved(self) -> bool {
        forall|i: int, k: int|
            0 <= i < self.plugins.len() && 0 <= k < self.plugins[i].dependencies.len()
                ==> self.has_plugin_named(#[trigger] self.plugins[i].dependencies[k])
    }

    /// The dependency graph of the plugins, by position in mount order.
    pub open spec fn dep_graph(self) -> Seq<Seq<usize>> {
        Seq::new(
            self.plugins.len(),
            |i: int|
                Seq::new(
                    self.plugins[i].dependencies.len(),
                    |k: int| self.plugin_index_named(self.plugins[i].dependencies[k]) as usize,
                ),
        )
    }

    /// Every handler was registered by a mounted plugin.
    pub open spec fn handlers_known(self, hs: Seq<HandlerRef<F>>) -> bool {
        forall|k: int| 0 <= k < hs.len() ==> self.has_plugin(#[trigger] hs[k].plugin_id)
    }

    /// The ids of the plugins at the positions `o`.
    pub open spec fn ids_at(self, o: Seq<usize>) -> Seq<CUuid> {
        o.map_values(|p: usize| self.plugins[p as int].id)
    }

    /// The `core:init` batch made of the handlers `hs`: each plugin's
    /// handlers in turn, plugins in init order. `None` when a dependency
    /// is missing, a handler belongs to no mounted plugin, or the
    /// dependencies form a cycle.
    pub open spec fn init_batch(self, hs: Seq<HandlerRef<F>>) -> Option<Seq<HandlerRef<F>>> {
        if !self.deps_resolved() || !self.handlers_known(hs) {
            None
        } else {
            match init_order(self.dep_graph()) {
                None => None,
                Some(o) => Some(gather(hs, self.ids_at(o))),
            }
        }
    }

    /// What triggering the event `name` by `plugin_id` with `args` answers:
    /// the handlers to run, in order, or the first check that fails.
    pub open spec fn trigger_outcome(self, power: PowerState, plugin_id: CUuid, name: Seq<char>, args: Seq<char>) -> Result<Seq<HandlerRef<F>>, ServiceError> {
        if is_stopping(power) {
            Err(ServiceError::ShuttingDown)
        } else if !json_valid(args) {
            Err(ServiceError::InvalidJson)
        } else if !self.has_event(name) {
            Err(ServiceError::NotFound)
        } else if self.event_of(name).owner != plugin_id {
            Err(ServiceError::Unauthorized)
        } else if !schema_accepts(self.event_of(name).argument_schema, args) {
            Err(ServiceError::InvalidApi)
        } else if name == core_init_name() {
            match self.init_batch(self.event_of(name).handlers) {
                Some(b) => Ok(b),
                None => Err(ServiceError::CoreInternalError),
            }
        } else {
            Ok(self.event_of(name).handlers)
        }
    }

    /// What a request to the endpoint `name` by `plugin_id` with `args`
    /// answers before the handler runs: the handler and the requesting
    /// plugin's name, or the first check that fails.
    pub open spec fn request_outcome(self, power: PowerState, name: Seq<char>, plugin_id: CUuid, args: Seq<char>) -> Result<(R, Seq<char>), ServiceError> {
        if is_stopping(power) {
            Err(ServiceError::ShuttingDown)
        } else if !json_valid(args) {
            Err(ServiceError::InvalidJson)
        } else if !self.has_endpoint(name) {
            Err(ServiceError::NotFound)
        } else if !schema_accepts(self.endpoint_of(name).argument_schema, args) {
            Err(ServiceError::InvalidApi)
        } else if !self.has_plugin(plugin_id) {
            Err(ServiceError::NotFound)
        } else {
            Ok((self.endpoint_of(name).handler, self.plugin_of(plugin_id).name))
        }
    }

    /// What a request answers once the handler of the endpoint `name` has
    /// returned `response`.
    pub open spec fn response_outcome(self, name: Seq<char>, response: Result<Seq<char>, ServiceError>) -> Result<Seq<char>, ServiceError> {
        match response {
            Err(e) => Err(e),
            Ok(text) => if !self.has_endpoint(name) {
                Err(ServiceError::NotFound)
            } else if !json_valid(text) || !schema_accepts(self.endpoint_of(name).response_schema, text) {
                Err(ServiceError::InvalidApi)
            } else {
                Ok(text)
            },
        }
    }

    /// The checks of a mount that do not involve the init handler's id:
    /// version, name, init handler, plugin id, and the `core:init` event.
    pub open spec fn mount_checks(
        self,
        host: CApiVersion,
        id: CUuid,
        name: Seq<char>,
        api_version: CApiVersion,
        has_init_handler: bool,
    ) -> Result<(), MountError> {
        if !compatible(api_version, host) {
            Err(MountError::ApiVersion)
        } else if !valid_plugin_name(name) {
            Err(MountError::InvalidName)
        } else if self.has_plugin_named(name) {
            Err(MountError::DuplicateName)
        } else if !has_init_handler {
            Err(MountError::Service(ServiceError::NullFunctionPointer))
        } else if id == self.core_id || self.has_plugin(id) {
            Err(MountError::Service(ServiceError::Duplicate))
        } else if !self.has_event(core_init_name()) {
            Err(MountError::CoreEventsMissing)
        } else {
            Ok(())
        }
    }

    /// What mounting the plugin `id` with the manifest parts given answers,
    /// its init handler to be stored under `handler_id`.
    pub open spec fn mount_outcome(
        self,
        host: CApiVersion,
        id: CUuid,
        handler_id: CUuid,
        name: Seq<char>,
        api_version: CApiVersion,
        has_init_handler: bool,
    ) -> Result<(), MountError> {
        match self.mount_checks(host, id, name, api_version, has_init_handler) {
            Err(e) => Err(e),
            Ok(()) => if self.handler_taken(id, handler_id) {
                Err(MountError::Service(ServiceError::Duplicate))
            } else {
                Ok(())
            },
        }
    }

    /// The registry after a successful mount: the plugin added last, its
    /// init handler added last to `core:init`.
    pub open spec fn mounted(self, p: PluginView, h: HandlerRef<F>) -> RegistryView<F, R> {
        let i = self.event_index(core_init_name());
        RegistryView {
            core_id: self.core_id,
            plugins: self.plugins.push(p),
            events: self.events.update(i, EventView { handlers: self.events[i].handlers.push(h), ..self.events[i] }),
            endpoints: self.endpoints,
        }
    }
}

/// The core event `name` with argument schema `schema`, owned by `owner`.
pub open spec fn core_event<F>(name: Seq<char>, schema: Seq<char>, owner: CUuid) -> EventView<F> {
    EventView { name, argument_schema: schema, owner, handlers: Seq::empty() }
}

/// The core endpoint `name`, owned by `owner`.
pub open spec fn core_endpoint<R>(name: Seq<char>, args: Seq<char>, response: Seq<char>, owner: CUuid, handler: R) -> EndpointView<R> {
    EndpointView { name, argument_schema: args, response_schema: response, owner, handler }
}

proof fn lemma_core_full_name(s: Seq<char>, local: Seq<char>)
    requires
        valid_local_name(local),
        s == full_name_of(core_name(), local),
    ensures
        is_full_name(s),
{
    assert(!core_name().contains(':')) by {
        if core_name().contains(':') {
            let k = choose|k: int| 0 <= k < core_name().len() && core_name()[k] == ':';
            assert(core_name()[k] != ':');
        }
    }
    lemma_full_name_parts(core_name(), local);
}

proof fn lemma_local(s: Seq<char>)
    requires
        s.len() > 0,
        forall|k: int| 0 <= k < s.len() ==> s[k] != ':',
    ensures
        valid_local_name(s),
{
    if s.contains(':') {
        let k = choose|k: int| 0 <= k < s.len() && s[k] == ':';
        assert(s[k] != ':');
    }
}

impl<F: Copy, R: Copy> Registry<F, R> {
    /// A registry with the host's core events (`core:init`, `core:event`,
    /// `core:endpoint`, `core:power`) and core endpoints (`core:power`,
    /// `core:config`), all owned by `core_id`, and no plugins.
    pub fn new(core_id: CUuid, power_handler: R, config_handler: R) -> (r: Registry<F, R>)
        ensures
            r@.wf(),
            r@.core_id == core_id,
            r@.plugins.len() == 0,
            r@.events == seq![
                core_event::<F>(CORE_INIT@, INIT_SCHEMA@, core_id),
                core_event::<F>(CORE_EVENT@, EVENT_SCHEMA@, core_id),
                core_event::<F>(CORE_ENDPOINT@, ENDPOINT_SCHEMA@, core_id),
                core_event::<F>(CORE_POWER@, POWER_EVENT_SCHEMA@, core_id),
            ],
            r@.endpoints == seq![
                core_endpoint(CORE_POWER@, POWER_ARGS_SCHEMA@, POWER_RESPONSE_SCHEMA@, core_id, power_handler),
                core_endpoint(CORE_CONFIG@, CONFIG_ARGS_SCHEMA@, CONFIG_RESPONSE_SCHEMA@, core_id, config_handler),
            ],
            CORE_INIT@ == core_init_name(),
    {
        let mut events: Vec<Event<F>> = Vec::new();
        events.push(Event { name: String::from_str(CORE_INIT), argument_schema: String::from_str(INIT_SCHEMA), owner: core_id, handlers: Vec::new() });
        events.push(Event { name: String::from_str(CORE_EVENT), argument_schema: String::from_str(EVENT_SCHEMA), owner: core_id, handlers: Vec::new() });
        events.push(Event { name: String::from_str(CORE_ENDPOINT), argument_schema: String::from_str(ENDPOINT_SCHEMA), owner: core_id, handlers: Vec::new() });
        events.push(Event { name: String::from_str(CORE_POWER), argument_schema: String::from_str(POWER_EVENT_SCHEMA), owner: core_id, handlers: Vec::new() });
        let mut endpoints: Vec<Endpoint<R>> = Vec::new();
        endpoints.push(Endpoint {
            name: String::from_str(CORE_POWER),
            argument_schema: String::from_str(POWER_ARGS_SCHEMA),
            response_schema: String::from_str(POWER_RESPONSE_SCHEMA),
            owner: core_id,
            handler: power_handler,
        });
        endpoints.push(Endpoint {
            name: String::from_str(CORE_CONFIG),
            argument_schema: String::from_str(CONFIG_ARGS_SCHEMA),
            response_schema: String::from_str(CONFIG_RESPONSE_SCHEMA),
            owner: core_id,
            handler: config_handler,
        });
        let r = Registry { core_id, plugins: Vec::new(), events, endpoints };
        proof {
            reveal_strlit("core:init");
            reveal_strlit("core:event");
            reveal_strlit("core:endpoint");
            reveal_strlit("core:power");
            reveal_strlit("core:config");
            let init = seq!['i', 'n', 'i', 't'];
            let event = seq!['e', 'v', 'e', 'n', 't'];
            let endpoint = seq!['e', 'n', 'd', 'p', 'o', 'i', 'n', 't'];
            let power = seq!['p', 'o', 'w', 'e', 'r'];
            let config = seq!['c', 'o', 'n', 'f', 'i', 'g'];
            lemma_local(init);
            lemma_local(event);
            lemma_local(endpoint);
            lemma_local(power);
            lemma_local(config);
            assert(CORE_INIT@ =~= full_name_of(core_name(), init));
            assert(CORE_EVENT@ =~= full_name_of(core_name(), event));
            assert(CORE_ENDPOINT@ =~= full_name_of(core_name(), endpoint));
            assert(CORE_POWER@ =~= full_name_of(core_name(), power));
            assert(CORE_CONFIG@ =~= full_name_of(core_name(), config));
            lemma_core_full_name(CORE_INIT@, init);
            lemma_core_full_name(CORE_EVENT@, event);
            lemma_core_full_name(CORE_ENDPOINT@, endpoint);
            lemma_core_full_name(CORE_POWER@, power);
            lemma_core_full_name(CORE_CONFIG@, config);
            assert(CORE_EVENT@[5] != CORE_POWER@[5]);
            assert(r@.events =~= seq![
                core_event::<F>(CORE_INIT@, INIT_SCHEMA@, core_id),
                core_event::<F>(CORE_EVENT@, EVENT_SCHEMA@, core_id),
                core_event::<F>(CORE_ENDPOINT@, ENDPOINT_SCHEMA@, core_id),
                core_event::<F>(CORE_POWER@, POWER_EVENT_SCHEMA@, core_id),
            ]);
            assert(r@.endpoints =~= seq![
                core_endpoint(CORE_POWER@, POWER_ARGS_SCHEMA@, POWER_RESPONSE_SCHEMA@, core_id, power_handler),
                core_endpoint(CORE_CONFIG@, CONFIG_ARGS_SCHEMA@, CONFIG_RESPONSE_SCHEMA@, core_id, config_handler),
            ]);
            assert(r@.plugins =~= Seq::<PluginView>::empty());
        }
        r
    }
}

impl<F: Copy, R: Copy> Registry<F, R> {
    /// Registers the endpoint `endpoint_name` of `plugin_id`, served by
    /// `handler`. On success the registry holds one more endpoint, named
    /// `"<plugin>:<endpoint_name>"`, and that name is returned; on failure
    /// nothing changes.
    pub fn register_endpoint(
        &mut self,
        args_schema: &str,
        response_schema: &str,
        plugin_id: CUuid,
        endpoint_name: &str,
        handler: R,
    ) -> (r: Result<String, ServiceError>)
        requires
            old(self)@.wf(),
        ensures
            final(self)@.wf(),
            match r {
                Ok(full) => old(self)@.register_endpoint_outcome(args_schema@, response_schema@, plugin_id, endpoint_name@)
                    == Ok::<Seq<char>, ServiceError>(full@) && final(self)@ == old(self)@.with_endpoint(
                    EndpointView { name: full@, argument_schema: args_schema@, response_schema: response_schema@, owner: plugin_id, handler },
                ),
                Err(e) => old(self)@.register_endpoint_outcome(args_schema@, response_schema@, plugin_id, endpoint_name@)
                    == Err::<Seq<char>, ServiceError>(e) && final(self)@ == old(self)@,
            },
    {
        if !is_valid_local_name(endpoint_name) {
            return Err(ServiceError::InvalidString);
        }
        if !is_json(args_schema) {
            return Err(ServiceError::InvalidJson);
        }
        if !is_schema(args_schema) {
            return Err(ServiceError::InvalidSchema);
        }
        if !is_json(response_schema) {
            return Err(ServiceError::InvalidJson);
        }
        if !is_schema(response_schema) {
            return Err(ServiceError::InvalidSchema);
        }
        let p = match self.find_plugin(plugin_id) {
            None => return Err(ServiceError::NotFound),
            Some(p) => p,
        };
        proof {
            self.lemma_plugin_of(p as int);
            lemma_full_name_parts(self@.plugins[p as int].name, endpoint_name@);
        }
        let full = full_name(self.plugins[p].name.as_str(), endpoint_name);
        if self.find_endpoint(&full).is_some() {
            return Err(ServiceError::Duplicate);
        }
        let ghost prev = self@;
        let endpoint = Endpoint {
            name: full.clone(),
            argument_schema: String::from_str(args_schema),
            response_schema: String::from_str(response_schema),
            owner: plugin_id,
            handler,
        };
        self.endpoints.push(endpoint);
        proof {
            assert(self@.endpoints =~= prev.endpoints.push(endpoint@));
            assert(self@ == prev.with_endpoint(endpoint@));
            assert(prev.has_plugin(plugin_id));
            assert(forall|i: int| 0 <= i < prev.endpoints.len() ==> #[trigger] prev.endpoints[i].name != full@);
            lemma_endpoints_keep_wf(prev, prev.endpoints.push(endpoint@));
        }
        Ok(full)
    }

    /// Removes the endpoint `endpoint_name`, which only its owner may do.
    pub fn unregister_endpoint(&mut self, plugin_id: CUuid, endpoint_name: &str) -> (r: Result<(), ServiceError>)
        requires
            old(self)@.wf(),
        ensures
            final(self)@.wf(),
            r == old(self)@.unregister_endpoint_outcome(plugin_id, endpoint_name@),
            r is Ok ==> final(self)@ == old(self)@.with_endpoints(
                old(self)@.endpoints.remove(old(self)@.endpoint_index(endpoint_name@)),
            ),
            r is Err ==> final(self)@ == old(self)@,
    {
        let key = String::from_str(endpoint_name);
        let i = match self.find_endpoint(&key) {
            None => return Err(ServiceError::NotFound),
            Some(i) => i,
        };
        proof {
            self.lemma_endpoint_index(i as int);
        }
        if self.endpoints[i].owner != plugin_id {
            return Err(ServiceError::Unauthorized);
        }
        let ghost prev = self@;
        let _removed = self.endpoints.remove(i);
        proof {
            assert(self@.endpoints =~= prev.endpoints.remove(i as int));
            assert(self@ == prev.with_endpoints(prev.endpoints.remove(i as int)));
            let w = prev.endpoints.remove(i as int);
            assert forall|a: int| 0 <= a < w.len() implies w[a] == prev.endpoints[if a < i { a } else { a + 1 }] by {}
            lemma_endpoints_keep_wf(prev, w);
        }
        Ok(())
    }

    /// Decides a trigger of the event `event_name` by `plugin_id` with the
    /// JSON text `args`, while the host is in power state `power`. On
    /// success the result is the batch of handlers to run, in order; the
    /// registry is never changed.
    pub fn trigger(&self, power: PowerState, plugin_id: CUuid, event_name: &str, args: &str) -> (r: Result<Vec<HandlerRef<F>>, ServiceError>)
        requires
            self@.wf(),
        ensures
            match r {
                Ok(batch) => self@.trigger_outcome(power, plugin_id, event_name@, args@) == Ok::<Seq<HandlerRef<F>>, ServiceError>(batch@),
                Err(e) => self@.trigger_outcome(power, plugin_id, event_name@, args@) == Err::<Seq<HandlerRef<F>>, ServiceError>(e),
            },
    {
        if power == PowerState::Shutdown || power == PowerState::Restart {
            return Err(ServiceError::ShuttingDown);
        }
        if !is_json(args) {
            return Err(ServiceError::InvalidJson);
        }
        let key = String::from_str(event_name);
        let i = match self.find_event(&key) {
            None => return Err(ServiceError::NotFound),
            Some(i) => i,
        };
        proof {
            self.lemma_event_index(i as int);
        }
        if self.events[i].owner != plugin_id {
            return Err(ServiceError::Unauthorized);
        }
        if !schema_admits(self.events[i].argument_schema.as_str(), args) {
            return Err(ServiceError::InvalidApi);
        }
        let init = String::from_str(CORE_INIT);
        proof {
            reveal_strlit("core:init");
            let local = seq!['i', 'n', 'i', 't'];
            assert(CORE_INIT@ =~= full_name_of(core_name(), local));
        }
        if key == init {
            match self.init_handlers(&self.events[i].handlers) {
                Some(batch) => Ok(batch),
                None => Err(ServiceError::CoreInternalError),
            }
        } else {
            Ok(copy_handlers(&self.events[i].handlers))
        }
    }

    /// Computes [`RegistryView::init_batch`] of the handlers `hs`.
    fn init_handlers(&self, hs: &Vec<HandlerRef<F>>) -> (r: Option<Vec<HandlerRef<F>>>)
        requires
            self@.wf(),
        ensures
            match r {
                Some(b) => self@.init_batch(hs@) == Some(b@),
                None => self@.init_batch(hs@) is None,
            },
    {
        let graph = match self.dependency_graph() {
            None => return None,
            Some(g) => g,
        };
        let mut k: usize = 0;
        while k < hs.len()
            invariant
                k <= hs@.len(),
                forall|m: int| 0 <= m < k ==> self@.has_plugin(#[trigger] hs@[m].plugin_id),
            decreases hs@.len() - k,
        {
            if self.find_plugin(hs[k].plugin_id).is_none() {
                return None;
            }
            k = k + 1;
        }
        let order = match mount_order(&graph) {
            None => return None,
            Some(o) => o,
        };
        proof {
            lemma_init_order(graph_of(graph@));
        }
        let ghost o = order@;
        let ghost ids = self@.ids_at(o);
        let mut out: Vec<HandlerRef<F>> = Vec::new();
        let mut p: usize = 0;
        while p < order.len()
            invariant
                o == order@,
                is_topological(self@.dep_graph(), o),
                self@.plugins.len() == self.plugins@.len(),
                ids == self@.ids_at(o),
                p <= o.len(),
                out@ == gather(hs@, ids.subrange(0, p as int)),
            decreases o.len() - p,
        {
            let id = self.plugins[order[p]].id;
            assert(id == ids[p as int]);
            let ghost before = out@;
            let mut k: usize = 0;
            while k < hs.len()
                invariant
                    k <= hs@.len(),
                    out@ == before + handlers_of(hs@.subrange(0, k as int), id),
                decreases hs@.len() - k,
            {
                let h = hs[k];
                assert(hs@.subrange(0, k as int + 1).drop_last() =~= hs@.subrange(0, k as int));
                if h.plugin_id == id {
                    out.push(h);
                }
                k = k + 1;
            }
            assert(hs@.subrange(0, hs@.len() as int) =~= hs@);
            assert(ids.subrange(0, p as int + 1).drop_last() =~= ids.subrange(0, p as int));
            p = p + 1;
        }
        assert(ids.subrange(0, o.len() as int) =~= ids);
        Some(out)
    }

    /// The dependency graph by position, or `None` when a dependency names
    /// no mounted plugin.
    fn dependency_graph(&self) -> (r: Option<Vec<Vec<usize>>>)
        requires
            self@.wf(),
        ensures
            r is None <==> !self@.deps_resolved(),
            r matches Some(g) ==> graph_of(g@) == self@.dep_graph() && deps_in_range(graph_of(g@)),
    {
        let n = self.plugins.len();
        let mut graph: Vec<Vec<usize>> = Vec::new();
        let mut i: usize = 0;
        while i < n
            invariant
                self@.wf(),
                n == self@.plugins.len(),
                i <= n,
                graph@.len() == i,
                forall|a: int, k: int|
                    0 <= a < i && 0 <= k < self@.plugins[a].dependencies.len() ==> self@.has_plugin_named(
                        #[trigger] self@.plugins[a].dependencies[k],
                    ),
                forall|a: int| 0 <= a < i ==> (#[trigger] graph@[a])@ == self@.dep_graph()[a],
                forall|a: int, k: int| 0 <= a < i && 0 <= k < graph@[a]@.len() ==> #[trigger] graph@[a]@[k] < n,
            decreases n - i,
        {
            let deps = &self.plugins[i].dependencies;
            assert(self@.plugins[i as int].dependencies == deps@.map_values(|d: String| d@));
            let mut row: Vec<usize> = Vec::new();
            let mut k: usize = 0;
            while k < deps.len()
                invariant
                    self@.wf(),
                    n == self@.plugins.len(),
                    i < n,
                    self@.plugins[i as int].dependencies == deps@.map_values(|d: String| d@),
                    k <= deps@.len(),
                    row@.len() == k,
                    forall|m: int| 0 <= m < k ==> self@.has_plugin_named(#[trigger] self@.plugins[i as int].dependencies[m]),
                    forall|m: int| 0 <= m < k ==> #[trigger] row@[m] == self@.dep_graph()[i as int][m],
                    forall|m: int| 0 <= m < k ==> #[trigger] row@[m] < n,
                decreases deps@.len() - k,
            {
                let j = match self.find_plugin_named(&deps[k]) {
                    None => {
                        assert(!self@.has_plugin_named(self@.plugins[i as int].dependencies[k as int]));
                        return None;
                    },
                    Some(j) => j,
                };
                proof {
                    let name = self@.plugins[i as int].dependencies[k as int];
                    let c = self@.plugin_index_named(name);
                    if c != j as int {
                        if c < j {
                            assert(self@.plugins[c].name != self@.plugins[j as int].name);
                        } else {
                            assert(self@.plugins[j as int].name != self@.plugins[c].name);
                        }
                    }
                }
                row.push(j);
                k = k + 1;
            }
            assert(row@ =~= self@.dep_graph()[i as int]);
            graph.push(row);
            i = i + 1;
        }
        assert(graph_of(graph@) =~= self@.dep_graph());
        Some(graph)
    }

    /// Decides a request to the endpoint `endpoint_name` by `plugin_id`
    /// with the JSON text `args`, while the host is in power state `power`:
    /// on success, the handler to call and the requesting plugin's name,
    /// which is handed to the handler in place of its id.
    pub fn request(&self, power: PowerState, endpoint_name: &str, plugin_id: CUuid, args: &str) -> (r: Result<(R, String), ServiceError>)
        requires
            self@.wf(),
        ensures
            match r {
                Ok((h, name)) => self@.request_outcome(power, endpoint_name@, plugin_id, args@) == Ok::<(R, Seq<char>), ServiceError>((h, name@)),
                Err(e) => self@.request_outcome(power, endpoint_name@, plugin_id, args@) == Err::<(R, Seq<char>), ServiceError>(e),
            },
    {
        if power == PowerState::Shutdown || power == PowerState::Restart {
            return Err(ServiceError::ShuttingDown);
        }
        if !is_json(args) {
            return Err(ServiceError::InvalidJson);
        }
        let key = String::from_str(endpoint_name);
        let i = match self.find_endpoint(&key) {
            None => return Err(ServiceError::NotFound),
            Some(i) => i,
        };
        proof {
            self.lemma_endpoint_index(i as int);
        }
        if !schema_admits(self.endpoints[i].argument_schema.as_str(), args) {
            return Err(ServiceError::InvalidApi);
        }
        let p = match self.find_plugin(plugin_id) {
            None => return Err(ServiceError::NotFound),
            Some(p) => p,
        };
        proof {
            self.lemma_plugin_of(p as int);
        }
        Ok((self.endpoints[i].handler, self.plugins[p].name.clone()))
    }

    /// Checks what the handler of the endpoint `endpoint_name` returned: a
    /// handler error is passed on, and a response that is not JSON or does
    /// not satisfy the response schema is InvalidApi.
    pub fn finish_request(&self, endpoint_name: &str, response: Result<String, ServiceError>) -> (r: Result<String, ServiceError>)
        requires
            self@.wf(),
        ensures
            match r {
                Ok(text) => self@.response_outcome(endpoint_name@, match response { Ok(t) => Ok(t@), Err(e) => Err(e) })
                    == Ok::<Seq<char>, ServiceError>(text@),
                Err(e) => self@.response_outcome(endpoint_name@, match response { Ok(t) => Ok(t@), Err(e) => Err(e) })
                    == Err::<Seq<char>, ServiceError>(e),
            },
    {
        let text = match response {
            Err(e) => return Err(e),
            Ok(text) => text,
        };
        let key = String::from_str(endpoint_name);
        let i = match self.find_endpoint(&key) {
            None => return Err(ServiceError::NotFound),
            Some(i) => i,
        };
        proof {
            self.lemma_endpoint_index(i as int);
        }
        if !is_json(text.as_str()) || !schema_admits(self.endpoints[i].response_schema.as_str(), text.as_str()) {
            return Err(ServiceError::InvalidApi);
        }
        Ok(text)
    }

    /// Mounts the plugin `id` from its manifest, queueing its init handler
    /// on `core:init` under `handler_id`. `host` is the API version of this
    /// host. On failure nothing changes.
    pub fn mount(&mut self, host: CApiVersion, id: CUuid, handler_id: CUuid, manifest: PluginManifest<F>) -> (r: Result<(), MountError>)
        requires
            old(self)@.wf(),
        ensures
            final(self)@.wf(),
            r == old(self)@.mount_outcome(host, id, handler_id, manifest.name@, manifest.api_version, manifest.init_handler is Some),
            r is Ok ==> final(self)@ == old(self)@.mounted(
                manifest.plugin_view(id),
                HandlerRef { handler_id, plugin_id: id, handler: manifest.init_handler->Some_0 },
            ),
            r is Err ==> final(self)@ == old(self)@,
    {
        if !manifest.api_version.is_compatible(&host) {
            return Err(MountError::ApiVersion);
        }
        if !is_valid_plugin_name(manifest.name.as_str()) {
            return Err(MountError::InvalidName);
        }
        if self.find_plugin_named(&manifest.name).is_some() {
            return Err(MountError::DuplicateName);
        }
        let handler = match manifest.init_handler {
            None => return Err(MountError::Service(ServiceError::NullFunctionPointer)),
            Some(h) => h,
        };
        if id == self.core_id || self.find_plugin(id).is_some() {
            return Err(MountError::Service(ServiceError::Duplicate));
        }
        let init = String::from_str(CORE_INIT);
        proof {
            reveal_strlit("core:init");
            let local = seq!['i', 'n', 'i', 't'];
            assert(CORE_INIT@ =~= full_name_of(core_name(), local));
        }
        let i = match self.find_event(&init) {
            None => return Err(MountError::CoreEventsMissing),
            Some(i) => i,
        };
        proof {
            self.lemma_event_index(i as int);
        }
        if self.is_handler_taken(id, handler_id) {
            return Err(MountError::Service(ServiceError::Duplicate));
        }
        let ghost prev = self@;
        let h = HandlerRef { handler_id, plugin_id: id, handler };
        let plugin = Plugin {
            id,
            name: manifest.name,
            version: manifest.version,
            dependencies: manifest.dependencies,
            api_version: manifest.api_version,
        };
        let ghost pv = plugin@;
        self.plugins.push(plugin);
        let mut event = self.events.remove(i);
        event.handlers.push(h);
        self.events.insert(i, event);
        proof {
            let ne = EventView { handlers: prev.events[i as int].handlers.push(h), ..prev.events[i as int] };
            assert(event@ == ne);
            assert(self@.events =~= prev.events.update(i as int, ne));
            assert(self@.plugins =~= prev.plugins.push(pv));
            assert(self@ == prev.mounted(pv, h));
            lemma_add_handler_keeps_wf(prev, i as int, h);
            lemma_add_plugin_keeps_wf(prev.with_events(prev.events.update(i as int, ne)), pv);
        }
        Ok(())
    }
}

/// Copies a handler sequence.
fn copy_handlers<F: Copy>(hs: &Vec<HandlerRef<F>>) -> (r: Vec<HandlerRef<F>>)
    ensures
        r@ == hs@,
{
    let mut r: Vec<HandlerRef<F>> = Vec::new();
    let mut k: usize = 0;
    while k < hs.len()
        invariant
            k <= hs@.len(),
            r@ == hs@.subrange(0, k as int),
        decreases hs@.len() - k,
    {
        r.push(hs[k]);
        k = k + 1;
        assert(r@ =~= hs@.subrange(0, k as int));
    }
    assert(hs@.subrange(0, hs@.len() as int) =~= hs@);
    r
}

/// Replacing the endpoints by ones with distinct valid full names and known
/// owners keeps the invariant.
proof fn lemma_endpoints_keep_wf<F, R>(v: RegistryView<F, R>, eps: Seq<EndpointView<R>>)
    requires
        v.wf(),
        forall|a: int, b: int| 0 <= a < b < eps.len() ==> #[trigger] eps[a].name != #[trigger] eps[b].name,
        forall|a: int| 0 <= a < eps.len() ==> is_full_name((#[trigger] eps[a]).name) && v.known_owner(eps[a].owner),
    ensures
        v.with_endpoints(eps).wf(),
{
    let w = v.with_endpoints(eps);
    assert(w.plugins == v.plugins && w.core_id == v.core_id && w.events == v.events);
}

/// Adding a plugin with a new id and a new, valid name keeps the invariant.
proof fn lemma_add_plugin_keeps_wf<F, R>(v: RegistryView<F, R>, p: PluginView)
    requires
        v.wf(),
        !v.has_plugin(p.id),
        p.id != v.core_id,
        !v.has_plugin_named(p.name),
        valid_plugin_name(p.name),
    ensures
        (RegistryView { core_id: v.core_id, plugins: v.plugins.push(p), events: v.events, endpoints: v.endpoints }).wf(),
{
    let w = RegistryView { core_id: v.core_id, plugins: v.plugins.push(p), events: v.events, endpoints: v.endpoints };
    assert forall|a: int| 0 <= a < v.plugins.len() implies w.plugins[a] == v.plugins[a] by {}
    assert(w.plugins[v.plugins.len() as int] == p);
    assert forall|a: int, b: int| 0 <= a < b < w.plugins.len() implies #[trigger] w.plugins[a].id != #[trigger] w.plugins[b].id
        && w.plugins[a].name != w.plugins[b].name by {
        if b == v.plugins.len() {
            assert(v.plugins[a].id != p.id);
            assert(v.plugins[a].name != p.name);
        }
    }
    assert forall|id: CUuid| v.has_plugin(id) implies w.has_plugin(id) by {
        let j = choose|j: int| 0 <= j < v.plugins.len() && #[trigger] v.plugins[j].id == id;
        assert(w.plugins[j].id == id);
    }
    assert forall|a: int| 0 <= a < w.events.len() implies w.known_owner((#[trigger] w.events[a]).owner) by {
        assert(v.known_owner(v.events[a].owner));
    }
    assert forall|a: int| 0 <= a < w.endpoints.len() implies w.known_owner((#[trigger] w.endpoints[a]).owner) by {
        assert(v.known_owner(v.endpoints[a].owner));
    }
}

impl<F: Copy, R: Copy> Registry<F, R> {
    /// Registers `handler` for `plugin_id` on the event `event_name` under a
    /// freshly minted handler id, and returns the stored handler, whose id
    /// the plugin keeps to unregister it later.
    pub fn register_event_handler(&mut self, handler: F, plugin_id: CUuid, event_name: &str) -> (r: Result<HandlerRef<F>, ServiceError>)
        requires
            old(self)@.wf(),
        ensures
            final(self)@.wf(),
            r matches Err(e) ==> final(self)@ == old(self)@ && ((e == ServiceError::NotFound && !old(self)@.has_event(event_name@))
                || (e == ServiceError::Duplicate && old(self)@.has_event(event_name@))),
            !old(self)@.has_event(event_name@) ==> r == Err::<HandlerRef<F>, ServiceError>(ServiceError::NotFound),
            r matches Ok(h) ==> h.handler == handler && h.plugin_id == plugin_id
                && old(self)@.register_handler_outcome(h.handler_id, plugin_id, event_name@) is Ok
                && final(self)@ == old(self)@.with_events(old(self)@.events.update(
                    old(self)@.event_index(event_name@),
                    EventView {
                        handlers: old(self)@.event_of(event_name@).handlers.push(h),
                        ..old(self)@.event_of(event_name@)
                    },
                )),
    {
        let handler_id = CUuid::new_v4();
        match self.register_handler(handler, handler_id, plugin_id, event_name) {
            Ok(()) => Ok(HandlerRef { handler_id, plugin_id, handler }),
            Err(e) => Err(e),
        }
    }

    /// Mounts the plugin `id` from its manifest, its init handler queued on
    /// `core:init` under a freshly minted handler id.
    pub fn mount_plugin(&mut self, host: CApiVersion, id: CUuid, manifest: PluginManifest<F>) -> (r: Result<(), MountError>)
        requires
            old(self)@.wf(),
        ensures
            final(self)@.wf(),
            r is Err ==> final(self)@ == old(self)@,
            old(self)@.mount_checks(host, id, manifest.name@, manifest.api_version, manifest.init_handler is Some) matches Err(e)
                ==> r == Err::<(), MountError>(e),
            old(self)@.mount_checks(host, id, manifest.name@, manifest.api_version, manifest.init_handler is Some) is Ok
                ==> r is Ok || r == Err::<(), MountError>(MountError::Service(ServiceError::Duplicate)),
            r is Ok ==> exists|handler_id: CUuid| final(self)@ == #[trigger] old(self)@.mounted(
                manifest.plugin_view(id),
                HandlerRef { handler_id, plugin_id: id, handler: manifest.init_handler->Some_0 },
            ),
    {
        let handler_id = CUuid::new_v4();
        self.mount(host, id, handler_id, manifest)
    }
}

/// A registration is all or nothing: after an event is added it is found
/// under its name, whole; after it is removed it is not found at all.
pub proof fn lemma_registration_atomic<F, R>(v: RegistryView<F, R>, e: EventView<F>, name: Seq<char>)
    requires
        v.wf(),
    ensures
        !v.has_event(e.name) ==> v.with_event(e).has_event(e.name) && v.with_event(e).event_of(e.name) == e,
        v.has_event(name) ==> !v.with_events(v.events.remove(v.event_index(name))).has_event(name),
{
    if !v.has_event(e.name) {
        let w = v.with_event(e);
        let last = v.events.len() as int;
        assert(w.events[last].name == e.name);
        let j = w.event_index(e.name);
        if j != last {
            assert(w.events[j] == v.events[j]);
        }
    }
    if v.has_event(name) {
        let i = v.event_index(name);
        let w = v.with_events(v.events.remove(i));
        if w.has_event(name) {
            let a = choose|a: int| 0 <= a < w.events.len() && #[trigger] w.events[a].name == name;
            let b = if a < i { a } else { a + 1 };
            assert(w.events[a] == v.events[b]);
            if b < i {
                assert(v.events[b].name != v.events[i].name);
            } else {
                assert(v.events[i].name != v.events[b].name);
            }
        }
    }
}

/// Only the owner may trigger an event: any other plugin is refused with
/// Unauthorized (the registry is not changed by a trigger).
pub proof fn lemma_trigger_unauthorized<F, R>(v: RegistryView<F, R>, power: PowerState, plugin_id: CUuid, name: Seq<char>, args: Seq<char>)
    requires
        !is_stopping(power),
        json_valid(args),
        v.has_event(name),
        v.event_of(name).owner != plugin_id,
    ensures
        v.trigger_outcome(power, plugin_id, name, args) == Err::<Seq<HandlerRef<F>>, ServiceError>(ServiceError::Unauthorized),
{
}

/// Arguments that fail an endpoint's argument schema are refused with
/// InvalidApi, before any handler is chosen.
pub proof fn lemma_request_schema_enforced<F, R>(v: RegistryView<F, R>, power: PowerState, name: Seq<char>, plugin_id: CUuid, args: Seq<char>)
    requires
        !is_stopping(power),
        json_valid(args),
        v.has_endpoint(name),
        !schema_accepts(v.endpoint_of(name).argument_schema, args),
    ensures
        v.request_outcome(power, name, plugin_id, args) == Err::<(R, Seq<char>), ServiceError>(ServiceError::InvalidApi),
{
}

/// A response that fails an endpoint's response schema reaches the caller
/// as InvalidApi.
pub proof fn lemma_response_schema_enforced<F, R>(v: RegistryView<F, R>, name: Seq<char>, text: Seq<char>)
    requires
        v.has_endpoint(name),
        !schema_accepts(v.endpoint_of(name).response_schema, text),
    ensures
        v.response_outcome(name, Ok(text)) == Err::<Seq<char>, ServiceError>(ServiceError::InvalidApi),
{
}

/// `core:init` runs the plugins' init handlers in a topological order of
/// their dependencies, and refuses with CoreInternalError, running none,
/// when the dependencies form a cycle.
pub proof fn lemma_init_dispatch<F, R>(v: RegistryView<F, R>, hs: Seq<HandlerRef<F>>)
    requires
        v.deps_resolved(),
        v.handlers_known(hs),
        v.plugins.len() <= usize::MAX,
    ensures
        v.init_batch(hs) is Some <==> acyclic(v.dep_graph()),
        v.init_batch(hs) matches Some(b) ==> exists|o: Seq<usize>|
            is_topological(v.dep_graph(), o) && b == gather(hs, #[trigger] v.ids_at(o)),
{
    lemma_init_order(v.dep_graph());
    if let Some(o) = init_order(v.dep_graph()) {
        assert(is_topological(v.dep_graph(), o) && v.init_batch(hs) == Some(gather(hs, v.ids_at(o))));
    }
}

/// A trigger of `core:init` whose dependency graph has a cycle is refused
/// with CoreInternalError and hands out no handler.
pub proof fn lemma_init_cycle_refused<F, R>(v: RegistryView<F, R>, power: PowerState, args: Seq<char>)
    requires
        !is_stopping(power),
        json_valid(args),
        v.has_event(core_init_name()),
        v.event_of(core_init_name()).owner == v.core_id,
        schema_accepts(v.event_of(core_init_name()).argument_schema, args),
        v.plugins.len() <= usize::MAX,
        !acyclic(v.dep_graph()),
    ensures
        v.trigger_outcome(power, v.core_id, core_init_name(), args) == Err::<Seq<HandlerRef<F>>, ServiceError>(
            ServiceError::CoreInternalError,
        ),
{
    lemma_init_order(v.dep_graph());
}

/// A plugin built against an API version whose `major` or `feature`
/// differs from the host's is rejected; one that differs only in `patch`
/// passes the version gate.
pub proof fn lemma_mount_version_gate<F, R>(
    v: RegistryView<F, R>,
    host: CApiVersion,
    id: CUuid,
    handler_id: CUuid,
    name: Seq<char>,
    api_version: CApiVersion,
    has_init_handler: bool,
)
    ensures
        (api_version.major != host.major || api_version.feature != host.feature) ==> v.mount_outcome(
            host, id, handler_id, name, api_version, has_init_handler) == Err::<(), MountError>(MountError::ApiVersion),
        (api_version.major == host.major && api_version.feature == host.feature) ==> v.mount_outcome(
            host, id, handler_id, name, api_version, has_init_handler) != Err::<(), MountError>(MountError::ApiVersion),
{
}

/// Plugin names holding `:` or equal to `core` are rejected, so are local
/// event and endpoint names holding `:`, and every stored event and
/// endpoint name matches `^[^:]+:[^:]+$`.
pub proof fn lemma_name_legality<F, R>(
    v: RegistryView<F, R>,
    host: CApiVersion,
    id: CUuid,
    handler_id: CUuid,
    name: Seq<char>,
    api_version: CApiVersion,
    has_init_handler: bool,
    schema: Seq<char>,
    response_schema: Seq<char>,
    plugin_id: CUuid,
    local: Seq<char>,
)
    requires
        v.wf(),
        compatible(api_version, host),
    ensures
        (name.contains(':') || name == core_name()) ==> v.mount_outcome(host, id, handler_id, name, api_version, has_init_handler)
            == Err::<(), MountError>(MountError::InvalidName),
        local.contains(':') ==> v.register_event_outcome(schema, plugin_id, local) == Err::<Seq<char>, ServiceError>(ServiceError::InvalidString),
        local.contains(':') ==> v.register_endpoint_outcome(schema, response_schema, plugin_id, local) == Err::<Seq<char>, ServiceError>(
            ServiceError::InvalidString,
        ),
        forall|i: int| 0 <= i < v.events.len() ==> is_full_name(#[trigger] v.events[i].name),
        forall|i: int| 0 <= i < v.endpoints.len() ==> is_full_name(#[trigger] v.endpoints[i].name),
{
    assert forall|i: int| 0 <= i < v.events.len() implies is_full_name(#[trigger] v.events[i].name) by {
        assert(is_full_name(v.events[i].name));
    }
    assert forall|i: int| 0 <= i < v.endpoints.len() implies is_full_name(#[trigger] v.endpoints[i].name) by {
        assert(is_full_name(v.endpoints[i].name));
    }
}

/// Once the host is shutting down or restarting, no trigger and no request
/// is accepted.
pub proof fn lemma_stopping_refuses<F, R>(v: RegistryView<F, R>, power: PowerState, plugin_id: CUuid, name: Seq<char>, args: Seq<char>)
    requires
        is_stopping(power),
    ensures
        v.trigger_outcome(power, plugin_id, name, args) == Err::<Seq<HandlerRef<F>>, ServiceError>(ServiceError::ShuttingDown),
        v.request_outcome(power, name, plugin_id, args) == Err::<(R, Seq<char>), ServiceError>(ServiceError::ShuttingDown),
{
}

} // verus!
