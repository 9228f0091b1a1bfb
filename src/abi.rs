//! The values that cross the plugin boundary, and their checked conversion
//! to host values: foreign strings and string lists, plugin manifests,
//! event handlers and the application context.
//!
//! A foreign string is modelled by what a reader can find in it: text, a
//! byte buffer that is not UTF-8, an error code sent through the string
//! channel, or an invalid handle. Function pointers are the type
//! parameters; a nullable one is an `Option`.
use vstd::prelude::*;
use crate::error::{result_of, CServiceError, ServiceError};
use crate::ident::CUuid;
use crate::registry::PluginManifest;
use crate::version::CApiVersion;

verus! {

/// Why a foreign value could not be read.
#[derive(Debug, Clone, Copy, PartialEq, Eq, Structural)]
pub enum ApiMiscError {
    /// The list handle is not valid.
    InvalidList,
    /// The string handle is not valid.
    InvalidString,
    /// The string carried this error instead of text.
    Service(ServiceError),
    /// The string's bytes are not UTF-8.
    Utf8,
}

/// A foreign string.
pub enum CString {
    Text(String),
    NotUtf8,
    Error(CServiceError),
    Invalid,
}

/// What a foreign string holds, for contracts.
pub enum CStringView {
    Text(Seq<char>),
    NotUtf8,
    Error(CServiceError),
    Invalid,
}

impl View for CString {
    type V = CStringView;

    open spec fn view(&self) -> CStringView {
        match self {
            CString::Text(s) => CStringView::Text(s@),
            CString::NotUtf8 => CStringView::NotUtf8,
            CString::Error(c) => CStringView::Error(*c),
            CString::Invalid => CStringView::Invalid,
        }
    }
}

/// Reading a foreign string: its text, or why there is none. An error
/// string yields its error; one that carries `Success` is no valid string.
pub open spec fn text_of(s: CStringView) -> Result<Seq<char>, ApiMiscError> {
    match s {
        CStringView::Text(t) => Ok(t),
        CStringView::NotUtf8 => Err(ApiMiscError::Utf8),
        CStringView::Error(c) => match result_of(c) {
            Err(e) => Err(ApiMiscError::Service(e)),
            Ok(()) => Err(ApiMiscError::InvalidString),
        },
        CStringView::Invalid => Err(ApiMiscError::InvalidString),
    }
}

/// The service error a failed read is reported as.
pub open spec fn service_error_of(e: ApiMiscError) -> ServiceError {
    match e {
        ApiMiscError::Service(s) => s,
        _ => ServiceError::InvalidString,
    }
}

impl CString {
    /// A foreign string holding `text`.
    pub fn from_text(text: String) -> (r: CString)
        ensures
            r@ == CStringView::Text(text@),
    {
        CString::Text(text)
    }

    /// An error string carrying `error`.
    pub fn from_error(error: ServiceError) -> (r: CString)
        ensures
            r@ == CStringView::Error(crate::error::raw_of(error)),
    {
        CString::Error(error.to_c())
    }

    /// The text of this string, or why it has none.
    pub fn as_str(&self) -> (r: Result<&str, ApiMiscError>)
        ensures
            match r {
                Ok(t) => text_of(self@) == Ok::<Seq<char>, ApiMiscError>(t@),
                Err(e) => text_of(self@) == Err::<Seq<char>, ApiMiscError>(e),
            },
    {
        match self {
            CString::Text(s) => Ok(s.as_str()),
            CString::NotUtf8 => Err(ApiMiscError::Utf8),
            CString::Error(c) => match c.to_rust() {
                Err(e) => Err(ApiMiscError::Service(e)),
                Ok(()) => Err(ApiMiscError::InvalidString),
            },
            CString::Invalid => Err(ApiMiscError::InvalidString),
        }
    }

    /// The text of this string as a service result: an error string gives
    /// its error, any other failure InvalidString.
    pub fn to_result(&self) -> (r: Result<String, ServiceError>)
        ensures
            match r {
                Ok(t) => text_of(self@) == Ok::<Seq<char>, ApiMiscError>(t@),
                Err(e) => text_of(self@) is Err && e == service_error_of(text_of(self@)->Err_0),
            },
    {
        match self.as_str() {
            Ok(t) => Ok(t.to_owned()),
            Err(ApiMiscError::Service(e)) => Err(e),
            Err(_) => Err(ServiceError::InvalidString),
        }
    }
}

/// A value that can be sent as a foreign string.
pub trait ToCString: Sized {
    /// The foreign string this value becomes.
    spec fn c_string_of(self) -> CStringView;

    /// Converts this value to a foreign string.
    fn to_c_string(self) -> (r: CString)
        ensures
            r@ == self.c_string_of(),
    ;
}

impl ToCString for Result<String, ServiceError> {
    open spec fn c_string_of(self) -> CStringView {
        match self {
            Ok(t) => CStringView::Text(t@),
            Err(e) => CStringView::Error(crate::error::raw_of(e)),
        }
    }

    fn to_c_string(self) -> (r: CString) {
        match self {
            Ok(t) => CString::from_text(t),
            Err(e) => CString::from_error(e),
        }
    }
}

/// A foreign list of strings.
#[allow(non_camel_case_types)]
pub enum CList_String {
    Valid(Vec<CString>),
    Invalid,
}

/// The texts of a sequence of foreign strings, or the error of the first
/// one that has none.
pub open spec fn texts_of(items: Seq<CStringView>) -> Result<Seq<Seq<char>>, ApiMiscError>
    decreases items.len(),
{
    if items.len() == 0 {
        Ok(Seq::empty())
    } else {
        match texts_of(items.drop_last()) {
            Err(e) => Err(e),
            Ok(ts) => match text_of(items.last()) {
                Err(e) => Err(e),
                Ok(t) => Ok(ts.push(t)),
            },
        }
    }
}

impl CList_String {
    /// What the list holds, for contracts: `None` for an invalid handle.
    pub open spec fn items(&self) -> Option<Seq<CStringView>> {
        match self {
            CList_String::Valid(v) => Some(v@.map_values(|s: CString| s@)),
            CList_String::Invalid => None,
        }
    }

    /// A list holding `items`.
    pub fn from_texts(items: Vec<String>) -> (r: CList_String)
        ensures
            r.items() == Some(items@.map_values(|t: String| CStringView::Text(t@))),
    {
        let mut v: Vec<CString> = Vec::new();
        let mut i: usize = 0;
        while i < items.len()
            invariant
                i <= items@.len(),
                v@.len() == i,
                forall|j: int| 0 <= j < i ==> (#[trigger] v@[j])@ == CStringView::Text(items@[j]@),
            decreases items@.len() - i,
        {
            let t = items[i].clone();
            v.push(CString::Text(t));
            i = i + 1;
        }
        assert(v@.map_values(|s: CString| s@) =~= items@.map_values(|t: String| CStringView::Text(t@)));
        CList_String::Valid(v)
    }

    /// The texts of the list, or why they cannot be read: an invalid list
    /// gives InvalidList, else the first string that has no text gives its
    /// error.
    pub fn as_array(&self) -> (r: Result<Vec<String>, ApiMiscError>)
        ensures
            self.items() is None ==> r == Err::<Vec<String>, ApiMiscError>(ApiMiscError::InvalidList),
            self.items() matches Some(items) ==> match r {
                Ok(ts) => texts_of(items) == Ok::<Seq<Seq<char>>, ApiMiscError>(ts@.map_values(|t: String| t@)),
                Err(e) => texts_of(items) == Err::<Seq<Seq<char>>, ApiMiscError>(e),
            },
    {
        let v = match self {
            CList_String::Invalid => return Err(ApiMiscError::InvalidList),
            CList_String::Valid(v) => v,
        };
        let ghost items = v@.map_values(|s: CString| s@);
        let mut out: Vec<String> = Vec::new();
        let mut i: usize = 0;
        assert(items.subrange(0, 0) =~= Seq::<CStringView>::empty());
        assert(self.items() == Some(items));
        assert(out@.map_values(|t: String| t@) =~= Seq::<Seq<char>>::empty());
        while i < v.len()
            invariant
                items == v@.map_values(|s: CString| s@),
                self.items() == Some(items),
                i <= v@.len(),
                texts_of(items.subrange(0, i as int)) == Ok::<Seq<Seq<char>>, ApiMiscError>(out@.map_values(|t: String| t@)),
            decreases v@.len() - i,
        {
            assert(items.subrange(0, i as int + 1).drop_last() =~= items.subrange(0, i as int));
            assert(items.subrange(0, i as int + 1).last() == v@[i as int]@);
            match v[i].as_str() {
                Err(e) => {
                    proof {
                        assert(text_of(v@[i as int]@) == Err::<Seq<char>, ApiMiscError>(e));
                        assert(texts_of(items.subrange(0, i as int + 1)) == Err::<Seq<Seq<char>>, ApiMiscError>(e));
                        lemma_texts_err(items, i as int + 1, e);
                    }
                    return Err(e);
                },
                Ok(t) => {
                    let ghost before = out@;
                    out.push(t.to_owned());
                    assert(out@.map_values(|t: String| t@) =~= before.map_values(|t: String| t@).push(t@));
                },
            }
            i = i + 1;
        }
        assert(items.subrange(0, v@.len() as int) =~= items);
        Ok(out)
    }
}

/// Once a prefix of a list fails, the whole list fails with the same error.
proof fn lemma_texts_err(items: Seq<CStringView>, n: int, e: ApiMiscError)
    requires
        0 <= n <= items.len(),
        texts_of(items.subrange(0, n)) == Err::<Seq<Seq<char>>, ApiMiscError>(e),
    ensures
        texts_of(items) == Err::<Seq<Seq<char>>, ApiMiscError>(e),
    decreases items.len() - n,
{
    if n < items.len() {
        assert(items.subrange(0, n + 1).drop_last() =~= items.subrange(0, n));
        lemma_texts_err(items, n + 1, e);
    } else {
        assert(items.subrange(0, n) =~= items);
    }
}

/// What a plugin's entry point returns: its name, version, dependencies,
/// init handler and API version, as foreign values.
pub struct PluginInfo<F> {
    api_version: CApiVersion,
    dependencies: CList_String,
    init_handler: F,
    name: CString,
    version: CString,
}

/// The raw form of [`PluginInfo`], whose init handler may be null.
pub struct CPluginInfo<F> {
    pub name: CString,
    pub version: CString,
    pub dependencies: CList_String,
    pub init_handler: Option<F>,
    pub api_version: CApiVersion,
}

impl<F> CPluginInfo<F> {
    /// Checks the raw manifest: a null init handler is NullFunctionPointer.
    pub fn to_rust(self) -> (r: Result<PluginInfo<F>, ServiceError>)
        ensures
            self.init_handler is None <==> r is Err,
            r matches Err(e) ==> e == ServiceError::NullFunctionPointer,
            r matches Ok(p) ==> p.spec_handler() == self.init_handler->Some_0 && p.spec_name()@ == self.name@
                && p.spec_version()@ == self.version@ && p.spec_dependencies().items() == self.dependencies.items()
                && p.spec_api_version() == self.api_version,
    {
        match self.init_handler {
            None => Err(ServiceError::NullFunctionPointer),
            Some(h) => Ok(
                PluginInfo {
                    name: self.name,
                    version: self.version,
                    dependencies: self.dependencies,
                    init_handler: h,
                    api_version: self.api_version,
                },
            ),
        }
    }
}

impl<F> PluginInfo<F> {
    pub closed spec fn spec_handler(&self) -> F {
        self.init_handler
    }

    pub closed spec fn spec_name(&self) -> &CString {
        &self.name
    }

    pub closed spec fn spec_version(&self) -> &CString {
        &self.version
    }

    pub closed spec fn spec_dependencies(&self) -> &CList_String {
        &self.dependencies
    }

    pub closed spec fn spec_api_version(&self) -> CApiVersion {
        self.api_version
    }

    /// A manifest from its name, version and dependencies as text.
    pub fn new(name: String, version: String, dependencies: Vec<String>, handler: F, api_version: CApiVersion) -> (r: PluginInfo<F>)
        ensures
            r.spec_name()@ == CStringView::Text(name@),
            r.spec_version()@ == CStringView::Text(version@),
            r.spec_dependencies().items() == Some(dependencies@.map_values(|t: String| CStringView::Text(t@))),
            r.spec_handler() == handler,
            r.spec_api_version() == api_version,
    {
        PluginInfo {
            name: CString::from_text(name),
            version: CString::from_text(version),
            dependencies: CList_String::from_texts(dependencies),
            init_handler: handler,
            api_version,
        }
    }

    /// A manifest from foreign values as they are.
    pub fn new_unsafe(name: CString, version: CString, dependencies: CList_String, handler: F, api_version: CApiVersion) -> (r: PluginInfo<F>)
        ensures
            r.spec_name()@ == name@,
            r.spec_version()@ == version@,
            r.spec_dependencies().items() == dependencies.items(),
            r.spec_handler() == handler,
            r.spec_api_version() == api_version,
    {
        PluginInfo { name, version, dependencies, init_handler: handler, api_version }
    }

    /// The API version the plugin was built against.
    pub fn api_version(&self) -> (r: CApiVersion)
        ensures
            r == self.spec_api_version(),
    {
        self.api_version
    }

    /// The plugin's dependencies, by name.
    pub fn dependencies(&self) -> (r: Result<Vec<String>, ApiMiscError>)
        ensures
            self.spec_dependencies().items() is None ==> r == Err::<Vec<String>, ApiMiscError>(ApiMiscError::InvalidList),
            self.spec_dependencies().items() matches Some(items) ==> match r {
                Ok(ts) => texts_of(items) == Ok::<Seq<Seq<char>>, ApiMiscError>(ts@.map_values(|t: String| t@)),
                Err(e) => texts_of(items) == Err::<Seq<Seq<char>>, ApiMiscError>(e),
            },
    {
        self.dependencies.as_array()
    }

    /// The plugin's init handler.
    pub fn handler(&self) -> (r: &F)
        ensures
            *r == self.spec_handler(),
    {
        &self.init_handler
    }

    /// The plugin's name.
    pub fn name(&self) -> (r: Result<&str, ApiMiscError>)
        ensures
            match r {
                Ok(t) => text_of(self.spec_name()@) == Ok::<Seq<char>, ApiMiscError>(t@),
                Err(e) => text_of(self.spec_name()@) == Err::<Seq<char>, ApiMiscError>(e),
            },
    {
        self.name.as_str()
    }

    /// The plugin's version.
    pub fn version(&self) -> (r: Result<&str, ApiMiscError>)
        ensures
            match r {
                Ok(t) => text_of(self.spec_version()@) == Ok::<Seq<char>, ApiMiscError>(t@),
                Err(e) => text_of(self.spec_version()@) == Err::<Seq<char>, ApiMiscError>(e),
            },
    {
        self.version.as_str()
    }

    /// Converts the manifest back to its raw form.
    pub fn to_c(self) -> (r: CPluginInfo<F>)
        ensures
            r.init_handler == Some(self.spec_handler()),
            r.name@ == self.spec_name()@,
            r.version@ == self.spec_version()@,
            r.dependencies.items() == self.spec_dependencies().items(),
            r.api_version == self.spec_api_version(),
    {
        CPluginInfo {
            name: self.name,
            version: self.version,
            dependencies: self.dependencies,
            init_handler: Some(self.init_handler),
            api_version: self.api_version,
        }
    }

    /// Reads the manifest into host values for mounting: the dependencies,
    /// then the name, then the version; the first that cannot be read
    /// gives the error.
    pub fn to_manifest(self) -> (r: Result<PluginManifest<F>, ApiMiscError>)
        ensures
            r matches Ok(m) ==> m.init_handler == Some(self.spec_handler()) && m.api_version == self.spec_api_version()
                && self.spec_dependencies().items() is Some
                && texts_of(self.spec_dependencies().items()->Some_0) == Ok::<Seq<Seq<char>>, ApiMiscError>(m.dependencies@.map_values(|t: String| t@))
                && text_of(self.spec_name()@) == Ok::<Seq<char>, ApiMiscError>(m.name@)
                && text_of(self.spec_version()@) == Ok::<Seq<char>, ApiMiscError>(m.version@),
            r is Err <==> (self.spec_dependencies().items() is None || texts_of(self.spec_dependencies().items()->Some_0) is Err
                || text_of(self.spec_name()@) is Err || text_of(self.spec_version()@) is Err),
    {
        let dependencies = match self.dependencies() {
            Ok(d) => d,
            Err(e) => return Err(e),
        };
        let name = match self.name() {
            Ok(n) => n.to_owned(),
            Err(e) => return Err(e),
        };
        let version = match self.version() {
            Ok(v) => v.to_owned(),
            Err(e) => return Err(e),
        };
        Ok(PluginManifest { name, version, dependencies, api_version: self.api_version, init_handler: Some(self.init_handler) })
    }
}

/// An event handler as a plugin holds it: the function and the id it was
/// registered under. Two handlers are the same when their ids are.
#[derive(Debug, Clone, Copy)]
pub struct EventHandler<F> {
    function: F,
    handler_id: CUuid,
}

/// The raw form of an event handler registration's answer: a handler, or
/// an error with a null function.
#[derive(Debug, Clone, Copy)]
pub struct CEventHandler<F> {
    pub function: Option<F>,
    pub handler_id: CUuid,
    pub error: CServiceError,
}

impl<F: Copy> EventHandler<F> {
    pub closed spec fn spec_function(&self) -> F {
        self.function
    }

    pub closed spec fn spec_id(&self) -> CUuid {
        self.handler_id
    }

    /// A handler from its function and id.
    pub fn new_unsafe(function: F, handler_id: CUuid) -> (r: EventHandler<F>)
        ensures
            r.spec_function() == function,
            r.spec_id() == handler_id,
    {
        EventHandler { function, handler_id }
    }

    /// The handler's function.
    pub fn handler(&self) -> (r: F)
        ensures
            r == self.spec_function(),
    {
        self.function
    }

    /// The id the handler was registered under.
    pub fn id(&self) -> (r: CUuid)
        ensures
            r == self.spec_id(),
    {
        self.handler_id
    }

    /// Whether both handlers are the same registration.
    pub fn same_handler(&self, other: &EventHandler<F>) -> (r: bool)
        ensures
            r == (self.spec_id() == other.spec_id()),
    {
        self.handler_id == other.handler_id
    }

    /// The raw form: a non-null function and `Success`.
    pub fn to_c(self) -> (r: CEventHandler<F>)
        ensures
            r.function == Some(self.spec_function()),
            r.handler_id == self.spec_id(),
            r.error == CServiceError::Success,
    {
        CEventHandler { function: Some(self.function), handler_id: self.handler_id, error: CServiceError::Success }
    }
}

impl<F: Copy> CEventHandler<F> {
    /// The raw answer of a failed registration.
    pub fn new_error(error: ServiceError) -> (r: CEventHandler<F>)
        ensures
            r.function is None,
            r.handler_id == (CUuid { higher: 0, lower: 0 }),
            r.error == crate::error::raw_of(error),
    {
        CEventHandler { function: None, handler_id: CUuid { higher: 0, lower: 0 }, error: error.to_c() }
    }

    /// Reads a registration's answer: its error if it carries one, else
    /// the handler, whose function must not be null.
    pub fn to_rust(self) -> (r: Result<EventHandler<F>, ServiceError>)
        ensures
            result_of(self.error) matches Err(e) ==> r == Err::<EventHandler<F>, ServiceError>(e),
            result_of(self.error) is Ok && self.function is None ==> r == Err::<EventHandler<F>, ServiceError>(
                ServiceError::NullFunctionPointer,
            ),
            r matches Ok(h) ==> result_of(self.error) is Ok && self.function == Some(h.spec_function())
                && h.spec_id() == self.handler_id,
    {
        match self.error.to_rust() {
            Err(e) => return Err(e),
            Ok(()) => {},
        }
        match self.function {
            None => Err(ServiceError::NullFunctionPointer),
            Some(function) => Ok(EventHandler { function, handler_id: self.handler_id }),
        }
    }
}

/// The services a plugin calls back into the host with: register and
/// unregister a handler, register, unregister and trigger an event, and
/// register, unregister and request an endpoint.
pub struct ApplicationContext<HR, HU, ER, EU, ET, NR, NU, NT> {
    pub event_handler_register: HR,
    pub event_handler_unregister: HU,
    pub event_register: ER,
    pub event_unregister: EU,
    pub event_trigger: ET,
    pub endpoint_register: NR,
    pub endpoint_unregister: NU,
    pub endpoint_request: NT,
}

/// The raw form of [`ApplicationContext`], whose pointers may be null.
pub struct CApplicationContext<HR, HU, ER, EU, ET, NR, NU, NT> {
    pub handler_register_service: Option<HR>,
    pub handler_unregister_service: Option<HU>,
    pub event_register_service: Option<ER>,
    pub event_unregister_service: Option<EU>,
    pub event_trigger_service: Option<ET>,
    pub endpoint_register_service: Option<NR>,
    pub endpoint_unregister_service: Option<NU>,
    pub endpoint_request_service: Option<NT>,
}

impl<HR, HU, ER, EU, ET, NR, NU, NT> CApplicationContext<HR, HU, ER, EU, ET, NR, NU, NT> {
    /// Every service pointer is set.
    pub open spec fn complete(&self) -> bool {
        &&& self.handler_register_service is Some
        &&& self.handler_unregister_service is Some
        &&& self.event_register_service is Some
        &&& self.event_unregister_service is Some
        &&& self.event_trigger_service is Some
        &&& self.endpoint_register_service is Some
        &&& self.endpoint_unregister_service is Some
        &&& self.endpoint_request_service is Some
    }

    /// Checks the raw context: any null service is NullFunctionPointer.
    pub fn to_rust(self) -> (r: Result<ApplicationContext<HR, HU, ER, EU, ET, NR, NU, NT>, ServiceError>)
        ensures
            r is Ok <==> self.complete(),
            r matches Err(e) ==> e == ServiceError::NullFunctionPointer,
            r matches Ok(c) ==> Some(c.event_handler_register) == self.handler_register_service
                && Some(c.event_handler_unregister) == self.handler_unregister_service
                && Some(c.event_register) == self.event_register_service
                && Some(c.event_unregister) == self.event_unregister_service
                && Some(c.event_trigger) == self.event_trigger_service
                && Some(c.endpoint_register) == self.endpoint_register_service
                && Some(c.endpoint_unregister) == self.endpoint_unregister_service
                && Some(c.endpoint_request) == self.endpoint_request_service,
    {
        let event_handler_register = match self.handler_register_service {
            Some(f) => f,
            None => return Err(ServiceError::NullFunctionPointer),
        };
        let event_handler_unregister = match self.handler_unregister_service {
            Some(f) => f,
            None => return Err(ServiceError::NullFunctionPointer),
        };
        let event_register = match self.event_register_service {
            Some(f) => f,
            None => return Err(ServiceError::NullFunctionPointer),
        };
        let event_unregister = match self.event_unregister_service {
            Some(f) => f,
            None => return Err(ServiceError::NullFunctionPointer),
        };
        let event_trigger = match self.event_trigger_service {
            Some(f) => f,
            None => return Err(ServiceError::NullFunctionPointer),
        };
        let endpoint_register = match self.endpoint_register_service {
            Some(f) => f,
            None => return Err(ServiceError::NullFunctionPointer),
        };
        let endpoint_unregister = match self.endpoint_unregister_service {
            Some(f) => f,
            None => return Err(ServiceError::NullFunctionPointer),
        };
        let endpoint_request = match self.endpoint_request_service {
            Some(f) => f,
            None => return Err(ServiceError::NullFunctionPointer),
        };
        Ok(
            ApplicationContext {
                event_handler_register,
                event_handler_unregister,
                event_register,
                event_unregister,
                event_trigger,
                endpoint_register,
                endpoint_unregister,
                endpoint_request,
            },
        )
    }
}

impl<HR, HU, ER, EU, ET, NR, NU, NT> ApplicationContext<HR, HU, ER, EU, ET, NR, NU, NT> {
    /// A context from its eight service functions.
    pub fn new_unsafe(
        handler_register_service: HR,
        handler_unregister_service: HU,
        event_register_service: ER,
        event_unregister_service: EU,
        event_trigger_service: ET,
        endpoint_register_service: NR,
        endpoint_unregister_service: NU,
        endpoint_request_service: NT,
    ) -> (r: ApplicationContext<HR, HU, ER, EU, ET, NR, NU, NT>)
        ensures
            r.event_handler_register == handler_register_service,
            r.event_handler_unregister == handler_unregister_service,
            r.event_register == event_register_service,
            r.event_unregister == event_unregister_service,
            r.event_trigger == event_trigger_service,
            r.endpoint_register == endpoint_register_service,
            r.endpoint_unregister == endpoint_unregister_service,
            r.endpoint_request == endpoint_request_service,
    {
        ApplicationContext {
            event_handler_register: handler_register_service,
            event_handler_unregister: handler_unregister_service,
            event_register: event_register_service,
            event_unregister: event_unregister_service,
            event_trigger: event_trigger_service,
            endpoint_register: endpoint_register_service,
            endpoint_unregister: endpoint_unregister_service,
            endpoint_request: endpoint_request_service,
        }
    }

    /// The raw form, every service set.
    pub fn to_c(self) -> (r: CApplicationContext<HR, HU, ER, EU, ET, NR, NU, NT>)
        ensures
            r.complete(),
            r.handler_register_service == Some(self.event_handler_register),
            r.handler_unregister_service == Some(self.event_handler_unregister),
            r.event_register_service == Some(self.event_register),
            r.event_unregister_service == Some(self.event_unregister),
            r.event_trigger_service == Some(self.event_trigger),
            r.endpoint_register_service == Some(self.endpoint_register),
            r.endpoint_unregister_service == Some(self.endpoint_unregister),
            r.endpoint_request_service == Some(self.endpoint_request),
    {
        CApplicationContext {
            handler_register_service: Some(self.event_handler_register),
            handler_unregister_service: Some(self.event_handler_unregister),
            event_register_service: Some(self.event_register),
            event_unregister_service: Some(self.event_unregister),
            event_trigger_service: Some(self.event_trigger),
            endpoint_register_service: Some(self.endpoint_register),
            endpoint_unregister_service: Some(self.endpoint_unregister),
            endpoint_request_service: Some(self.endpoint_request),
        }
    }
}

/// Supplies the context of host services to a plugin.
pub trait ContextSupplier<Ctx> {
    /// The context.
    fn supply() -> Ctx;
}

/// An event handler written against host values: it receives the context
/// supplier and the event's arguments as text.
pub trait EventHandlerFunc<C> {
    /// Handles one trigger.
    fn handle(context: C, args: &str) -> Result<(), ServiceError>;
}

/// A request handler written against host values: it receives the context
/// supplier, the requesting plugin's name and the arguments as text, and
/// answers with the response text.
pub trait RequestHandlerFunc<C> {
    /// Serves one request.
    fn handle(context: C, plugin_name: &str, args: &str) -> Result<String, ServiceError>;
}

/// The raw side of an event handler: unreadable arguments are
/// InvalidString and a null context supplier NullFunctionPointer, both
/// without calling the handler; otherwise the handler's result is sent
/// back as its code.
pub fn call_event_handler<C, H: EventHandlerFunc<C>>(context: Option<C>, args: &CString) -> (r: CServiceError)
    ensures
        text_of(args@) is Err ==> r == CServiceError::InvalidString,
        text_of(args@) is Ok && context is None ==> r == CServiceError::NullFunctionPointer,
{
    let text = match args.as_str() {
        Ok(t) => t,
        Err(_) => return CServiceError::InvalidString,
    };
    let supplier = match context {
        Some(c) => c,
        None => return CServiceError::NullFunctionPointer,
    };
    CServiceError::from_result(H::handle(supplier, text))
}

/// The raw side of a request handler: an unreadable plugin name or
/// arguments are InvalidString and a null context supplier
/// NullFunctionPointer, all without calling the handler; otherwise the
/// handler's response, or its error, is sent back as a foreign string.
pub fn call_request_handler<C, H: RequestHandlerFunc<C>>(context: Option<C>, plugin_name: &CString, args: &CString) -> (r: CString)
    ensures
        text_of(plugin_name@) is Err || text_of(args@) is Err ==> r@ == CStringView::Error(CServiceError::InvalidString),
        text_of(plugin_name@) is Ok && text_of(args@) is Ok && context is None ==> r@ == CStringView::Error(
            CServiceError::NullFunctionPointer,
        ),
        r@ is Error ==> r@->Error_0 != CServiceError::Success,
{
    let name = match plugin_name.as_str() {
        Ok(t) => t,
        Err(_) => return CString::from_error(ServiceError::InvalidString),
    };
    let text = match args.as_str() {
        Ok(t) => t,
        Err(_) => return CString::from_error(ServiceError::InvalidString),
    };
    let supplier = match context {
        Some(c) => c,
        None => return CString::from_error(ServiceError::NullFunctionPointer),
    };
    H::handle(supplier, name, text).to_c_string()
}

} // verus!
