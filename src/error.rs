//! The service error taxonomy shared by the host and its plugins, and its
//! wire encoding.
use vstd::prelude::*;

verus! {

/// Every error a service call across the plugin boundary can report.
///
/// The wire form, [`CServiceError`], has one more variant, `Success`; here
/// success is the `Ok` of a `Result`.
#[derive(Debug, Clone, Copy, PartialEq, Eq, Structural)]
pub enum ServiceError {
    /// A problem in the host itself: a broken invariant of the core.
    CoreInternalError,
    /// An identifier was registered already.
    Duplicate,
    /// Arguments or a response did not satisfy their JSON Schema.
    InvalidApi,
    /// A string expected to hold JSON did not.
    InvalidJson,
    /// A JSON value expected to be a JSON Schema was not one.
    InvalidSchema,
    /// A string was invalid, or its content is not allowed where it stands.
    InvalidString,
    /// A plugin, event, endpoint or handler was not found.
    NotFound,
    /// A function pointer that must not be null was null.
    NullFunctionPointer,
    /// A plugin failed in a way that no other variant describes.
    PluginInternalError,
    /// Reserved; never produced.
    PluginUninit,
    /// The host is shutting down or restarting.
    ShuttingDown,
    /// A plugin acted on an item that another plugin owns.
    Unauthorized,
}

/// The wire form of a service result: `Success` or one error.
#[derive(Debug, Clone, Copy, PartialEq, Eq, Structural)]
pub enum CServiceError {
    Success,
    CoreInternalError,
    PluginInternalError,
    NullFunctionPointer,
    InvalidString,
    InvalidJson,
    InvalidSchema,
    InvalidApi,
    NotFound,
    Unauthorized,
    Duplicate,
    PluginUninit,
    ShuttingDown,
}

/// The raw channel value of an error.
pub open spec fn raw_of(e: ServiceError) -> CServiceError {
    match e {
        ServiceError::CoreInternalError => CServiceError::CoreInternalError,
        ServiceError::PluginInternalError => CServiceError::PluginInternalError,
        ServiceError::NullFunctionPointer => CServiceError::NullFunctionPointer,
        ServiceError::InvalidString => CServiceError::InvalidString,
        ServiceError::InvalidJson => CServiceError::InvalidJson,
        ServiceError::InvalidSchema => CServiceError::InvalidSchema,
        ServiceError::InvalidApi => CServiceError::InvalidApi,
        ServiceError::NotFound => CServiceError::NotFound,
        ServiceError::Unauthorized => CServiceError::Unauthorized,
        ServiceError::Duplicate => CServiceError::Duplicate,
        ServiceError::PluginUninit => CServiceError::PluginUninit,
        ServiceError::ShuttingDown => CServiceError::ShuttingDown,
    }
}

/// The result that a raw channel value stands for.
pub open spec fn result_of(c: CServiceError) -> Result<(), ServiceError> {
    match c {
        CServiceError::Success => Ok(()),
        CServiceError::CoreInternalError => Err(ServiceError::CoreInternalError),
        CServiceError::PluginInternalError => Err(ServiceError::PluginInternalError),
        CServiceError::NullFunctionPointer => Err(ServiceError::NullFunctionPointer),
        CServiceError::InvalidString => Err(ServiceError::InvalidString),
        CServiceError::InvalidJson => Err(ServiceError::InvalidJson),
        CServiceError::InvalidSchema => Err(ServiceError::InvalidSchema),
        CServiceError::InvalidApi => Err(ServiceError::InvalidApi),
        CServiceError::NotFound => Err(ServiceError::NotFound),
        CServiceError::Unauthorized => Err(ServiceError::Unauthorized),
        CServiceError::Duplicate => Err(ServiceError::Duplicate),
        CServiceError::PluginUninit => Err(ServiceError::PluginUninit),
        CServiceError::ShuttingDown => Err(ServiceError::ShuttingDown),
    }
}

/// The numeric wire code: `Success` is 0, then the errors in declaration
/// order of [`CServiceError`].
pub open spec fn code_of(c: CServiceError) -> u32 {
    match c {
        CServiceError::Success => 0,
        CServiceError::CoreInternalError => 1,
        CServiceError::PluginInternalError => 2,
        CServiceError::NullFunctionPointer => 3,
        CServiceError::InvalidString => 4,
        CServiceError::InvalidJson => 5,
        CServiceError::InvalidSchema => 6,
        CServiceError::InvalidApi => 7,
        CServiceError::NotFound => 8,
        CServiceError::Unauthorized => 9,
        CServiceError::Duplicate => 10,
        CServiceError::PluginUninit => 11,
        CServiceError::ShuttingDown => 12,
    }
}

/// The largest wire code.
pub const MAX_CODE: u32 = 12;

impl CServiceError {
    /// Converts the raw value to a result: `Success` becomes `Ok(())`,
    /// every other variant the error of the same name.
    pub fn to_rust(self) -> (r: Result<(), ServiceError>)
        ensures
            r == result_of(self),
    {
        match self {
            CServiceError::Success => Ok(()),
            CServiceError::CoreInternalError => Err(ServiceError::CoreInternalError),
            CServiceError::PluginInternalError => Err(ServiceError::PluginInternalError),
            CServiceError::NullFunctionPointer => Err(ServiceError::NullFunctionPointer),
            CServiceError::InvalidString => Err(ServiceError::InvalidString),
            CServiceError::InvalidJson => Err(ServiceError::InvalidJson),
            CServiceError::InvalidSchema => Err(ServiceError::InvalidSchema),
            CServiceError::InvalidApi => Err(ServiceError::InvalidApi),
            CServiceError::NotFound => Err(ServiceError::NotFound),
            CServiceError::Unauthorized => Err(ServiceError::Unauthorized),
            CServiceError::Duplicate => Err(ServiceError::Duplicate),
            CServiceError::PluginUninit => Err(ServiceError::PluginUninit),
            CServiceError::ShuttingDown => Err(ServiceError::ShuttingDown),
        }
    }

    /// The raw value of a result: `Ok(())` is `Success`, an error its raw
    /// variant.
    pub fn from_result(r: Result<(), ServiceError>) -> (c: CServiceError)
        ensures
            c == (match r {
                Ok(()) => CServiceError::Success,
                Err(e) => raw_of(e),
            }),
    {
        match r {
            Ok(()) => CServiceError::Success,
            Err(e) => e.to_c(),
        }
    }

    /// The numeric wire code of this value.
    pub fn code(self) -> (n: u32)
        ensures
            n == code_of(self),
            n <= MAX_CODE,
    {
        match self {
            CServiceError::Success => 0,
            CServiceError::CoreInternalError => 1,
            CServiceError::PluginInternalError => 2,
            CServiceError::NullFunctionPointer => 3,
            CServiceError::InvalidString => 4,
            CServiceError::InvalidJson => 5,
            CServiceError::InvalidSchema => 6,
            CServiceError::InvalidApi => 7,
            CServiceError::NotFound => 8,
            CServiceError::Unauthorized => 9,
            CServiceError::Duplicate => 10,
            CServiceError::PluginUninit => 11,
            CServiceError::ShuttingDown => 12,
        }
    }

    /// Decodes a wire code; codes above the largest one are not errors
    /// this host knows and decode to `None`.
    pub fn from_code(n: u32) -> (r: Option<CServiceError>)
        ensures
            r.is_some() <==> n <= MAX_CODE,
            r matches Some(c) ==> code_of(c) == n,
    {
        match n {
            0 => Some(CServiceError::Success),
            1 => Some(CServiceError::CoreInternalError),
            2 => Some(CServiceError::PluginInternalError),
            3 => Some(CServiceError::NullFunctionPointer),
            4 => Some(CServiceError::InvalidString),
            5 => Some(CServiceError::InvalidJson),
            6 => Some(CServiceError::InvalidSchema),
            7 => Some(CServiceError::InvalidApi),
            8 => Some(CServiceError::NotFound),
            9 => Some(CServiceError::Unauthorized),
            10 => Some(CServiceError::Duplicate),
            11 => Some(CServiceError::PluginUninit),
            12 => Some(CServiceError::ShuttingDown),
            _ => None,
        }
    }
}

impl ServiceError {
    /// Converts the error to its raw variant of the same name.
    pub fn to_c(self) -> (c: CServiceError)
        ensures
            c == raw_of(self),
            c != CServiceError::Success,
    {
        match self {
            ServiceError::CoreInternalError => CServiceError::CoreInternalError,
            ServiceError::PluginInternalError => CServiceError::PluginInternalError,
            ServiceError::NullFunctionPointer => CServiceError::NullFunctionPointer,
            ServiceError::InvalidString => CServiceError::InvalidString,
            ServiceError::InvalidJson => CServiceError::InvalidJson,
            ServiceError::InvalidSchema => CServiceError::InvalidSchema,
            ServiceError::InvalidApi => CServiceError::InvalidApi,
            ServiceError::NotFound => CServiceError::NotFound,
            ServiceError::Unauthorized => CServiceError::Unauthorized,
            ServiceError::Duplicate => CServiceError::Duplicate,
            ServiceError::PluginUninit => CServiceError::PluginUninit,
            ServiceError::ShuttingDown => CServiceError::ShuttingDown,
        }
    }
}

/// An error sent through the raw channel and read back is the same error.
pub proof fn lemma_error_round_trip(e: ServiceError)
    ensures
        result_of(raw_of(e)) == Err::<(), ServiceError>(e),
{
}

/// A raw value other than `Success`, read as an error and sent back, is the
/// same raw value.
pub proof fn lemma_raw_round_trip(c: CServiceError)
    requires
        c != CServiceError::Success,
    ensures
        result_of(c) is Err,
        raw_of(result_of(c)->Err_0) == c,
{
}

/// Distinct raw values have distinct wire codes, so decoding a code gives
/// back the value it was encoded from.
pub proof fn lemma_code_round_trip(c: CServiceError, d: CServiceError)
    ensures
        code_of(c) <= MAX_CODE,
        code_of(c) == code_of(d) ==> c == d,
{
}

} // verus!
