use plugin_loader::abi::{call_event_handler, call_request_handler, EventHandlerFunc, RequestHandlerFunc};
use plugin_loader::abi::{
    ApiMiscError, ApplicationContext, CApplicationContext, CEventHandler, CList_String, CPluginInfo, CString,
    EventHandler, PluginInfo, ToCString,
};
use plugin_loader::error::{CServiceError, ServiceError};
use plugin_loader::ident::CUuid;
use plugin_loader::version::CApiVersion;

#[test]
fn foreign_string_reads() {
    assert_eq!(CString::from_text("hi".to_string()).as_str(), Ok("hi"));
    assert_eq!(CString::from_error(ServiceError::NotFound).as_str(), Err(ApiMiscError::Service(ServiceError::NotFound)));
    assert_eq!(CString::Error(CServiceError::Success).as_str(), Err(ApiMiscError::InvalidString));
    assert_eq!(CString::Invalid.as_str(), Err(ApiMiscError::InvalidString));
    assert_eq!(CString::NotUtf8.as_str(), Err(ApiMiscError::Utf8));
    assert_eq!(CString::NotUtf8.to_result(), Err(ServiceError::InvalidString));
    assert_eq!(CString::from_error(ServiceError::Duplicate).to_result(), Err(ServiceError::Duplicate));
    assert_eq!(CString::from_text("x".to_string()).to_result(), Ok("x".to_string()));
    let sent = Err::<String, ServiceError>(ServiceError::InvalidApi).to_c_string();
    assert_eq!(sent.to_result(), Err(ServiceError::InvalidApi));
    let sent = Ok::<String, ServiceError>("{}".to_string()).to_c_string();
    assert_eq!(sent.as_str(), Ok("{}"));
}

#[test]
fn foreign_list_reads() {
    let list = CList_String::from_texts(vec!["a".to_string(), "b".to_string()]);
    assert_eq!(list.as_array(), Ok(vec!["a".to_string(), "b".to_string()]));
    assert_eq!(CList_String::Invalid.as_array(), Err(ApiMiscError::InvalidList));
    let mixed = CList_String::Valid(vec![
        CString::from_text("a".to_string()),
        CString::NotUtf8,
        CString::from_error(ServiceError::NotFound),
    ]);
    assert_eq!(mixed.as_array(), Err(ApiMiscError::Utf8));
    assert_eq!(CList_String::from_texts(vec![]).as_array(), Ok(vec![]));
}

#[test]
fn plugin_info_conversions() {
    let raw = CPluginInfo {
        name: CString::from_text("A".to_string()),
        version: CString::from_text("1.0.0".to_string()),
        dependencies: CList_String::from_texts(vec!["B".to_string()]),
        init_handler: None::<u8>,
        api_version: CApiVersion::new(0, 1, 0),
    };
    assert_eq!(raw.to_rust().err(), Some(ServiceError::NullFunctionPointer));
    let info = PluginInfo::new("A".to_string(), "1.0.0".to_string(), vec!["B".to_string()], 9u8, CApiVersion::new(0, 1, 2));
    assert_eq!(info.name(), Ok("A"));
    assert_eq!(info.version(), Ok("1.0.0"));
    assert_eq!(info.dependencies(), Ok(vec!["B".to_string()]));
    assert_eq!(*info.handler(), 9);
    assert_eq!(info.api_version().patch, 2);
    let raw = info.to_c();
    assert_eq!(raw.init_handler, Some(9));
    let info = raw.to_rust().ok().unwrap();
    let m = info.to_manifest().ok().unwrap();
    assert_eq!(m.name, "A");
    assert_eq!(m.version, "1.0.0");
    assert_eq!(m.dependencies, vec!["B".to_string()]);
    assert_eq!(m.init_handler, Some(9));
    let bad = PluginInfo::new_unsafe(CString::Invalid, CString::Invalid, CList_String::from_texts(vec![]), 1u8, CApiVersion::new(0, 1, 0));
    assert_eq!(bad.to_manifest().err(), Some(ApiMiscError::InvalidString));
}

#[test]
fn event_handler_conversions() {
    let id = CUuid::from_u64_pair(3, 4);
    let h = EventHandler::new_unsafe(5u8, id);
    assert_eq!(h.id(), id);
    assert_eq!(h.handler(), 5);
    assert!(h.same_handler(&EventHandler::new_unsafe(6u8, id)));
    let raw = h.to_c();
    assert_eq!(raw.error, CServiceError::Success);
    let back = raw.to_rust().unwrap();
    assert_eq!((back.handler(), back.id()), (5, id));
    let err = CEventHandler::<u8>::new_error(ServiceError::NotFound);
    assert_eq!(err.to_rust().err(), Some(ServiceError::NotFound));
    let null = CEventHandler::<u8> { function: None, handler_id: id, error: CServiceError::Success };
    assert_eq!(null.to_rust().err(), Some(ServiceError::NullFunctionPointer));
}

#[test]
fn application_context_conversions() {
    let ctx = ApplicationContext::new_unsafe(1u8, 2u8, 3u8, 4u8, 5u8, 6u8, 7u8, 8u8);
    let raw = ctx.to_c();
    assert_eq!(raw.event_trigger_service, Some(5));
    let back = raw.to_rust().ok().unwrap();
    assert_eq!(back.endpoint_request, 8);
    let mut raw = back.to_c();
    raw.endpoint_unregister_service = None;
    assert_eq!(raw.to_rust().err(), Some(ServiceError::NullFunctionPointer));
    let empty: CApplicationContext<u8, u8, u8, u8, u8, u8, u8, u8> = CApplicationContext {
        handler_register_service: None,
        handler_unregister_service: None,
        event_register_service: None,
        event_unregister_service: None,
        event_trigger_service: None,
        endpoint_register_service: None,
        endpoint_unregister_service: None,
        endpoint_request_service: None,
    };
    assert_eq!(empty.to_rust().err(), Some(ServiceError::NullFunctionPointer));
}

struct Echo;

impl RequestHandlerFunc<u8> for Echo {
    fn handle(context: u8, plugin_name: &str, args: &str) -> Result<String, ServiceError> {
        if args == "fail" {
            return Err(ServiceError::PluginInternalError);
        }
        Ok(format!("{context}:{plugin_name}:{args}"))
    }
}

struct Picky;

impl EventHandlerFunc<u8> for Picky {
    fn handle(_context: u8, args: &str) -> Result<(), ServiceError> {
        if args == "{}" {
            Ok(())
        } else {
            Err(ServiceError::InvalidApi)
        }
    }
}

#[test]
fn raw_handler_adapters() {
    let ok = CString::from_text("{}".to_string());
    assert_eq!(call_event_handler::<u8, Picky>(Some(1), &ok), CServiceError::Success);
    assert_eq!(call_event_handler::<u8, Picky>(Some(1), &CString::from_text("[]".to_string())), CServiceError::InvalidApi);
    assert_eq!(call_event_handler::<u8, Picky>(Some(1), &CString::Invalid), CServiceError::InvalidString);
    assert_eq!(call_event_handler::<u8, Picky>(None, &ok), CServiceError::NullFunctionPointer);
    let name = CString::from_text("b".to_string());
    let answer = call_request_handler::<u8, Echo>(Some(7), &name, &ok);
    assert_eq!(answer.as_str(), Ok("7:b:{}"));
    let failed = call_request_handler::<u8, Echo>(Some(7), &name, &CString::from_text("fail".to_string()));
    assert_eq!(failed.to_result(), Err(ServiceError::PluginInternalError));
    let bad = call_request_handler::<u8, Echo>(Some(7), &CString::NotUtf8, &ok);
    assert_eq!(bad.to_result(), Err(ServiceError::InvalidString));
    let null = call_request_handler::<u8, Echo>(None, &name, &ok);
    assert_eq!(null.to_result(), Err(ServiceError::NullFunctionPointer));
}
