use hyperlight_unikraft::registry::{
    build_tools, empty_result, encode_reply, exit_code, sandbox_tools, sleep_ns, Builtin, Dispatch,
    Tool, ToolRegistry,
};
use serde_json::Value;

type Handler = fn(Value) -> Result<Value, String>;

fn text(d: Dispatch) -> String {
    match d {
        Dispatch::Reply(b) => String::from_utf8(b).unwrap(),
        Dispatch::Pending(b, _) => panic!("{b:?}"),
    }
}

fn echo(args: Value) -> Result<Value, String> {
    Ok(args)
}

fn refuse(_: Value) -> Result<Value, String> {
    Err("open \"x\": Zugriff verweigert (os error 13)".to_string())
}

fn registry() -> ToolRegistry<Handler> {
    let mut r: ToolRegistry<Handler> = ToolRegistry::new();
    r.register("echo", echo);
    r.register("refuse", refuse);
    r
}

#[test]
fn dispatch_runs_the_handler() {
    let r = registry();
    assert_eq!(
        text(r.dispatch(br#"{"name":"echo","args":{"a":[1,-2,true,null,"x"]}}"#)),
        r#"{"result":{"a":[1,-2,true,null,"x"]}}"#
    );
    assert_eq!(text(r.dispatch(br#"{"name":"echo"}"#)), r#"{"result":null}"#);
}

#[test]
fn dispatch_normalizes_errors() {
    assert_eq!(
        text(registry().dispatch(br#"{"name":"refuse","args":{}}"#)),
        r#"{"error":"open \"x\": Permission denied (os error 13)"}"#
    );
}

#[test]
fn dispatch_rejects_bad_requests() {
    let r = registry();
    assert_eq!(
        text(r.dispatch(b"{")),
        r#"{"error":"EOF while parsing an object at line 1 column 1"}"#
    );
    assert_eq!(text(r.dispatch(b"[]")), r#"{"error":"missing 'name'"}"#);
    assert_eq!(text(r.dispatch(br#"{"name":3}"#)), r#"{"error":"missing 'name'"}"#);
    assert_eq!(
        text(r.dispatch(br#"{"name":"nope"}"#)),
        r#"{"error":"unknown tool: nope"}"#
    );
}

#[test]
fn registering_again_replaces() {
    let mut r = registry();
    r.register("echo", refuse);
    assert!(text(r.dispatch(br#"{"name":"echo"}"#)).contains("error"));
    assert_eq!(r.tools.len(), 2);
}

#[test]
fn internal_tools_take_the_place_of_user_tools() {
    let mut user = registry();
    user.register("__hl_exit", echo);
    user.register("fs_read", echo);
    user.register("net_send", echo);
    let r = sandbox_tools(Some(user), true, false);
    let pending = |req: &[u8]| match r.dispatch(req) {
        Dispatch::Pending(b, args) => (b, args),
        Dispatch::Reply(b) => panic!("{b:?}"),
    };
    let (b, args) = pending(br#"{"name":"__hl_exit","args":{"code":3}}"#);
    assert_eq!((b, exit_code(&args)), (Builtin::Exit, 3));
    assert!(matches!(
        pending(br#"{"name":"fs_read"}"#).0,
        Builtin::Fs(_)
    ));
    // Without a policy the caller's own tool stays.
    assert_eq!(
        text(r.dispatch(br#"{"name":"net_send","args":1}"#)),
        r#"{"result":1}"#
    );
    assert_eq!(text(r.dispatch(br#"{"name":"echo","args":2}"#)), r#"{"result":2}"#);
}

#[test]
fn file_tools_need_mounts() {
    assert!(build_tools::<Handler>(None, false).is_none());
    assert!(build_tools::<Handler>(None, true).is_some());
    let r: ToolRegistry<Handler> = sandbox_tools(None, false, true);
    assert_eq!(
        text(r.dispatch(br#"{"name":"fs_read","args":{"path":"/host/x"}}"#)),
        r#"{"error":"unknown tool: fs_read"}"#
    );
    assert!(r.get("net_getsockname").is_some());
}

#[test]
fn exit_codes() {
    let code = |s: &str| exit_code(&serde_json::from_str(s).unwrap());
    assert_eq!(code("{}"), 1);
    assert_eq!(code(r#"{"code":0}"#), 0);
    assert_eq!(code(r#"{"code":-7}"#), -7);
    assert_eq!(code(r#"{"code":"3"}"#), 1);
    assert_eq!(code(r#"{"code":4294967298}"#), 2);
    assert_eq!(code(r#"{"code":18446744073709551615}"#), 1);
}

#[test]
fn sleeps_have_a_cap() {
    let ns = |s: &str| sleep_ns(&serde_json::from_str(s).unwrap());
    assert_eq!(ns("null"), 0);
    assert_eq!(ns(r#"{"ns":1500}"#), 1500);
    assert_eq!(ns(r#"{"ns":-1}"#), 0);
    assert_eq!(ns(r#"{"ns":60000000001}"#), 60_000_000_000);
}

#[test]
fn replies_are_read_back() {
    let bytes = encode_reply(empty_result());
    assert_eq!(bytes, br#"{"result":{}}"#);
    let bytes = encode_reply(Err("odd \"text\"\n\u{1F600}".to_string()));
    let back: Value = serde_json::from_slice(&bytes).unwrap();
    assert_eq!(back["error"], "odd \"text\"\n\u{1F600}");
    assert_eq!(back.as_object().unwrap().len(), 1);
}

#[test]
fn every_tool_is_found_under_its_name() {
    let r: ToolRegistry<Handler> = sandbox_tools(None, true, true);
    let names = [
        "__hl_exit", "__hl_sleep", "fs_read", "fs_write", "fs_list", "fs_stat", "fs_read_bytes",
        "fs_write_bytes", "fs_truncate", "fs_mkdir", "fs_unlink", "net_socket", "net_connect",
        "net_bind", "net_listen", "net_accept", "net_send", "net_sendto", "net_recv",
        "net_recvfrom", "net_close", "net_shutdown", "net_setsockopt", "net_getsockopt",
        "net_getpeername", "net_getsockname",
    ];
    assert_eq!(r.tools.len(), names.len());
    for name in names {
        match r.get(name) {
            Some(Tool::Builtin(Builtin::Net(t))) => assert_eq!(t.name(), name),
            Some(Tool::Builtin(Builtin::Fs(t))) => assert_eq!(t.name(), name),
            Some(Tool::Builtin(Builtin::Exit)) => assert_eq!(name, "__hl_exit"),
            Some(Tool::Builtin(Builtin::Sleep)) => assert_eq!(name, "__hl_sleep"),
            _ => panic!("{name}"),
        }
    }
}

#[test]
fn a_default_registry_is_empty() {
    let r: ToolRegistry<Handler> = ToolRegistry::default();
    assert!(r.get("echo").is_none());
    assert_eq!(
        text(r.dispatch(br#"{"name":"echo","args":{}}"#)),
        r#"{"error":"unknown tool: echo"}"#
    );
}
