use edl::rpc::server::{
    extract_task_id, handle_call, param_offset, parse_call, token_accepted, ParamValue, RpcCommand, RpcFault,
    RpcParams, RpcResponse, SERVER_ERROR, UNAUTHORIZED,
};

fn positional(items: &[&str]) -> RpcParams {
    RpcParams::Positional(items.iter().map(|s| ParamValue::Text(s.to_string())).collect())
}

fn named(items: Vec<(&str, ParamValue)>) -> RpcParams {
    RpcParams::Named(items.into_iter().map(|(k, v)| (k.to_string(), v)).collect())
}

#[test]
fn offsets() {
    assert_eq!(param_offset(true), 1);
    assert_eq!(param_offset(false), 0);
}

#[test]
fn tokens() {
    let p = positional(&["token:s3cret", "gid1"]);
    assert!(token_accepted(Some("s3cret"), &p));
    assert!(!token_accepted(Some("other"), &p));
    assert!(token_accepted(None, &p));
    assert!(!token_accepted(Some("s3cret"), &named(vec![("token", ParamValue::Text("token:s3cret".into()))])));
    assert!(!token_accepted(Some("x"), &RpcParams::Other));
}

#[test]
fn task_ids_by_position_or_gid() {
    assert_eq!(extract_task_id(&positional(&["abc"]), 0).unwrap(), "abc");
    assert_eq!(extract_task_id(&positional(&["token:x", "abc"]), 1).unwrap(), "abc");
    assert_eq!(extract_task_id(&named(vec![("gid", ParamValue::Text("g".into()))]), 0).unwrap(), "g");
    assert!(matches!(extract_task_id(&positional(&[]), 0), Err(RpcFault::MissingTaskId)));
    assert!(matches!(
        extract_task_id(&RpcParams::Positional(vec![ParamValue::Unsigned(3)]), 0),
        Err(RpcFault::MissingTaskId)
    ));
}

#[test]
fn add_uri_calls() {
    match parse_call("addUri", &positional(&["http://x/f.zip", "out.zip"]), false, 8).unwrap() {
        RpcCommand::AddUri(o) => {
            assert_eq!(o.url, "http://x/f.zip");
            assert_eq!(o.output.as_deref(), Some("out.zip"));
            assert_eq!(o.split, 8);
            assert_eq!(o.max_connections, 8);
            assert!(o.dir.is_none());
        }
        other => panic!("unexpected {:?}", other),
    }
    let p = named(vec![
        ("url", ParamValue::Text("http://y".into())),
        ("split", ParamValue::Unsigned(300)),
    ]);
    match parse_call("addUri", &p, false, 8).unwrap() {
        RpcCommand::AddUri(o) => {
            assert_eq!(o.url, "http://y");
            assert!(o.output.is_none());
            assert_eq!(o.split, 44);
        }
        other => panic!("unexpected {:?}", other),
    }
    assert!(matches!(parse_call("addUri", &positional(&[]), false, 8), Err(RpcFault::MissingUrl)));
}

#[test]
fn task_method_calls() {
    assert!(matches!(parse_call("pause", &positional(&["t"]), false, 8), Ok(RpcCommand::Pause(ref id)) if id == "t"));
    assert!(matches!(parse_call("unpause", &positional(&["tok", "t"]), true, 8), Ok(RpcCommand::Unpause(ref id)) if id == "t"));
    assert!(matches!(parse_call("remove", &positional(&["t"]), false, 8), Ok(RpcCommand::Remove(_))));
    assert!(matches!(parse_call("tellStatus", &positional(&["t"]), false, 8), Ok(RpcCommand::TellStatus(_))));
    assert!(matches!(parse_call("pause", &positional(&[]), false, 8), Err(RpcFault::MissingTaskId)));
    assert!(matches!(parse_call("tellActive", &RpcParams::Other, false, 8), Ok(RpcCommand::TellActive)));
    assert!(matches!(parse_call("tellWaiting", &RpcParams::Other, false, 8), Ok(RpcCommand::TellWaiting)));
    assert!(matches!(parse_call("tellStopped", &RpcParams::Other, false, 8), Ok(RpcCommand::TellStopped)));
    assert!(matches!(parse_call("getGlobalStat", &RpcParams::Other, false, 8), Ok(RpcCommand::GetGlobalStat)));
    match parse_call("shutdown", &RpcParams::Other, false, 8) {
        Err(f @ RpcFault::UnknownMethod(_)) => assert_eq!(f.message(), "unknown method: shutdown"),
        other => panic!("unexpected {:?}", other),
    }
}

#[test]
fn global_option_calls() {
    let text = named(vec![("max-overall-download-limit", ParamValue::Text("2M".into()))]);
    assert!(matches!(parse_call("changeGlobalOption", &text, false, 8), Ok(RpcCommand::ChangeGlobalOption(Some(2097152)))));
    let number = named(vec![("max-overall-download-limit", ParamValue::Unsigned(500))]);
    assert!(matches!(parse_call("changeGlobalOption", &number, false, 8), Ok(RpcCommand::ChangeGlobalOption(Some(500)))));
    assert!(matches!(parse_call("changeGlobalOption", &RpcParams::Other, false, 8), Ok(RpcCommand::ChangeGlobalOption(None))));
    let bad = named(vec![("max-overall-download-limit", ParamValue::Text("fast".into()))]);
    match parse_call("changeGlobalOption", &bad, false, 8) {
        Err(f @ RpcFault::InvalidSpeedLimit(_)) => assert_eq!(f.message(), "invalid digit found in string"),
        other => panic!("unexpected {:?}", other),
    }
}

#[test]
fn refused_and_failed_calls() {
    let p = positional(&["token:wrong", "t"]);
    let f = handle_call(Some("right"), "pause", &p, 8).unwrap_err();
    assert_eq!(f.code, UNAUTHORIZED);
    assert_eq!(f.message, "Unauthorized: invalid or missing token");
    let p = positional(&["token:right"]);
    let f = handle_call(Some("right"), "pause", &p, 8).unwrap_err();
    assert_eq!(f.code, SERVER_ERROR);
    assert_eq!(f.message, "missing task id");
    let p = positional(&["token:right", "t"]);
    assert!(matches!(handle_call(Some("right"), "pause", &p, 8), Ok(RpcCommand::Pause(_))));
}

#[test]
fn responses() {
    let ok = RpcResponse::success(serde_json::Value::from(1), serde_json::Value::from("x"));
    assert_eq!(ok.jsonrpc, "2.0");
    assert!(ok.error.is_none());
    assert_eq!(ok.result, Some(serde_json::Value::from("x")));
    let err = RpcResponse::error(serde_json::Value::from("a"), -32000, "boom".into());
    assert!(err.result.is_none());
    let e = err.error.unwrap();
    assert_eq!((e.code, e.message.as_str()), (-32000, "boom"));
}
