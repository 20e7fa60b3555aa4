use maya_mcp::json::{parse, Json};
use maya_mcp::maya::{read_reply, settle, CallAction, CallEvent, MayaClient, MayaError, Request};

fn client() -> MayaClient {
    MayaClient { host: "10.0.0.7".to_string(), port: 5056, timeout: 90 }
}

fn request() -> Request {
    Request { op: "python".to_string(), code: "1 +\n1".to_string(), args: Json::empty_object() }
}

fn finish(event: CallEvent) -> Result<Json, MayaError> {
    match client().call(&request(), event) {
        CallAction::Finish(outcome) => outcome,
        other => panic!("{other:?}"),
    }
}

fn protocol(outcome: Result<Json, MayaError>) -> String {
    match outcome {
        Err(MayaError::Protocol(what)) => what,
        other => panic!("{other:?}"),
    }
}

fn script(outcome: Result<Json, MayaError>) -> String {
    match outcome {
        Err(MayaError::Script(what)) => what,
        other => panic!("{other:?}"),
    }
}

#[test]
fn defaults_are_taken() {
    let c = MayaClient::from_env(None, None, None);
    assert_eq!((c.host.as_str(), c.port, c.timeout), ("127.0.0.1", 5055, 120));
}

#[test]
fn settings_are_taken() {
    let c = MayaClient::from_env(Some("maya.local".to_string()), Some("0"), Some("7"));
    assert_eq!((c.host.as_str(), c.port, c.timeout), ("maya.local", 0, 7));
    let c = MayaClient::from_env(Some(String::new()), Some("65536"), Some("0"));
    assert_eq!((c.host.as_str(), c.port, c.timeout), ("", 5055, 120));
    let copy = c.clone();
    assert_eq!((copy.host.as_str(), copy.port, copy.timeout), ("", 5055, 120));
}

#[test]
fn errors_have_their_messages() {
    let e = client().not_listening("拒绝".to_string());
    assert_eq!(
        e.to_string(),
        "无法连接 Maya listener (10.0.0.7:5056): 拒绝\n请先在 Maya 的 Script Editor (Python 标签页) 中执行:\n  p = r\"<路径>/maya/maya_mcp_listener.py\"; exec(compile(open(p, \"rb\").read(), p, \"exec\"))"
    );
    assert_eq!(
        MayaError::Timeout { timeout: 120 }.to_string(),
        "等待 Maya 响应超时 (120s)。Maya 主线程可能被模态对话框阻塞，或脚本仍在运行"
    );
    assert_eq!(MayaError::Protocol("x".to_string()).to_string(), "Maya listener 协议错误: x");
    assert_eq!(MayaError::Script("boom".to_string()).to_string(), "boom");
}

#[test]
fn a_call_connects_sends_and_receives() {
    let c = client();
    let r = request();
    assert!(matches!(c.call(&r, CallEvent::Start), CallAction::Connect { timeout: 5 }));
    match c.call(&r, CallEvent::Connected { id: 3 }) {
        CallAction::Send { payload, timeout } => {
            assert_eq!(timeout, 5);
            assert_eq!(
                payload,
                "{\"args\":{},\"code\":\"1 +\\n1\",\"id\":3,\"op\":\"python\"}\n"
            );
            assert_eq!(payload.matches('\n').count(), 1);
        }
        other => panic!("{other:?}"),
    }
    assert!(matches!(c.call(&r, CallEvent::Sent), CallAction::Receive { timeout: 90 }));
    let resp = finish(CallEvent::Received { line: "{\"ok\": true, \"result\": \"2\"}\n".into() });
    assert_eq!(resp.unwrap().get("result").unwrap().as_str(), Some("2"));
}

#[test]
fn a_failed_connection_is_not_listening() {
    match finish(CallEvent::ConnectFailed { reason: "refused".to_string() }) {
        Err(MayaError::NotListening { host, port, reason }) => {
            assert_eq!((host.as_str(), port, reason.as_str()), ("10.0.0.7", 5056, "refused"));
        }
        other => panic!("{other:?}"),
    }
    match finish(CallEvent::ConnectTimedOut) {
        Err(MayaError::NotListening { reason, .. }) => assert_eq!(reason, "连接超时"),
        other => panic!("{other:?}"),
    }
}

#[test]
fn broken_exchanges_are_protocol_errors() {
    assert_eq!(
        protocol(finish(CallEvent::SendFailed { reason: "pipe".to_string() })),
        "发送请求失败: pipe"
    );
    assert_eq!(protocol(finish(CallEvent::SendTimedOut)), "发送请求超时");
    assert_eq!(
        protocol(finish(CallEvent::ReceiveFailed { reason: "reset".to_string() })),
        "读取响应失败: reset"
    );
    assert_eq!(
        protocol(finish(CallEvent::Received { line: String::new() })),
        "连接被 Maya 端关闭"
    );
    assert_eq!(
        protocol(finish(CallEvent::Received { line: "\n".to_string() })),
        "响应不是合法 JSON: EOF while parsing a value at line 1 column 0"
    );
}

#[test]
fn a_late_answer_is_a_timeout() {
    assert!(matches!(
        finish(CallEvent::ReceiveTimedOut),
        Err(MayaError::Timeout { timeout: 90 })
    ));
}

#[test]
fn answers_need_an_ok() {
    assert_eq!(protocol(read_reply("{}")), "响应缺少 ok 字段");
    assert_eq!(protocol(read_reply("{\"ok\": \"true\"}")), "响应缺少 ok 字段");
    assert_eq!(protocol(read_reply("[true]")), "响应缺少 ok 字段");
    assert!(read_reply(" \u{3000}{\"ok\": true}\r\n").is_ok());
}

#[test]
fn failed_scripts_tell_all_they_know() {
    let resp = parse(
        r#"{"ok": false, "error": "NameError: x", "traceback": "line 1", "stdout": "a\nb \n"}"#,
    )
    .unwrap();
    assert_eq!(script(settle(resp)), "NameError: x\n\nline 1\n\nstdout:\na\nb");
}

#[test]
fn failed_scripts_may_know_little() {
    assert_eq!(script(read_reply(r#"{"ok": false}"#)), "unknown error");
    assert_eq!(script(read_reply(r#"{"ok": false, "error": 5, "stdout": " \n"}"#)), "unknown error");
    assert_eq!(script(read_reply(r#"{"ok": false, "error": "e", "traceback": ""}"#)), "e\n\n");
}
