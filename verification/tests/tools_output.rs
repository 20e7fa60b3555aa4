use maya_mcp::json::{parse, Json};
use maya_mcp::maya::{read_reply, MayaClient, MayaError};
use maya_mcp::status::make_sample;
use maya_mcp::tools::{
    render_python_result, run_tool, truncate, value_to_text, CodeArgs, ListNodesArgs, MayaMcp, Tool,
};

fn server() -> MayaMcp {
    MayaMcp::new(None)
}

#[test]
fn short_outputs_stay() {
    let s = "字".repeat(30_000);
    assert_eq!(truncate(s.clone()), s);
    assert_eq!(truncate(String::new()), "");
}

#[test]
fn long_outputs_are_cut() {
    let s = "字".repeat(30_001);
    let expected = format!("{}\n\n…[输出已截断，原始长度 30001 字符]", "字".repeat(30_000));
    assert_eq!(truncate(s), expected);
    assert_eq!(expected.chars().count(), 30_000 + 24);
}

#[test]
fn values_are_shown() {
    assert_eq!(value_to_text(&Json::String("a\n\"b\"".to_string())), "a\n\"b\"");
    assert_eq!(value_to_text(&Json::Null), "null");
    assert_eq!(value_to_text(&parse(r#"{"b":1,"a":[]}"#).unwrap()), "{\n  \"a\": [],\n  \"b\": 1\n}");
}

#[test]
fn python_answers_are_shown() {
    let show = |text: &str| render_python_result(&parse(text).unwrap());
    assert_eq!(show(r#"{"stdout": " hi \n\n", "result": "x"}"#), "stdout:\n hi\n\nresult:\nx");
    assert_eq!(show(r#"{"stdout": " \n", "result": [1]}"#), "result:\n[\n  1\n]");
    assert_eq!(show(r#"{"stdout": "hi"}"#), "stdout:\nhi");
    assert_eq!(show(r#"{"stdout": 5, "result": null}"#), "result:\nnull");
    assert_eq!(show(r#"{"ok": true}"#), "执行成功（无返回值）");
}

#[test]
fn other_answers_are_shown() {
    let resp = parse(r#"{"result": "7", "stdout": "x"}"#).unwrap();
    let none = parse(r#"{"stdout": "x"}"#).unwrap();
    for tool in [Tool::EvalMel, Tool::ListSceneNodes, Tool::GetSceneInfo] {
        assert_eq!(tool.render(&resp), "7");
        assert_eq!(tool.render(&none), "执行成功");
    }
}

#[test]
fn the_selection_is_shown() {
    let show = |text: &str| Tool::GetSelected.render(&parse(text).unwrap());
    assert_eq!(show(r#"{"result": []}"#), "当前没有选中对象");
    assert_eq!(show(r#"{"result": ["a"]}"#), "[\n  \"a\"\n]");
    assert_eq!(show(r#"{"result": {}}"#), "{}");
    assert_eq!(show(r#"{}"#), "null");
}

#[test]
fn tools_give_answers_and_errors() {
    let out = run_tool(Tool::EvalPython, read_reply(r#"{"ok": true, "result": "x"}"#));
    assert_eq!((out.text.as_str(), out.is_error), ("result:\nx", false));
    let out = run_tool(
        Tool::EvalPython,
        read_reply(r#"{"ok": false, "error": "E", "traceback": "T"}"#),
    );
    assert_eq!((out.text.as_str(), out.is_error), ("E\n\nT", true));
    let out = run_tool(Tool::EvalMel, Err(MayaError::Script("e".repeat(40_000))));
    assert!(out.is_error);
    assert!(out.text.ends_with("…[输出已截断，原始长度 40000 字符]"));
}

#[test]
fn code_goes_to_maya_as_it_is() {
    let r = server().eval_python(CodeArgs { code: "print(1)".to_string() });
    assert_eq!((r.op.as_str(), r.code.as_str()), ("python", "print(1)"));
    assert_eq!(r.args.to_compact(), "{}");
    let r = server().eval_mel(CodeArgs { code: "ls;".to_string() });
    assert_eq!((r.op.as_str(), r.code.as_str()), ("mel", "ls;"));
    assert_eq!(r.args.to_compact(), "{}");
}

#[test]
fn node_lists_are_limited() {
    let args = |limit: Option<u64>, type_filter: Option<&str>| {
        let args = ListNodesArgs { type_filter: type_filter.map(|t| t.to_string()), limit };
        server().list_scene_nodes(args).args.to_compact()
    };
    assert_eq!(args(None, None), r#"{"limit":200,"type_filter":null}"#);
    assert_eq!(args(Some(0), Some("mesh")), r#"{"limit":0,"type_filter":"mesh"}"#);
    assert_eq!(args(Some(4999), None), r#"{"limit":4999,"type_filter":null}"#);
    assert_eq!(args(Some(5000), None), r#"{"limit":5000,"type_filter":null}"#);
    assert_eq!(args(Some(5001), None), r#"{"limit":5000,"type_filter":null}"#);
    assert_eq!(args(Some(u64::MAX), None), r#"{"limit":5000,"type_filter":null}"#);
}

#[test]
fn queries_carry_their_code() {
    let r = server().list_scene_nodes(ListNodesArgs { type_filter: None, limit: None });
    assert_eq!(r.op, "python");
    assert!(r.code.starts_with("import maya.cmds as cmds\n__tf = __mcp_args__.get(\"type_filter\")"));
    assert_eq!(r.code.lines().nth(2), Some("__limit = __mcp_args__[\"limit\"]"));
    assert_eq!(r.code.lines().count(), 5);
    let r = server().get_selected();
    assert_eq!(r.op, "python");
    assert_eq!(
        r.code,
        "import maya.cmds as cmds\n[{\"name\": n, \"type\": cmds.nodeType(n)} for n in cmds.ls(selection=True, long=True)]"
    );
    let r = server().get_scene_info();
    assert_eq!(r.op, "python");
    assert!(r.code.ends_with("key=lambda kv: -kv[1])[:20])}"));
    assert_eq!(r.code.lines().count(), 16);
    assert_eq!(r.args.to_compact(), "{}");
}

#[test]
fn connections_are_checked() {
    let out = server().check_connection(Ok((5, "Maya 2024".to_string())));
    assert_eq!((out.text.as_str(), out.is_error), ("Maya 2024", false));
    let out = server().check_connection(Ok((5, String::new())));
    assert_eq!((out.text.as_str(), out.is_error), ("pong", false));
    let out = server().check_connection(Err("down".to_string()));
    assert_eq!((out.text.as_str(), out.is_error), ("down", true));
}

#[test]
fn a_listener_that_is_up_is_reported() {
    let client = MayaClient::from_env(None, None, None);
    let server = MayaMcp::new(Some("45"));
    assert_eq!(server.probe_interval, 45);
    let out = server.maya_status_report(&client, 5, Ok((3, String::new())), 0);
    assert!(!out.is_error);
    assert_eq!(
        out.text,
        "=== Maya Listener 状态报告 ===\n状态: UP\n端点: 127.0.0.1:5055\n探测: TCP+ping | 超时 5s | 监控间隔 45s\n本次探测: 3 ms | Maya: (无版本信息)\n历史监控: 尚无样本"
    );
}

#[test]
fn a_listener_at_the_limit_is_still_up() {
    let client = MayaClient::from_env(None, None, None);
    let out = server().maya_status_report(&client, 5, Ok((2000, "2024".to_string())), 0);
    assert_eq!(out.text.lines().nth(1), Some("状态: UP"));
}

#[test]
fn reports_show_one_history() {
    let client = MayaClient::from_env(None, None, None);
    let mut server = server();
    server.history.record(make_sample(Ok((8, "2024".to_string())), 0));
    let first = server.maya_status_report(&client, 5, Err("gone".to_string()), 1);
    let second = server.maya_status_report(&client, 5, Ok((1, String::new())), 2);
    assert_eq!(first.text.lines().nth(5), second.text.lines().nth(5));
    assert_eq!(server.history.samples.len(), 1);
}

#[test]
fn a_slow_listener_is_reported() {
    let client = MayaClient::from_env(None, None, None);
    let mut server = server();
    server.history.record(make_sample(Err("x".to_string()), 0));
    let out = server.maya_status_report(&client, 5, Ok((2001, "2024".to_string())), 0);
    assert_eq!(
        out.text,
        "=== Maya Listener 状态报告 ===\n状态: DEGRADED\n端点: 127.0.0.1:5055\n探测: TCP+ping | 超时 5s | 监控间隔 30s\n本次探测: 2001 ms | Maya: 2024\n历史监控: 近 1 次成功 0/1 (可用率 0%)"
    );
}

#[test]
fn a_listener_that_is_down_is_reported() {
    let client = MayaClient::from_env(None, None, None);
    let mut server = server();
    server.history.record(make_sample(Ok((8, "2024".to_string())), 0));
    server.history.record(make_sample(Err("refused".to_string()), 30_000_000_000));
    let out = server.maya_status_report(&client, 5, Err("gone".to_string()), 61_500_000_000);
    assert!(!out.is_error);
    assert_eq!(
        out.text,
        "=== Maya Listener 状态报告 ===\n状态: DOWN\n端点: 127.0.0.1:5055\n探测: TCP+ping | 超时 5s | 监控间隔 30s\n本次探测: error: gone\n历史监控: 近 2 次成功 1/2 (可用率 50%), 平均延迟 8 ms\n最近失败: 31s 前 - refused\n最后可用: 61s 前 (2024)"
    );
}

#[test]
fn a_listener_that_was_never_up_is_reported() {
    let client = MayaClient::from_env(None, None, None);
    let out = server().maya_status_report(&client, 5, Err("gone".to_string()), 0);
    assert!(out.text.ends_with("历史监控: 尚无样本\n最后可用: 无记录"));
}
