//! The server's tools: what each asks of Maya and how it shows the answer.

use crate::json::Json;
#[allow(unused_imports)]
use crate::json::{compact_json, member_views, members_of, pretty_json, unsigned_number, JsonView};
use crate::maya::{MayaClient, MayaError, Request};
#[allow(unused_imports)]
use crate::maya::{
    outcome_view, request_json, requests_are_carried_whole, script_message, script_message_keeps_the_error, settled, ErrorView,
};
#[allow(unused_imports)]
use crate::settings::positive_setting;
use crate::status::{new_history, probe_interval, History, Probe, Sample, Status};
#[allow(unused_imports)]
use crate::status::{
    failure_line, history_line, latency_total, latest, probe_view, success_line, DEFAULT_PROBE_SECS,
};
use crate::text::{append_decimal, join, trim, trim_end};
#[allow(unused_imports)]
use crate::text::{
    all_white, blank_is_all_white, decimal, decimal_length, joined, joined_from_the_front,
    slice_of, text_of, trimmed, trimmed_end, views,
};
use vstd::prelude::*;

verus! {

broadcast use vstd::string::group_string_axioms;

/// How many characters of a tool's output are shown.
pub const MAX_OUTPUT_CHARS: usize = 30_000;

/// How many nodes are listed where nothing else is asked for.
pub const DEFAULT_NODE_LIMIT: u64 = 200;

/// How many nodes are listed at most.
pub const MAX_NODE_LIMIT: u64 = 5000;

/// The first characters of an output that is too long, and a note on how long it was.
pub open spec fn truncated(s: Seq<char>) -> Seq<char> {
    if s.len() <= MAX_OUTPUT_CHARS {
        s
    } else {
        s.take(MAX_OUTPUT_CHARS as int) + "\n\n…[输出已截断，原始长度 "@ + decimal(s.len()) + " 字符]"@
    }
}

/// Cuts an output that is too long, and notes how long it was.
pub fn truncate(s: String) -> (text: String)
    ensures
        text@ == truncated(s@),
{
    let count: usize = s.as_str().unicode_len();
    if count <= MAX_OUTPUT_CHARS {
        return s;
    }
    let mut out = s.as_str().substring_char(0, MAX_OUTPUT_CHARS).to_owned();
    out.append("\n\n…[输出已截断，原始长度 ");
    append_decimal(&mut out, count as u128);
    out.append(" 字符]");
    assert(out@ =~= truncated(s@));
    out
}

/// An output shows at most `MAX_OUTPUT_CHARS` characters, a short note aside: all of the text
/// where that suffices, and else the first ones.
pub proof fn output_is_bounded(s: Seq<char>)
    requires
        s.len() <= u64::MAX,
    ensures
        truncated(s).len() <= MAX_OUTPUT_CHARS + 39,
        s.len() <= MAX_OUTPUT_CHARS ==> truncated(s) == s,
        s.len() > MAX_OUTPUT_CHARS ==> s.take(MAX_OUTPUT_CHARS as int).is_prefix_of(truncated(s)),
{
    decimal_length(s.len());
    reveal_strlit("\n\n…[输出已截断，原始长度 ");
    reveal_strlit(" 字符]");
}

/// A value as it is shown: a text as it stands, anything else as indented JSON.
pub open spec fn value_text(v: JsonView) -> Seq<char> {
    match v {
        JsonView::String(s) => s,
        _ => match pretty_json(v) {
            Some(text) => text,
            None => compact_json(v),
        },
    }
}

/// Writes a value as it is shown.
pub fn value_to_text(v: &Json) -> (text: String)
    ensures
        text@ == value_text(v@),
{
    match v {
        Json::String(s) => s.clone(),
        other => match other.to_pretty() {
            Some(text) => text,
            None => other.to_compact(),
        },
    }
}

/// The parts of a Python answer that are shown: what was printed, where it is not blank, and the
/// result, where there is one.
pub open spec fn python_parts(resp: JsonView) -> Seq<Seq<char>> {
    let stdout = match resp.member_text("stdout"@) {
        Some(text) => if trimmed(text).len() > 0 {
            seq!["stdout:\n"@ + trimmed_end(text)]
        } else {
            seq![]
        },
        None => seq![],
    };
    let result = match resp.member("result"@) {
        Some(value) => seq!["result:\n"@ + value_text(value)],
        None => seq![],
    };
    stdout + result
}

/// A Python answer as it is shown.
pub open spec fn python_text(resp: JsonView) -> Seq<char> {
    if python_parts(resp).len() == 0 {
        "执行成功（无返回值）"@
    } else {
        joined(python_parts(resp), "\n\n"@)
    }
}

/// Shows the answer to a Python request.
pub fn render_python_result(resp: &Json) -> (text: String)
    ensures
        text@ == python_text(resp@),
{
    let mut parts: Vec<String> = Vec::new();
    if let Some(member) = resp.get("stdout") {
        if let Some(so) = member.as_str() {
            if !trim(so).is_empty() {
                let mut part = "stdout:\n".to_owned();
                part.append(trim_end(so));
                parts.push(part);
            }
        }
    }
    if let Some(r) = resp.get("result") {
        let mut part = "result:\n".to_owned();
        part.append(value_to_text(r).as_str());
        parts.push(part);
    }
    assert(views(parts@) =~= python_parts(resp@));
    if parts.len() == 0 {
        "执行成功（无返回值）".to_owned()
    } else {
        join(&parts, "\n\n")
    }
}

/// The tools that have Maya run code.
#[derive(Debug, Clone, Copy, PartialEq, Eq, Structural)]
pub enum Tool {
    EvalPython,
    EvalMel,
    ListSceneNodes,
    GetSelected,
    GetSceneInfo,
}

impl Tool {
    /// The answer to the tool's request as it is shown.
    pub open spec fn shown(self, resp: JsonView) -> Seq<char> {
        match self {
            Tool::EvalPython => python_text(resp),
            Tool::GetSelected => match resp.member("result"@) {
                Some(JsonView::Array(items)) => if items.len() == 0 {
                    "当前没有选中对象"@
                } else {
                    value_text(JsonView::Array(items))
                },
                Some(value) => value_text(value),
                None => value_text(JsonView::Null),
            },
            _ => match resp.member("result"@) {
                Some(value) => value_text(value),
                None => "执行成功"@,
            },
        }
    }

    /// Shows the answer to the tool's request.
    pub fn render(&self, resp: &Json) -> (text: String)
        ensures
            text@ == self.shown(resp@),
    {
        match self {
            Tool::EvalPython => render_python_result(resp),
            Tool::GetSelected => match resp.get("result") {
                Some(r) => if r.is_empty_array() {
                    "当前没有选中对象".to_owned()
                } else {
                    value_to_text(r)
                },
                None => value_to_text(&Json::Null),
            },
            _ => match resp.get("result") {
                Some(r) => value_to_text(r),
                None => "执行成功".to_owned(),
            },
        }
    }
}

/// What a tool gives back.
#[derive(Debug)]
pub struct ToolOutput {
    pub text: String,
    pub is_error: bool,
}

/// What a tool gives back for what came of its request: the text, and whether it is an error.
pub open spec fn tool_result(tool: Tool, outcome: Result<JsonView, ErrorView>) -> (Seq<char>, bool) {
    match outcome {
        Ok(resp) => (truncated(tool.shown(resp)), false),
        Err(e) => (truncated(e.message()), true),
    }
}

/// What a tool gives back for what came of its request: the answer as it is shown, or the error's
/// message, cut where it is too long.
pub fn run_tool(tool: Tool, outcome: Result<Json, MayaError>) -> (output: ToolOutput)
    ensures
        (output.text@, output.is_error) == tool_result(tool, outcome_view(outcome)),
        output.is_error == outcome is Err,
{
    match outcome {
        Ok(resp) => ToolOutput { text: truncate(tool.render(&resp)), is_error: false },
        Err(e) => ToolOutput { text: truncate(e.to_string()), is_error: true },
    }
}

/// Whatever the tool, an answer whose `ok` is true is shown and is no error, and one whose `ok` is
/// false is an error.
pub proof fn tools_tell_errors_apart(tool: Tool, resp: JsonView, ok: bool)
    requires
        resp.member("ok"@) == Some(JsonView::Bool(ok)),
    ensures
        tool_result(tool, settled(resp)) == if ok {
            (truncated(tool.shown(resp)), false)
        } else {
            (truncated(script_message(resp)), true)
        },
{
}

/// Whatever the tool, the answer of a script that failed leads with its error and its traceback in
/// full, as far as a tool's output goes.
pub proof fn failed_scripts_show_their_traceback(
    tool: Tool,
    resp: JsonView,
    error: Seq<char>,
    traceback: Seq<char>,
)
    requires
        resp.member("ok"@) == Some(JsonView::Bool(false)),
        resp.member_text("error"@) == Some(error),
        resp.member_text("traceback"@) == Some(traceback),
        (error + "\n\n"@ + traceback).len() <= MAX_OUTPUT_CHARS,
    ensures
        tool_result(tool, settled(resp)).1,
        (error + "\n\n"@ + traceback).is_prefix_of(tool_result(tool, settled(resp)).0),
{
    script_message_keeps_the_error(resp, error, traceback);
}

/// A Python answer with both shows what was printed first and the result after it.
pub proof fn python_shows_both(resp: JsonView, stdout: Seq<char>, result: JsonView)
    requires
        resp.member_text("stdout"@) == Some(stdout),
        trimmed(stdout).len() > 0,
        resp.member("result"@) == Some(result),
    ensures
        python_text(resp) == "stdout:\n"@ + trimmed_end(stdout) + "\n\n"@ + ("result:\n"@
            + value_text(result)),
{
    let parts = python_parts(resp);
    assert(parts.drop_last() =~= seq!["stdout:\n"@ + trimmed_end(stdout)]);
    reveal_with_fuel(joined, 2);
}

/// The arguments of the tools that run given code.
#[derive(Debug)]
pub struct CodeArgs {
    /// The code to run.
    pub code: String,
}

/// The arguments of the tool that lists nodes.
#[derive(Debug)]
pub struct ListNodesArgs {
    /// The type that the nodes are to have, such as `mesh` or `joint`; any, where there is none.
    pub type_filter: Option<String>,
    /// How many nodes are to be listed at most.
    pub limit: Option<u64>,
}

/// How many nodes are listed at most.
pub open spec fn node_limit(limit: Option<u64>) -> u64 {
    let wanted = match limit {
        Some(n) => n,
        None => DEFAULT_NODE_LIMIT,
    };
    if wanted < MAX_NODE_LIMIT {
        wanted
    } else {
        MAX_NODE_LIMIT
    }
}

/// The node limit is the one asked for, up to `MAX_NODE_LIMIT`, and `DEFAULT_NODE_LIMIT` where
/// none is asked for.
pub proof fn node_limit_is_capped(limit: Option<u64>)
    ensures
        node_limit(limit) <= MAX_NODE_LIMIT,
        limit is None ==> node_limit(limit) == DEFAULT_NODE_LIMIT,
        limit matches Some(n) ==> (n <= MAX_NODE_LIMIT <==> node_limit(limit) == n),
{
}

/// What the server keeps between requests.
#[derive(Debug)]
pub struct MayaMcp {
    pub history: History,
    /// In seconds.
    pub probe_interval: u64,
}

/// The Python code that lists nodes.
pub open spec fn list_nodes_code() -> Seq<char> {
    r#"import maya.cmds as cmds
__tf = __mcp_args__.get("type_filter") or None
__limit = __mcp_args__["limit"]
__nodes = cmds.ls(type=__tf, long=True) if __tf else cmds.ls(long=True)
{"total": len(__nodes), "shown": min(len(__nodes), __limit), "nodes": __nodes[:__limit], "truncated": len(__nodes) > __limit}"#@
}

/// The Python code that lists what is selected.
pub open spec fn selected_code() -> Seq<char> {
    r#"import maya.cmds as cmds
[{"name": n, "type": cmds.nodeType(n)} for n in cmds.ls(selection=True, long=True)]"#@
}

/// The Python code that sums the scene up.
pub open spec fn scene_info_code() -> Seq<char> {
    r#"import maya.cmds as cmds
__counts = {}
for __n in cmds.ls():
    __t = cmds.nodeType(__n)
    __counts[__t] = __counts.get(__t, 0) + 1
{"file": cmds.file(query=True, sceneName=True) or None,
 "modified": cmds.file(query=True, modified=True),
 "up_axis": cmds.upAxis(query=True, axis=True),
 "linear_unit": cmds.currentUnit(query=True, linear=True),
 "angular_unit": cmds.currentUnit(query=True, angle=True),
 "time_unit": cmds.currentUnit(query=True, time=True),
 "current_frame": cmds.currentTime(query=True),
 "playback_range": [cmds.playbackOptions(query=True, minTime=True), cmds.playbackOptions(query=True, maxTime=True)],
 "animation_range": [cmds.playbackOptions(query=True, animationStartTime=True), cmds.playbackOptions(query=True, animationEndTime=True)],
 "renderer": cmds.getAttr("defaultRenderGlobals.currentRenderer"),
 "node_count_by_type": dict(sorted(__counts.items(), key=lambda kv: -kv[1])[:20])}"#@
}

/// Whether the request is the code of the kind `op`, without arguments.
pub open spec fn asks(request: Request, op: Seq<char>, code: Seq<char>) -> bool {
    &&& request.op@ == op
    &&& request.code@ == code
    &&& request.args@ == JsonView::Object(Map::empty())
}

/// The probe's line in the report.
pub open spec fn probe_line(probe: Result<(u128, Seq<char>), Seq<char>>) -> Seq<char> {
    match probe {
        Ok((ms, version)) => decimal(ms as nat) + " ms | Maya: "@ + if version.len() == 0 {
            "(无版本信息)"@
        } else {
            version
        },
        Err(e) => "error: "@ + e,
    }
}

/// The lines of the status report.
pub open spec fn report_lines(
    server: MayaMcp,
    client: MayaClient,
    probe_timeout: u64,
    probe: Result<(u128, Seq<char>), Seq<char>>,
    now: u128,
) -> Seq<Seq<char>> {
    let status = Status::shown_by(probe);
    let head = seq![
        "=== Maya Listener 状态报告 ==="@,
        "状态: "@ + status.spec_code(),
        "端点: "@ + client.host@ + ":"@ + decimal(client.port as nat),
        "探测: TCP+ping | 超时 "@ + decimal(probe_timeout as nat) + "s | 监控间隔 "@ + decimal(
            server.probe_interval as nat,
        ) + "s"@,
        "本次探测: "@ + probe_line(probe),
        history_line(server.history@),
    ];
    if status is Down {
        head + match failure_line(server.history@, now) {
            Some(line) => seq![line],
            None => seq![],
        } + seq![success_line(server.history@, now)]
    } else {
        head
    }
}

/// A report has the same six lines whatever the probe shows, the status in the second. Only where
/// the listener is down do more follow: the latest failure, where there is one, and when it answered
/// last.
pub proof fn report_has_its_lines(
    server: MayaMcp,
    client: MayaClient,
    probe_timeout: u64,
    probe: Result<(u128, Seq<char>), Seq<char>>,
    now: u128,
)
    ensures
        ({
            let lines = report_lines(server, client, probe_timeout, probe, now);
            &&& lines[1] == "状态: "@ + Status::shown_by(probe).spec_code()
            &&& lines[5] == history_line(server.history@)
            &&& probe is Ok ==> lines.len() == 6
            &&& probe is Err ==> lines.last() == success_line(server.history@, now) && lines.len()
                == if latest(server.history@, false) is Some {
                8nat
            } else {
                7
            }
        }),
{
}

/// A report only reads the history, and its probe does not enter it: whatever the probes show and
/// whenever they are made, two reports in a row give the same history line.
pub proof fn reports_leave_the_history_alone(
    server: MayaMcp,
    client1: MayaClient,
    timeout1: u64,
    probe1: Result<(u128, Seq<char>), Seq<char>>,
    now1: u128,
    client2: MayaClient,
    timeout2: u64,
    probe2: Result<(u128, Seq<char>), Seq<char>>,
    now2: u128,
)
    ensures
        report_lines(server, client1, timeout1, probe1, now1)[5] == history_line(server.history@),
        report_lines(server, client2, timeout2, probe2, now2)[5] == history_line(server.history@),
{
    report_has_its_lines(server, client1, timeout1, probe1, now1);
    report_has_its_lines(server, client2, timeout2, probe2, now2);
}

impl MayaMcp {
    /// A server without a history yet, by the setting `MAYA_MCP_PROBE_SECS`.
    pub fn new(probe_secs: Option<&str>) -> (server: Self)
        ensures
            server.history.wf(),
            server.history@ == Seq::<Sample>::empty(),
            server.probe_interval == positive_setting(slice_of(probe_secs), DEFAULT_PROBE_SECS),
            server.probe_interval == positive_setting(slice_of(probe_secs), 30),
    {
        MayaMcp { history: new_history(), probe_interval: probe_interval(probe_secs) }
    }

    /// Tells whether the listener answers: Maya's version, or the error.
    pub fn check_connection(&self, probe: Probe) -> (output: ToolOutput)
        ensures
            match probe_view(probe) {
                Ok((_, version)) => {
                    &&& output.text@ == truncated(
                        if version.len() == 0 {
                            "pong"@
                        } else {
                            version
                        },
                    )
                    &&& !output.is_error
                },
                Err(e) => output.text@ == truncated(e) && output.is_error,
            },
            match probe {
                Ok((_, version)) => {
                    &&& !output.is_error
                    &&& version@.len() == 0 ==> output.text@ == "pong"@
                    &&& 0 < version@.len() <= 30_000 ==> output.text@ == version@
                },
                Err(e) => {
                    &&& output.is_error
                    &&& e@.len() <= 30_000 ==> output.text@ == e@
                },
            },
    {
        proof {
            reveal_strlit("pong");
        }
        match probe {
            Ok((_, version)) => {
                let text = if version.as_str().is_empty() {
                    "pong".to_owned()
                } else {
                    version
                };
                ToolOutput { text: truncate(text), is_error: false }
            },
            Err(e) => ToolOutput { text: truncate(e), is_error: true },
        }
    }

    /// Reports how the listener is doing: the probe that was just made, and what the history shows
    /// at the time `now`. `probe_timeout` is what the probe had, in seconds.
    pub fn maya_status_report(
        &self,
        client: &MayaClient,
        probe_timeout: u64,
        probe: Probe,
        now: u128,
    ) -> (output: ToolOutput)
        requires
            self.history.wf(),
            latency_total(self.history@) <= u128::MAX,
        ensures
            output.text@ == truncated(
                joined(report_lines(*self, *client, probe_timeout, probe_view(probe), now), "\n"@),
            ),
            !output.is_error,
    {
        let status = Status::of_probe(&probe);
        let ghost shown = probe_view(probe);
        let mut lines: Vec<String> = Vec::new();
        lines.push("=== Maya Listener 状态报告 ===".to_owned());
        let mut line = "状态: ".to_owned();
        line.append(status.code());
        lines.push(line);
        let mut line = "端点: ".to_owned();
        line.append(client.host.as_str());
        line.append(":");
        append_decimal(&mut line, client.port as u128);
        lines.push(line);
        let mut line = "探测: TCP+ping | 超时 ".to_owned();
        append_decimal(&mut line, probe_timeout as u128);
        line.append("s | 监控间隔 ");
        append_decimal(&mut line, self.probe_interval as u128);
        line.append("s");
        lines.push(line);
        let mut line = "本次探测: ".to_owned();
        match probe {
            Ok((ms, version)) => {
                append_decimal(&mut line, ms);
                line.append(" ms | Maya: ");
                if version.as_str().is_empty() {
                    line.append("(无版本信息)");
                } else {
                    line.append(version.as_str());
                }
            },
            Err(e) => {
                line.append("error: ");
                line.append(e.as_str());
            },
        }
        assert(line@ =~= "本次探测: "@ + probe_line(shown));
        lines.push(line);
        lines.push(self.history.summary());
        if status == Status::Down {
            if let Some(line) = self.history.latest_failure(now) {
                lines.push(line);
            }
            lines.push(self.history.latest_success(now));
        }
        assert(views(lines@) =~= report_lines(*self, *client, probe_timeout, shown, now));
        ToolOutput { text: truncate(join(&lines, "\n")), is_error: false }
    }

    /// What `eval_python` asks of Maya.
    pub fn eval_python(&self, args: CodeArgs) -> (request: Request)
        ensures
            asks(request, "python"@, args.code@),
            request.op@ == "python"@,
            request.code@ == args.code@,
            request.args@ == JsonView::Object(Map::empty()),
    {
        Request { op: "python".to_owned(), code: args.code, args: Json::empty_object() }
    }

    /// What `eval_mel` asks of Maya.
    pub fn eval_mel(&self, args: CodeArgs) -> (request: Request)
        ensures
            asks(request, "mel"@, args.code@),
            request.op@ == "mel"@,
            request.code@ == args.code@,
            request.args@ == JsonView::Object(Map::empty()),
    {
        Request { op: "mel".to_owned(), code: args.code, args: Json::empty_object() }
    }

    /// What `list_scene_nodes` asks of Maya.
    pub fn list_scene_nodes(&self, args: ListNodesArgs) -> (request: Request)
        ensures
            request.op@ == "python"@,
            request.code@ == list_nodes_code(),
            request.args@ == JsonView::Object(
                map![
                    "type_filter"@ => match text_of(args.type_filter) {
                        Some(filter) => JsonView::String(filter),
                        None => JsonView::Null,
                    },
                    "limit"@ => JsonView::Number(unsigned_number(node_limit(args.limit))),
                ],
            ),
            request.args@.member("limit"@) == Some(
                JsonView::Number(
                    unsigned_number(
                        match args.limit {
                            Some(n) => if n <= 5000 {
                                n
                            } else {
                                5000
                            },
                            None => 200,
                        },
                    ),
                ),
            ),
            request.args@.member("type_filter"@) == Some(
                match args.type_filter {
                    Some(filter) => JsonView::String(filter@),
                    None => JsonView::Null,
                },
            ),
    {
        let wanted: u64 = match args.limit {
            Some(n) => n,
            None => DEFAULT_NODE_LIMIT,
        };
        let limit: u64 = if wanted < MAX_NODE_LIMIT {
            wanted
        } else {
            MAX_NODE_LIMIT
        };
        let filter = match args.type_filter {
            Some(filter) => Json::String(filter),
            None => Json::Null,
        };
        let mut members: Vec<(String, Json)> = Vec::new();
        members.push(("type_filter".to_owned(), filter));
        members.push(("limit".to_owned(), Json::unsigned(limit)));
        proof {
            let views = member_views(members@);
            reveal_with_fuel(members_of, 3);
            assert(views.drop_last().drop_last() =~= seq![]);
            reveal_strlit("limit");
            reveal_strlit("type_filter");
            assert("limit"@.len() != "type_filter"@.len());
        }
        let args = Json::Object(members);
        Request {
            op: "python".to_owned(),
            code: r#"import maya.cmds as cmds
__tf = __mcp_args__.get("type_filter") or None
__limit = __mcp_args__["limit"]
__nodes = cmds.ls(type=__tf, long=True) if __tf else cmds.ls(long=True)
{"total": len(__nodes), "shown": min(len(__nodes), __limit), "nodes": __nodes[:__limit], "truncated": len(__nodes) > __limit}"#.to_owned(),
            args,
        }
    }

    /// What `get_selected` asks of Maya.
    pub fn get_selected(&self) -> (request: Request)
        ensures
            asks(request, "python"@, selected_code()),
            request.op@ == "python"@,
            request.code@ == selected_code(),
            request.args@ == JsonView::Object(Map::empty()),
    {
        Request {
            op: "python".to_owned(),
            code: r#"import maya.cmds as cmds
[{"name": n, "type": cmds.nodeType(n)} for n in cmds.ls(selection=True, long=True)]"#.to_owned(),
            args: Json::empty_object(),
        }
    }

    /// What `get_scene_info` asks of Maya.
    pub fn get_scene_info(&self) -> (request: Request)
        ensures
            asks(request, "python"@, scene_info_code()),
            request.op@ == "python"@,
            request.code@ == scene_info_code(),
            request.args@ == JsonView::Object(Map::empty()),
    {
        Request {
            op: "python".to_owned(),
            code: r#"import maya.cmds as cmds
__counts = {}
for __n in cmds.ls():
    __t = cmds.nodeType(__n)
    __counts[__t] = __counts.get(__t, 0) + 1
{"file": cmds.file(query=True, sceneName=True) or None,
 "modified": cmds.file(query=True, modified=True),
 "up_axis": cmds.upAxis(query=True, axis=True),
 "linear_unit": cmds.currentUnit(query=True, linear=True),
 "angular_unit": cmds.currentUnit(query=True, angle=True),
 "time_unit": cmds.currentUnit(query=True, time=True),
 "current_frame": cmds.currentTime(query=True),
 "playback_range": [cmds.playbackOptions(query=True, minTime=True), cmds.playbackOptions(query=True, maxTime=True)],
 "animation_range": [cmds.playbackOptions(query=True, animationStartTime=True), cmds.playbackOptions(query=True, animationEndTime=True)],
 "renderer": cmds.getAttr("defaultRenderGlobals.currentRenderer"),
 "node_count_by_type": dict(sorted(__counts.items(), key=lambda kv: -kv[1])[:20])}"#.to_owned(),
            args: Json::empty_object(),
        }
    }
}

/// A value that is no text, be it a number, a truth value, nothing, an array or an object, is shown as
/// the pretty printer writes that very value; a text is shown as it stands.
pub proof fn values_are_shown_as_they_are(v: JsonView, text: Seq<char>)
    ensures
        v == JsonView::String(text) ==> value_text(v) == text,
        !(v is String) && pretty_json(v) == Some(text) ==> value_text(v) == text,
        !(v is String) && pretty_json(v) is None ==> value_text(v) == compact_json(v),
{
}

/// MEL, the node list and the scene's summary show the result whenever there is one, of whatever
/// kind: a text as it stands and anything else as the pretty printer writes it. Only an answer
/// without a result is a mere success.
pub proof fn results_are_shown(tool: Tool, resp: JsonView, result: JsonView, text: Seq<char>)
    requires
        tool is EvalMel || tool is ListSceneNodes || tool is GetSceneInfo,
    ensures
        resp.member("result"@) == Some(result) && result == JsonView::String(text) ==> tool.shown(
            resp,
        ) == text,
        resp.member("result"@) == Some(result) && !(result is String) && pretty_json(result) == Some(
            text,
        ) ==> tool.shown(resp) == text,
        resp.member("result"@) == Some(result) ==> tool.shown(resp) == value_text(result),
        resp.member("result"@) is None ==> tool.shown(resp) == "执行成功"@,
{
}

/// The selection is shown as any result is, but for an empty one, which is said in words. An answer
/// without a result is shown as nothing at all is.
pub proof fn selections_are_shown(resp: JsonView, result: JsonView)
    ensures
        resp.member("result"@) == Some(result) && (result is Array && result->Array_0.len() == 0)
            ==> Tool::GetSelected.shown(resp) == "当前没有选中对象"@,
        resp.member("result"@) == Some(result) && !(result is Array && result->Array_0.len() == 0)
            ==> Tool::GetSelected.shown(resp) == value_text(result),
        resp.member("result"@) is None ==> Tool::GetSelected.shown(resp) == value_text(
            JsonView::Null,
        ),
{
}

/// A Python answer shows what was printed, where that is not blank, and the result, where there is
/// one: either alone, or both with an empty line between, or that there is neither.
pub proof fn python_answers_are_shown(resp: JsonView)
    ensures
        ({
            let stdout = match resp.member("stdout"@) {
                Some(JsonView::String(text)) => text,
                _ => seq![],
            };
            let printed = !all_white(stdout);
            let shown = Tool::EvalPython.shown(resp);
            let out = "stdout:\n"@ + trimmed_end(stdout);
            match resp.member("result"@) {
                Some(result) => {
                    &&& ("result:\n"@ + value_text(result)).is_suffix_of(shown)
                    &&& printed ==> (out + "\n\n"@).is_prefix_of(shown)
                    &&& shown.len() == 8 + value_text(result).len() + if printed {
                        out.len() + 2
                    } else {
                        0
                    }
                },
                None => {
                    &&& printed ==> shown == out
                    &&& !printed ==> shown == "执行成功（无返回值）"@
                },
            }
        }),
{
    let stdout = match resp.member("stdout"@) {
        Some(JsonView::String(text)) => text,
        _ => seq![],
    };
    blank_is_all_white(stdout);
    assert(resp.member_text("stdout"@) is None ==> stdout =~= Seq::<char>::empty());
    reveal_strlit("result:\n");
    reveal_strlit("\n\n");
    let shown = python_text(resp);
    let parts = python_parts(resp);
    let out = "stdout:\n"@ + trimmed_end(stdout);
    joined_from_the_front(parts, "\n\n"@);
    match resp.member("result"@) {
        Some(result) => {
            let told = "result:\n"@ + value_text(result);
            if !all_white(stdout) {
                assert(parts =~= seq![out, told]);
                assert(parts.drop_first() =~= seq![told]);
                joined_from_the_front(parts.drop_first(), "\n\n"@);
                assert(shown =~= out + "\n\n"@ + told);
            } else {
                assert(parts =~= seq![told]);
            }
            assert(told.is_suffix_of(shown));
        },
        None => {
            if !all_white(stdout) {
                assert(parts =~= seq![out]);
            } else {
                assert(parts =~= seq![]);
            }
        },
    }
}

/// A tool gives an answer's text as no error and an error's message as one, each as it is where it
/// has at most 30000 characters, and otherwise with its first 30000.
pub proof fn outputs_are_what_they_show(tool: Tool, resp: JsonView, e: ErrorView)
    ensures
        !tool_result(tool, Ok(resp)).1,
        tool_result(tool, Err(e)).1,
        tool.shown(resp).len() <= 30_000 ==> tool_result(tool, Ok(resp)).0 == tool.shown(resp),
        tool.shown(resp).len() > 30_000 ==> tool_result(tool, Ok(resp)).0.take(30_000) == tool.shown(
            resp,
        ).take(30_000),
        e.message().len() <= 30_000 ==> tool_result(tool, Err(e)).0 == e.message(),
        e.message().len() > 30_000 ==> tool_result(tool, Err(e)).0.take(30_000) == e.message().take(
            30_000,
        ),
{
    if tool.shown(resp).len() > 30_000 {
        assert(truncated(tool.shown(resp)).take(30_000) =~= tool.shown(resp).take(30_000));
    }
    if e.message().len() > 30_000 {
        assert(truncated(e.message()).take(30_000) =~= e.message().take(30_000));
    }
}

/// The note on a text that was cut depends on the text's length alone and holds it in decimal.
pub proof fn cut_texts_tell_their_length(s: Seq<char>, t: Seq<char>)
    requires
        s.len() == t.len() > 30_000,
    ensures
        truncated(s).skip(30_000) == truncated(t).skip(30_000),
        truncated(s).len() == 30_000 + 15 + decimal(s.len()).len() + 4,
        truncated(s).subrange(30_015, 30_015 + decimal(s.len()).len() as int) == decimal(s.len()),
        truncated(s).subrange(30_000, 30_015) == "\n\n…[输出已截断，原始长度 "@,
        truncated(s).skip(30_015 + decimal(s.len()).len() as int) == " 字符]"@,
{
    reveal_strlit("\n\n…[输出已截断，原始长度 ");
    reveal_strlit(" 字符]");
    assert(truncated(s).skip(30_000) =~= truncated(t).skip(30_000));
    assert(truncated(s).subrange(30_015, 30_015 + decimal(s.len()).len() as int) =~= decimal(s.len()));
    assert(truncated(s).subrange(30_000, 30_015) =~= "\n\n…[输出已截断，原始长度 "@);
    assert(truncated(s).skip(30_015 + decimal(s.len()).len() as int) =~= " 字符]"@);
}

/// The probe's line starts with the time of an answer and ends with the version, or with words where
/// that is empty; of a failure it ends with the error.
pub proof fn the_probe_line_tells_the_probe(ms: u128, version: Seq<char>, e: Seq<char>)
    ensures
        ({
            let line = probe_line(Ok((ms, version)));
            let told = decimal(ms as nat) + " ms | Maya: "@;
            &&& told.is_prefix_of(line)
            &&& version.len() > 0 ==> line.skip(told.len() as int) == version
            &&& version.len() == 0 ==> line.skip(told.len() as int) == "(无版本信息)"@
        }),
        probe_line(Err(e)).take(7) == "error: "@,
        probe_line(Err(e)).skip(7) == e,
{
    reveal_strlit("error: ");
    let line = probe_line(Ok((ms, version)));
    let told = decimal(ms as nat) + " ms | Maya: "@;
    if version.len() > 0 {
        assert(line.skip(told.len() as int) =~= version);
    } else {
        assert(line.skip(told.len() as int) =~= "(无版本信息)"@);
    }
    assert(probe_line(Err(e)).take(7) =~= "error: "@);
    assert(probe_line(Err(e)).skip(7) =~= e);
}

/// A report names the client's address, both of the probe's times and what the probe showed, and
/// where the listener is down, first the latest failure.
pub proof fn reports_tell_what_they_are_given(
    server: MayaMcp,
    client: MayaClient,
    probe_timeout: u64,
    probe: Result<(u128, Seq<char>), Seq<char>>,
    now: u128,
)
    ensures
        ({
            let lines = report_lines(server, client, probe_timeout, probe, now);
            &&& lines[0] == "=== Maya Listener 状态报告 ==="@
            &&& lines[1].take(4) == "状态: "@
            &&& probe matches Ok((ms, _)) ==> lines[1].skip(4) == if ms > 2000 {
                "DEGRADED"@
            } else {
                "UP"@
            }
            &&& probe is Err ==> lines[1].skip(4) == "DOWN"@
            &&& lines[2].take(4) == "端点: "@
            &&& lines[2].skip(4) == client.host@ + ":"@ + decimal(client.port as nat)
            &&& ("探测: TCP+ping | 超时 "@ + decimal(probe_timeout as nat) + "s"@).is_prefix_of(lines[3])
            &&& (" | 监控间隔 "@ + decimal(server.probe_interval as nat) + "s"@).is_suffix_of(lines[3])
            &&& lines[3].len() == 18 + decimal(probe_timeout as nat).len() + 1 + 8 + decimal(
                server.probe_interval as nat,
            ).len() + 1
            &&& lines[4].take(6) == "本次探测: "@
            &&& lines[4].skip(6) == probe_line(probe)
            &&& probe is Err && failure_line(server.history@, now) is Some ==> lines[6]
                == failure_line(server.history@, now)->0
        }),
{
    reveal_strlit("状态: ");
    reveal_strlit("端点: ");
    reveal_strlit("本次探测: ");
    reveal_strlit("探测: TCP+ping | 超时 ");
    reveal_strlit("s | 监控间隔 ");
    reveal_strlit(" | 监控间隔 ");
    reveal_strlit("s");
    let lines = report_lines(server, client, probe_timeout, probe, now);
    let status = Status::shown_by(probe);
    assert(lines[1].take(4) =~= "状态: "@);
    assert(lines[1].skip(4) =~= status.spec_code());
    assert(lines[2].take(4) =~= "端点: "@);
    assert(lines[2].skip(4) =~= client.host@ + ":"@ + decimal(client.port as nat));
    assert(("探测: TCP+ping | 超时 "@ + decimal(probe_timeout as nat) + "s"@).is_prefix_of(lines[3]));
    assert((" | 监控间隔 "@ + decimal(server.probe_interval as nat) + "s"@).is_suffix_of(lines[3]));
    assert(lines[4].take(6) =~= "本次探测: "@);
    assert(lines[4].skip(6) =~= probe_line(probe));
}

/// Whether the text holds the part somewhere.
pub open spec fn holds(text: Seq<char>, part: Seq<char>) -> bool {
    exists|start: int, end: int|
        0 <= start <= end <= text.len() && #[trigger] text.subrange(start, end) == part
}

/// The code that lists nodes reads its two arguments under the names that they are sent under, and
/// cuts the list by the limit.
pub proof fn the_node_list_reads_its_arguments()
    ensures
        holds(list_nodes_code(), "__tf = __mcp_args__.get(\"type_filter\")"@),
        holds(list_nodes_code(), "__limit = __mcp_args__[\"limit\"]"@),
        holds(list_nodes_code(), "\"nodes\": __nodes[:__limit]"@),
        holds(list_nodes_code(), "\"total\": len(__nodes)"@),
        holds(list_nodes_code(), "\"truncated\": len(__nodes) > __limit}"@),
{
    let code = list_nodes_code();
    reveal_strlit(
        r#"import maya.cmds as cmds
__tf = __mcp_args__.get("type_filter") or None
__limit = __mcp_args__["limit"]
__nodes = cmds.ls(type=__tf, long=True) if __tf else cmds.ls(long=True)
{"total": len(__nodes), "shown": min(len(__nodes), __limit), "nodes": __nodes[:__limit], "truncated": len(__nodes) > __limit}"#,
    );
    reveal_strlit("__tf = __mcp_args__.get(\"type_filter\")");
    assert(code.subrange(25, 63) =~= "__tf = __mcp_args__.get(\"type_filter\")"@);
    reveal_strlit("__limit = __mcp_args__[\"limit\"]");
    assert(code.subrange(72, 103) =~= "__limit = __mcp_args__[\"limit\"]"@);
    reveal_strlit("\"nodes\": __nodes[:__limit]");
    assert(code.subrange(237, 263) =~= "\"nodes\": __nodes[:__limit]"@);
    reveal_strlit("\"total\": len(__nodes)");
    assert(code.subrange(177, 198) =~= "\"total\": len(__nodes)"@);
    reveal_strlit("\"truncated\": len(__nodes) > __limit}");
    assert(code.subrange(265, 301) =~= "\"truncated\": len(__nodes) > __limit}"@);
}

/// The code that lists what is selected asks for the selection and tells each node's name and type.
pub proof fn the_selection_is_read()
    ensures
        holds(selected_code(), "cmds.ls(selection=True, long=True)"@),
        holds(selected_code(), "\"name\": n"@),
        holds(selected_code(), "\"type\": cmds.nodeType(n)"@),
{
    let code = selected_code();
    reveal_strlit(
        r#"import maya.cmds as cmds
[{"name": n, "type": cmds.nodeType(n)} for n in cmds.ls(selection=True, long=True)]"#,
    );
    reveal_strlit("cmds.ls(selection=True, long=True)");
    assert(code.subrange(73, 107) =~= "cmds.ls(selection=True, long=True)"@);
    reveal_strlit("\"name\": n");
    assert(code.subrange(27, 36) =~= "\"name\": n"@);
    reveal_strlit("\"type\": cmds.nodeType(n)");
    assert(code.subrange(38, 62) =~= "\"type\": cmds.nodeType(n)"@);
}

/// The code that sums the scene up asks for everything that it tells, under its name.
pub proof fn the_summary_reads_the_scene()
    ensures
        holds(scene_info_code(), "\"file\": cmds.file(query=True, sceneName=True)"@),
        holds(scene_info_code(), "\"modified\": cmds.file(query=True, modified=True)"@),
        holds(scene_info_code(), "\"up_axis\": cmds.upAxis(query=True, axis=True)"@),
        holds(scene_info_code(), "\"linear_unit\": cmds.currentUnit(query=True, linear=True)"@),
        holds(scene_info_code(), "\"angular_unit\": cmds.currentUnit(query=True, angle=True)"@),
        holds(scene_info_code(), "\"time_unit\": cmds.currentUnit(query=True, time=True)"@),
        holds(scene_info_code(), "\"current_frame\": cmds.currentTime(query=True)"@),
        holds(scene_info_code(), "\"playback_range\": [cmds.playbackOptions(query=True, minTime=True), cmds.playbackOptions(query=True, maxTime=True)]"@),
        holds(scene_info_code(), "\"animation_range\": [cmds.playbackOptions(query=True, animationStartTime=True), cmds.playbackOptions(query=True, animationEndTime=True)]"@),
        holds(scene_info_code(), "\"renderer\": cmds.getAttr(\"defaultRenderGlobals.currentRenderer\")"@),
        holds(scene_info_code(), "\"node_count_by_type\": dict(sorted(__counts.items(), key=lambda kv: -kv[1])[:20])"@),
{
    let code = scene_info_code();
    reveal_strlit(
        r#"import maya.cmds as cmds
__counts = {}
for __n in cmds.ls():
    __t = cmds.nodeType(__n)
    __counts[__t] = __counts.get(__t, 0) + 1
{"file": cmds.file(query=True, sceneName=True) or None,
 "modified": cmds.file(query=True, modified=True),
 "up_axis": cmds.upAxis(query=True, axis=True),
 "linear_unit": cmds.currentUnit(query=True, linear=True),
 "angular_unit": cmds.currentUnit(query=True, angle=True),
 "time_unit": cmds.currentUnit(query=True, time=True),
 "current_frame": cmds.currentTime(query=True),
 "playback_range": [cmds.playbackOptions(query=True, minTime=True), cmds.playbackOptions(query=True, maxTime=True)],
 "animation_range": [cmds.playbackOptions(query=True, animationStartTime=True), cmds.playbackOptions(query=True, animationEndTime=True)],
 "renderer": cmds.getAttr("defaultRenderGlobals.currentRenderer"),
 "node_count_by_type": dict(sorted(__counts.items(), key=lambda kv: -kv[1])[:20])}"#,
    );
    reveal_strlit("\"file\": cmds.file(query=True, sceneName=True)");
    assert(code.subrange(136, 181) =~= "\"file\": cmds.file(query=True, sceneName=True)"@);
    reveal_strlit("\"modified\": cmds.file(query=True, modified=True)");
    assert(code.subrange(192, 240) =~= "\"modified\": cmds.file(query=True, modified=True)"@);
    reveal_strlit("\"up_axis\": cmds.upAxis(query=True, axis=True)");
    assert(code.subrange(243, 288) =~= "\"up_axis\": cmds.upAxis(query=True, axis=True)"@);
    reveal_strlit("\"linear_unit\": cmds.currentUnit(query=True, linear=True)");
    assert(code.subrange(291, 347) =~= "\"linear_unit\": cmds.currentUnit(query=True, linear=True)"@);
    reveal_strlit("\"angular_unit\": cmds.currentUnit(query=True, angle=True)");
    assert(code.subrange(350, 406) =~= "\"angular_unit\": cmds.currentUnit(query=True, angle=True)"@);
    reveal_strlit("\"time_unit\": cmds.currentUnit(query=True, time=True)");
    assert(code.subrange(409, 461) =~= "\"time_unit\": cmds.currentUnit(query=True, time=True)"@);
    reveal_strlit("\"current_frame\": cmds.currentTime(query=True)");
    assert(code.subrange(464, 509) =~= "\"current_frame\": cmds.currentTime(query=True)"@);
    reveal_strlit("\"playback_range\": [cmds.playbackOptions(query=True, minTime=True), cmds.playbackOptions(query=True, maxTime=True)]");
    assert(code.subrange(512, 626) =~= "\"playback_range\": [cmds.playbackOptions(query=True, minTime=True), cmds.playbackOptions(query=True, maxTime=True)]"@);
    reveal_strlit("\"animation_range\": [cmds.playbackOptions(query=True, animationStartTime=True), cmds.playbackOptions(query=True, animationEndTime=True)]");
    assert(code.subrange(629, 764) =~= "\"animation_range\": [cmds.playbackOptions(query=True, animationStartTime=True), cmds.playbackOptions(query=True, animationEndTime=True)]"@);
    reveal_strlit("\"renderer\": cmds.getAttr(\"defaultRenderGlobals.currentRenderer\")");
    assert(code.subrange(767, 831) =~= "\"renderer\": cmds.getAttr(\"defaultRenderGlobals.currentRenderer\")"@);
    reveal_strlit("\"node_count_by_type\": dict(sorted(__counts.items(), key=lambda kv: -kv[1])[:20])");
    assert(code.subrange(834, 914) =~= "\"node_count_by_type\": dict(sorted(__counts.items(), key=lambda kv: -kv[1])[:20])"@);
}

/// What a request is given under a name is found under that name among the arguments that its line
/// carries.
pub proof fn arguments_arrive(id: u64, request: Request, name: Seq<char>)
    ensures
        request_json(id, request).member("args"@) is Some,
        request_json(id, request).member("args"@)->0.member(name) == request.args@.member(name),
{
    requests_are_carried_whole(id, request, seq![]);
}

} // verus!
