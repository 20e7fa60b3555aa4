//! The client side of the Maya listener: one connection per request, one JSON value per line.

use crate::json::{parse, Json};
#[allow(unused_imports)]
use crate::json::{
    compact_json, member_views, members_of, parsed_json, unsigned_number, JsonView,
};
#[allow(unused_imports)]
use crate::settings::positive_setting;
use crate::settings::read_env_u64;
use crate::text::{append_decimal, parse_at_most, trim, trim_end};
#[allow(unused_imports)]
use crate::text::{
    all_white, blank_is_all_white, decimal, parse_unsigned, slice_of, text_of, trimmed, trimmed_end,
    written_numbers_read_back, zero_filled, zero_filled_reads_back,
};
use vstd::prelude::*;

verus! {

broadcast use vstd::string::group_string_axioms;

/// How long a connection may take to come about, in seconds.
pub const CONNECT_TIMEOUT: u64 = 5;

/// How long a request may take to be sent, in seconds: the other side may not be reading.
pub const WRITE_TIMEOUT: u64 = 5;

/// How long Maya has for its answer, in seconds, where nothing else is set.
pub const DEFAULT_TIMEOUT_SECS: u64 = 120;

/// The port that the listener uses, where nothing else is set.
pub const DEFAULT_PORT: u16 = 5055;

/// Why a request failed.
#[derive(Debug)]
pub enum MayaError {
    /// Nobody answers at the listener's address.
    NotListening { host: String, port: u16, reason: String },
    /// Maya took longer than `timeout` seconds.
    Timeout { timeout: u64 },
    /// The exchange with the listener went wrong.
    Protocol(String),
    /// The script failed inside Maya.
    Script(String),
}

/// What a `MayaError` says.
pub enum ErrorView {
    NotListening { host: Seq<char>, port: u16, reason: Seq<char> },
    Timeout { timeout: u64 },
    Protocol(Seq<char>),
    Script(Seq<char>),
}

impl View for MayaError {
    type V = ErrorView;

    open spec fn view(&self) -> ErrorView {
        match *self {
            MayaError::NotListening { host, port, reason } => ErrorView::NotListening {
                host: host@,
                port,
                reason: reason@,
            },
            MayaError::Timeout { timeout } => ErrorView::Timeout { timeout },
            MayaError::Protocol(what) => ErrorView::Protocol(what@),
            MayaError::Script(what) => ErrorView::Script(what@),
        }
    }
}

impl ErrorView {
    /// The message that the user sees.
    pub open spec fn message(self) -> Seq<char> {
        match self {
            ErrorView::NotListening { host, port, reason } => "无法连接 Maya listener ("@ + host + ":"@
                + decimal(port as nat) + "): "@ + reason
                + "\n请先在 Maya 的 Script Editor (Python 标签页) 中执行:\n  p = r\"<路径>/maya/maya_mcp_listener.py\"; exec(compile(open(p, \"rb\").read(), p, \"exec\"))"@,
            ErrorView::Timeout { timeout } => "等待 Maya 响应超时 ("@ + decimal(timeout as nat)
                + "s)。Maya 主线程可能被模态对话框阻塞，或脚本仍在运行"@,
            ErrorView::Protocol(what) => "Maya listener 协议错误: "@ + what,
            ErrorView::Script(what) => what,
        }
    }
}

impl MayaError {
    /// The message that the user sees.
    pub fn to_string(&self) -> (text: String)
        ensures
            text@ == self@.message(),
    {
        let mut out = String::new();
        match self {
            MayaError::NotListening { host, port, reason } => {
                out.append("无法连接 Maya listener (");
                out.append(host.as_str());
                out.append(":");
                append_decimal(&mut out, *port as u128);
                out.append("): ");
                out.append(reason.as_str());
                out.append(
                    "\n请先在 Maya 的 Script Editor (Python 标签页) 中执行:\n  p = r\"<路径>/maya/maya_mcp_listener.py\"; exec(compile(open(p, \"rb\").read(), p, \"exec\"))",
                );
            },
            MayaError::Timeout { timeout } => {
                out.append("等待 Maya 响应超时 (");
                append_decimal(&mut out, *timeout as u128);
                out.append("s)。Maya 主线程可能被模态对话框阻塞，或脚本仍在运行");
            },
            MayaError::Protocol(what) => {
                out.append("Maya listener 协议错误: ");
                out.append(what.as_str());
            },
            MayaError::Script(what) => {
                out.append(what.as_str());
            },
        }
        assert(out@ =~= self@.message());
        out
    }
}

/// What came of a request, by what it says.
pub open spec fn outcome_view(outcome: Result<Json, MayaError>) -> Result<JsonView, ErrorView> {
    match outcome {
        Ok(resp) => Ok(resp@),
        Err(e) => Err(e@),
    }
}

/// Where the listener is and how long Maya has for an answer.
#[derive(Debug)]
pub struct MayaClient {
    pub host: String,
    pub port: u16,
    /// In seconds.
    pub timeout: u64,
}

impl Clone for MayaClient {
    fn clone(&self) -> (copy: Self)
        ensures
            copy == *self,
    {
        MayaClient { host: self.host.clone(), port: self.port, timeout: self.timeout }
    }
}

/// The port that a setting stands for: the one that it writes, or else the default.
pub open spec fn port_setting(value: Option<Seq<char>>) -> int {
    match value {
        Some(text) => match parse_unsigned(text, u16::MAX as nat) {
            Some(n) => n as int,
            None => DEFAULT_PORT as int,
        },
        None => DEFAULT_PORT as int,
    }
}

/// What a failed script's answer says: the error, the traceback and what was printed.
pub open spec fn script_message(resp: JsonView) -> Seq<char> {
    let error = match resp.member_text("error"@) {
        Some(text) => text,
        None => "unknown error"@,
    };
    let traceback = match resp.member_text("traceback"@) {
        Some(text) => "\n\n"@ + text,
        None => seq![],
    };
    let stdout = match resp.member_text("stdout"@) {
        Some(text) => if trimmed(text).len() > 0 {
            "\n\nstdout:\n"@ + trimmed_end(text)
        } else {
            seq![]
        },
        None => seq![],
    };
    error + traceback + stdout
}

/// What an answer stands for: itself where its `ok` is true, a failed script where it is false,
/// and a broken answer where it is neither.
pub open spec fn settled(resp: JsonView) -> Result<JsonView, ErrorView> {
    match resp.member("ok"@) {
        Some(JsonView::Bool(ok)) => if ok {
            Ok(resp)
        } else {
            Err(ErrorView::Script(script_message(resp)))
        },
        _ => Err(ErrorView::Protocol("响应缺少 ok 字段"@)),
    }
}

/// Settles what an answer stands for.
pub fn settle(resp: Json) -> (outcome: Result<Json, MayaError>)
    ensures
        outcome_view(outcome) == settled(resp@),
{
    let ok: Option<bool> = match resp.get("ok") {
        Some(member) => member.as_bool(),
        None => None,
    };
    match ok {
        Some(true) => Ok(resp),
        Some(false) => {
            let mut msg = match resp.get("error") {
                Some(member) => match member.as_str() {
                    Some(text) => text.to_owned(),
                    None => "unknown error".to_owned(),
                },
                None => "unknown error".to_owned(),
            };
            if let Some(member) = resp.get("traceback") {
                if let Some(text) = member.as_str() {
                    msg.append("\n\n");
                    msg.append(text);
                }
            }
            if let Some(member) = resp.get("stdout") {
                if let Some(text) = member.as_str() {
                    if !trim(text).is_empty() {
                        msg.append("\n\nstdout:\n");
                        msg.append(trim_end(text));
                    }
                }
            }
            assert(msg@ =~= script_message(resp@));
            Err(MayaError::Script(msg))
        },
        None => Err(MayaError::Protocol("响应缺少 ok 字段".to_owned())),
    }
}

/// What a line from the listener stands for.
pub open spec fn reply(line: Seq<char>) -> Result<JsonView, ErrorView> {
    match parsed_json(trimmed(line)) {
        Ok(resp) => settled(resp),
        Err(what) => Err(ErrorView::Protocol("响应不是合法 JSON: "@ + what)),
    }
}

/// Reads a line from the listener.
pub fn read_reply(line: &str) -> (outcome: Result<Json, MayaError>)
    ensures
        outcome_view(outcome) == reply(line@),
{
    match parse(trim(line)) {
        Ok(resp) => settle(resp),
        Err(what) => {
            let mut msg = "响应不是合法 JSON: ".to_owned();
            msg.append(what.as_str());
            Err(MayaError::Protocol(msg))
        },
    }
}

/// What is asked of the listener: the kind of code, the code and its arguments.
#[derive(Debug)]
pub struct Request {
    pub op: String,
    pub code: String,
    pub args: Json,
}

/// A request with its number, as JSON.
pub open spec fn request_json(id: u64, request: Request) -> JsonView {
    JsonView::Object(
        map![
            "id"@ => JsonView::Number(unsigned_number(id)),
            "op"@ => JsonView::String(request.op@),
            "code"@ => JsonView::String(request.code@),
            "args"@ => request.args@,
        ],
    )
}

/// A request's JSON has the number given and the request's own op, code and arguments, each under
/// its name, and nothing under any other name.
pub proof fn requests_are_carried_whole(id: u64, request: Request, other: Seq<char>)
    ensures
        request_json(id, request).member("id"@) == Some(JsonView::Number(unsigned_number(id))),
        request_json(id, request).member("op"@) == Some(JsonView::String(request.op@)),
        request_json(id, request).member("code"@) == Some(JsonView::String(request.code@)),
        request_json(id, request).member("args"@) == Some(request.args@),
        other != "id"@ && other != "op"@ && other != "code"@ && other != "args"@ ==> request_json(
            id,
            request,
        ).member(other) is None,
{
    reveal_strlit("id");
    reveal_strlit("op");
    reveal_strlit("code");
    reveal_strlit("args");
    assert("id"@[0] != "op"@[0]);
    assert("id"@.len() == 2 && "op"@.len() == 2 && "code"@.len() == 4 && "args"@.len() == 4);
    assert("code"@[0] != "args"@[0]);
}

/// Two requests are carried alike only if they ask for the same under the same number.
pub proof fn different_requests_differ(id1: u64, request1: Request, id2: u64, request2: Request)
    requires
        request_json(id1, request1) == request_json(id2, request2),
    ensures
        unsigned_number(id1) == unsigned_number(id2),
        request1.op@ == request2.op@,
        request1.code@ == request2.code@,
        request1.args@ == request2.args@,
{
    requests_are_carried_whole(id1, request1, seq![]);
    requests_are_carried_whole(id2, request2, seq![]);
}

impl Request {
    /// The line that carries the request. It is one line: a line feed ends it and none stands
    /// inside it.
    pub fn line(&self, id: u64) -> (line: String)
        ensures
            line@ == compact_json(request_json(id, *self)) + "\n"@,
            exists|carried: JsonView|
                {
                    &&& line@ == #[trigger] compact_json(carried) + "\n"@
                    &&& carried.member("id"@) == Some(JsonView::Number(unsigned_number(id)))
                    &&& carried.member("op"@) == Some(JsonView::String(self.op@))
                    &&& carried.member("code"@) == Some(JsonView::String(self.code@))
                    &&& carried.member("args"@) == Some(self.args@)
                },
            line@.last() == '\n',
            !line@.drop_last().contains('\n'),
    {
        proof {
            requests_are_carried_whole(id, *self, seq![]);
        }
        let mut members: Vec<(String, Json)> = Vec::new();
        members.push(("id".to_owned(), Json::unsigned(id)));
        members.push(("op".to_owned(), Json::String(self.op.clone())));
        members.push(("code".to_owned(), Json::String(self.code.clone())));
        members.push(("args".to_owned(), self.args.clone()));
        proof {
            let views = member_views(members@);
            reveal_with_fuel(members_of, 5);
            assert(views.drop_last().drop_last().drop_last().drop_last() =~= seq![]);
            assert(members_of(views) =~= request_json(id, *self)->Object_0);
            reveal_strlit("\n");
        }
        let mut line = Json::Object(members).to_compact();
        let ghost body = line@;
        line.append("\n");
        assert(line@.drop_last() =~= body);
        line
    }
}

/// What has just happened in a call.
#[derive(Debug)]
pub enum CallEvent {
    /// The call is to be made.
    Start,
    /// The connection is there, and the request is to have the number `id`.
    Connected { id: u64 },
    ConnectFailed { reason: String },
    ConnectTimedOut,
    /// The whole request was sent.
    Sent,
    SendFailed { reason: String },
    SendTimedOut,
    /// A line came back, with the line feed that ends it; an empty one where the other side closed
    /// the connection.
    Received { line: String },
    ReceiveFailed { reason: String },
    ReceiveTimedOut,
}

/// What is to be done next in a call, and how many seconds it may take.
#[derive(Debug)]
pub enum CallAction {
    Connect { timeout: u64 },
    Send { payload: String, timeout: u64 },
    Receive { timeout: u64 },
    /// The call is over.
    Finish(Result<Json, MayaError>),
}

/// What a `CallAction` says.
pub enum ActionView {
    Connect { timeout: u64 },
    Send { payload: Seq<char>, timeout: u64 },
    Receive { timeout: u64 },
    Finish(Result<JsonView, ErrorView>),
}

impl View for CallAction {
    type V = ActionView;

    open spec fn view(&self) -> ActionView {
        match *self {
            CallAction::Connect { timeout } => ActionView::Connect { timeout },
            CallAction::Send { payload, timeout } => ActionView::Send { payload: payload@, timeout },
            CallAction::Receive { timeout } => ActionView::Receive { timeout },
            CallAction::Finish(outcome) => ActionView::Finish(outcome_view(outcome)),
        }
    }
}

/// What follows an event in a call.
pub open spec fn call_action(client: MayaClient, request: Request, event: CallEvent) -> ActionView {
    match event {
        CallEvent::Start => ActionView::Connect { timeout: CONNECT_TIMEOUT },
        CallEvent::Connected { id } => ActionView::Send {
            payload: compact_json(request_json(id, request)) + "\n"@,
            timeout: WRITE_TIMEOUT,
        },
        CallEvent::ConnectFailed { reason } => ActionView::Finish(
            Err(client.spec_not_listening(reason@)),
        ),
        CallEvent::ConnectTimedOut => ActionView::Finish(Err(client.spec_not_listening("连接超时"@))),
        CallEvent::Sent => ActionView::Receive { timeout: client.timeout },
        CallEvent::SendFailed { reason } => ActionView::Finish(
            Err(ErrorView::Protocol("发送请求失败: "@ + reason@)),
        ),
        CallEvent::SendTimedOut => ActionView::Finish(Err(ErrorView::Protocol("发送请求超时"@))),
        CallEvent::Received { line } => if line@.len() == 0 {
            ActionView::Finish(Err(ErrorView::Protocol("连接被 Maya 端关闭"@)))
        } else {
            ActionView::Finish(reply(line@))
        },
        CallEvent::ReceiveFailed { reason } => ActionView::Finish(
            Err(ErrorView::Protocol("读取响应失败: "@ + reason@)),
        ),
        CallEvent::ReceiveTimedOut => ActionView::Finish(
            Err(ErrorView::Timeout { timeout: client.timeout }),
        ),
    }
}

/// A protocol error that says `what` and then `detail`.
fn protocol_error(what: &str, detail: &str) -> (e: MayaError)
    ensures
        e@ == ErrorView::Protocol(what@ + detail@),
{
    let mut msg = what.to_owned();
    msg.append(detail);
    MayaError::Protocol(msg)
}

impl MayaClient {
    /// The client that the settings `MAYA_MCP_HOST`, `MAYA_MCP_PORT` and `MAYA_MCP_TIMEOUT_SECS`
    /// describe. A setting that is missing or cannot be used has its default.
    pub fn from_env(host: Option<String>, port: Option<&str>, timeout: Option<&str>) -> (client: Self)
        ensures
            client.host@ == (match text_of(host) {
                Some(h) => h,
                None => "127.0.0.1"@,
            }),
            host matches Some(h) ==> client.host@ == h@,
            host is None ==> client.host@ == "127.0.0.1"@,
            client.port == port_setting(slice_of(port)),
            client.timeout == positive_setting(slice_of(timeout), DEFAULT_TIMEOUT_SECS),
            client.timeout == positive_setting(slice_of(timeout), 120),
            client.timeout > 0,
    {
        let host = match host {
            Some(h) => h,
            None => "127.0.0.1".to_owned(),
        };
        let port: u16 = match port {
            Some(text) => match parse_at_most(text, u16::MAX as u64) {
                Some(n) => n as u16,
                None => DEFAULT_PORT,
            },
            None => DEFAULT_PORT,
        };
        MayaClient { host, port, timeout: read_env_u64(timeout, DEFAULT_TIMEOUT_SECS) }
    }

    /// The error of a listener that cannot be reached.
    pub open spec fn spec_not_listening(self, reason: Seq<char>) -> ErrorView {
        ErrorView::NotListening { host: self.host@, port: self.port, reason }
    }

    /// The error of a listener that cannot be reached.
    pub fn not_listening(&self, reason: String) -> (e: MayaError)
        ensures
            e@ == self.spec_not_listening(reason@),
    {
        MayaError::NotListening { host: self.host.clone(), port: self.port, reason }
    }

    /// Takes a call one step further: says what is to be done after what has just happened.
    ///
    /// The call connects, sends the request as one line and takes one line back. When it is over
    /// there is either the whole answer of a script that ran, or the error.
    pub fn call(&self, request: &Request, event: CallEvent) -> (action: CallAction)
        ensures
            action@ == call_action(*self, *request, event),
            event matches CallEvent::Connected { id } ==> (action matches CallAction::Send {
                payload,
                ..
            } && exists|carried: JsonView|
                {
                    &&& payload@ == #[trigger] compact_json(carried) + "\n"@
                    &&& carried.member("id"@) == Some(JsonView::Number(unsigned_number(id)))
                    &&& carried.member("op"@) == Some(JsonView::String(request.op@))
                    &&& carried.member("code"@) == Some(JsonView::String(request.code@))
                    &&& carried.member("args"@) == Some(request.args@)
                }),
            action matches CallAction::Send { payload, .. } ==> payload@.last() == '\n'
                && !payload@.drop_last().contains('\n'),
    {
        match event {
            CallEvent::Start => CallAction::Connect { timeout: CONNECT_TIMEOUT },
            CallEvent::Connected { id } => CallAction::Send {
                payload: request.line(id),
                timeout: WRITE_TIMEOUT,
            },
            CallEvent::ConnectFailed { reason } => CallAction::Finish(
                Err(self.not_listening(reason)),
            ),
            CallEvent::ConnectTimedOut => CallAction::Finish(
                Err(self.not_listening("连接超时".to_owned())),
            ),
            CallEvent::Sent => CallAction::Receive { timeout: self.timeout },
            CallEvent::SendFailed { reason } => CallAction::Finish(
                Err(protocol_error("发送请求失败: ", reason.as_str())),
            ),
            CallEvent::SendTimedOut => CallAction::Finish(
                Err(MayaError::Protocol("发送请求超时".to_owned())),
            ),
            CallEvent::Received { line } => if line.as_str().is_empty() {
                CallAction::Finish(Err(MayaError::Protocol("连接被 Maya 端关闭".to_owned())))
            } else {
                CallAction::Finish(read_reply(line.as_str()))
            },
            CallEvent::ReceiveFailed { reason } => CallAction::Finish(
                Err(protocol_error("读取响应失败: ", reason.as_str())),
            ),
            CallEvent::ReceiveTimedOut => CallAction::Finish(
                Err(MayaError::Timeout { timeout: self.timeout }),
            ),
        }
    }
}

/// Whether the event is one that comes of the action.
pub open spec fn comes_of(event: CallEvent, action: ActionView) -> bool {
    match action {
        ActionView::Connect { .. } => event is Connected || event is ConnectFailed
            || event is ConnectTimedOut,
        ActionView::Send { .. } => event is Sent || event is SendFailed || event is SendTimedOut,
        ActionView::Receive { .. } => event is Received || event is ReceiveFailed
            || event is ReceiveTimedOut,
        ActionView::Finish(_) => false,
    }
}

/// Whether the events are those of one call, in order: it starts, and each further event comes of
/// the action that followed the one before.
pub open spec fn is_call(client: MayaClient, request: Request, events: Seq<CallEvent>) -> bool {
    &&& events.len() > 0
    &&& events[0] is Start
    &&& forall|i: int|
        #![trigger events[i]]
        0 < i < events.len() ==> comes_of(
            events[i],
            call_action(client, request, events[i - 1]),
        )
}

/// A call connects, sends and receives in that order and once each: it is over after at most three
/// events besides its start, and the request goes out only over a connection that came about.
pub proof fn call_runs_in_order(client: MayaClient, request: Request, events: Seq<CallEvent>)
    requires
        is_call(client, request, events),
    ensures
        events.len() <= 4,
        events.len() > 1 ==> events[1] is Connected || events[1] is ConnectFailed
            || events[1] is ConnectTimedOut,
        events.len() > 2 ==> events[1] is Connected && (events[2] is Sent || events[2] is SendFailed
            || events[2] is SendTimedOut),
        events.len() == 4 ==> events[2] is Sent && call_action(
            client,
            request,
            events[3],
        ) is Finish,
        forall|i: int|
            0 <= i < events.len() ==> (#[trigger] call_action(client, request, events[i]) is Connect
                <==> i == 0),
        forall|i: int|
            0 <= i < events.len() ==> (#[trigger] call_action(client, request, events[i]) is Send
                <==> i == 1 && events[i] is Connected),
{
    assert(events.len() > 1 ==> comes_of(events[1], call_action(client, request, events[0])));
    assert(events.len() > 2 ==> comes_of(events[2], call_action(client, request, events[1])));
    assert(events.len() > 3 ==> comes_of(events[3], call_action(client, request, events[2])));
    assert(events.len() > 4 ==> comes_of(events[4], call_action(client, request, events[3])));
}

/// A call ends well only when a line came back whose `ok` is true, and then with that line's whole
/// value.
pub proof fn success_is_the_whole_answer(
    client: MayaClient,
    request: Request,
    event: CallEvent,
    resp: JsonView,
)
    requires
        call_action(client, request, event) == ActionView::Finish(Ok(resp)),
    ensures
        event matches CallEvent::Received { line } && parsed_json(trimmed(line@)) == Ok::<
            JsonView,
            Seq<char>,
        >(resp),
        resp.member("ok"@) == Some(JsonView::Bool(true)),
{
}

/// A script that failed is answered with the listener's own words: the message starts with the
/// error and holds the traceback in full.
pub proof fn script_message_keeps_the_error(resp: JsonView, error: Seq<char>, traceback: Seq<char>)
    requires
        resp.member_text("error"@) == Some(error),
        resp.member_text("traceback"@) == Some(traceback),
    ensures
        (error + "\n\n"@ + traceback).is_prefix_of(script_message(resp)),
{
}

/// Every port can be set, 0 too, with zeros or a plus sign in front or without. Without a setting
/// and with anything that is no port, the default holds.
pub proof fn ports_are_read(text: Seq<char>, n: nat, width: nat)
    ensures
        n <= 65_535 ==> port_setting(Some(decimal(n))) == n,
        n <= 65_535 ==> port_setting(Some(zero_filled(decimal(n), width))) == n,
        n <= 65_535 ==> port_setting(Some(seq!['+'] + zero_filled(decimal(n), width))) == n,
        n > 65_535 ==> port_setting(Some(decimal(n))) == 5055,
        port_setting(None) == 5055,
        port_setting(Some(text)) != 5055 ==> parse_unsigned(text, 65_535) == Some(
            port_setting(Some(text)) as nat,
        ),
        parse_unsigned(text, 65_535) is None ==> port_setting(Some(text)) == 5055,
{
    written_numbers_read_back(n, width, 65_535);
    written_numbers_read_back(n, 0, 65_535);
    zero_filled_reads_back(n, 0);
}

/// An error is known by all that it holds.
pub proof fn errors_are_what_they_hold(host: String, port: u16, reason: String, timeout: u64)
    ensures
        (MayaError::NotListening { host, port, reason })@ == (ErrorView::NotListening {
            host: host@,
            port,
            reason: reason@,
        }),
        (MayaError::Timeout { timeout })@ == (ErrorView::Timeout { timeout }),
        MayaError::Protocol(reason)@ == ErrorView::Protocol(reason@),
        MayaError::Script(reason)@ == ErrorView::Script(reason@),
{
}

/// What is said of a listener that cannot be reached names its address and the reason, and goes on
/// with advice that is the same every time.
pub proof fn unreachable_listeners_are_named(
    host1: Seq<char>,
    port1: u16,
    reason1: Seq<char>,
    host2: Seq<char>,
    port2: u16,
    reason2: Seq<char>,
)
    ensures
        ({
            let (m1, m2) = (
                ErrorView::NotListening { host: host1, port: port1, reason: reason1 }.message(),
                ErrorView::NotListening { host: host2, port: port2, reason: reason2 }.message(),
            );
            let told1 = "无法连接 Maya listener ("@ + host1 + ":"@ + decimal(port1 as nat) + "): "@
                + reason1;
            let told2 = "无法连接 Maya listener ("@ + host2 + ":"@ + decimal(port2 as nat) + "): "@
                + reason2;
            &&& told1.is_prefix_of(m1)
            &&& m1.skip(told1.len() as int) == m2.skip(told2.len() as int)
            &&& m1.skip(told1.len() as int).len() == 131
            &&& m1[told1.len() as int] == '\n'
        }),
{
    reveal_strlit(
        "\n请先在 Maya 的 Script Editor (Python 标签页) 中执行:\n  p = r\"<路径>/maya/maya_mcp_listener.py\"; exec(compile(open(p, \"rb\").read(), p, \"exec\"))",
    );
    let (m1, m2) = (
        ErrorView::NotListening { host: host1, port: port1, reason: reason1 }.message(),
        ErrorView::NotListening { host: host2, port: port2, reason: reason2 }.message(),
    );
    let told1 = "无法连接 Maya listener ("@ + host1 + ":"@ + decimal(port1 as nat) + "): "@ + reason1;
    let told2 = "无法连接 Maya listener ("@ + host2 + ":"@ + decimal(port2 as nat) + "): "@ + reason2;
    assert(m1.skip(told1.len() as int) =~= m2.skip(told2.len() as int));
}

/// The other messages: a timeout names its seconds and is the same but for them, a protocol error
/// ends with what went wrong after a start that is always the same, and a failed script is shown in
/// its own words.
pub proof fn errors_tell_what_happened(
    timeout1: u64,
    timeout2: u64,
    what1: Seq<char>,
    what2: Seq<char>,
)
    ensures
        ({
            let (m1, m2) = (
                ErrorView::Timeout { timeout: timeout1 }.message(),
                ErrorView::Timeout { timeout: timeout2 }.message(),
            );
            let told1 = "等待 Maya 响应超时 ("@ + decimal(timeout1 as nat) + "s)"@;
            let told2 = "等待 Maya 响应超时 ("@ + decimal(timeout2 as nat) + "s)"@;
            &&& told1.is_prefix_of(m1)
            &&& m1.skip(told1.len() as int) == m2.skip(told2.len() as int)
        }),
        ({
            let (m1, m2) = (
                ErrorView::Protocol(what1).message(),
                ErrorView::Protocol(what2).message(),
            );
            &&& what1.is_suffix_of(m1)
            &&& m1.take(m1.len() - what1.len()) == "Maya listener 协议错误: "@
            &&& m1.take(m1.len() - what1.len()) == m2.take(m2.len() - what2.len())
        }),
        ErrorView::Script(what1).message() == what1,
{
    reveal_strlit("s)");
    reveal_strlit("s)。Maya 主线程可能被模态对话框阻塞，或脚本仍在运行");
    let (m1, m2) = (
        ErrorView::Timeout { timeout: timeout1 }.message(),
        ErrorView::Timeout { timeout: timeout2 }.message(),
    );
    let told1 = "等待 Maya 响应超时 ("@ + decimal(timeout1 as nat) + "s)"@;
    let told2 = "等待 Maya 响应超时 ("@ + decimal(timeout2 as nat) + "s)"@;
    assert(told1.is_prefix_of(m1));
    assert(m1.skip(told1.len() as int) =~= m2.skip(told2.len() as int));
    let (p1, p2) = (ErrorView::Protocol(what1).message(), ErrorView::Protocol(what2).message());
    assert(p1.take(p1.len() - what1.len()) =~= "Maya listener 协议错误: "@);
    assert(p2.take(p2.len() - what2.len()) =~= "Maya listener 协议错误: "@);
}

/// An answer is taken by its `ok`: as it is where that is true, as a failed script where it is false,
/// and as a broken exchange where it is neither or missing.
pub proof fn answers_are_taken_by_their_ok(resp: JsonView)
    ensures
        resp.member("ok"@) == Some(JsonView::Bool(true)) <==> settled(resp) is Ok,
        settled(resp) is Ok ==> settled(resp)->Ok_0 == resp,
        resp.member("ok"@) == Some(JsonView::Bool(false)) <==> settled(resp) is Err
            && settled(resp)->Err_0 is Script,
        !(resp.member("ok"@) matches Some(JsonView::Bool(_))) <==> settled(resp) is Err
            && settled(resp)->Err_0 is Protocol,
        settled(resp) is Err && settled(resp)->Err_0 is Protocol ==> settled(resp)->Err_0
            == ErrorView::Protocol("响应缺少 ok 字段"@),
{
}

/// A failed script is told in full and no more: its error, or that it is unknown, the traceback where
/// there is one, and what was printed where that is not blank, each two lines after the other.
pub proof fn script_messages_are_complete(resp: JsonView)
    requires
        resp.member("ok"@) == Some(JsonView::Bool(false)),
    ensures
        ({
            let message = settled(resp)->Err_0->Script_0;
            let error = match resp.member("error"@) {
                Some(JsonView::String(text)) => text,
                _ => "unknown error"@,
            };
            let traceback = match resp.member("traceback"@) {
                Some(JsonView::String(text)) => Some(text),
                _ => None,
            };
            let stdout = match resp.member("stdout"@) {
                Some(JsonView::String(text)) => text,
                _ => seq![],
            };
            let printed = !all_white(stdout);
            &&& settled(resp) is Err && settled(resp)->Err_0 is Script
            &&& error.is_prefix_of(message)
            &&& traceback matches Some(text) ==> (error + "\n\n"@ + text).is_prefix_of(message)
            &&& printed ==> ("\n\nstdout:\n"@ + trimmed_end(stdout)).is_suffix_of(message)
            &&& message.len() == error.len() + (match traceback {
                Some(text) => 2 + text.len(),
                None => 0,
            }) + (if printed {
                10 + trimmed_end(stdout).len()
            } else {
                0
            })
        }),
{
    reveal_strlit("\n\n");
    reveal_strlit("\n\nstdout:\n");
    let stdout = match resp.member("stdout"@) {
        Some(JsonView::String(text)) => text,
        _ => seq![],
    };
    let error = match resp.member("error"@) {
        Some(JsonView::String(text)) => text,
        _ => "unknown error"@,
    };
    blank_is_all_white(stdout);
    let message = script_message(resp);
    assert(settled(resp) == Err::<JsonView, ErrorView>(ErrorView::Script(message)));
    assert(resp.member_text("stdout"@) is None ==> stdout =~= Seq::<char>::empty());
    assert(error.is_prefix_of(message));
    if let Some(JsonView::String(text)) = resp.member("traceback"@) {
        assert((error + "\n\n"@ + text).is_prefix_of(message));
    }
    if !all_white(stdout) {
        assert(("\n\nstdout:\n"@ + trimmed_end(stdout)).is_suffix_of(message));
    }
}

/// A line is taken by the value that its text is: where there is one, as an answer, and where there
/// is none, as a broken exchange that ends with what is wrong with the text.
pub proof fn lines_are_taken_by_their_value(line: Seq<char>)
    ensures
        match parsed_json(trimmed(line)) {
            Ok(resp) => {
                &&& reply(line) is Ok <==> resp.member("ok"@) == Some(JsonView::Bool(true))
                &&& reply(line) is Ok ==> reply(line)->Ok_0 == resp
                &&& reply(line) is Err && reply(line)->Err_0 is Script <==> resp.member("ok"@) == Some(
                    JsonView::Bool(false),
                )
                &&& reply(line) is Err && reply(line)->Err_0 is Script ==> reply(line)->Err_0
                    == settled(resp)->Err_0
            },
            Err(what) => {
                &&& reply(line) is Err && reply(line)->Err_0 is Protocol
                &&& what.is_suffix_of(reply(line)->Err_0->Protocol_0)
                &&& reply(line)->Err_0->Protocol_0.take(
                    reply(line)->Err_0->Protocol_0.len() - what.len(),
                ) == "响应不是合法 JSON: "@
            },
        },
{
    if let Err(what) = parsed_json(trimmed(line)) {
        let told = reply(line)->Err_0->Protocol_0;
        assert(told.take(told.len() - what.len()) =~= "响应不是合法 JSON: "@);
    }
}

/// Each step of a call has its time: five seconds to connect and to send, and the client's own to
/// wait for the answer.
pub proof fn steps_have_their_time(client: MayaClient, request: Request, id: u64)
    ensures
        call_action(client, request, CallEvent::Start) == (ActionView::Connect { timeout: 5 }),
        call_action(client, request, CallEvent::Connected { id }) is Send,
        call_action(client, request, CallEvent::Connected { id })->Send_timeout == 5,
        call_action(client, request, CallEvent::Sent) == (ActionView::Receive {
            timeout: client.timeout,
        }),
{
}

/// What goes wrong in a call ends it with an error that says where: a connection that does not come
/// about names the client's own address and the reason, an answer that is late the client's own
/// time, and anything else is a broken exchange that ends with the reason where there is one.
pub proof fn failures_say_where(client: MayaClient, request: Request, reason: String)
    ensures
        call_action(client, request, CallEvent::ConnectFailed { reason }) == ActionView::Finish(
            Err(
                ErrorView::NotListening { host: client.host@, port: client.port, reason: reason@ },
            ),
        ),
        call_action(client, request, CallEvent::ConnectTimedOut) == ActionView::Finish(
            Err(
                ErrorView::NotListening {
                    host: client.host@,
                    port: client.port,
                    reason: "连接超时"@,
                },
            ),
        ),
        call_action(client, request, CallEvent::ReceiveTimedOut) == ActionView::Finish(
            Err(ErrorView::Timeout { timeout: client.timeout }),
        ),
        call_action(client, request, CallEvent::SendTimedOut) == ActionView::Finish(
            Err(ErrorView::Protocol("发送请求超时"@)),
        ),
        ({
            let told = call_action(
                client,
                request,
                CallEvent::SendFailed { reason },
            )->Finish_0->Err_0->Protocol_0;
            &&& call_action(client, request, CallEvent::SendFailed { reason }) == ActionView::Finish(
                Err(ErrorView::Protocol(told)),
            )
            &&& reason@.is_suffix_of(told)
            &&& told.take(told.len() - reason@.len()) == "发送请求失败: "@
        }),
        ({
            let told = call_action(
                client,
                request,
                CallEvent::ReceiveFailed { reason },
            )->Finish_0->Err_0->Protocol_0;
            &&& call_action(client, request, CallEvent::ReceiveFailed { reason })
                == ActionView::Finish(Err(ErrorView::Protocol(told)))
            &&& reason@.is_suffix_of(told)
            &&& told.take(told.len() - reason@.len()) == "读取响应失败: "@
        }),
        call_action(client, request, CallEvent::Received { line: reason }) == if reason@
            =~= Seq::empty() {
            ActionView::Finish(Err(ErrorView::Protocol("连接被 Maya 端关闭"@)))
        } else {
            ActionView::Finish(reply(reason@))
        },
{
    let sent = call_action(
        client,
        request,
        CallEvent::SendFailed { reason },
    )->Finish_0->Err_0->Protocol_0;
    assert(sent.take(sent.len() - reason@.len()) =~= "发送请求失败: "@);
    let received = call_action(
        client,
        request,
        CallEvent::ReceiveFailed { reason },
    )->Finish_0->Err_0->Protocol_0;
    assert(received.take(received.len() - reason@.len()) =~= "读取响应失败: "@);
}

/// An outcome is known by its answer or by its error.
pub proof fn outcomes_are_what_they_hold(json: Json, e: MayaError)
    ensures
        outcome_view(Ok(json)) == Ok::<JsonView, ErrorView>(json@),
        outcome_view(Err(e)) == Err::<JsonView, ErrorView>(e@),
{
}

/// An action is known by all that it holds.
pub proof fn actions_are_what_they_hold(
    payload: String,
    timeout: u64,
    outcome: Result<Json, MayaError>,
)
    ensures
        (CallAction::Connect { timeout })@ == (ActionView::Connect { timeout }),
        (CallAction::Send { payload, timeout })@ == (ActionView::Send { payload: payload@, timeout }),
        (CallAction::Receive { timeout })@ == (ActionView::Receive { timeout }),
        CallAction::Finish(outcome)@ == ActionView::Finish(outcome_view(outcome)),
{
}

} // verus!
