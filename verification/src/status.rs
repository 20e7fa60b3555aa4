//! Watching the listener: single probes, the history of the latest ones and what it shows.

use crate::json::Json;
#[allow(unused_imports)]
use crate::json::JsonView;
use crate::maya::{MayaClient, MayaError, Request};
#[allow(unused_imports)]
use crate::maya::{outcome_view, ErrorView};
#[allow(unused_imports)]
use crate::settings::positive_setting;
use crate::settings::read_env_u64;
#[allow(unused_imports)]
use crate::text::{decimal, slice_of, text_of};
use crate::text::append_decimal;
use std::collections::VecDeque;
use vstd::prelude::*;

verus! {

broadcast use {vstd::string::group_string_axioms, vstd::std_specs::vecdeque::group_vec_dequeue_axioms};

/// How many samples the history keeps.
pub const HISTORY_SIZE: usize = 10;

/// An answer that takes more than this many milliseconds is a slow one.
pub const DEGRADE_MS: u128 = 2000;

/// How far apart the probes are, in seconds, where nothing else is set.
pub const DEFAULT_PROBE_SECS: u64 = 30;

/// How long a probe may take, in seconds, where nothing else is set.
pub const DEFAULT_PROBE_TIMEOUT_SECS: u64 = 5;

/// What came of one probe.
#[derive(Debug)]
pub struct Sample {
    pub ok: bool,
    pub latency_ms: Option<u128>,
    pub version: Option<String>,
    pub error: Option<String>,
    /// When it was taken, in nanoseconds of a clock that never goes back.
    pub at: u128,
}

impl Clone for Sample {
    fn clone(&self) -> (copy: Self)
        ensures
            copy == *self,
    {
        Sample {
            ok: self.ok,
            latency_ms: self.latency_ms,
            version: match &self.version {
                Some(version) => Some(version.clone()),
                None => None,
            },
            error: match &self.error {
                Some(error) => Some(error.clone()),
                None => None,
            },
            at: self.at,
        }
    }
}

/// The latest samples, the oldest first.
#[derive(Debug)]
pub struct History {
    pub samples: VecDeque<Sample>,
}

impl View for History {
    type V = Seq<Sample>;

    open spec fn view(&self) -> Seq<Sample> {
        self.samples@
    }
}

impl History {
    /// There are no more samples than the history keeps.
    pub open spec fn wf(self) -> bool {
        self@.len() <= HISTORY_SIZE
    }
}

/// A history without samples.
pub fn new_history() -> (history: History)
    ensures
        history.wf(),
        history@ == Seq::<Sample>::empty(),
{
    History { samples: VecDeque::new() }
}

/// The history after one more sample: the oldest one makes room where the history is full.
pub open spec fn recorded(history: Seq<Sample>, sample: Sample) -> Seq<Sample> {
    if history.len() >= HISTORY_SIZE {
        history.drop_first().push(sample)
    } else {
        history.push(sample)
    }
}

impl History {
    /// Puts a sample into the history.
    pub fn record(&mut self, sample: Sample)
        requires
            old(self).wf(),
        ensures
            final(self).wf(),
            final(self)@ == recorded(old(self)@, sample),
            final(self)@.last() == sample,
            old(self)@.len() < 10 ==> final(self)@.drop_last() == old(self)@,
            old(self)@.len() == 10 ==> final(self)@.drop_last() == old(self)@.skip(1),
    {
        if self.samples.len() >= HISTORY_SIZE {
            self.samples.pop_front();
        }
        self.samples.push_back(sample);
        assert(self@ =~= recorded(old(self)@, sample));
    }
}

/// The history after all the samples, one by one, into an empty one.
pub open spec fn recorded_all(samples: Seq<Sample>) -> Seq<Sample>
    decreases samples.len(),
{
    if samples.len() == 0 {
        seq![]
    } else {
        recorded(recorded_all(samples.drop_last()), samples.last())
    }
}

/// Whatever was recorded, the history holds the latest `HISTORY_SIZE` samples of it, or all where
/// there are fewer, in the order in which they came.
pub proof fn history_is_the_latest(samples: Seq<Sample>)
    ensures
        recorded_all(samples) == samples.skip(
            if samples.len() > HISTORY_SIZE {
                samples.len() - HISTORY_SIZE
            } else {
                0
            },
        ),
        samples.len() <= 10 ==> recorded_all(samples) == samples,
        samples.len() > 10 ==> recorded_all(samples) == samples.skip(samples.len() - 10),
    decreases samples.len(),
{
    let kept = samples.skip(
        if samples.len() > HISTORY_SIZE {
            samples.len() - HISTORY_SIZE
        } else {
            0
        },
    );
    if samples.len() > 0 {
        history_is_the_latest(samples.drop_last());
    }
    assert(recorded_all(samples) =~= kept);
}

/// How far apart the probes are, in seconds, by the setting `MAYA_MCP_PROBE_SECS`.
pub fn probe_interval(setting: Option<&str>) -> (secs: u64)
    ensures
        secs == positive_setting(slice_of(setting), DEFAULT_PROBE_SECS),
        secs == positive_setting(slice_of(setting), 30),
        secs > 0,
{
    read_env_u64(setting, DEFAULT_PROBE_SECS)
}

/// How long a probe may take, in seconds, by the setting `MAYA_MCP_PROBE_TIMEOUT_SECS`.
pub fn probe_timeout(setting: Option<&str>) -> (secs: u64)
    ensures
        secs == positive_setting(slice_of(setting), DEFAULT_PROBE_TIMEOUT_SECS),
        secs == positive_setting(slice_of(setting), 5),
        secs > 0,
{
    read_env_u64(setting, DEFAULT_PROBE_TIMEOUT_SECS)
}

/// The client that a probe uses: the same listener, with the probe's own time to answer.
pub fn probe_client(client: &MayaClient, probe_timeout: u64) -> (probing: MayaClient)
    ensures
        probing.host@ == client.host@,
        probing.port == client.port,
        probing.timeout == probe_timeout,
{
    MayaClient { host: client.host.clone(), port: client.port, timeout: probe_timeout }
}

/// What a probe asks of the listener.
pub fn probe_request() -> (request: Request)
    ensures
        request.op@ == "ping"@,
        request.code@ == Seq::<char>::empty(),
        request.args@ == JsonView::Object(Map::empty()),
{
    Request { op: "ping".to_owned(), code: String::new(), args: Json::empty_object() }
}

/// What a probe shows: how long the answer took and Maya's version, or the error.
pub type Probe = Result<(u128, String), String>;

/// What a `Probe` says.
pub open spec fn probe_view(probe: Probe) -> Result<(u128, Seq<char>), Seq<char>> {
    match probe {
        Ok((ms, version)) => Ok((ms, version@)),
        Err(e) => Err(e@),
    }
}

/// What a probe shows that was answered like this after `ms` milliseconds. The version is empty
/// where the answer's result is no text.
pub open spec fn probed(
    outcome: Result<JsonView, ErrorView>,
    ms: u128,
) -> Result<(u128, Seq<char>), Seq<char>> {
    match outcome {
        Ok(resp) => Ok(
            (
                ms,
                match resp.member_text("result"@) {
                    Some(version) => version,
                    None => seq![],
                },
            ),
        ),
        Err(e) => Err(e.message()),
    }
}

/// Tells what a probe shows that was answered like this after `elapsed_ms` milliseconds.
pub fn probe_once(outcome: Result<Json, MayaError>, elapsed_ms: u128) -> (probe: Probe)
    ensures
        probe_view(probe) == probed(outcome_view(outcome), elapsed_ms),
        match outcome {
            Ok(resp) => {
                &&& probe is Ok
                &&& probe->Ok_0.0 == elapsed_ms
                &&& resp@.member("result"@) matches Some(JsonView::String(version))
                    ==> probe->Ok_0.1@ == version
                &&& !(resp@.member("result"@) matches Some(JsonView::String(_)))
                    ==> probe->Ok_0.1@.len() == 0
            },
            Err(e) => probe is Err && probe->Err_0@ == e@.message(),
        },
{
    match outcome {
        Ok(resp) => {
            let version = match resp.get("result") {
                Some(member) => match member.as_str() {
                    Some(text) => text.to_owned(),
                    None => String::new(),
                },
                None => String::new(),
            };
            Ok((elapsed_ms, version))
        },
        Err(e) => Err(e.to_string()),
    }
}

/// Makes the sample of a probe that was taken at `at`.
pub fn make_sample(probe: Probe, at: u128) -> (sample: Sample)
    ensures
        sample.at == at,
        sample.ok == probe is Ok,
        probe matches Ok((ms, version)) ==> sample.latency_ms == Some(ms) && sample.version is Some
            && sample.version->0@ == version@,
        probe matches Err(e) ==> sample.error is Some && sample.error->0@ == e@,
        match probe_view(probe) {
            Ok((ms, version)) => {
                &&& sample.ok
                &&& sample.latency_ms == Some(ms)
                &&& text_of(sample.version) == Some(version)
                &&& sample.error is None
            },
            Err(e) => {
                &&& !sample.ok
                &&& sample.latency_ms is None
                &&& sample.version is None
                &&& text_of(sample.error) == Some(e)
            },
        },
{
    match probe {
        Ok((ms, version)) => Sample {
            ok: true,
            latency_ms: Some(ms),
            version: Some(version),
            error: None,
            at,
        },
        Err(e) => Sample { ok: false, latency_ms: None, version: None, error: Some(e), at },
    }
}

/// How many of the samples are good ones.
pub open spec fn good(samples: Seq<Sample>) -> nat
    decreases samples.len(),
{
    if samples.len() == 0 {
        0
    } else {
        good(samples.drop_last()) + if samples.last().ok {
            1nat
        } else {
            0
        }
    }
}

/// How many of the samples have a latency.
pub open spec fn timed(samples: Seq<Sample>) -> nat
    decreases samples.len(),
{
    if samples.len() == 0 {
        0
    } else {
        timed(samples.drop_last()) + if samples.last().latency_ms is Some {
            1nat
        } else {
            0
        }
    }
}

/// The latencies of the samples added up.
pub open spec fn latency_total(samples: Seq<Sample>) -> nat
    decreases samples.len(),
{
    if samples.len() == 0 {
        0
    } else {
        latency_total(samples.drop_last()) + match samples.last().latency_ms {
            Some(ms) => ms as nat,
            None => 0,
        }
    }
}

/// The latencies' average, rounded down, where a sample has one.
pub open spec fn average_latency(samples: Seq<Sample>) -> Option<nat> {
    if timed(samples) == 0 {
        None
    } else {
        Some(latency_total(samples) / timed(samples))
    }
}

/// The latest of the samples that is a good one, or a bad one.
pub open spec fn latest(samples: Seq<Sample>, ok: bool) -> Option<Sample>
    decreases samples.len(),
{
    if samples.len() == 0 {
        None
    } else if samples.last().ok == ok {
        Some(samples.last())
    } else {
        latest(samples.drop_last(), ok)
    }
}

/// The good samples out of a hundred, rounded down.
pub open spec fn availability(samples: Seq<Sample>) -> int
    recommends
        samples.len() > 0,
{
    good(samples) as int * 100 / samples.len() as int
}

proof fn latency_total_grows(samples: Seq<Sample>, n: int)
    requires
        0 <= n <= samples.len(),
    ensures
        latency_total(samples.take(n)) <= latency_total(samples),
    decreases samples.len() - n,
{
    if n < samples.len() {
        latency_total_grows(samples, n + 1);
        assert(samples.take(n + 1).drop_last() =~= samples.take(n));
    } else {
        assert(samples.take(n) =~= samples);
    }
}

proof fn good_is_a_part(samples: Seq<Sample>)
    ensures
        good(samples) <= samples.len(),
        good(samples) == samples.len() <==> forall|i: int|
            0 <= i < samples.len() ==> (#[trigger] samples[i]).ok,
        good(samples) == 0 <==> forall|i: int|
            0 <= i < samples.len() ==> !(#[trigger] samples[i]).ok,
    decreases samples.len(),
{
    if samples.len() > 0 {
        let rest = samples.drop_last();
        good_is_a_part(rest);
        assert(forall|i: int| 0 <= i < rest.len() ==> rest[i] == samples[i]);
        assert(samples[samples.len() - 1] == samples.last());
        assert((forall|i: int| 0 <= i < samples.len() ==> (#[trigger] samples[i]).ok) ==> (forall|
            i: int,
        | 0 <= i < rest.len() ==> (#[trigger] rest[i]).ok));
        assert((forall|i: int| 0 <= i < samples.len() ==> !(#[trigger] samples[i]).ok) ==> (forall|
            i: int,
        | 0 <= i < rest.len() ==> !(#[trigger] rest[i]).ok));
    }
}

/// The availability is a percentage. It is 100 exactly when every sample of the history is good,
/// and 0 exactly when none is.
pub proof fn availability_is_a_percentage(history: History)
    requires
        history.wf(),
        history@.len() > 0,
    ensures
        0 <= availability(history@) <= 100,
        availability(history@) == 100 <==> forall|i: int|
            0 <= i < history@.len() ==> (#[trigger] history@[i]).ok,
        availability(history@) == 0 <==> forall|i: int|
            0 <= i < history@.len() ==> !(#[trigger] history@[i]).ok,
{
    let samples = history@;
    good_is_a_part(samples);
    let g = good(samples) as int;
    let n = samples.len() as int;
    assert(0 <= g * 100 / n <= 100) by (nonlinear_arith)
        requires
            0 <= g <= n,
            n > 0,
    ;
    assert(g * 100 / n == 100 <==> g == n) by (nonlinear_arith)
        requires
            0 <= g <= n,
            n > 0,
    ;
    assert(g * 100 / n == 0 <==> g == 0) by (nonlinear_arith)
        requires
            0 <= g <= n,
            0 < n <= 10,
    ;
}

/// How the listener is doing.
#[derive(Debug, Clone, Copy, PartialEq, Eq, Structural)]
pub enum Status {
    /// It answers.
    Up,
    /// It answers slowly.
    Degraded,
    /// It does not answer.
    Down,
}

impl Status {
    /// The status that a probe shows.
    pub open spec fn shown_by(probe: Result<(u128, Seq<char>), Seq<char>>) -> Status {
        match probe {
            Ok((ms, _)) => if ms > DEGRADE_MS {
                Status::Degraded
            } else {
                Status::Up
            },
            Err(_) => Status::Down,
        }
    }

    /// The status as the report writes it.
    pub open spec fn spec_code(self) -> Seq<char> {
        match self {
            Status::Up => "UP"@,
            Status::Degraded => "DEGRADED"@,
            Status::Down => "DOWN"@,
        }
    }

    /// The status that a probe shows.
    pub fn of_probe(probe: &Probe) -> (status: Status)
        ensures
            status == Status::shown_by(probe_view(*probe)),
    {
        match probe {
            Ok((ms, _)) => if *ms > DEGRADE_MS {
                Status::Degraded
            } else {
                Status::Up
            },
            Err(_) => Status::Down,
        }
    }

    /// The status as the report writes it.
    pub fn code(&self) -> (text: &'static str)
        ensures
            text@ == self.spec_code(),
    {
        match self {
            Status::Up => "UP",
            Status::Degraded => "DEGRADED",
            Status::Down => "DOWN",
        }
    }
}

/// The listener is down exactly when the probe's call failed, however long that took.
pub proof fn down_means_no_answer(outcome: Result<JsonView, ErrorView>, ms: u128)
    ensures
        Status::shown_by(probed(outcome, ms)) is Down <==> outcome is Err,
        Status::shown_by(probed(outcome, ms)) is Up <==> outcome is Ok && ms <= DEGRADE_MS,
{
}

/// The whole seconds from `at` to `now`, and none where `at` lies ahead.
pub open spec fn age_secs(at: u128, now: u128) -> int {
    if now >= at {
        (now - at) / 1_000_000_000
    } else {
        0
    }
}

/// The whole seconds from `at` to `now`, and none where `at` lies ahead.
fn age(at: u128, now: u128) -> (secs: u128)
    ensures
        secs == age_secs(at, now),
{
    if now >= at {
        (now - at) / 1_000_000_000
    } else {
        0
    }
}

/// What the string holds; nothing where there is none.
pub open spec fn text_or_empty(text: Option<String>) -> Seq<char> {
    match text {
        Some(t) => t@,
        None => seq![],
    }
}

/// The report's line on the history.
pub open spec fn history_line(samples: Seq<Sample>) -> Seq<char> {
    if samples.len() == 0 {
        "历史监控: 尚无样本"@
    } else {
        "历史监控: 近 "@ + decimal(samples.len()) + " 次成功 "@ + decimal(good(samples)) + "/"@ + decimal(
            samples.len(),
        ) + " (可用率 "@ + decimal(availability(samples) as nat) + "%)"@ + match average_latency(
            samples,
        ) {
            Some(ms) => ", 平均延迟 "@ + decimal(ms) + " ms"@,
            None => seq![],
        }
    }
}

/// The report's line on the latest failure, where there is one.
pub open spec fn failure_line(samples: Seq<Sample>, now: u128) -> Option<Seq<char>> {
    match latest(samples, false) {
        Some(sample) => Some(
            "最近失败: "@ + decimal(age_secs(sample.at, now) as nat) + "s 前 - "@ + text_or_empty(
                sample.error,
            ),
        ),
        None => None,
    }
}

/// The report's line on when the listener answered last.
pub open spec fn success_line(samples: Seq<Sample>, now: u128) -> Seq<char> {
    match latest(samples, true) {
        Some(sample) => "最后可用: "@ + decimal(age_secs(sample.at, now) as nat) + "s 前"@ + if text_or_empty(
            sample.version,
        ).len() > 0 {
            " ("@ + text_or_empty(sample.version) + ")"@
        } else {
            seq![]
        },
        None => "最后可用: 无记录"@,
    }
}

impl History {
    /// How many samples are good, how many have a latency, and the latencies added up.
    fn sums(&self) -> (sums: (usize, usize, u128))
        requires
            self.wf(),
            latency_total(self@) <= u128::MAX,
        ensures
            sums.0 == good(self@),
            sums.1 == timed(self@),
            sums.2 == latency_total(self@),
    {
        let mut ok_n: usize = 0;
        let mut timed_n: usize = 0;
        let mut total: u128 = 0;
        let mut i: usize = 0;
        assert(self@.take(0) =~= seq![]);
        while i < self.samples.len()
            invariant
                i <= self@.len() <= HISTORY_SIZE,
                latency_total(self@) <= u128::MAX,
                ok_n == good(self@.take(i as int)),
                timed_n == timed(self@.take(i as int)),
                total == latency_total(self@.take(i as int)),
                ok_n <= i,
                timed_n <= i,
            decreases self@.len() - i,
        {
            let sample = &self.samples[i];
            proof {
                assert(self@.take(i + 1).drop_last() =~= self@.take(i as int));
                assert(self@.take(i + 1).last() == *sample);
                latency_total_grows(self@, i + 1);
            }
            if sample.ok {
                ok_n = ok_n + 1;
            }
            if let Some(ms) = sample.latency_ms {
                timed_n = timed_n + 1;
                total = total + ms;
            }
            i = i + 1;
        }
        assert(self@.take(i as int) =~= self@);
        (ok_n, timed_n, total)
    }

    /// The latest sample that is a good one, or a bad one.
    fn find_latest(&self, ok: bool) -> (found: Option<&Sample>)
        ensures
            match found {
                Some(sample) => latest(self@, ok) == Some(*sample),
                None => latest(self@, ok) is None,
            },
    {
        let mut i: usize = self.samples.len();
        assert(self@.take(i as int) =~= self@);
        while i > 0
            invariant
                i <= self@.len(),
                latest(self@, ok) == latest(self@.take(i as int), ok),
            decreases i,
        {
            assert(self@.take(i as int).drop_last() =~= self@.take(i - 1));
            i = i - 1;
            let sample = &self.samples[i];
            if sample.ok == ok {
                return Some(sample);
            }
        }
        None
    }

    /// The report's line on the history.
    pub fn summary(&self) -> (line: String)
        requires
            self.wf(),
            latency_total(self@) <= u128::MAX,
        ensures
            line@ == history_line(self@),
    {
        let total: usize = self.samples.len();
        if total == 0 {
            return "历史监控: 尚无样本".to_owned();
        }
        let (ok_n, timed_n, latencies) = self.sums();
        proof {
            good_is_a_part(self@);
            availability_is_a_percentage(*self);
        }
        let pct: usize = ok_n * 100 / total;
        let mut out = "历史监控: 近 ".to_owned();
        append_decimal(&mut out, total as u128);
        out.append(" 次成功 ");
        append_decimal(&mut out, ok_n as u128);
        out.append("/");
        append_decimal(&mut out, total as u128);
        out.append(" (可用率 ");
        append_decimal(&mut out, pct as u128);
        out.append("%)");
        if timed_n > 0 {
            out.append(", 平均延迟 ");
            append_decimal(&mut out, latencies / (timed_n as u128));
            out.append(" ms");
        }
        assert(out@ =~= history_line(self@));
        out
    }

    /// The report's line on the latest failure, where there is one.
    pub fn latest_failure(&self, now: u128) -> (line: Option<String>)
        ensures
            text_of(line) == failure_line(self@, now),
    {
        match self.find_latest(false) {
            Some(sample) => {
                let mut out = "最近失败: ".to_owned();
                append_decimal(&mut out, age(sample.at, now));
                out.append("s 前 - ");
                if let Some(e) = &sample.error {
                    out.append(e.as_str());
                }
                assert(out@ =~= failure_line(self@, now)->0);
                Some(out)
            },
            None => None,
        }
    }

    /// The report's line on when the listener answered last.
    pub fn latest_success(&self, now: u128) -> (line: String)
        ensures
            line@ == success_line(self@, now),
    {
        match self.find_latest(true) {
            Some(sample) => {
                let mut out = "最后可用: ".to_owned();
                append_decimal(&mut out, age(sample.at, now));
                out.append("s 前");
                if let Some(version) = &sample.version {
                    if !version.as_str().is_empty() {
                        out.append(" (");
                        out.append(version.as_str());
                        out.append(")");
                    }
                }
                assert(out@ =~= success_line(self@, now));
                out
            },
            None => "最后可用: 无记录".to_owned(),
        }
    }
}

/// The latest good sample, or bad one, is one of the history that no such sample follows. There is
/// none exactly when the history holds none, however many others it holds.
pub proof fn the_latest_is_found(samples: Seq<Sample>, ok: bool)
    ensures
        latest(samples, ok) is None <==> forall|i: int|
            0 <= i < samples.len() ==> (#[trigger] samples[i]).ok != ok,
        latest(samples, ok) matches Some(s) ==> exists|i: int|
            0 <= i < samples.len() && #[trigger] samples[i] == s && s.ok == ok && forall|j: int|
                i < j < samples.len() ==> (#[trigger] samples[j]).ok != ok,
    decreases samples.len(),
{
    if samples.len() > 0 {
        let last = samples.len() - 1;
        let rest = samples.drop_last();
        assert(samples[last] == samples.last());
        if samples.last().ok != ok {
            the_latest_is_found(rest, ok);
            assert(forall|i: int| 0 <= i < rest.len() ==> #[trigger] rest[i] == samples[i]);
            match latest(rest, ok) {
                Some(s) => {
                    let i = choose|i: int|
                        0 <= i < rest.len() && #[trigger] rest[i] == s && s.ok == ok && forall|j: int|
                            i < j < rest.len() ==> (#[trigger] rest[j]).ok != ok;
                    assert(samples[i] == s);
                    assert forall|j: int| i < j < samples.len() implies (#[trigger] samples[j]).ok
                        != ok by {
                        if j < last {
                            assert(rest[j] == samples[j]);
                        }
                    }
                },
                None => {
                    assert forall|j: int| 0 <= j < samples.len() implies (#[trigger] samples[j]).ok
                        != ok by {
                        if j < last {
                            assert(rest[j] == samples[j]);
                        }
                    }
                },
            }
        }
    }
}

/// The sample at `i` is the latest one where it is good, or bad, and none after it is.
pub proof fn the_latest_is_at(samples: Seq<Sample>, ok: bool, i: int)
    requires
        0 <= i < samples.len(),
        samples[i].ok == ok,
        forall|j: int| i < j < samples.len() ==> (#[trigger] samples[j]).ok != ok,
    ensures
        latest(samples, ok) == Some(samples[i]),
{
    the_latest_is_found(samples, ok);
    let s = latest(samples, ok)->0;
    let k = choose|k: int|
        0 <= k < samples.len() && #[trigger] samples[k] == s && s.ok == ok && forall|j: int|
            k < j < samples.len() ==> (#[trigger] samples[j]).ok != ok;
    assert(k == i);
}

/// The good samples are those that are left when the others are taken out.
pub proof fn good_samples_are_counted(samples: Seq<Sample>)
    ensures
        good(samples) == samples.filter(|s: Sample| s.ok).len(),
        timed(samples) == samples.filter(|s: Sample| s.latency_ms is Some).len(),
    decreases samples.len(),
{
    reveal(Seq::filter);
    if samples.len() > 0 {
        good_samples_are_counted(samples.drop_last());
    }
}

/// What two stretches of samples add up to is what each adds up to, and one sample adds its own
/// latency where it has one.
pub proof fn latencies_add_up(a: Seq<Sample>, b: Seq<Sample>, sample: Sample)
    ensures
        latency_total(a + b) == latency_total(a) + latency_total(b),
        timed(a + b) == timed(a) + timed(b),
        good(a + b) == good(a) + good(b),
        latency_total(seq![sample]) == match sample.latency_ms {
            Some(ms) => ms as nat,
            None => 0,
        },
        timed(seq![sample]) == if sample.latency_ms is Some {
            1nat
        } else {
            0
        },
        good(seq![sample]) == if sample.ok {
            1nat
        } else {
            0
        },
    decreases b.len(),
{
    reveal_with_fuel(latency_total, 2);
    reveal_with_fuel(timed, 2);
    reveal_with_fuel(good, 2);
    assert(seq![sample].drop_last() =~= seq![]);
    if b.len() == 0 {
        assert(a + b =~= a);
    } else {
        assert((a + b).drop_last() =~= a + b.drop_last());
        latencies_add_up(a, b.drop_last(), sample);
    }
}

/// The average latency is the whole part of the sum over the count, and there is one exactly when a
/// sample has a latency. It lies between the latencies that it is made of.
pub proof fn the_average_is_an_average(samples: Seq<Sample>, low: u128, high: u128)
    requires
        forall|i: int|
            0 <= i < samples.len() ==> ((#[trigger] samples[i]).latency_ms matches Some(ms) ==> low <= ms
                <= high),
    ensures
        average_latency(samples) is None <==> forall|i: int|
            0 <= i < samples.len() ==> (#[trigger] samples[i]).latency_ms is None,
        average_latency(samples) matches Some(ms) ==> {
            &&& ms * timed(samples) <= latency_total(samples) < (ms + 1) * timed(samples)
            &&& low <= ms <= high
        },
{
    latencies_lie_between(samples, low, high);
    let total = latency_total(samples) as int;
    let n = timed(samples) as int;
    if n > 0 {
        let ms = total / n;
        assert(ms * n <= total < (ms + 1) * n) by (nonlinear_arith)
            requires
                n > 0,
                ms == total / n,
        ;
        assert(low <= ms <= high) by (nonlinear_arith)
            requires
                n > 0,
                ms == total / n,
                low * n <= total <= high * n,
        ;
    }
}

proof fn latencies_lie_between(samples: Seq<Sample>, low: u128, high: u128)
    requires
        forall|i: int|
            0 <= i < samples.len() ==> ((#[trigger] samples[i]).latency_ms matches Some(ms) ==> low <= ms
                <= high),
    ensures
        low * timed(samples) <= latency_total(samples) <= high * timed(samples),
        timed(samples) == 0 <==> forall|i: int|
            0 <= i < samples.len() ==> (#[trigger] samples[i]).latency_ms is None,
    decreases samples.len(),
{
    if samples.len() > 0 {
        let rest = samples.drop_last();
        assert(forall|i: int| 0 <= i < rest.len() ==> #[trigger] rest[i] == samples[i]);
        latencies_lie_between(rest, low, high);
        assert(samples[samples.len() - 1] == samples.last());
        let n = timed(rest) as int;
        assert(low * (n + 1) == low * n + low) by (nonlinear_arith);
        assert(high * (n + 1) == high * n + high) by (nonlinear_arith);
        if timed(samples) == 0 {
            assert forall|i: int| 0 <= i < samples.len() implies (#[trigger] samples[i]).latency_ms is None by {
                if i < rest.len() {
                    assert(rest[i].latency_ms is None);
                }
            }
        }
        if forall|i: int| 0 <= i < samples.len() ==> (#[trigger] samples[i]).latency_ms is None {
            assert forall|i: int| 0 <= i < rest.len() implies (#[trigger] rest[i]).latency_ms is None by {
                assert(samples[i].latency_ms is None);
            }
        }
    } else {
        assert(low * 0 == 0 && high * 0 == 0) by (nonlinear_arith);
        assert(timed(samples) == 0);
    }
}

/// The availability is the whole part of the good samples' share in percent.
pub proof fn the_availability_is_a_share(samples: Seq<Sample>)
    requires
        samples.len() > 0,
    ensures
        availability(samples) * samples.len() <= 100 * samples.filter(|s: Sample| s.ok).len(),
        100 * samples.filter(|s: Sample| s.ok).len() < (availability(samples) + 1) * samples.len(),
{
    good_samples_are_counted(samples);
    let g = good(samples) as int;
    let n = samples.len() as int;
    let share = g * 100 / n;
    assert(share * n <= 100 * g < (share + 1) * n) by (nonlinear_arith)
        requires
            n > 0,
            share == g * 100 / n,
    ;
}

/// An age is the whole seconds that have passed: as many as fit between the two times, and none
/// where the time lies ahead.
pub proof fn ages_are_whole_seconds(at: u128, now: u128)
    ensures
        now >= at ==> age_secs(at, now) * 1_000_000_000 <= now - at < (age_secs(at, now) + 1)
            * 1_000_000_000,
        now < at ==> age_secs(at, now) == 0,
        age_secs(at, now) >= 0,
{
}

/// A probe that is answered shows the time that it took and the answer's result where that is a
/// text; one that fails shows the error's message.
pub proof fn probes_show_the_answer(resp: JsonView, e: ErrorView, ms: u128)
    ensures
        probed(Ok(resp), ms) is Ok,
        probed(Ok(resp), ms)->Ok_0.0 == ms,
        resp.member("result"@) matches Some(JsonView::String(version)) ==> probed(
            Ok(resp),
            ms,
        )->Ok_0.1 == version,
        !(resp.member("result"@) matches Some(JsonView::String(_))) ==> probed(
            Ok(resp),
            ms,
        )->Ok_0.1.len() == 0,
        probed(Err(e), ms) == Err::<(u128, Seq<char>), Seq<char>>(e.message()),
{
}

/// A status shows by the latency alone, and beyond 2000 ms it is another. Each is written as its own
/// word.
pub proof fn statuses_are_told_apart(ms: u128, version: Seq<char>, e: Seq<char>)
    ensures
        Status::shown_by(Ok((ms, version))) is Up <==> ms <= 2000,
        Status::shown_by(Ok((ms, version))) is Degraded <==> ms > 2000,
        Status::shown_by(Err(e)) is Down,
        Status::Up.spec_code() == seq!['U', 'P'],
        Status::Down.spec_code() == seq!['D', 'O', 'W', 'N'],
        Status::Degraded.spec_code() == seq!['D', 'E', 'G', 'R', 'A', 'D', 'E', 'D'],
{
    reveal_strlit("UP");
    reveal_strlit("DOWN");
    reveal_strlit("DEGRADED");
    assert("UP"@ =~= seq!['U', 'P']);
    assert("DOWN"@ =~= seq!['D', 'O', 'W', 'N']);
    assert("DEGRADED"@ =~= seq!['D', 'E', 'G', 'R', 'A', 'D', 'E', 'D']);
}

/// The history's line tells how many samples there are, how many of them are good, their share in
/// percent and, exactly when a sample has a latency, the average.
pub proof fn the_history_line_counts(samples: Seq<Sample>)
    ensures
        samples.len() == 0 ==> history_line(samples) == "历史监控: 尚无样本"@,
        samples.len() > 0 ==> {
            let told = "历史监控: 近 "@ + decimal(samples.len()) + " 次成功 "@ + decimal(
                samples.filter(|s: Sample| s.ok).len(),
            ) + "/"@ + decimal(samples.len()) + " (可用率 "@ + decimal(
                availability(samples) as nat,
            ) + "%)"@;
            &&& told.is_prefix_of(history_line(samples))
            &&& (forall|i: int| 0 <= i < samples.len() ==> (#[trigger] samples[i]).latency_ms is None)
                ==> history_line(samples) == told
            &&& average_latency(samples) matches Some(ms) ==> history_line(samples).skip(
                told.len() as int,
            ) == ", 平均延迟 "@ + decimal(ms) + " ms"@
        },
{
    good_samples_are_counted(samples);
    the_average_is_an_average(samples, 0, u128::MAX);
    if samples.len() > 0 {
        let told = "历史监控: 近 "@ + decimal(samples.len()) + " 次成功 "@ + decimal(
            samples.filter(|s: Sample| s.ok).len(),
        ) + "/"@ + decimal(samples.len()) + " (可用率 "@ + decimal(availability(samples) as nat)
            + "%)"@;
        assert(told.is_prefix_of(history_line(samples)));
        match average_latency(samples) {
            Some(ms) => {
                assert(history_line(samples).skip(told.len() as int) =~= ", 平均延迟 "@ + decimal(ms)
                    + " ms"@);
            },
            None => {
                assert(history_line(samples) =~= told);
            },
        }
    }
}

/// The line on the latest failure tells how long ago the last bad sample of the history was taken and
/// its error. There is none exactly when no sample is bad.
pub proof fn the_failure_line_tells_the_last(samples: Seq<Sample>, now: u128, i: int)
    ensures
        failure_line(samples, now) is None <==> forall|j: int|
            0 <= j < samples.len() ==> (#[trigger] samples[j]).ok,
        0 <= i < samples.len() && !samples[i].ok && (forall|j: int|
            i < j < samples.len() ==> (#[trigger] samples[j]).ok) ==> {
            let told = "最近失败: "@ + decimal(age_secs(samples[i].at, now) as nat) + "s 前 - "@;
            let line = failure_line(samples, now)->0;
            &&& told.is_prefix_of(line)
            &&& samples[i].error matches Some(e) ==> line.skip(told.len() as int) == e@
            &&& samples[i].error is None ==> line == told
        },
{
    the_latest_is_found(samples, false);
    assert((forall|j: int| 0 <= j < samples.len() ==> (#[trigger] samples[j]).ok) ==> (forall|j: int|
        0 <= j < samples.len() ==> (#[trigger] samples[j]).ok != false));
    if 0 <= i < samples.len() && !samples[i].ok && (forall|j: int|
        i < j < samples.len() ==> (#[trigger] samples[j]).ok) {
        the_latest_is_at(samples, false, i);
        let told = "最近失败: "@ + decimal(age_secs(samples[i].at, now) as nat) + "s 前 - "@;
        let line = failure_line(samples, now)->0;
        assert(told.is_prefix_of(line));
        match samples[i].error {
            Some(e) => {
                assert(line.skip(told.len() as int) =~= e@);
            },
            None => {
                assert(line =~= told);
            },
        }
    }
}

/// The line on the latest success tells how long ago the last good sample of the history was taken,
/// and its version in brackets where it has one. That there is no record it says exactly when no
/// sample is good.
pub proof fn the_success_line_tells_the_last(samples: Seq<Sample>, now: u128, i: int)
    ensures
        (forall|j: int| 0 <= j < samples.len() ==> !(#[trigger] samples[j]).ok) ==> success_line(
            samples,
            now,
        ) == "最后可用: 无记录"@,
        0 <= i < samples.len() && samples[i].ok && (forall|j: int|
            i < j < samples.len() ==> !(#[trigger] samples[j]).ok) ==> {
            let told = "最后可用: "@ + decimal(age_secs(samples[i].at, now) as nat) + "s 前"@;
            let line = success_line(samples, now);
            &&& told.is_prefix_of(line)
            &&& samples[i].version matches Some(version) ==> (version@.len() > 0 ==> line.skip(
                told.len() as int,
            ) == " ("@ + version@ + ")"@)
            &&& samples[i].version matches Some(version) ==> (version@.len() == 0 ==> line == told)
            &&& samples[i].version is None ==> line == told
        },
{
    the_latest_is_found(samples, true);
    if 0 <= i < samples.len() && samples[i].ok && (forall|j: int|
        i < j < samples.len() ==> !(#[trigger] samples[j]).ok) {
        the_latest_is_at(samples, true, i);
        let told = "最后可用: "@ + decimal(age_secs(samples[i].at, now) as nat) + "s 前"@;
        let line = success_line(samples, now);
        assert(told.is_prefix_of(line));
        if text_or_empty(samples[i].version).len() > 0 {
            assert(line.skip(told.len() as int) =~= " ("@ + text_or_empty(samples[i].version)
                + ")"@);
        } else {
            assert(line =~= told);
        }
    }
}

/// A probe is known by its time and version or by its error, and a text that is missing is as an
/// empty one.
pub proof fn probes_are_what_they_hold(ms: u128, version: String, e: String)
    ensures
        probe_view(Ok((ms, version))) == Ok::<(u128, Seq<char>), Seq<char>>((ms, version@)),
        probe_view(Err(e)) == Err::<(u128, Seq<char>), Seq<char>>(e@),
        text_or_empty(Some(version)) == version@,
        text_or_empty(None).len() == 0,
{
}

} // verus!
