use maya_mcp::json::parse;
use maya_mcp::maya::{MayaClient, MayaError};
use maya_mcp::status::{
    make_sample, new_history, probe_client, probe_interval, probe_once, probe_request, probe_timeout, History,
    Status, HISTORY_SIZE,
};

fn good(ms: u128, at: u128) -> maya_mcp::status::Sample {
    make_sample(Ok((ms, "2024".to_string())), at)
}

fn bad(what: &str, at: u128) -> maya_mcp::status::Sample {
    make_sample(Err(what.to_string()), at)
}

fn history(samples: Vec<maya_mcp::status::Sample>) -> History {
    let mut h = new_history();
    for s in samples {
        h.record(s);
    }
    h
}

#[test]
fn probe_settings_have_defaults() {
    assert_eq!(probe_interval(None), 30);
    assert_eq!(probe_interval(Some("60")), 60);
    assert_eq!(probe_interval(Some("0")), 30);
    assert_eq!(probe_timeout(None), 5);
    assert_eq!(probe_timeout(Some("x")), 5);
    assert_eq!(probe_timeout(Some("9")), 9);
}

#[test]
fn a_probe_has_its_own_timeout() {
    let client = MayaClient::from_env(Some("maya.local".to_string()), Some("7"), Some("99"));
    let probing = probe_client(&client, 5);
    assert_eq!((probing.host.as_str(), probing.port, probing.timeout), ("maya.local", 7, 5));
    assert_eq!(client.timeout, 99);
}

#[test]
fn a_probe_pings() {
    let r = probe_request();
    assert_eq!((r.op.as_str(), r.code.as_str()), ("ping", ""));
    assert_eq!(r.args.to_compact(), "{}");
}

#[test]
fn a_probe_shows_the_version() {
    let resp = parse(r#"{"ok": true, "result": "Maya 2024"}"#).unwrap();
    assert_eq!(probe_once(Ok(resp), 12), Ok((12, "Maya 2024".to_string())));
    let resp = parse(r#"{"ok": true, "result": 2024}"#).unwrap();
    assert_eq!(probe_once(Ok(resp), 12), Ok((12, String::new())));
    let resp = parse(r#"{"ok": true}"#).unwrap();
    assert_eq!(probe_once(Ok(resp), 12), Ok((12, String::new())));
    let failed = Err(MayaError::Protocol("x".to_string()));
    assert_eq!(probe_once(failed, 12), Err("Maya listener 协议错误: x".to_string()));
}

#[test]
fn samples_tell_what_a_probe_showed() {
    let s = good(12, 99);
    assert!(s.ok && s.latency_ms == Some(12) && s.error.is_none() && s.at == 99);
    assert_eq!(s.version.as_deref(), Some("2024"));
    let s = bad("down", 7);
    assert!(!s.ok && s.latency_ms.is_none() && s.version.is_none() && s.at == 7);
    assert_eq!(s.error.as_deref(), Some("down"));
}

#[test]
fn the_history_keeps_the_latest_samples() {
    assert_eq!(HISTORY_SIZE, 10);
    assert!(new_history().samples.is_empty());
    let h = history((0..25).map(|i| good(i, i)).collect());
    let kept: Vec<u128> = h.samples.iter().map(|s| s.at).collect();
    assert_eq!(kept, (15..25).collect::<Vec<u128>>());
    let h = history((0..4).map(|i| good(i, i)).collect());
    assert_eq!(h.samples.len(), 4);
}

#[test]
fn the_status_depends_on_the_probe() {
    assert_eq!(Status::of_probe(&Ok((0, String::new()))), Status::Up);
    assert_eq!(Status::of_probe(&Ok((1999, String::new()))), Status::Up);
    assert_eq!(Status::of_probe(&Ok((2000, String::new()))), Status::Up);
    assert_eq!(Status::of_probe(&Ok((2001, String::new()))), Status::Degraded);
    assert_eq!(Status::of_probe(&Err(String::new())), Status::Down);
    assert_eq!(Status::Up.code(), "UP");
    assert_eq!(Status::Degraded.code(), "DEGRADED");
    assert_eq!(Status::Down.code(), "DOWN");
}

#[test]
fn the_history_is_summed_up() {
    assert_eq!(new_history().summary(), "历史监控: 尚无样本");
    let h = history(vec![good(10, 0), bad("x", 1), good(15, 2)]);
    assert_eq!(h.summary(), "历史监控: 近 3 次成功 2/3 (可用率 66%), 平均延迟 12 ms");
    let h = history(vec![bad("x", 1)]);
    assert_eq!(h.summary(), "历史监控: 近 1 次成功 0/1 (可用率 0%)");
    let h = history(vec![good(7, 1)]);
    assert_eq!(h.summary(), "历史监控: 近 1 次成功 1/1 (可用率 100%), 平均延迟 7 ms");
}

#[test]
fn the_latest_samples_are_found() {
    let second: u128 = 1_000_000_000;
    let h = history(vec![bad("old", 0), good(1, second), bad("new", 2 * second), good(2, 3 * second)]);
    assert_eq!(h.latest_failure(5 * second - 1).as_deref(), Some("最近失败: 2s 前 - new"));
    assert_eq!(h.latest_success(5 * second), "最后可用: 2s 前 (2024)");
    assert_eq!(h.latest_success(0), "最后可用: 0s 前 (2024)");
    assert_eq!(new_history().latest_failure(0), None);
    assert_eq!(new_history().latest_success(0), "最后可用: 无记录");
    let h = history(vec![make_sample(Ok((1, String::new())), 0)]);
    assert_eq!(h.latest_success(second), "最后可用: 1s 前");
}
