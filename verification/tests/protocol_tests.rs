use neurons_agent::collecter::collecter::{LogWatcher, WatchKey};
use neurons_agent::protocol::collecter_protocol::{CollectReport, UpdateCollecter};
use neurons_agent::protocol::reporter_protocol::Heartbeat;
use neurons_agent::utils::json::{json_number_of, json_string_of};

#[test]
fn test_update_collecter_impl() {
    let update_collecter = UpdateCollecter::default();
    let json_string = update_collecter.to_json_string();
    println!("{}", json_string);
    assert_eq!(json_string, "{\"key\":\"\",\"value\":[]}");
}

#[test]
fn test_value_to_json_string() {
    let update_collecter = UpdateCollecter::default();
    let json_string = update_collecter.value_to_json_string();
    println!("{}", json_string);
    assert_eq!(json_string, "[]");
}

fn watcher() -> LogWatcher {
    LogWatcher {
        path: "/var/log/app.log".to_string(),
        watchs: vec![
            WatchKey { watch_key: "ERROR".to_string(), msg: "app_error".to_string() },
            WatchKey { watch_key: "say \"hi\"\t\\".to_string(), msg: "quoted".to_string() },
        ],
    }
}

#[test]
fn log_watcher_json_exact() {
    let j = watcher().to_json_string();
    assert_eq!(
        j,
        "{\"path\":\"/var/log/app.log\",\"watchs\":[{\"watch_key\":\"ERROR\",\"msg\":\"app_error\"},{\"watch_key\":\"say \\\"hi\\\"\\t\\\\\",\"msg\":\"quoted\"}]}"
    );
    let v: serde_json::Value = serde_json::from_str(&j).unwrap();
    assert_eq!(v["path"], "/var/log/app.log");
    assert_eq!(v["watchs"][1]["watch_key"], "say \"hi\"\t\\");
}

#[test]
fn update_collecter_json_parses_back() {
    let u = UpdateCollecter { key: "collecter".to_string(), value: vec![watcher(), LogWatcher::default()] };
    let j = u.to_json_string();
    let v: serde_json::Value = serde_json::from_str(&j).unwrap();
    assert_eq!(v["key"], "collecter");
    assert_eq!(v["value"][0]["watchs"][0]["msg"], "app_error");
    assert_eq!(v["value"][1]["path"], "");
    let value: serde_json::Value = serde_json::from_str(&u.value_to_json_string()).unwrap();
    assert_eq!(value, v["value"]);
}

#[test]
fn collect_report_json_exact() {
    let c = CollectReport {
        time: 1700000000123,
        count: 42,
        system: "shop".to_string(),
        env: "prod".to_string(),
        cluster: "c1".to_string(),
        ip: "10.0.0.1".to_string(),
        count_type: "app_error".to_string(),
    };
    assert_eq!(
        c.to_json_string(),
        "{\"time\":1700000000123,\"count\":42,\"system\":\"shop\",\"env\":\"prod\",\"cluster\":\"c1\",\"ip\":\"10.0.0.1\",\"count_type\":\"app_error\"}"
    );
}

#[test]
fn heartbeat_json_exact() {
    let h = Heartbeat {
        protocol_type: "heartbeat".to_string(),
        ip: "10.0.0.2".to_string(),
        version: "0.5".to_string(),
        system: "s".to_string(),
        cluster: "".to_string(),
        env: "dev".to_string(),
    };
    assert_eq!(
        h.to_json_string(),
        "{\"protocol_type\":\"heartbeat\",\"ip\":\"10.0.0.2\",\"version\":\"0.5\",\"system\":\"s\",\"cluster\":\"\",\"env\":\"dev\"}"
    );
}

#[test]
fn json_string_escapes_like_serde() {
    for s in ["", "plain", "q\"b\\", "\u{1}\u{1f}\u{7f}", "\n\r\t\u{8}\u{c}", "ünï"].iter() {
        let ours = json_string_of(s);
        assert_eq!(ours, serde_json::to_string(s).unwrap());
    }
    assert_eq!(json_string_of("\u{1}"), "\"\\u0001\"");
    assert_eq!(json_string_of("a\"b"), "\"a\\\"b\"");
}

#[test]
fn json_numbers() {
    assert_eq!(json_number_of(0), "0");
    assert_eq!(json_number_of(10), "10");
    assert_eq!(json_number_of(u64::MAX), "18446744073709551615");
}

#[test]
fn watcher_json_determines_watcher() {
    let a = LogWatcher {
        path: "p".to_string(),
        watchs: vec![WatchKey { watch_key: "a\",\"msg\":\"b".to_string(), msg: "c".to_string() }],
    };
    let b = LogWatcher {
        path: "p".to_string(),
        watchs: vec![WatchKey { watch_key: "a".to_string(), msg: "b\",\"msg\":\"c".to_string() }],
    };
    assert_ne!(a.to_json_string(), b.to_json_string());
    let u1 = UpdateCollecter { key: "k".to_string(), value: vec![a, LogWatcher::default()] };
    let u2 = UpdateCollecter { key: "k".to_string(), value: vec![LogWatcher::default()] };
    assert_ne!(u1.value_to_json_string(), u2.value_to_json_string());
    let v: serde_json::Value = serde_json::from_str(&u1.value_to_json_string()).unwrap();
    assert_eq!(v[0]["watchs"][0]["watch_key"], "a\",\"msg\":\"b");
}
