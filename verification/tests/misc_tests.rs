use neurons_agent::agent::system_info_entries;
use neurons_agent::receiver::receiver::follow_up;
use neurons_agent::agent::start_init;
use neurons_agent::receiver::receiver::{action_of_type, receiver_action, receiver_action_checked, Receiver, ReceiverAction};
use neurons_agent::utils::conf::conf_get;
use neurons_agent::utils::hash::get_string_md5;
use neurons_agent::utils::os::{get_all_local_ip, get_process};
use neurons_agent::utils::redis::Redis;

#[test]
fn test_set() {}

#[test]
fn test_http_post_json_with_header() {}

#[test]
fn test_get_string_md5() {
    let s = get_string_md5("jingminglang".to_string());
    println!("{}", s);
    assert_eq!(s, format!("{:x}", md5::compute("jingminglang")));
    assert_eq!(s.len(), 32);
    assert_eq!(get_string_md5("".to_string()), "d41d8cd98f00b204e9800998ecf8427e");
}

#[test]
fn test_conf_get() {
    let text = "[redis]\nurl=127.0.0.1:6379\npassword = secret\n[log]\npath=/tmp/agent.log\n";
    let value = conf_get(text, "redis", "url");
    println!("value {}", value);
    assert_eq!(value, "127.0.0.1:6379");
    assert_eq!(conf_get(text, "redis", "password"), "secret");
    assert_eq!(conf_get(text, "log", "path"), "/tmp/agent.log");
    assert_eq!(conf_get(text, "log", "missing"), "");
    assert_eq!(conf_get(text, "nosection", "url"), "");
}

#[test]
fn redis_url() {
    let r = Redis { addr: "10.1.1.1:6379".to_string(), password: "pw".to_string() };
    assert_eq!(r.url(), "redis://:pw@10.1.1.1:6379/");
}

#[test]
fn local_ips_and_processes() {
    assert_eq!(get_all_local_ip("10.0.0.1\n192.168.1.2\n"), vec!["10.0.0.1".to_string(), "192.168.1.2".to_string()]);
    assert!(get_all_local_ip("").is_empty());
    let ps = "COMMAND\n/usr/bin/agent -d\nbash\n/usr/bin/agent\n";
    assert_eq!(get_process(ps, "agent"), vec!["/usr/bin/agent -d".to_string(), "/usr/bin/agent".to_string()]);
    assert!(get_process(ps, "nginx").is_empty());
}

#[test]
fn start_init_entries() {
    let e = start_init(&vec!["10.0.0.1".to_string(), "10.0.0.2".to_string()], "shop", "", "0.5");
    assert_eq!(
        e,
        vec![
            ("system".to_string(), "shop".to_string()),
            ("ip".to_string(), "10.0.0.1".to_string()),
            ("version".to_string(), "0.5".to_string()),
        ]
    );
    let e = start_init(&vec![], "", "c", "0.5");
    assert_eq!(
        e,
        vec![
            ("cluster".to_string(), "c".to_string()),
            ("ip".to_string(), "".to_string()),
            ("version".to_string(), "0.5".to_string()),
        ]
    );
}

fn is(a: &ReceiverAction, expected: &str) -> bool {
    format!("{:?}", a) == expected
}

#[test]
fn receiver_actions() {
    assert!(is(&receiver_action("not json"), "Skip"));
    assert!(is(&receiver_action("{\"type\":\"restart\"}"), "Restart"));
    assert!(is(&receiver_action("{\"type\":\"other\"}"), "Skip"));
    assert!(is(
        &receiver_action("{\"type\":\"updateKey\",\"protocol\":{\"key\":\"env\",\"value\":\"prod\"}}"),
        "UpdateKey(\"{\\\"key\\\":\\\"env\\\",\\\"value\\\":\\\"prod\\\"}\")"
    ));
    assert!(is(&receiver_action("{\"type\":\"updateVersion\"}"), "UpdateVersion(\"null\")"));
    assert!(is(&receiver_action("{\"type\":\"updateCollecter\",\"protocol\":[]}"), "UpdateCollecter(\"[]\")"));
    assert!(receiver_action_checked("{\"type\":1}").is_none());
    assert!(receiver_action_checked("{}").is_none());
    assert!(is(&receiver_action_checked("[1,2").unwrap(), "Skip"));
}

#[test]
fn receiver_send_msg() {
    let (tx, rx) = std::sync::mpsc::channel::<String>();
    let (tx2, rx2) = std::sync::mpsc::channel::<String>();
    let mut r = Receiver::new();
    assert!(!r.send_msg("collecter_tx", "reload"));
    r.insert_channel("collecter_tx".to_string(), tx);
    assert!(r.send_msg("collecter_tx", "reload"));
    assert_eq!(rx.recv().unwrap(), "reload");
    r.insert_channel("collecter_tx".to_string(), tx2);
    assert!(r.send_msg("collecter_tx", "again"));
    assert_eq!(rx2.recv().unwrap(), "again");
    assert!(!r.send_msg("worker_tx", "x"));
}

#[test]
fn follow_up_messages() {
    assert_eq!(follow_up(&ReceiverAction::UpdateCollecter("[]".to_string())), Some(("collecter_tx", "reload")));
    assert_eq!(follow_up(&ReceiverAction::UpdateKey("{}".to_string())), None);
    assert_eq!(follow_up(&ReceiverAction::Restart), None);
    assert_eq!(follow_up(&ReceiverAction::Skip), None);
}

#[test]
fn system_info_entries_only_known_values() {
    assert_eq!(system_info_entries("", ""), vec![]);
    assert_eq!(
        system_info_entries("shop", "c1"),
        vec![("system".to_string(), "shop".to_string()), ("cluster".to_string(), "c1".to_string())]
    );
    assert_eq!(system_info_entries("", "c1"), vec![("cluster".to_string(), "c1".to_string())]);
}

#[test]
fn receiver_sender_for_names() {
    let (tx, _rx) = std::sync::mpsc::channel::<String>();
    let mut r = Receiver::new();
    assert!(r.sender_for("worker_tx").is_none());
    r.insert_channel("worker_tx".to_string(), tx);
    assert!(r.sender_for("worker_tx").is_some());
    assert!(r.sender_for("reporter_tx").is_none());
}

#[test]
fn action_of_type_cases() {
    let p = "{\"a\":1}".to_string();
    assert!(is(&action_of_type("restart", p.clone()), "Restart"));
    assert!(is(&action_of_type("updateVersion", p.clone()), "UpdateVersion(\"{\\\"a\\\":1}\")"));
    assert!(is(&action_of_type("updateKey", p.clone()), "UpdateKey(\"{\\\"a\\\":1}\")"));
    assert!(is(&action_of_type("updateCollecter", p.clone()), "UpdateCollecter(\"{\\\"a\\\":1}\")"));
    assert!(is(&action_of_type("update", p), "Skip"));
}
