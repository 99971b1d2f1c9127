use neurons_agent::collecter::collecter::{counter_read_step, ReadStep};
use neurons_agent::collecter::tail::tail_next_offset;
use neurons_agent::collecter::collecter::{
    collect_reports, collecter_command, count_buffer, count_text, count_text_checked, counter_tail_event_step,
    CollecterCommand, WatchKey,
};
use neurons_agent::collecter::count_table::CountTable;
use neurons_agent::collecter::tail::{handle_line, tail_event_step, TailStep, WatchEvent, WatchKey as TailKey};

fn wk(key: &str, msg: &str) -> WatchKey {
    WatchKey { watch_key: key.to_string(), msg: msg.to_string() }
}

fn get(t: &CountTable, k: &str) -> Option<u64> {
    t.get(&k.to_string())
}

#[test]
fn is_match_cases() {
    let w = wk("ERROR", "e");
    assert!(w.is_match("2020 ERROR disk"));
    assert!(!w.is_match("2020 error disk"));
    assert!(wk("", "e").is_match(""));
}

#[test]
fn count_table_increment_get_clear() {
    let mut t = CountTable::new();
    assert_eq!(get(&t, "a"), None);
    t.increment(&"a".to_string());
    t.increment(&"a".to_string());
    t.increment(&"b".to_string());
    assert_eq!(get(&t, "a"), Some(2));
    assert_eq!(get(&t, "b"), Some(1));
    assert_eq!(t.len(), 2);
    t.clear();
    assert_eq!(t.len(), 0);
    assert_eq!(get(&t, "a"), None);
}

#[test]
fn count_text_counts_lines_per_label() {
    let text = "ERROR one\nINFO two\nERROR three WARN\r\nWARN four\n";
    let wks = vec![wk("ERROR", "err"), wk("WARN", "warn"), wk("FATAL", "fatal"), wk("ERROR", "warn")];
    let mut t = CountTable::new();
    count_text(text, &wks, &mut t);
    assert_eq!(get(&t, "err"), Some(2));
    assert_eq!(get(&t, "warn"), Some(4));
    // A label whose key matches no line gets no entry.
    assert_eq!(get(&t, "fatal"), None);
    assert_eq!(t.len(), 2);
}

#[test]
fn count_text_adds_to_existing_counts() {
    let wks = vec![wk("x", "x")];
    let mut t = CountTable::new();
    count_text("x\nx\n", &wks, &mut t);
    count_text("ax", &wks, &mut t);
    assert_eq!(get(&t, "x"), Some(3));
}

#[test]
fn count_text_checked_refuses_overflow() {
    let wks = vec![wk("x", "x")];
    let mut t = CountTable::new();
    assert!(count_text_checked("x", &wks, &mut t));
    assert_eq!(get(&t, "x"), Some(1));
}

#[test]
fn count_buffer_decodes_invalid_utf8() {
    let mut buf = b"ok\nERROR \xff here\nERROR".to_vec();
    buf.extend_from_slice(&[0u8; 8]);
    let wks = vec![wk("ERROR", "err"), wk("\u{fffd}", "bad")];
    let mut t = CountTable::new();
    assert!(count_buffer(&buf, &wks, &mut t));
    assert_eq!(get(&t, "err"), Some(2));
    assert_eq!(get(&t, "bad"), Some(1));
}

#[test]
fn collect_reports_one_per_label() {
    let wks = vec![wk("a", "A"), wk("b", "B")];
    let mut t = CountTable::new();
    count_text("a\nb\nab\n", &wks, &mut t);
    let r = collect_reports(&t, 99, &"sys".to_string(), &"env".to_string(), &"cl".to_string(), &"1.2.3.4".to_string());
    assert_eq!(r.len(), 2);
    assert_eq!(r[0].count_type, "A");
    assert_eq!(r[0].count, 2);
    assert_eq!(r[1].count_type, "B");
    assert_eq!(r[1].count, 2);
    assert_eq!(r[1].time, 99);
    assert_eq!(r[1].ip, "1.2.3.4");
}

#[test]
fn handle_line_counts_under_key() {
    let w = TailKey { watch_key: "boom".to_string(), msg: "ignored".to_string() };
    let mut t = CountTable::new();
    assert!(handle_line("boom\nno\nboom boom\n".to_string(), &w, &mut t));
    assert_eq!(get(&t, "boom"), Some(2));
    assert_eq!(get(&t, "ignored"), None);
    assert!(w.is_match("a boom"));
}

#[test]
fn collecter_commands() {
    assert_eq!(collecter_command("reload"), CollecterCommand::Reload);
    assert_eq!(collecter_command("reload "), CollecterCommand::Print);
    assert_eq!(collecter_command("hello"), CollecterCommand::Print);
}

#[test]
fn tail_steps() {
    assert_eq!(tail_event_step(WatchEvent::Write), TailStep::Read);
    assert_eq!(tail_event_step(WatchEvent::NoticeWrite), TailStep::Read);
    assert_eq!(tail_event_step(WatchEvent::Other), TailStep::ReOpen);
    assert_eq!(counter_tail_event_step(WatchEvent::NoticeWrite), TailStep::Skip);
    assert_eq!(counter_tail_event_step(WatchEvent::Write), TailStep::Read);
    assert_eq!(counter_tail_event_step(WatchEvent::Other), TailStep::ReOpen);
}

#[test]
fn counting_in_parts_equals_counting_at_once() {
    let text = "a b\nb\nc a\n";
    let all = vec![wk("a", "A"), wk("b", "B"), wk("c", "A")];
    let mut whole = CountTable::new();
    count_text(text, &all, &mut whole);
    let mut parts = CountTable::new();
    count_text(text, &vec![wk("a", "A")], &mut parts);
    count_text(text, &vec![wk("b", "B"), wk("c", "A")], &mut parts);
    for label in ["A", "B", "C"].iter() {
        assert_eq!(get(&whole, label), get(&parts, label));
    }
    // A: "a" in two lines plus "c" in one line.
    assert_eq!(get(&whole, "A"), Some(3));
    assert_eq!(get(&whole, "B"), Some(2));
}

#[test]
fn read_steps() {
    assert_eq!(counter_read_step(100, 0), ReadStep::ReOpen);
    assert_eq!(counter_read_step(100, 20), ReadStep::Advance(120));
    assert_eq!(tail_next_offset(100, 0), 100);
    assert_eq!(tail_next_offset(7, 5), 12);
}
