use std::collections::HashMap;

use agent::json::Json;
use agent::thread::{append_thread, child_thread_id, load_thread, Append, Paths};

fn js(s: &str) -> Json {
    Json::parse(s).unwrap()
}

/// Files in memory.
struct Disk {
    files: HashMap<String, String>,
}

impl Disk {
    fn new() -> Disk {
        Disk { files: HashMap::new() }
    }
    fn write(&mut self, a: Append) {
        self.files.entry(a.path).or_default().push_str(&a.text);
    }
    fn load(&self, paths: &Paths, id: &str) -> Vec<Json> {
        load_thread(self.files.get(&paths.thread_path(id)).map(|s| s.as_str()))
    }
}

#[test]
fn append_then_load_round_trips() {
    let mut disk = Disk::new();
    let paths = Paths::under("/tmp/base".into());
    let msgs = vec![
        js("{\"role\":\"user\",\"content\":\"a\"}"),
        js("{\"role\":\"assistant\",\"content\":\"b\"}"),
    ];
    disk.write(append_thread(&paths, "t1", &msgs));
    let loaded = disk.load(&paths, "t1");
    assert_eq!(loaded.len(), msgs.len());
    for (a, b) in loaded.iter().zip(msgs.iter()) {
        assert_eq!(a.print(), b.print());
    }
}

#[test]
fn append_is_incremental() {
    let mut disk = Disk::new();
    let paths = Paths::under("/tmp/base".into());
    disk.write(append_thread(&paths, "t", &vec![js("{\"n\":1}")]));
    disk.write(append_thread(&paths, "t", &vec![js("{\"n\":2}")]));
    let loaded = disk.load(&paths, "t");
    assert_eq!(loaded.len(), 2);
    assert_eq!(loaded[1].natural_at("n"), Some(2));
}

#[test]
fn missing_thread_loads_empty() {
    let disk = Disk::new();
    let paths = Paths::under("/tmp/base".into());
    assert!(disk.load(&paths, "nope").is_empty());
}

#[test]
fn child_thread_id_is_stable_and_namespaced() {
    assert_eq!(child_thread_id("main", "abc"), "main__sub_abc");
}

#[test]
fn paths_are_distinct_per_kind() {
    let p = Paths::under("/tmp/base".into());
    assert!(p.thread_path("x").contains("agent_thread_x"));
    assert!(p.registry_path("x").contains("agent_registry_x"));
    assert!(p.spill_path("x").contains("tool_result_x"));
}

#[test]
fn paths_are_joined_with_one_separator() {
    let p = Paths::under("/tmp".into());
    assert_eq!(p.thread_path("x"), "/tmp/agent_thread_x.jsonl");
    assert_eq!(p.registry_path("x"), "/tmp/agent_registry_x.jsonl");
    assert_eq!(p.spill_path("x"), "/tmp/tool_result_x.txt");
    assert_eq!(Paths::under("/tmp/".into()).thread_path("x"), "/tmp/agent_thread_x.jsonl");
    assert_eq!(Paths::under("".into()).thread_path("x"), "agent_thread_x.jsonl");
}

#[test]
fn lines_that_are_no_json_are_skipped() {
    let loaded = load_thread(Some("{\"a\":1}\r\nnot json\n\n[2]\n{\"b\""));
    assert_eq!(loaded.len(), 2);
    assert_eq!(loaded[0].print(), "{\"a\":1}");
    assert_eq!(loaded[1].print(), "[2]");
}

#[test]
fn each_message_is_one_sorted_line() {
    let paths = Paths::under("/tmp".into());
    let a = append_thread(
        &paths,
        "x",
        &vec![js("{\"b\":\"x\\ny\",\"a\":[1,-2,true,null]}"), js("{}")],
    );
    assert_eq!(a.path, "/tmp/agent_thread_x.jsonl");
    assert_eq!(a.text, "{\"a\":[1,-2,true,null],\"b\":\"x\\ny\"}\n{}\n");
}
