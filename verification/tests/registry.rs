use std::collections::HashMap;

use agent::job::{Effort, FailureKind, Job, JobResult, Persistence, Status};
use agent::registry::{
    append_issued, append_result, in_flight, issued_jobs, load, results_map, Record,
};
use agent::thread::{Append, Paths};

fn job(task: &str) -> Job {
    Job::new(task.into(), vec![], Persistence::Durable, 10)
}

/// Files in memory.
struct Disk {
    files: HashMap<String, String>,
}

impl Disk {
    fn new() -> Disk {
        Disk { files: HashMap::new() }
    }
    fn write(&mut self, a: Append) {
        self.files.entry(a.path).or_default().push_str(&a.text);
    }
    fn load(&self, paths: &Paths, id: &str) -> Vec<Record> {
        load(self.files.get(&paths.registry_path(id)).map(|s| s.as_str()))
    }
}

#[test]
fn append_load_round_trips() {
    let mut disk = Disk::new();
    let paths = Paths::under("/tmp/base".into());
    let j = job("a");
    disk.write(append_issued(&paths, "main", &j));
    disk.write(append_result(&paths, "main", &JobResult::success(&j.id, "ok".into(), 2)));
    let recs = disk.load(&paths, "main");
    assert_eq!(recs.len(), 2);
}

#[test]
fn records_are_written_exactly() {
    let paths = Paths::under("/tmp".into());
    let mut j = job("a");
    j.id = "i".into();
    let a = append_issued(&paths, "main", &j);
    assert_eq!(a.path, "/tmp/agent_registry_main.jsonl");
    assert_eq!(
        a.text,
        "{\"kind\":\"issued\",\"job\":{\"id\":\"i\",\"task\":\"a\",\"steps\":[],\"checks\":[],\
         \"persistence\":\"durable\",\"max_iter\":10,\"effort\":\"none\"}}\n"
    );
    let b = append_result(&paths, "main", &JobResult::success("i", "ok".into(), 2));
    assert_eq!(
        b.text,
        "{\"kind\":\"result\",\"id\":\"i\",\"result\":{\"id\":\"i\",\"status\":\"success\",\
         \"output\":\"ok\",\"steps_taken\":2,\"issues\":[]}}\n"
    );
    let recs = load(Some(&(a.text + &b.text)));
    assert!(matches!(&recs[0], Record::Issued { job } if job.id == "i" && job.task == "a"));
    assert!(matches!(&recs[1], Record::Result { id, result }
        if id == "i" && result.output.as_deref() == Some("ok")));
}

#[test]
fn lines_that_are_no_record_are_skipped() {
    let text = "{\"kind\":\"other\"}\n\
                {\"kind\":\"issued\"}\n\
                {\"kind\":\"result\",\"id\":\"i\"}\n\
                nonsense\n\
                {\"kind\":\"result\",\"result\":{\"steps_taken\":1,\"status\":\"failure\",\
                \"failure\":null,\"id\":\"x\"},\"id\":\"i\"}\n";
    let recs = load(Some(text));
    assert_eq!(recs.len(), 1);
    assert!(matches!(&recs[0], Record::Result { id, result }
        if id == "i" && result.failure.is_none() && result.status == Status::Failure));
}

const JOB: &str = "{\"id\":\"i\",\"task\":\"t\",\"max_iter\":3}";
const RESULT: &str = "{\"id\":\"i\",\"status\":\"success\",\"output\":\"o\",\"steps_taken\":1}";

#[test]
fn lines_with_a_repeated_part_are_skipped() {
    for line in [
        format!("{{\"kind\":\"issued\",\"kind\":\"issued\",\"job\":{JOB}}}"),
        format!("{{\"kind\":\"issued\",\"job\":{JOB},\"job\":{JOB}}}"),
        "{\"kind\":\"issued\",\"job\":{\"id\":\"i\",\"task\":\"t\",\"max_iter\":3,\"id\":\"i\"}}".into(),
        "{\"kind\":\"issued\",\"job\":{\"id\":\"i\",\"task\":\"t\",\"max_iter\":3,\"effort\":\"low\",\
         \"\\u0065ffort\":\"low\"}}"
            .into(),
        "{\"kind\":\"issued\",\"job\":{\"id\":\"i\",\"task\":\"t\",\"max_iter\":3,\
         \"steps\":[{\"description\":\"a\",\"description\":\"a\"}]}}"
            .into(),
        format!("{{\"kind\":\"result\",\"id\":\"i\",\"id\":\"i\",\"result\":{RESULT}}}"),
        "{\"kind\":\"result\",\"id\":\"i\",\"result\":{\"id\":\"i\",\"status\":\"success\",\
         \"steps_taken\":1,\"output\":null,\"output\":null}}"
            .into(),
    ] {
        assert!(load(Some(&line)).is_empty(), "{line}");
    }
    // Members that are no parts may be repeated.
    let line = format!("{{\"x\":1,\"kind\":\"issued\",\"x\":2,\"job\":{JOB},\"id\":3,\"id\":4}}");
    assert_eq!(load(Some(&line)).len(), 1);
}

#[test]
fn records_are_read_from_lists() {
    let text = format!(
        "[\"issued\",{JOB}]\n\
         [\"issued\",[\"j\",\"t\",[[\"a\"],[\"b\",\"h\"]],[\"c\"],\"durable\",4]]\n\
         [\"issued\",[\"k\",\"t\",[],[],\"ephemeral\",4,\"high\"]]\n\
         [\"result\",\"i\",{RESULT}]\n\
         [\"result\",\"j\",[\"j\",\"failure\",null,\"check_failed\",2]]\n\
         [\"result\",\"k\",[\"k\",\"partial\",\"o\",null,2,[\"x\"]]]\n"
    );
    let recs = load(Some(&text));
    assert_eq!(recs.len(), 6);
    assert!(matches!(&recs[1], Record::Issued { job } if job.id == "j" && job.steps.len() == 2
        && job.steps[0].tool_hint.is_none() && job.steps[1].tool_hint.as_deref() == Some("h")
        && job.checks == ["c"] && job.persistence == Persistence::Durable && job.max_iter == 4));
    assert!(matches!(&recs[2], Record::Issued { job } if job.effort == Effort::High));
    assert!(matches!(&recs[4], Record::Result { id, result } if id == "j" && result.id == "j"
        && result.failure == Some(FailureKind::CheckFailed) && result.issues.is_empty()));
    assert!(matches!(&recs[5], Record::Result { result, .. } if result.issues == ["x"]));
    for line in [
        format!("[\"issued\",{JOB},1]"),
        "[\"issued\"]".into(),
        "[]".into(),
        "[\"issued\",[\"j\",\"t\",[],[],\"durable\"]]".into(),
        "[\"issued\",[\"k\",\"t\",[],[],\"ephemeral\",4,\"high\",0]]".into(),
        format!("[\"result\",\"i\",{RESULT},{RESULT}]"),
        "[\"issued\",[\"j\",\"t\",[[\"a\",\"b\",\"c\"]],[],\"durable\",4]]".into(),
        format!("[0,{JOB}]"),
    ] {
        assert!(load(Some(&line)).is_empty(), "{line}");
    }
}

#[test]
fn choices_are_read_from_objects_with_one_member() {
    let text = "{\"kind\":\"issued\",\"job\":{\"id\":\"i\",\"task\":\"t\",\"max_iter\":3,\
                \"persistence\":{\"durable\":null},\"effort\":{\"low\":{}}}}\n\
                {\"kind\":\"result\",\"id\":\"i\",\"result\":{\"id\":\"i\",\
                \"status\":{\"failure\":null},\"failure\":{\"check_failed\":{}},\"steps_taken\":1}}\n";
    let recs = load(Some(text));
    assert!(matches!(&recs[0], Record::Issued { job }
        if job.persistence == Persistence::Durable && job.effort == Effort::Low));
    assert!(matches!(&recs[1], Record::Result { result, .. } if result.status == Status::Failure
        && result.failure == Some(FailureKind::CheckFailed)));
    for job in [
        "\"persistence\":{\"durable\":1}",
        "\"persistence\":{\"durable\":[]}",
        "\"persistence\":{\"durable\":null,\"durable\":null}",
        "\"persistence\":{}",
        "\"persistence\":null",
        "\"persistence\":1",
        "\"effort\":{\"other\":null}",
    ] {
        let line = format!(
            "{{\"kind\":\"issued\",\"job\":{{\"id\":\"i\",\"task\":\"t\",\"max_iter\":3,{job}}}}}"
        );
        assert!(load(Some(&line)).is_empty(), "{line}");
    }
    // The kind itself is a word, and no number.
    for kind in ["0", "{\"issued\":null}", "null"] {
        let line = format!("{{\"kind\":{kind},\"job\":{JOB}}}");
        assert!(load(Some(&line)).is_empty(), "{line}");
    }
}

#[test]
fn in_flight_excludes_completed() {
    let a = job("a");
    let b = job("b");
    let records = vec![
        Record::Issued { job: a.clone() },
        Record::Issued { job: b.clone() },
        Record::Result {
            id: a.id.clone(),
            result: JobResult::success(&a.id, "done".into(), 1),
        },
    ];
    let pending = in_flight(&records);
    assert_eq!(pending.len(), 1);
    assert_eq!(pending[0].id, b.id);
}

#[test]
fn issued_jobs_dedupe_and_preserve_order() {
    let a = job("a");
    let records = vec![
        Record::Issued { job: a.clone() },
        Record::Issued { job: a.clone() }, // duplicate issue line
    ];
    assert_eq!(issued_jobs(&records).len(), 1);
}

#[test]
fn issued_jobs_keep_the_first_of_an_id() {
    let a = job("a");
    let b = job("b");
    let mut again = a.clone();
    again.task = "changed".into();
    let records = vec![
        Record::Issued { job: b.clone() },
        Record::Issued { job: a.clone() },
        Record::Issued { job: again },
    ];
    let jobs = issued_jobs(&records);
    assert_eq!(jobs.len(), 2);
    assert_eq!(jobs[0].id, b.id);
    assert_eq!(jobs[1].task, "a");
}

#[test]
fn results_map_last_write_wins() {
    let a = job("a");
    let records = vec![
        Record::Result {
            id: a.id.clone(),
            result: JobResult::partial(&a.id, "half".into(), FailureKind::BudgetExceeded, 1),
        },
        Record::Result {
            id: a.id.clone(),
            result: JobResult::success(&a.id, "full".into(), 3),
        },
    ];
    let m = results_map(&records);
    assert_eq!(m.get(&a.id).unwrap().status, Status::Success);
}

#[test]
fn missing_registry_loads_empty() {
    let disk = Disk::new();
    let paths = Paths::under("/tmp/base".into());
    assert!(disk.load(&paths, "none").is_empty());
}
