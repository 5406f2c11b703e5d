use std::collections::HashMap;

use agent::agent_loop::{
    dispatch_tool, finalize, finalize_at, opening_text, refusal, refusal_as, render_task, spill,
    Ctx, RunConfig, ToolRequest,
};
use agent::job::{Effort, FailureKind, Job, JobResult, Persistence, Status};
use agent::json::Json;
use agent::policy::{root_policy, sub_policy, Control, Standard};
use agent::provider::{Anthropic, OpenAI, Provider, ToolCall};
use agent::registry;
use agent::resume::{Reconcile, Resume};
use agent::run::{Action, Phase, Run};
use agent::spawn::{handle, handle_as, job_to_input, reported, Handled};
use agent::thread::{append_thread, load_thread, Append, Paths};
use agent::tools;

fn js(s: &str) -> Json {
    Json::parse(s).unwrap()
}

fn text_turn(t: &str) -> Json {
    js(&format!("{{\"content\":[{{\"type\":\"text\",\"text\":\"{t}\"}}]}}"))
}

fn shell_turn(id: &str, cmd: &str) -> Json {
    js(&format!(
        "{{\"content\":[{{\"type\":\"tool_use\",\"id\":\"{id}\",\"name\":\"run_shell\",\
         \"input\":{{\"command\":\"{cmd}\"}}}}]}}"
    ))
}

/// Files in memory, a scripted model that gives queued responses in order, and a shell that
/// knows a few commands.
struct World {
    files: HashMap<String, String>,
    responses: Vec<Json>,
    seen_effort: Vec<Effort>,
    paths: Paths,
}

impl World {
    fn new(responses: Vec<Json>) -> World {
        World {
            files: HashMap::new(),
            responses,
            seen_effort: vec![],
            paths: Paths::under("/tmp/base".into()),
        }
    }

    fn write(&mut self, a: Append) {
        self.files.entry(a.path).or_default().push_str(&a.text);
    }

    fn thread(&self, id: &str) -> Vec<Json> {
        load_thread(self.files.get(&self.paths.thread_path(id)).map(|s| s.as_str()))
    }

    fn records(&self, id: &str) -> Vec<registry::Record> {
        registry::load(self.files.get(&self.paths.registry_path(id)).map(|s| s.as_str()))
    }

    fn reply(&mut self, effort: Effort) -> Result<Json, String> {
        self.seen_effort.push(effort);
        if self.responses.is_empty() {
            Err("no scripted response".into())
        } else {
            Ok(self.responses.remove(0))
        }
    }

    fn shell(&self, command: &str) -> String {
        let out = match command {
            "printf hi" => Ok((b"hi".to_vec(), vec![])),
            "true" => Ok((vec![], vec![])),
            "big" => Ok((vec![b'x'; 20_000], vec![])),
            _ => Err("unknown command".to_string()),
        };
        tools::run_shell(out)
    }

    fn resume<P: Provider>(&mut self, p: &P, tid: &str, history: Vec<Json>, ctx: &Ctx) -> Vec<Json> {
        let records = self.records(tid);
        let mut rec = Reconcile::new(p, tid, &records, history);
        loop {
            match rec.next(ctx) {
                Resume::Finished => return rec.into_history(),
                Resume::Commit { messages } => {
                    self.write(append_thread(&self.paths.clone(), tid, &messages));
                }
                Resume::Run { cfg, ctx } => {
                    let mut child = ctx;
                    let result = self.run(p, &mut child, cfg);
                    let (line, messages) = rec.resumed(&self.paths, &result);
                    self.write(line);
                    self.write(append_thread(&self.paths.clone(), tid, &messages));
                }
            }
        }
    }

    fn run<P: Provider, C: Control>(&mut self, p: &P, ctx: &mut Ctx, cfg: RunConfig<C>) -> JobResult {
        let paths = self.paths.clone();
        let tid = cfg.thread_id.clone();
        let depth = cfg.depth;
        let history = match &tid {
            Some(t) => {
                let h = self.thread(t);
                if depth == 0 {
                    self.resume(p, t, h, ctx)
                } else {
                    h
                }
            }
            None => vec![],
        };
        let mut run = Run::new(p, cfg, ctx.budget);
        assert_eq!(run.phase(), Phase::Fresh);
        let mut turn = run.start(history);
        loop {
            if !turn.append.is_empty() {
                self.write(append_thread(&paths, tid.as_deref().unwrap(), &turn.append));
            }
            match turn.action {
                Action::CallModel => {
                    assert_eq!(run.phase(), Phase::Asking);
                    let reply = self.reply(ctx.effort);
                    let messages = match run.conversation() {
                        Json::Array(v) => v,
                        _ => unreachable!(),
                    };
                    turn = run.on_reply(messages, reply);
                }
                Action::Tool { id, request } => {
                    assert_eq!(run.phase(), Phase::Running);
                    let content = match request {
                        ToolRequest::Shell { command } => {
                            let raw = self.shell(&command);
                            let spilled = spill(&paths, &id, &raw).map(|path| {
                                self.files.insert(path.clone(), raw.clone());
                                (path, Ok(()))
                            });
                            finalize(&raw, &spilled)
                        }
                        ToolRequest::Delegate { input } => {
                            self.delegate(p, ctx, depth, tid.as_deref(), &input).to_json()
                        }
                        ToolRequest::Refuse => refusal(),
                        _ => panic!("no such tool here"),
                    };
                    turn = run.on_tool(content);
                }
                Action::Finish { result } => {
                    assert_eq!(run.phase(), Phase::Ended);
                    ctx.budget = run.budget();
                    return result;
                }
            }
        }
    }

    fn delegate<P: Provider>(
        &mut self,
        p: &P,
        ctx: &mut Ctx,
        depth: usize,
        tid: Option<&str>,
        input: &Json,
    ) -> JobResult {
        match handle(ctx, &self.paths, depth, tid, input) {
            Handled::Answer { result } => result,
            Handled::Launch { launch } => {
                if let Some(a) = launch.issued {
                    self.write(a);
                }
                let mut child = launch.ctx;
                let result = self.run(p, &mut child, launch.cfg);
                if let Some(a) = reported(&launch.parent, &self.paths, &result) {
                    self.write(a);
                }
                result
            }
        }
    }
}

fn ctx(budget: usize) -> Ctx {
    Ctx { effort: Effort::Off, budget, sub_budget: budget, fanout: 0, max_fanout: 8 }
}

fn job(max_iter: usize) -> Job {
    Job::new("do it".into(), vec![], Persistence::Ephemeral, max_iter)
}

fn root(job: Job, thread_id: Option<&str>) -> RunConfig<Standard> {
    RunConfig { job, policy: root_policy(), depth: 0, thread_id: thread_id.map(String::from) }
}

// ── The loop ────────────────────────────────────────────────────────────────────

#[test]
fn single_turn_no_tools_succeeds() {
    let mut w = World::new(vec![text_turn("all done")]);
    let mut c = ctx(100);
    let r = w.run(&Anthropic, &mut c, root(job(5), None));
    assert_eq!(r.status, Status::Success);
    assert_eq!(r.output.as_deref(), Some("all done"));
    assert_eq!(r.steps_taken, 0);
}

#[test]
fn text_only_turn_persists_task_and_reply_with_thread() {
    // No tool calls, but a thread id is set: the terminal branch must persist
    // the task message and the assistant reply.
    let mut w = World::new(vec![text_turn("done, no tools")]);
    let mut c = ctx(100);
    let r = w.run(&Anthropic, &mut c, root(job(5), Some("t")));
    assert_eq!(r.status, Status::Success);
    assert_eq!(r.output.as_deref(), Some("done, no tools"));
    assert_eq!(r.steps_taken, 0);

    let saved = w.thread("t");
    assert_eq!(saved.len(), 2, "task message + assistant reply persisted");
    assert_eq!(saved[0].text_at("role"), Some("user"));
    assert_eq!(saved[1].text_at("role"), Some("assistant"));
}

#[test]
fn runs_a_tool_then_finishes() {
    let mut w = World::new(vec![shell_turn("t1", "printf hi"), text_turn("got hi")]);
    let mut c = ctx(100);
    let r = w.run(&Anthropic, &mut c, root(job(5), None));
    assert_eq!(r.status, Status::Success);
    assert_eq!(r.steps_taken, 1);
    assert_eq!(c.budget, 99); // one tool call consumed
}

#[test]
fn iter_exhaustion_yields_partial() {
    // Always asks for another shell call; never stops.
    let mut w = World::new(vec![
        shell_turn("a", "true"),
        shell_turn("b", "true"),
        shell_turn("c", "true"),
    ]);
    let mut c = ctx(100);
    let r = w.run(&Anthropic, &mut c, root(job(2), None));
    assert_eq!(r.status, Status::Partial);
    assert_eq!(r.failure, Some(FailureKind::BudgetExceeded));
    // Asked as often as the job allows, and no more.
    assert_eq!(w.seen_effort.len(), 2);
}

#[test]
fn budget_exhaustion_yields_partial() {
    let mut w = World::new(vec![shell_turn("a", "true"), shell_turn("b", "true")]);
    let mut c = ctx(1); // only one tool call allowed
    let r = w.run(&Anthropic, &mut c, root(job(10), None));
    assert_eq!(r.status, Status::Partial);
    assert_eq!(c.budget, 0);
}

#[test]
fn llm_error_yields_failure() {
    let mut w = World::new(vec![]); // errors immediately
    let mut c = ctx(100);
    let r = w.run(&Anthropic, &mut c, root(job(5), None));
    assert_eq!(r.status, Status::Failure);
    assert!(r.output.is_none());
}

#[test]
fn conversation_persists_atomically_across_rounds() {
    let mut w = World::new(vec![shell_turn("t1", "printf hi"), text_turn("done")]);
    let mut c = ctx(100);
    let _ = w.run(&Anthropic, &mut c, root(job(5), Some("persist")));
    let saved = w.thread("persist");
    // Every assistant tool_use has its tool_result present: no dangling call.
    let has_toolu = saved.iter().any(|m| {
        m.items_at("content")
            .is_some_and(|b| b.iter().any(|x| x.says("type", "tool_use")))
    });
    assert!(has_toolu);
    assert!(Anthropic.has_tool_result(&Json::Array(saved), "t1"));
}

#[test]
fn sub_policy_blocks_delegation() {
    // At depth 1 the delegation attempt is refused with a typed blocked result.
    let tc = ToolCall {
        id: "x".into(),
        name: "spawn_agent".into(),
        input: js("{\"task\":\"nested\"}"),
    };
    assert!(matches!(
        dispatch_tool(sub_policy().may_delegate, 1, &tc),
        ToolRequest::Refuse
    ));
    assert!(matches!(dispatch_tool(true, 1, &tc), ToolRequest::Refuse));
    assert!(matches!(dispatch_tool(false, 0, &tc), ToolRequest::Refuse));
    let out = refusal();
    assert!(out.contains("\"status\":\"blocked\""));
}

#[test]
fn durable_resume_reconciles_into_conversation_and_is_idempotent() {
    // A durable job was issued but never completed (process died mid-run):
    // registry has the issue line, no result; conversation has no tool_result.
    let mut w = World::new(vec![]);
    let pending = Job::new("long subtask".into(), vec![], Persistence::Durable, 10);
    let line = registry::append_issued(&w.paths, "main", &pending);
    w.write(line);
    let synth_id = format!("toolu_{}", pending.id);

    // First start: the child is resumed (1st response), then the top-level loop
    // finishes (2nd response).
    w.responses = vec![text_turn("child recovered"), text_turn("parent done")];
    let mut c = ctx(100);
    let r = w.run(&Anthropic, &mut c, root(job(5), Some("main")));
    assert_eq!(r.status, Status::Success);

    // Conversation now has a valid tool_use + tool_result pair for the job.
    let convo = Json::Array(w.thread("main"));
    assert!(Anthropic.has_tool_result(&convo, &synth_id), "result not committed");
    // Registry closed out: nothing left in flight.
    assert!(registry::in_flight(&w.records("main")).is_empty());

    // Second start with the same thread: nothing is resumed (result already in the
    // conversation), so only the parent turn is consumed.
    w.responses = vec![text_turn("parent again")];
    let mut c2 = ctx(100);
    let r2 = w.run(&Anthropic, &mut c2, root(job(5), Some("main")));
    assert_eq!(r2.status, Status::Success);
    // No duplicate result appended by the idempotent second pass.
    let result_lines = w
        .records("main")
        .iter()
        .filter(|rec| matches!(rec, registry::Record::Result { .. }))
        .count();
    assert_eq!(result_lines, 1);
}

#[test]
fn recorded_results_are_committed_without_running_again() {
    let mut w = World::new(vec![text_turn("parent done")]);
    let pending = Job::new("sub".into(), vec!["c".into()], Persistence::Durable, 10);
    let a = registry::append_issued(&w.paths, "main", &pending);
    let b = registry::append_result(
        &w.paths,
        "main",
        &JobResult::success(&pending.id, "kept".into(), 2),
    );
    w.write(a);
    w.write(b);
    let mut c = ctx(100);
    let r = w.run(&Anthropic, &mut c, root(job(5), Some("main")));
    assert_eq!(r.output.as_deref(), Some("parent done"));
    let saved = w.thread("main");
    assert_eq!(saved.len(), 4); // call, result, task, reply
    assert!(saved[0].print().contains("\"name\":\"spawn_agent\""));
    assert!(saved[1].print().contains("kept"));
    assert_eq!(w.records("main").len(), 2);
}

#[test]
fn a_job_that_finished_under_the_models_own_call_is_skipped() {
    let call = js("{\"content\":[{\"type\":\"tool_use\",\"id\":\"t1\",\"name\":\"spawn_agent\",\
        \"input\":{\"task\":\"sub\",\"persistence\":\"durable\"}}]}");
    let mut w = World::new(vec![call, text_turn("sub done"), text_turn("parent done")]);
    let mut c = ctx(10);
    let _ = w.run(&Anthropic, &mut c, root(job(10), Some("main")));
    let saved = w.thread("main");
    assert_eq!(saved.len(), 4);
    assert_eq!(w.records("main").len(), 2);

    // On the next start nothing is committed again and no model is called for it.
    let calls = w.seen_effort.len();
    let history = w.resume(&Anthropic, "main", w.thread("main"), &ctx(10));
    assert_eq!(history.len(), 4);
    assert_eq!(w.thread("main").len(), 4);
    assert_eq!(w.records("main").len(), 2);
    assert_eq!(w.seen_effort.len(), calls);
}

#[test]
fn a_result_under_another_id_commits_no_job() {
    let mut w = World::new(vec![]);
    let a = Job::new("a".into(), vec![], Persistence::Durable, 10);
    let b = Job::new("b".into(), vec![], Persistence::Durable, 10);
    let res = JobResult::success(&a.id, "done".into(), 1);
    for j in [&a, &b] {
        let line = registry::append_issued(&w.paths, "main", j);
        w.write(line);
    }
    let mut line = registry::append_result(&w.paths, "main", &res);
    w.write(Append { path: line.path.clone(), text: line.text.clone() });
    // The same result, recorded for the other job.
    line.text = line.text.replacen(&a.id, &b.id, 1);
    w.write(line);
    let history = vec![js(&format!(
        "{{\"role\":\"user\",\"content\":[{{\"type\":\"tool_result\",\"tool_use_id\":\"t1\",\"content\":{}}}]}}",
        Json::text(&res.to_json()).print()
    ))];
    let history = w.resume(&Anthropic, "main", history, &ctx(10));
    assert_eq!(history.len(), 3);
    let all = Json::Array(history);
    assert!(!Anthropic.has_tool_result(&all, &format!("toolu_{}", a.id)));
    assert!(Anthropic.has_tool_result(&all, &format!("toolu_{}", b.id)));
}

#[test]
fn resuming_leaves_nothing_in_flight() {
    let mut w = World::new(vec![text_turn("a done"), text_turn("b done")]);
    for task in ["a", "b"] {
        let j = Job::new(task.into(), vec![], Persistence::Durable, 10);
        let line = registry::append_issued(&w.paths, "main", &j);
        w.write(line);
    }
    assert_eq!(registry::in_flight(&w.records("main")).len(), 2);
    let history = w.resume(&OpenAI, "main", vec![], &ctx(10));
    assert_eq!(history.len(), 4);
    assert!(registry::in_flight(&w.records("main")).is_empty());
}

#[test]
fn resumed_jobs_keep_their_effort_and_get_a_budget_of_their_own() {
    let mut pending = Job::new("sub".into(), vec![], Persistence::Durable, 10);
    pending.effort = Effort::Medium;
    let records = vec![registry::Record::Issued { job: pending.clone() }];
    let caller = Ctx { effort: Effort::High, budget: 3, sub_budget: 50, fanout: 1, max_fanout: 8 };
    let mut rec = Reconcile::new(&Anthropic, "main", &records, vec![]);
    match rec.next(&caller) {
        Resume::Run { cfg, ctx } => {
            assert_eq!(ctx, Ctx { effort: Effort::Medium, budget: 50, ..caller });
            assert_eq!(cfg.depth, 1);
            assert!(!cfg.policy.may_delegate);
            assert_eq!(cfg.thread_id, Some(format!("main__sub_{}", pending.id)));
        }
        _ => panic!("expected a job to run"),
    }
}

#[test]
fn exhausted_budget_answers_the_remaining_calls() {
    let two = js("{\"content\":[\
        {\"type\":\"tool_use\",\"id\":\"a\",\"name\":\"run_shell\",\"input\":{\"command\":\"true\"}},\
        {\"type\":\"tool_use\",\"id\":\"b\",\"name\":\"run_shell\",\"input\":{\"command\":\"true\"}}]}");
    let mut w = World::new(vec![two]);
    let mut c = ctx(1);
    let r = w.run(&Anthropic, &mut c, root(job(10), Some("t")));
    assert_eq!(r.status, Status::Partial);
    assert_eq!(r.steps_taken, 1);
    let saved = w.thread("t");
    assert_eq!(saved.len(), 3);
    let blocks = saved[2].items_at("content").unwrap();
    assert!(blocks[0].text_at("content").unwrap().ends_with("(no output)"));
    assert_eq!(
        blocks[1].text_at("content"),
        Some("[budget exhausted \u{2014} could not run tool]")
    );
    assert!(Anthropic.has_tool_result(&Json::Array(saved), "b"));
}

#[test]
fn unknown_tools_are_answered_and_paid_for() {
    let odd = js("{\"content\":[{\"type\":\"tool_use\",\"id\":\"a\",\"name\":\"fly\",\"input\":{}}]}");
    let mut w = World::new(vec![odd, text_turn("ok")]);
    let mut c = ctx(10);
    let r = w.run(&Anthropic, &mut c, root(job(10), Some("t")));
    assert_eq!(r.status, Status::Success);
    assert_eq!(r.steps_taken, 1);
    assert!(w.thread("t")[2].print().contains("unknown tool: fly"));
}

#[test]
fn malformed_replies_fail_the_run_and_save_nothing() {
    let mut w = World::new(vec![js("{\"nope\":1}")]);
    let mut c = ctx(10);
    let r = w.run(&Anthropic, &mut c, root(job(10), Some("t")));
    assert_eq!(r.status, Status::Failure);
    assert_eq!(r.failure, Some(FailureKind::RetrievalFailed));
    assert!(w.files.is_empty());
}

#[test]
fn text_of_an_earlier_turn_is_kept() {
    let both = js("{\"content\":[{\"type\":\"text\",\"text\":\"a\"},{\"type\":\"text\",\"text\":\"b\"},\
        {\"type\":\"tool_use\",\"id\":\"x\",\"name\":\"run_shell\",\"input\":{\"command\":\"true\"}}]}");
    let mut w = World::new(vec![both, js("{\"content\":[]}")]);
    let mut c = ctx(10);
    let r = w.run(&Anthropic, &mut c, root(job(10), None));
    assert_eq!(r.output.as_deref(), Some("a\nb"));
}

#[test]
fn rounds_of_an_openai_run_go_to_disk_whole() {
    let call = js("{\"choices\":[{\"message\":{\"role\":\"assistant\",\"content\":null,\"tool_calls\":[\
        {\"id\":\"c1\",\"type\":\"function\",\"function\":{\"name\":\"run_shell\",\
        \"arguments\":\"{\\\"command\\\":\\\"printf hi\\\"}\"}}]}}]}");
    let text = js("{\"choices\":[{\"message\":{\"role\":\"assistant\",\"content\":\"done\"}}]}");
    let mut w = World::new(vec![call, text]);
    let mut c = ctx(10);
    let r = w.run(&OpenAI, &mut c, root(job(10), Some("t")));
    assert_eq!(r.output.as_deref(), Some("done"));
    let saved = w.thread("t");
    assert_eq!(saved.len(), 4);
    assert!(OpenAI.has_tool_result(&Json::Array(saved), "c1"));
}

#[test]
fn a_top_level_run_delegates() {
    let call = js("{\"content\":[{\"type\":\"tool_use\",\"id\":\"a\",\"name\":\"spawn_agent\",\
        \"input\":{\"task\":\"sub\"}}]}");
    let mut w = World::new(vec![call, text_turn("sub done"), text_turn("parent done")]);
    let mut c = ctx(10);
    let r = w.run(&Anthropic, &mut c, root(job(10), Some("t")));
    assert_eq!(r.output.as_deref(), Some("parent done"));
    assert_eq!(c.fanout, 1);
    assert!(w.thread("t")[2].print().contains("sub done"));
}

#[test]
fn the_task_is_rendered_with_its_requirements() {
    let mut j = job(5);
    assert_eq!(render_task(&j), "do it");
    j.checks = vec!["a".into(), "b".into()];
    assert_eq!(render_task(&j), "do it\n\nRequirements:\n- a\n- b\n");
    assert_eq!(
        opening_text("T", &j),
        "[run started: T]\ndo it\n\nRequirements:\n- a\n- b\n"
    );
}

#[test]
fn the_task_message_opens_the_conversation() {
    let mut run = Run::new_at(&Anthropic, root(job(5), None), 10, "2024-01-01T00:00:00Z");
    let turn = run.start(vec![js("{\"n\":1}")]);
    assert!(matches!(turn.action, Action::CallModel));
    assert!(turn.append.is_empty());
    assert_eq!(run.persisted(), 1);
    assert_eq!(run.iter(), 0);
    assert_eq!(
        run.conversation().print(),
        "[{\"n\":1},{\"content\":[{\"cache_control\":{\"type\":\"ephemeral\"},\
         \"text\":\"[run started: 2024-01-01T00:00:00Z]\\ndo it\",\"type\":\"text\"}],\
         \"role\":\"user\"}]"
    );
}

#[test]
fn a_run_without_budget_ends_before_it_asks() {
    let mut w = World::new(vec![]);
    let mut c = ctx(0);
    let r = w.run(&Anthropic, &mut c, root(job(5), None));
    assert_eq!(r.status, Status::Partial);
    assert_eq!(r.output.as_deref(), Some(""));
    assert!(w.seen_effort.is_empty());
    let mut d = ctx(10);
    let r = w.run(&Anthropic, &mut d, root(job(0), Some("t")));
    assert_eq!(r.status, Status::Partial);
    assert_eq!(r.output.as_deref(), Some(""));
    assert!(w.seen_effort.is_empty());
    assert!(w.files.is_empty());
}

#[test]
fn each_call_is_sent_one_round_more() {
    let mut run = Run::new_at(&Anthropic, root(job(5), Some("t")), 10, "T");
    let _ = run.start(vec![js("{\"n\":1}")]);
    assert_eq!(
        run.tools().print(),
        Anthropic.shape_tools(&tools::base_tool_defs(0)).print()
    );
    let mut sent = vec![];
    let mut disk: Vec<String> = vec![];
    for id in ["a", "b"] {
        let convo = match run.conversation() {
            Json::Array(v) => v,
            _ => unreachable!(),
        };
        sent.push(convo.len());
        let turn = run.on_reply(convo, Ok(shell_turn(id, "true")));
        assert!(turn.append.is_empty());
        assert!(matches!(turn.action, Action::Tool { .. }));
        let turn = run.on_tool("out".into());
        assert!(matches!(turn.action, Action::CallModel));
        disk.extend(turn.append.iter().map(|m| m.print()));
    }
    let convo = match run.conversation() {
        Json::Array(v) => v,
        _ => unreachable!(),
    };
    sent.push(convo.len());
    let all: Vec<String> = convo.iter().map(|m| m.print()).collect();
    let turn = run.on_reply(convo, Ok(text_turn("done")));
    disk.extend(turn.append.iter().map(|m| m.print()));
    assert_eq!(sent, vec![2, 4, 6]);
    // On disk: the task, two rounds and the last reply, in order, and nothing else.
    assert_eq!(disk[..5], all[1..]);
    assert_eq!(disk.len(), 6);
    assert!(disk[5].contains("done"));
}

// ── Tools ───────────────────────────────────────────────────────────────────────

#[test]
fn calls_are_dispatched_by_name() {
    let call = |name: &str, input: &str| {
        dispatch_tool(
            true,
            0,
            &ToolCall { id: "x".into(), name: name.into(), input: js(input) },
        )
    };
    assert!(matches!(call("run_shell", "{\"command\":\"ls\"}"),
        ToolRequest::Shell { command } if command == "ls"));
    assert!(matches!(call("run_shell", "null"),
        ToolRequest::Shell { command } if command.is_empty()));
    assert!(matches!(call("read_image", "{\"path\":\"/p\"}"),
        ToolRequest::Image { path, question } if path == "/p"
            && question == "Extract all text and data from this image verbatim."));
    assert!(matches!(call("read_pdf", "{\"path\":\"/p\",\"question\":\"q\"}"),
        ToolRequest::Pdf { path, question } if path == "/p" && question == "q"));
    assert!(matches!(call("read_pdf", "{}"),
        ToolRequest::Pdf { path, question } if path.is_empty()
            && question == "Extract all text and data from this PDF verbatim."));
    assert!(matches!(call("spawn_agent", "{\"task\":\"t\"}"),
        ToolRequest::Delegate { input } if input.text_at("task") == Some("t")));
    assert!(matches!(call("other", "{}"),
        ToolRequest::Answer { text } if text == "unknown tool: other"));
}

#[test]
fn refusals_are_exact() {
    assert_eq!(
        refusal_as("i"),
        "{\"id\":\"i\",\"status\":\"blocked\",\"failure\":\"tool_unavailable\",\
         \"steps_taken\":0,\"issues\":[]}"
    );
}

#[test]
fn results_are_stamped_and_large_ones_spilled() {
    let paths = Paths::under("/tmp".into());
    let exact = "x".repeat(16_000);
    let large = "x".repeat(16_001);
    assert_eq!(spill(&paths, "id", &exact), None);
    assert_eq!(spill(&paths, "id", &large).as_deref(), Some("/tmp/tool_result_id.txt"));
    // Sizes are in bytes.
    assert!(spill(&paths, "id", &"\u{e9}".repeat(8_001)).is_some());
    assert_eq!(finalize_at("T", "raw", &None), "[T]\nraw");
    assert_eq!(
        finalize_at("T", &large, &Some(("/f".into(), Ok(())))),
        "[T] Output too large (16001 chars) \u{2014} full content saved to /f\n\
         Query it with grep/head/sed/awk rather than reading the whole file.\n\
         Example: grep -n 'keyword' /f | head -30"
    );
    assert_eq!(
        finalize_at("T", &large, &Some(("/f".into(), Err("full".into())))),
        "[T] Output too large (16001 chars) and could not save to disk: full"
    );
}

#[test]
fn stamps_have_the_form_of_a_time() {
    let s = finalize("raw", &None);
    let stamp = s.strip_prefix('[').unwrap().strip_suffix("]\nraw").unwrap();
    assert_eq!(stamp.len(), 20);
    assert!(stamp.ends_with('Z'));
    assert_eq!(stamp.chars().nth(10), Some('T'));
    let form: String = stamp.chars().map(|c| if c.is_ascii_digit() { '0' } else { c }).collect();
    assert_eq!(form, "0000-00-00T00:00:00Z");
    assert!(stamp.starts_with("20"));
}

#[test]
fn large_results_are_spilled_in_a_run() {
    let mut w = World::new(vec![shell_turn("t1", "big"), text_turn("done")]);
    let mut c = ctx(10);
    let _ = w.run(&Anthropic, &mut c, root(job(5), Some("t")));
    let path = w.paths.spill_path("t1");
    assert_eq!(w.files[&path].len(), 20_000);
    assert!(w.thread("t")[2].print().contains("Output too large (20000 chars)"));
}

// ── Delegation ──────────────────────────────────────────────────────────────────

#[test]
fn empty_task_is_blocked() {
    let mut w = World::new(vec![]);
    let mut c = ctx(100);
    let r = w.delegate(&Anthropic, &mut c, 0, None, &js("{\"task\": \"  \"}"));
    assert_eq!(r.status, Status::Blocked);
}

#[test]
fn fanout_cap_returns_partial_without_running() {
    let mut w = World::new(vec![]);
    let mut c = ctx(100);
    c.fanout = 2;
    c.max_fanout = 2;
    let r = w.delegate(&Anthropic, &mut c, 0, None, &js("{\"task\": \"do\"}"));
    assert_eq!(r.status, Status::Partial);
    assert_eq!(r.failure, Some(FailureKind::BudgetExceeded));
}

#[test]
fn delegations_stop_at_the_cap() {
    let mut c = ctx(10);
    c.max_fanout = 3;
    let paths = Paths::under("/tmp".into());
    let mut launched = 0;
    for _ in 0..5 {
        if let Handled::Launch { .. } = handle(&mut c, &paths, 0, None, &js("{\"task\":\"t\"}")) {
            launched += 1;
        }
    }
    assert_eq!(launched, 3);
    assert_eq!(c.fanout, 3);
    match handle(&mut c, &paths, 0, None, &js("{\"task\":\"t\"}")) {
        Handled::Answer { result } => {
            assert_eq!(result.output.as_deref(), Some("fan-out limit reached"));
        }
        _ => panic!("the cap is reached"),
    }
}

#[test]
fn ephemeral_sub_runs_and_returns_result() {
    let mut w = World::new(vec![text_turn("sub done")]);
    let mut c = ctx(100);
    let r = w.delegate(&Anthropic, &mut c, 0, None, &js("{\"task\": \"compute\"}"));
    assert_eq!(r.status, Status::Success);
    assert_eq!(r.output.as_deref(), Some("sub done"));
    // No registry writes for an ephemeral sub.
    assert!(w.records("any").is_empty());
}

#[test]
fn durable_sub_records_issued_and_result() {
    let mut w = World::new(vec![text_turn("durable done")]);
    let mut c = ctx(100);
    let r = w.delegate(
        &Anthropic,
        &mut c,
        0,
        Some("main"),
        &js("{\"task\":\"long\",\"persistence\":\"durable\"}"),
    );
    assert_eq!(r.status, Status::Success);
    let recs = w.records("main");
    assert_eq!(recs.len(), 2); // issued + result
    assert!(registry::in_flight(&recs).is_empty());
}

#[test]
fn durable_needs_a_persisted_parent() {
    let mut c = ctx(10);
    let paths = Paths::under("/tmp".into());
    let input = js("{\"task\":\"long\",\"persistence\":\"durable\"}");
    match handle_as(&mut c, &paths, 0, None, &input, "i".into()) {
        Handled::Launch { launch } => {
            assert!(launch.cfg.thread_id.is_none());
            assert!(launch.issued.is_none());
            assert!(launch.parent.is_none());
            assert_eq!(launch.cfg.job.persistence, Persistence::Durable);
        }
        _ => panic!("expected a launch"),
    }
    match handle_as(&mut c, &paths, 0, Some("main"), &input, "i".into()) {
        Handled::Launch { launch } => {
            assert_eq!(launch.cfg.thread_id.as_deref(), Some("main__sub_i"));
            assert_eq!(launch.cfg.depth, 1);
            assert_eq!(launch.parent.as_deref(), Some("main"));
            assert_eq!(launch.issued.unwrap().path, "/tmp/agent_registry_main.jsonl");
        }
        _ => panic!("expected a launch"),
    }
}

#[test]
fn arguments_are_read_with_their_defaults() {
    let mut c = ctx(10);
    let paths = Paths::under("/tmp".into());
    let mut plan = |input: &str| match handle_as(&mut c, &paths, 0, None, &js(input), "i".into()) {
        Handled::Launch { launch } => launch.cfg.job,
        _ => panic!("expected a launch"),
    };
    let j = plan("{\"task\":\" t \",\"checks\":[\"a\",1,\"b\"],\"max_iter\":7}");
    assert_eq!(j.task, "t");
    assert_eq!(j.checks, vec!["a".to_string(), "b".to_string()]);
    assert_eq!(j.max_iter, 7);
    assert_eq!(j.persistence, Persistence::Ephemeral);
    let k = plan("{\"task\":\"t\",\"checks\":\"no list\",\"max_iter\":-1}");
    assert!(k.checks.is_empty());
    assert_eq!(k.max_iter, 25);
}

#[test]
fn sub_budget_is_independent_of_parent() {
    let mut w = World::new(vec![shell_turn("s1", "true"), text_turn("sub done")]);
    // Parent's own budget is exhausted, but the sub-agent gets its own allowance
    // and runs to completion — no tree-wide pool couples them.
    let mut c = Ctx { effort: Effort::Off, budget: 0, sub_budget: 50, fanout: 0, max_fanout: 8 };
    let r = w.delegate(&Anthropic, &mut c, 0, None, &js("{\"task\": \"work\"}"));
    assert_eq!(r.status, Status::Success);
    assert_eq!(r.steps_taken, 1); // sub spent its own budget, not the parent's
    assert_eq!(c.budget, 0); // parent counter untouched
}

#[test]
fn job_to_input_round_trips_fields() {
    let mut job = Job::new("t".into(), vec!["c".into()], Persistence::Durable, 7);
    job.effort = Effort::High;
    let v = job_to_input(&job);
    assert_eq!(v.text_at("task"), Some("t"));
    assert_eq!(v.text_at("persistence"), Some("durable"));
    assert_eq!(v.text_at("effort"), Some("high"));
    assert_eq!(v.natural_at("max_iter"), Some(7));
}

#[test]
fn the_arguments_of_a_job_ask_for_it_again() {
    let mut job = Job::new("t".into(), vec!["c".into(), "d".into()], Persistence::Durable, 7);
    job.effort = Effort::Low;
    let mut c = ctx(10);
    c.effort = Effort::High;
    let paths = Paths::under("/tmp".into());
    match handle_as(&mut c, &paths, 0, None, &job_to_input(&job), job.id.clone()) {
        Handled::Launch { launch } => {
            assert_eq!(launch.cfg.job.json().compact(), job.json().compact());
        }
        _ => panic!("expected a launch"),
    }
}

#[test]
fn effort_defaults_to_parent_when_omitted() {
    let mut w = World::new(vec![text_turn("done")]);
    let mut c = ctx(100);
    c.effort = Effort::High;
    let r = w.delegate(&Anthropic, &mut c, 0, None, &js("{\"task\": \"compute\"}"));
    assert_eq!(r.status, Status::Success);
    assert_eq!(w.seen_effort.as_slice(), &[Effort::High]);
}

#[test]
fn effort_override_wins_over_parent() {
    let mut w = World::new(vec![text_turn("done")]);
    let mut c = ctx(100);
    c.effort = Effort::High;
    let r = w.delegate(
        &Anthropic,
        &mut c,
        0,
        None,
        &js("{\"task\": \"compute\", \"effort\": \"low\"}"),
    );
    assert_eq!(r.status, Status::Success);
    assert_eq!(w.seen_effort.as_slice(), &[Effort::Low]);
}
