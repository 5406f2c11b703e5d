use agent::json::Json;
use agent::provider::{
    call_with_input, detect_provider, Anthropic, OpenAI, Provider, ProviderKind, ToolResult,
};

fn js(s: &str) -> Json {
    Json::parse(s).unwrap()
}

fn count_cache_control(v: &Json) -> usize {
    // Recursively count cache_control markers in a request.
    match v {
        Json::Object(m) => {
            let here = if v.get("cache_control").is_some() { 1 } else { 0 };
            here + m.iter().map(|x| count_cache_control(&x.value)).sum::<usize>()
        }
        Json::Array(a) => a.iter().map(count_cache_control).sum(),
        _ => 0,
    }
}

fn sample_messages() -> Json {
    js("[
        {\"role\":\"user\",\"content\":[{\"type\":\"text\",\"text\":\"task\",\"cache_control\":{\"type\":\"ephemeral\"}}]},
        {\"role\":\"assistant\",\"content\":[{\"type\":\"tool_use\",\"id\":\"t1\",\"name\":\"run_shell\",\"input\":{}}]},
        {\"role\":\"user\",\"content\":[{\"type\":\"tool_result\",\"tool_use_id\":\"t1\",\"content\":\"out\"}]}
    ]")
}

#[test]
fn anthropic_moves_breakpoint_to_last_block_and_stays_within_limit() {
    let base = js("[{\"name\":\"a\",\"description\":\"d\",\"input_schema\":{}}]");
    let tools = Anthropic.shape_tools(&base);
    let req = Anthropic.build_request("m", "sys", &tools, &sample_messages());

    // Last message's last block is stamped.
    let msgs = req.items_at("messages").unwrap();
    let last = msgs.last().unwrap();
    let last_block = last.items_at("content").unwrap().last().unwrap();
    assert_eq!(last_block.copy_at("cache_control").text_at("type"), Some("ephemeral"));

    // system + tools + task + moving tail = at most 4 breakpoints.
    assert!(count_cache_control(&req) <= 4, "too many cache breakpoints");
}

#[test]
fn requests_add_three_breakpoints_at_most() {
    let task = "{\"role\":\"user\",\"content\":[{\"type\":\"text\",\"cache_control\":{\"type\":\"ephemeral\"}}]}";
    let msgs = js(&format!("[{task},{task},{{\"role\":\"user\",\"content\":[{{}}]}}]"));
    let tools = Anthropic.shape_tools(&js("[{\"name\":\"a\"}]"));
    let req = Anthropic.build_request("m", "sys", &tools, &msgs);
    assert_eq!(count_cache_control(&req), 5);
}

#[test]
fn anthropic_request_is_exact() {
    let req = Anthropic.build_request("m", "sys", &Json::array(), &js("[{\"content\":[{}]}]"));
    assert_eq!(
        req.print(),
        "{\"max_tokens\":16000,\"messages\":[{\"content\":[{\"cache_control\":\
         {\"type\":\"ephemeral\"}}]}],\"model\":\"m\",\"system\":[{\"cache_control\":\
         {\"type\":\"ephemeral\"},\"text\":\"sys\",\"type\":\"text\"}],\"tools\":[]}"
    );
}

#[test]
fn anthropic_stamp_does_not_mutate_source_messages() {
    let msgs = sample_messages();
    let base = js("[{\"name\":\"a\",\"description\":\"d\",\"input_schema\":{}}]");
    let tools = Anthropic.shape_tools(&base);
    let _ = Anthropic.build_request("m", "sys", &tools, &msgs);
    // The tool_result block in the source still has no cache_control.
    let tr = msgs.copy_nth(2).copy_at("content").copy_nth(0);
    assert!(tr.get("cache_control").is_none());
}

#[test]
fn openai_request_has_no_cache_control_and_prepends_system() {
    let base = js("[{\"name\":\"a\",\"description\":\"d\",\"input_schema\":{\"type\":\"object\"}}]");
    let tools = OpenAI.shape_tools(&base);
    let msgs = js("[{\"role\":\"user\",\"content\":\"hi\"}]");
    let req = OpenAI.build_request("m", "sys", &tools, &msgs);
    assert_eq!(count_cache_control(&req), 0);
    assert_eq!(req.copy_at("messages").copy_nth(0).text_at("role"), Some("system"));
    let tool = req.copy_at("tools").copy_nth(0);
    assert_eq!(tool.text_at("type"), Some("function"));
    assert_eq!(tool.copy_at("function").text_at("name"), Some("a"));
}

#[test]
fn anthropic_parses_text_tool_and_mixed() {
    let resp = js("{\"content\":[
        {\"type\":\"text\",\"text\":\"thinking\"},
        {\"type\":\"tool_use\",\"id\":\"x\",\"name\":\"run_shell\",\"input\":{\"command\":\"ls\"}}
    ]}");
    let parsed = Anthropic.parse_response(resp).unwrap();
    assert_eq!(parsed.text_parts, vec!["thinking".to_string()]);
    assert_eq!(parsed.tool_calls.len(), 1);
    assert_eq!(parsed.tool_calls[0].name, "run_shell");
}

#[test]
fn anthropic_rejects_malformed_response() {
    assert!(Anthropic.parse_response(js("{\"nope\": true}")).is_err());
}

#[test]
fn malformed_responses_are_told_apart() {
    assert_eq!(
        Anthropic.parse_response(js("{\"content\":\"text\"}")).err().unwrap(),
        "no content in response"
    );
    assert!(OpenAI.parse_response(js("{\"choices\":[]}")).is_err());
}

#[test]
fn openai_parses_tool_calls_from_arguments_string() {
    let resp = js("{\"choices\":[{\"message\":{
        \"content\": \"\",
        \"tool_calls\": [{\"id\":\"c1\",\"function\":{\"name\":\"run_shell\",\"arguments\":\"{\\\"command\\\":\\\"ls\\\"}\"}}]
    }}]}");
    let parsed = OpenAI.parse_response(resp).unwrap();
    assert_eq!(parsed.tool_calls.len(), 1);
    assert_eq!(parsed.tool_calls[0].input.text_at("command"), Some("ls"));
}

#[test]
fn arguments_that_are_no_json_count_as_empty() {
    let tc = js("{\"id\":\"c\",\"function\":{\"name\":\"n\",\"arguments\":\"oops\"}}");
    let call = call_with_input(&tc, None);
    assert_eq!(call.id, "c");
    assert_eq!(call.name, "n");
    assert_eq!(call.input.print(), "{}");
    assert_eq!(call_with_input(&tc, Some(js("[1]"))).input.print(), "[1]");
}

#[test]
fn trim_shrinks_largest_block() {
    let mut msgs = js("[
        {\"role\":\"user\",\"content\":[
            {\"type\":\"tool_result\",\"tool_use_id\":\"a\",\"content\":\"short\"},
            {\"type\":\"tool_result\",\"tool_use_id\":\"b\",\"content\":\"a very long output that dominates the message and should be the one shrunk first\"}
        ]}
    ]");
    Anthropic.trim_last_tool_result(&mut msgs);
    let blocks = msgs.copy_nth(0).copy_at("content");
    assert!(blocks.copy_nth(1).text_at("content").unwrap().contains("output removed"));
    assert_eq!(blocks.copy_nth(0).text_at("content"), Some("short"));
}

#[test]
fn anthropic_synthesizes_and_detects_tool_result() {
    let msg = Anthropic.tool_call_message("toolu_1", "spawn_agent", &js("{\"task\":\"x\"}"));
    let block = msg.copy_at("content").copy_nth(0);
    assert_eq!(block.text_at("type"), Some("tool_use"));
    assert_eq!(block.text_at("id"), Some("toolu_1"));

    let convo = js("[
        {\"role\":\"assistant\",\"content\":[{\"type\":\"tool_use\",\"id\":\"toolu_1\",\"name\":\"spawn_agent\",\"input\":{}}]},
        {\"role\":\"user\",\"content\":[{\"type\":\"tool_result\",\"tool_use_id\":\"toolu_1\",\"content\":\"done\"}]}
    ]");
    assert!(Anthropic.has_tool_result(&convo, "toolu_1"));
    assert!(!Anthropic.has_tool_result(&convo, "toolu_2"));
}

#[test]
fn openai_synthesizes_and_detects_tool_result() {
    let msg = OpenAI.tool_call_message("c1", "spawn_agent", &js("{\"task\":\"x\"}"));
    let call = msg.copy_at("tool_calls").copy_nth(0);
    assert_eq!(call.text_at("id"), Some("c1"));
    assert_eq!(call.copy_at("function").text_at("name"), Some("spawn_agent"));

    let convo = js("[
        {\"role\":\"tool\",\"tool_call_id\":\"c1\",\"content\":\"done\"}
    ]");
    assert!(OpenAI.has_tool_result(&convo, "c1"));
    assert!(!OpenAI.has_tool_result(&convo, "c2"));
}

#[test]
fn trim_is_bounded_the_placeholder_becomes_largest() {
    // After one trim the placeholder is the longest block, so a second trim
    // re-selects it and the small block is left.
    let mut msgs = js("[
        {\"role\":\"user\",\"content\":[
            {\"type\":\"tool_result\",\"tool_use_id\":\"a\",\"content\":\"short\"},
            {\"type\":\"tool_result\",\"tool_use_id\":\"b\",\"content\":\"a very long output that dominates the message\"}
        ]}
    ]");
    Anthropic.trim_last_tool_result(&mut msgs);
    Anthropic.trim_last_tool_result(&mut msgs);
    assert_eq!(
        msgs.copy_nth(0).copy_at("content").copy_nth(0).text_at("content"),
        Some("short")
    );
}

#[test]
fn trim_takes_the_largest_result_of_the_whole_history() {
    let large = "x".repeat(1000);
    let mut msgs = js(&format!(
        "[{{\"role\":\"user\",\"content\":[{{\"type\":\"tool_result\",\"tool_use_id\":\"a\",\"content\":\"{large}\"}}]}},
          {{\"role\":\"user\",\"content\":[{{\"type\":\"tool_result\",\"tool_use_id\":\"b\",\"content\":\"yy\"}}]}}]"
    ));
    let last = msgs.copy_nth(1).print();
    Anthropic.trim_last_tool_result(&mut msgs);
    let first = msgs.copy_nth(0).copy_at("content").copy_nth(0);
    assert!(first.text_at("content").unwrap().contains("output removed"));
    assert_eq!(msgs.copy_nth(1).print(), last);
    // Of several that are equally large the last one is taken.
    let mut same = js("[{\"content\":[{\"type\":\"tool_result\",\"content\":\"aa\"}]},\
        {\"content\":[{\"type\":\"tool_result\",\"content\":\"bb\"}]}]");
    Anthropic.trim_last_tool_result(&mut same);
    assert!(same.copy_nth(0).print().contains("aa"));
    assert!(!same.copy_nth(1).print().contains("bb"));
    // Without tool results nothing changes.
    let mut none = js("[{\"role\":\"user\"},{\"role\":\"user\",\"content\":\"text\"}]");
    let before = none.print();
    Anthropic.trim_last_tool_result(&mut none);
    assert_eq!(none.print(), before);
}

#[test]
fn results_are_found_by_their_content() {
    let a = js("[{\"role\":\"user\",\"content\":[{\"type\":\"tool_result\",\"tool_use_id\":\"a\",\"content\":\"out\"},\
        {\"type\":\"text\",\"content\":\"other\"}]}]");
    assert!(Anthropic.holds_result(&a, "out"));
    assert!(!Anthropic.holds_result(&a, "other"));
    let o = js("[{\"role\":\"tool\",\"tool_call_id\":\"a\",\"content\":\"out\"},\
        {\"role\":\"user\",\"content\":\"other\"}]");
    assert!(OpenAI.holds_result(&o, "out"));
    assert!(!OpenAI.holds_result(&o, "other"));
}

#[test]
fn openai_trims_the_largest_tool_message() {
    let mut msgs = js("[
        {\"role\":\"tool\",\"tool_call_id\":\"a\",\"content\":\"the longer of the two\"},
        {\"role\":\"tool\",\"tool_call_id\":\"b\",\"content\":\"short\"},
        {\"role\":\"user\",\"content\":\"the longest of all, but no tool result at all\"}
    ]");
    OpenAI.trim_last_tool_result(&mut msgs);
    assert!(msgs.copy_nth(0).text_at("content").unwrap().contains("output removed"));
    assert_eq!(msgs.copy_nth(1).text_at("content"), Some("short"));
    assert!(OpenAI.has_tool_result(&msgs, "a"));
}

#[test]
fn results_are_wrapped_per_provider() {
    let results = || {
        vec![
            ToolResult { tool_use_id: "a".into(), content: "1".into() },
            ToolResult { tool_use_id: "b".into(), content: "2".into() },
        ]
    };
    let one = Anthropic.wrap_tool_results(results());
    assert_eq!(one.len(), 1);
    assert_eq!(
        one[0].print(),
        "{\"content\":[{\"content\":\"1\",\"tool_use_id\":\"a\",\"type\":\"tool_result\"},\
         {\"content\":\"2\",\"tool_use_id\":\"b\",\"type\":\"tool_result\"}],\"role\":\"user\"}"
    );
    let two = OpenAI.wrap_tool_results(results());
    assert_eq!(two.len(), 2);
    assert_eq!(two[1].print(), "{\"content\":\"2\",\"role\":\"tool\",\"tool_call_id\":\"b\"}");
}

#[test]
fn rebuilt_calls_read_back() {
    let input = js("{\"task\":\"x\",\"max_iter\":7}");
    let msg = OpenAI.tool_call_message("c1", "spawn_agent", &input);
    let resp = Json::object()
        .with("choices", Json::array().item(Json::object().with("message", msg)));
    let parsed = OpenAI.parse_response(resp).unwrap();
    assert_eq!(parsed.tool_calls[0].id, "c1");
    assert_eq!(parsed.tool_calls[0].input.print(), input.print());
}

#[test]
fn the_url_tells_the_provider() {
    assert!(matches!(
        detect_provider("http://h/v1/chat/completions?x"),
        ProviderKind::OpenAI
    ));
    assert!(matches!(detect_provider("http://h/v1/messages"), ProviderKind::Anthropic));
    assert!(matches!(detect_provider(""), ProviderKind::Anthropic));
}
