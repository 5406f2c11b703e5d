use agent::json::Json;
use agent::tools::{
    base_tool_defs, file_to_b64, is_builtin, mime_of, read_image, read_pdf, run_shell,
};

fn tool_names(defs: &Json) -> Vec<String> {
    defs.as_items()
        .unwrap()
        .iter()
        .map(|t| t.text_at("name").unwrap().to_string())
        .collect()
}

#[test]
fn spawn_agent_only_offered_at_top_level() {
    assert!(tool_names(&base_tool_defs(0)).contains(&"spawn_agent".to_string()));
    assert!(!tool_names(&base_tool_defs(1)).contains(&"spawn_agent".to_string()));
}

#[test]
fn builtin_tools_present_at_every_depth() {
    for depth in [0usize, 1] {
        let names = tool_names(&base_tool_defs(depth));
        for t in ["run_shell", "read_image", "read_pdf"] {
            assert!(names.contains(&t.to_string()), "missing {t} at depth {depth}");
        }
    }
}

#[test]
fn is_builtin_excludes_delegation() {
    assert!(is_builtin("run_shell"));
    assert!(!is_builtin("spawn_agent"));
    assert!(!is_builtin("unknown"));
}

#[test]
fn definitions_are_exact() {
    let defs = base_tool_defs(0);
    let shell = &defs.as_items().unwrap()[0];
    assert_eq!(
        shell.print(),
        "{\"description\":\"Run a shell command in Alpine Linux. Returns stdout+stderr.\",\
         \"input_schema\":{\"properties\":{\"command\":{\"type\":\"string\"}},\
         \"required\":[\"command\"],\"type\":\"object\"},\"name\":\"run_shell\"}"
    );
    let spawn = &defs.as_items().unwrap()[3];
    assert!(spawn.print().contains("\"enum\":[\"ephemeral\",\"durable\"]"));
    assert!(spawn.print().contains("\"required\":[\"task\"]"));
}

#[test]
fn run_shell_captures_output() {
    assert_eq!(run_shell(Ok((b"hi".to_vec(), vec![]))).trim(), "hi");
}

#[test]
fn run_shell_reports_empty_as_no_output() {
    assert_eq!(run_shell(Ok((vec![], vec![]))), "(no output)");
}

#[test]
fn run_shell_captures_stderr() {
    assert!(run_shell(Ok((vec![], b"oops".to_vec()))).contains("oops"));
}

#[test]
fn run_shell_joins_both_outputs_and_mends_bytes() {
    assert_eq!(run_shell(Ok((b"out\n".to_vec(), b"err".to_vec()))), "out\nerr");
    assert_eq!(run_shell(Ok((b" \n".to_vec(), b"\t".to_vec()))), "(no output)");
    assert_eq!(run_shell(Ok((vec![b'a', 0xff, b'b'], vec![]))), "a\u{fffd}b");
    assert_eq!(run_shell(Ok(("h\u{e9}".as_bytes().to_vec(), vec![]))), "h\u{e9}");
    assert_eq!(run_shell(Err("no sh".into())), "Error: no sh");
}

#[test]
fn file_to_b64_detects_mime() {
    let (mime, _) = file_to_b64("/tmp/dir/x.png", Ok(b"\x89PNG".to_vec())).unwrap();
    assert_eq!(mime, "image/png");
}

#[test]
fn file_to_b64_goes_by_the_last_extension_in_lower_case() {
    let mime = |p: &str| file_to_b64(p, Ok(vec![])).unwrap().0;
    assert_eq!(mime("a.GIF"), "image/gif");
    assert_eq!(mime("a.png.pdf"), "application/pdf");
    assert_eq!(mime("a.jpg"), "image/jpeg");
    assert_eq!(mime("png"), "image/png");
    assert_eq!(mime("a."), "image/jpeg");
    assert_eq!(mime_of("PNG"), "image/jpeg");
}

#[test]
fn file_to_b64_encodes() {
    let b64 = |b: &[u8]| file_to_b64("x", Ok(b.to_vec())).unwrap().1;
    assert_eq!(b64(b""), "");
    assert_eq!(b64(b"f"), "Zg==");
    assert_eq!(b64(b"fo"), "Zm8=");
    assert_eq!(b64(b"foo"), "Zm9v");
    assert_eq!(b64(b"foobar"), "Zm9vYmFy");
    assert_eq!(b64(&[0xfb, 0xff, 0xfe]), "+//+");
}

#[test]
fn file_to_b64_reports_what_could_not_be_read() {
    assert_eq!(
        file_to_b64("/x", Err("gone".into())),
        Err("Error: could not read /x: gone".to_string())
    );
}

#[test]
fn read_image_missing_file_returns_error_without_network() {
    let out = read_image("/no/such/file.png", Err("No such file or directory".into()));
    assert!(out.err().unwrap().starts_with("Error:"));
}

#[test]
fn files_are_shown_as_blocks() {
    assert_eq!(
        read_image("/x.gif", Ok(b"foo".to_vec())).unwrap().print(),
        "{\"source\":{\"data\":\"Zm9v\",\"media_type\":\"image/gif\",\"type\":\"base64\"},\
         \"type\":\"image\"}"
    );
    assert_eq!(
        read_pdf("/x", Ok(b"foo".to_vec())).unwrap().print(),
        "{\"source\":{\"data\":\"Zm9v\",\"media_type\":\"application/pdf\",\"type\":\"base64\"},\
         \"type\":\"document\"}"
    );
    assert_eq!(
        read_pdf("/x", Err("gone".into())).err().unwrap(),
        "Error: could not read /x: gone"
    );
}
