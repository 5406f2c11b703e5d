use agent::prompt::{
    agent_dir, build_system, inject_skills, prompt_path, skill_files, skill_path, skills_dir,
    system_prompt,
};

#[test]
fn the_directory_has_a_default() {
    assert_eq!(agent_dir(None), "/var/actor/.agent");
    assert_eq!(agent_dir(Some("/d".into())), "/d");
    assert_eq!(prompt_path("/d"), "/d/system.md");
    assert_eq!(skills_dir("/d"), "/d/skills");
    assert_eq!(skill_path("/d", "01.md"), "/d/skills/01.md");
}

#[test]
fn the_directory_is_filled_in() {
    assert_eq!(
        system_prompt("/d", Some("a {AGENT_DIR} b {AGENT_DIR}{AGENT_DIR} {AGENT}".into()), "G.md"),
        "a /d b /d/d {AGENT}"
    );
    assert_eq!(
        system_prompt("/d", None, "G.md"),
        "You are a task-executing ai-agent. On your first action, run: cat /d/G.md"
    );
}

#[test]
fn skills_are_the_markdown_files_in_order() {
    let names = ["b.md", "notes.txt", "a.md", ".md", "md", "B.md", "a.MD", "c.x.md", "ab.md"];
    assert_eq!(
        skill_files(names.iter().map(|s| s.to_string()).collect()),
        vec!["B.md", "a.md", "ab.md", "b.md", "c.x.md"]
    );
    assert!(skill_files(vec![]).is_empty());
}

#[test]
fn skills_are_injected_under_their_paths() {
    let files = vec![
        ("/d/skills/a.md".to_string(), Some("first".to_string())),
        ("/d/skills/b.md".to_string(), None),
        ("/d/skills/c.md".to_string(), Some("third\n".to_string())),
    ];
    let text = "\n\n---\n## SKILL \u{2014} /d/skills/a.md\n\nfirst\
                \n\n---\n## SKILL \u{2014} /d/skills/c.md\n\nthird\n";
    assert_eq!(inject_skills(&files), text);
    assert_eq!(
        build_system("/d", Some("prompt".into()), "G.md", &files),
        format!("prompt{text}")
    );
}
