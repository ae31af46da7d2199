use zwork_sidecar::assoc::insert_str;
use zwork_sidecar::skills::Skill;
use zwork_sidecar::system_prompt::{
    build_system_prompt, build_system_prompt_sections, build_system_prompt_state,
    diff_system_prompt_sections, is_valid_section_name, render_sections, BuildSystemPromptOptions,
    ContextFile, SystemPromptState, DEFAULT_PREAMBLE,
};

fn s(x: &str) -> String {
    x.to_string()
}

fn base<'a>(
    snippets: &'a [(String, String)],
    guidelines: &'a [(String, Vec<String>)],
    sections: &'a [(String, String)],
) -> BuildSystemPromptOptions<'a> {
    BuildSystemPromptOptions {
        custom_prompt: None,
        force_system_prompt: None,
        selected_tools: None,
        tool_snippets: snippets,
        tool_guidelines: guidelines,
        prompt_guidelines: &[],
        append_system_prompt: None,
        sections,
        cwd: None,
        context_files: &[],
        skills: &[],
    }
}

#[test]
fn default_sections_and_rendering() {
    let snippets = vec![(s("read"), s("Read a file")), (s("bash"), s("Run a command"))];
    let guidelines: Vec<(String, Vec<String>)> = vec![];
    let sections: Vec<(String, String)> = vec![];
    let mut opts = base(&snippets, &guidelines, &sections);
    opts.cwd = Some("C:\\work\\proj");

    let built = build_system_prompt_sections(&opts).unwrap();
    let names: Vec<&str> = built.iter().map(|(n, _)| n.as_str()).collect();
    assert_eq!(names, vec!["preamble", "tools", "rules", "cwd"]);
    let tools = &built[1].1;
    assert!(tools.starts_with("- read: Read a file\n- bash: Run a command\n\nIn addition"));
    let rules = &built[2].1;
    assert!(rules.starts_with("- Use bash for file operations like ls, rg, find\n"));
    assert!(rules.ends_with("- Show file paths clearly when working with files"));
    assert_eq!(built[3].1, "C:/work/proj");

    let text = build_system_prompt(&opts).unwrap();
    assert!(text.starts_with(DEFAULT_PREAMBLE));
    assert!(text.contains("\n\n<tools>\n- read: Read a file"));
    assert!(text.ends_with("<cwd>\nC:/work/proj\n</cwd>"));
}

#[test]
fn rules_dedupe_and_skip_bash_hint_when_grep_present() {
    let snippets: Vec<(String, String)> = vec![];
    let guidelines = vec![(s("edit"), vec![s("Be concise in your responses"), s("  ")])];
    let sections: Vec<(String, String)> = vec![];
    let mut opts = base(&snippets, &guidelines, &sections);
    let selected = vec![s("bash"), s("grep"), s("edit")];
    opts.selected_tools = Some(&selected);
    let built = build_system_prompt_sections(&opts).unwrap();
    let rules = &built.iter().find(|(n, _)| n == "rules").unwrap().1;
    assert!(!rules.contains("Use bash for file operations"));
    assert_eq!(rules.matches("Be concise in your responses").count(), 1);
    assert_eq!(built[1].1.split("\n\n").next().unwrap(), "(none)");
}

#[test]
fn project_context_addendum_skills_and_custom_sections() {
    let snippets: Vec<(String, String)> = vec![];
    let guidelines: Vec<(String, Vec<String>)> = vec![];
    let mut sections: Vec<(String, String)> = vec![];
    insert_str(&mut sections, s("memory"), s("remember things"));
    insert_str(&mut sections, s("cwd"), s("/override"));
    let mut opts = base(&snippets, &guidelines, &sections);
    opts.append_system_prompt = Some("  extra  ");
    let files = vec![ContextFile { path: "/p/ZWORK.md".into(), content: "do X".into() }];
    opts.context_files = &files;
    let skills = vec![Skill {
        name: "docx".into(),
        description: "Word".into(),
        file_path: "/s/docx/SKILL.md".into(),
        base_dir: "/s/docx".into(),
        source: "user".into(),
        disable_model_invocation: false,
    }];
    opts.skills = &skills;
    opts.cwd = Some("/p");

    let built = build_system_prompt_sections(&opts).unwrap();
    let names: Vec<&str> = built.iter().map(|(n, _)| n.as_str()).collect();
    assert_eq!(
        names,
        vec!["preamble", "tools", "rules", "addendum", "project_context", "skills", "cwd", "memory"]
    );
    assert_eq!(built[3].1, "extra");
    assert_eq!(
        built[4].1,
        "Project-specific instructions and guidelines:\n\n<project_instructions path=\"/p/ZWORK.md\">\ndo X\n</project_instructions>"
    );
    assert!(built[5].1.starts_with("The following skills provide"));
    assert!(built[5].1.contains("<name>docx</name>"));
    assert_eq!(built[6].1, "/override");
    assert_eq!(built[7].1, "remember things");
}

#[test]
fn invalid_section_names_rejected() {
    let snippets: Vec<(String, String)> = vec![];
    let guidelines: Vec<(String, Vec<String>)> = vec![];
    for bad in ["Preamble", "preamble", "1abc", "has space", ""] {
        let mut sections: Vec<(String, String)> = vec![];
        insert_str(&mut sections, bad.to_string(), "x".to_string());
        let opts = base(&snippets, &guidelines, &sections);
        let err = build_system_prompt_sections(&opts).unwrap_err();
        assert_eq!(err, format!("Invalid system prompt section name: {bad}"));
    }
}

#[test]
fn forced_prompt_has_no_sections() {
    let snippets: Vec<(String, String)> = vec![];
    let guidelines: Vec<(String, Vec<String>)> = vec![];
    let sections: Vec<(String, String)> = vec![];
    let mut opts = base(&snippets, &guidelines, &sections);
    opts.force_system_prompt = Some("exact text");
    let state = build_system_prompt_state(&opts).unwrap();
    assert_eq!(state.sections, None);
    assert_eq!(state.text(), "exact text");
    assert!(state.section_map().is_none());
}

#[test]
fn diff_reports_changes_additions_removals() {
    let prev = vec![("a".to_string(), "1".to_string()), ("b".to_string(), "2".to_string())];
    let cur = vec![("a".to_string(), "1".to_string()), ("c".to_string(), "3".to_string())];
    assert_eq!(diff_system_prompt_sections(&prev, &prev), None);
    let patch = diff_system_prompt_sections(&prev, &cur).unwrap();
    let get = |k: &str| patch.iter().find(|(n, _)| n == k).map(|(_, v)| v.clone());
    assert_eq!(get("b"), Some(None));
    assert_eq!(get("c"), Some(Some("3".to_string())));
    assert!(get("a").is_none());
}

#[test]
fn diff_patch_is_in_name_order_and_carries_new_content() {
    let prev = vec![(s("z"), s("old")), (s("a"), s("1"))];
    let cur = vec![(s("z"), s("new")), (s("m"), s("2"))];
    let patch = diff_system_prompt_sections(&prev, &cur).unwrap();
    assert_eq!(
        patch,
        vec![(s("a"), None), (s("m"), Some(s("2"))), (s("z"), Some(s("new")))]
    );
}

#[test]
fn render_skips_blank_sections_and_trims() {
    let secs = vec![
        (s("preamble"), s("  Hello  ")),
        (s("empty"), s("   ")),
        (s("tools"), s("\n- x\n")),
    ];
    assert_eq!(render_sections(&secs), "Hello\n\n<tools>\n- x\n</tools>");
    let st = SystemPromptState { content: s(" lead "), sections: Some(secs.clone()) };
    assert_eq!(st.text(), "lead\n\nHello\n\n<tools>\n- x\n</tools>");
    let map = st.section_map().unwrap();
    assert_eq!(map[0].0, "empty");
    assert_eq!(map[1], (s("preamble"), Some(s("  Hello  "))));
}

#[test]
fn section_names_and_custom_prompt() {
    assert!(is_valid_section_name("a1_-x"));
    assert!(!is_valid_section_name("_a"));
    assert!(!is_valid_section_name("aB"));
    let snippets: Vec<(String, String)> = vec![];
    let guidelines: Vec<(String, Vec<String>)> = vec![];
    let sections: Vec<(String, String)> = vec![];
    let mut opts = base(&snippets, &guidelines, &sections);
    opts.custom_prompt = Some("Custom.");
    opts.append_system_prompt = Some("   ");
    let selected = vec![s("grep")];
    opts.selected_tools = Some(&selected);
    let built = build_system_prompt_sections(&opts).unwrap();
    assert_eq!(built[0].1, "Custom.");
    let names: Vec<&str> = built.iter().map(|(n, _)| n.as_str()).collect();
    assert_eq!(names, vec!["preamble", "tools", "rules"]);
    assert_eq!(
        built[2].1,
        "- Be concise in your responses\n- Show file paths clearly when working with files"
    );
}

#[test]
fn section_patch_turns_previous_into_current() {
    let s = |v: &[(&str, &str)]| -> Vec<(String, String)> { v.iter().map(|(a, b)| (a.to_string(), b.to_string())).collect() };
    let prev = s(&[("a", "1"), ("b", "2")]);
    let cur = s(&[("a", "1"), ("c", "3")]);
    let patch = diff_system_prompt_sections(&prev, &cur).unwrap();
    assert_eq!(patch, vec![("b".to_string(), None), ("c".to_string(), Some("3".to_string()))]);
    // A later section of the same name wins.
    let dup = s(&[("a", "0"), ("a", "1"), ("b", "2")]);
    assert_eq!(diff_system_prompt_sections(&prev, &dup), None);
}
