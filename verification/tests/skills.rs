use zwork_sidecar::skills::{
    escape_xml, format_skill_invocation, format_skills_for_prompt, parse_frontmatter, Skill,
    SkillFileReadTool,
};

fn skill(name: &str, description: &str, file_path: &str, base_dir: &str, hidden: bool) -> Skill {
    Skill {
        name: name.into(),
        description: description.into(),
        file_path: file_path.into(),
        base_dir: base_dir.into(),
        source: "user".into(),
        disable_model_invocation: hidden,
    }
}

#[test]
fn frontmatter_scalars_quotes_and_blocks() {
    let fm = parse_frontmatter(
        "---\nname: docx\ndescription: \"Make, read: docs\"\nlong: >\n  first line\n  second line\nlit: |\n  a\n  b\ndisable-model-invocation: true\n---\n# Body\n",
    )
    .unwrap();
    assert_eq!(fm.get("name"), Some("docx"));
    assert_eq!(fm.get("description"), Some("Make, read: docs"));
    assert_eq!(fm.get("long"), Some("first line second line"));
    assert_eq!(fm.get("lit"), Some("a\nb"));
    assert_eq!(fm.get_bool("disable-model-invocation"), Some(true));
    assert_eq!(fm.body, "# Body");
}

#[test]
fn frontmatter_absent_or_unterminated() {
    let fm = parse_frontmatter("# no frontmatter\n").unwrap();
    assert!(fm.fields.is_empty());
    let fm = parse_frontmatter("---\nname: x\n# never closed\n").unwrap();
    assert!(fm.fields.is_empty());
    assert!(parse_frontmatter("---\n  bad: indent\n---\n").is_err());
}

#[test]
fn frontmatter_errors_and_continuations() {
    assert_eq!(
        parse_frontmatter("---\nnocolon\n---\n").unwrap_err(),
        "invalid frontmatter line: nocolon"
    );
    assert_eq!(
        parse_frontmatter("---\n  bad: indent\n---\n").unwrap_err(),
        "unexpected indented line in frontmatter: bad: indent"
    );
    let fm = parse_frontmatter("\u{feff}---\r\nk:\r\n  one\r\n  two\r\nplain: a\r\n  b\r\n---\r\nbody").unwrap();
    assert_eq!(fm.get("k"), Some("one two"));
    assert_eq!(fm.get("plain"), Some("a b"));
    assert_eq!(fm.body, "body");
    assert_eq!(fm.get_bool("k"), None);
    assert_eq!(fm.get("missing"), None);
}

#[test]
fn prompt_format_escapes_and_hides_disabled() {
    let skills = vec![
        skill("a", "x < y & \"z\"", "/s/a/SKILL.md", "/s/a", false),
        skill("hidden", "no", "/s/h/SKILL.md", "/s/h", true),
    ];
    let out = format_skills_for_prompt(&skills, SkillFileReadTool::Read);
    assert!(out.contains("Use the read tool to load"));
    assert!(out.contains("<description>x &lt; y &amp; &quot;z&quot;</description>"));
    assert!(out.contains("<location>/s/a/SKILL.md</location>"));
    assert!(!out.contains("hidden"));
    assert_eq!(format_skills_for_prompt(&skills[1..], SkillFileReadTool::Bash), "");
}

#[test]
fn escape_xml_covers_all_five() {
    assert_eq!(escape_xml("<a href='x'>&\"</a>"), "&lt;a href=&apos;x&apos;&gt;&amp;&quot;&lt;/a&gt;");
}

#[test]
fn invocation_wraps_skill_body() {
    let s = skill("docx", "d", "/s/docx/SKILL.md", "/s/docx", false);
    let out = format_skill_invocation(&s, "Do it.", Some("  more  "));
    assert!(out.starts_with("<skill name=\"docx\" location=\"/s/docx/SKILL.md\">\n"));
    assert!(out.contains("Do it."));
}
