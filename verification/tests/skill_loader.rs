use zwork_sidecar::skill_loader::{
    load_skill_from_file, load_skills, load_skills_from_dir, FsNode, LoadSkillsOptions, SkillPathProbe,
};
use zwork_sidecar::skills::SkillDiagnostic;

fn dir(path: &str, children: Vec<FsNode>) -> FsNode {
    FsNode::Dir { path: path.into(), children }
}

fn file(path: &str, text: &str) -> FsNode {
    FsNode::File { path: path.into(), real_path: path.into(), content: Ok(text.into()) }
}

fn messages(d: &[SkillDiagnostic]) -> Vec<String> {
    d.iter()
        .map(|d| match d {
            SkillDiagnostic::Warning { message, .. } => message.clone(),
            SkillDiagnostic::Collision { message, .. } => message.clone(),
        })
        .collect()
}

#[test]
fn loads_skill_roots_and_root_md_files_from_a_listing() {
    let root = dir(
        "/r",
        vec![
            dir("/r/.hidden", vec![file("/r/.hidden/SKILL.md", "---\ndescription: hidden\n---")]),
            file("/r/README.md", "# readme"),
            dir(
                "/r/docx",
                vec![
                    file("/r/docx/SKILL.md", "---\nname: docx\ndescription: Word documents\n---\nbody"),
                    dir("/r/docx/scripts", vec![file("/r/docx/scripts/SKILL.md", "---\nname: nested\ndescription: nope\n---")]),
                ],
            ),
            dir("/r/group", vec![dir("/r/group/pdf", vec![file("/r/group/pdf/SKILL.md", "---\ndescription: PDFs\n---")])]),
            dir("/r/node_modules", vec![dir("/r/node_modules/x", vec![file("/r/node_modules/x/SKILL.md", "---\ndescription: dep\n---")])]),
            file("/r/notes.md", "---\nname: notes\ndescription: Loose notes\n---"),
        ],
    );
    let result = load_skills_from_dir(&root, "user");
    let mut names: Vec<&str> = result.skills.iter().map(|s| s.name.as_str()).collect();
    names.sort();
    assert_eq!(names, vec!["docx", "notes", "pdf"]);
    let pdf = result.skills.iter().find(|s| s.name == "pdf").unwrap();
    assert_eq!(pdf.base_dir, "/r/group/pdf");
    assert_eq!(pdf.source, "user");
    assert!(result.diagnostics.is_empty(), "{:?}", result.diagnostics);
}

#[test]
fn missing_description_and_bad_name_from_a_listing() {
    let root = dir("/d", vec![dir("/d/Bad_Name", vec![file("/d/Bad_Name/SKILL.md", "---\nname: Bad_Name\n---")])]);
    let result = load_skills_from_dir(&root, "user");
    assert!(result.skills.is_empty());
    let msgs = messages(&result.diagnostics);
    assert!(msgs.iter().any(|m| m == "description is required"));
    assert!(msgs.iter().any(|m| m.contains("invalid characters")));
}

#[test]
fn load_skills_dedupes_and_reports_collisions_from_listings() {
    let user = dir("/agent/skills", vec![dir("/agent/skills/a", vec![file("/agent/skills/a/SKILL.md", "---\nname: a\ndescription: user a\n---")])]);
    let project = dir(
        "/cwd/.zwork/skills",
        vec![dir("/cwd/.zwork/skills/a", vec![file("/cwd/.zwork/skills/a/SKILL.md", "---\nname: a\ndescription: project a\n---")])],
    );
    let extra = dir("/extra", vec![dir("/extra/b", vec![file("/extra/b/SKILL.md", "---\ndescription: b\n---")])]);
    let options = LoadSkillsOptions {
        cwd: "/cwd".into(),
        agent_dir: "/agent".into(),
        skill_paths: vec!["/extra".into(), "/extra/missing".into()],
        include_defaults: true,
    };
    let probes = vec![SkillPathProbe::Dir(extra), SkillPathProbe::Missing];
    let result = load_skills(&options, &user, &project, &probes);
    let names: Vec<&str> = result.skills.iter().map(|s| s.name.as_str()).collect();
    assert_eq!(names, vec!["a", "b"]);
    assert_eq!(result.skills[0].description, "user a");
    assert_eq!(result.skills[1].source, "path");
    assert!(result.diagnostics.iter().any(|d| matches!(d, SkillDiagnostic::Collision { name, .. } if name == "a")));
    assert!(result
        .diagnostics
        .iter()
        .any(|d| matches!(d, SkillDiagnostic::Warning { message, path } if message == "skill path does not exist" && path == "/extra/missing")));
    assert_eq!(messages(&result.diagnostics).last().unwrap(), "name \"a\" collision");
}

#[test]
fn same_real_path_is_loaded_once() {
    let a = FsNode::File { path: "/x/s.md".into(), real_path: "/real/s.md".into(), content: Ok("---\ndescription: d\n---".into()) };
    let b = FsNode::File { path: "/y/s.md".into(), real_path: "/real/s.md".into(), content: Ok("---\ndescription: d\n---".into()) };
    let options = LoadSkillsOptions {
        cwd: "/c".into(),
        agent_dir: "/g".into(),
        skill_paths: vec!["rel/s.md".into(), "/abs/s.md".into(), "notes.txt".into()],
        include_defaults: false,
    };
    let probes = vec![
        match a {
            FsNode::File { real_path, content, .. } => SkillPathProbe::File { real_path, content },
            _ => unreachable!(),
        },
        match b {
            FsNode::File { real_path, content, .. } => SkillPathProbe::File { real_path, content },
            _ => unreachable!(),
        },
        SkillPathProbe::File { real_path: "/c/notes.txt".into(), content: Err("unread".into()) },
    ];
    let empty = dir("/none", vec![]);
    let result = load_skills(&options, &empty, &empty, &probes);
    assert_eq!(result.skills.len(), 1);
    assert_eq!(result.skills[0].file_path, "/c/rel/s.md");
    assert_eq!(result.skills[0].name, "rel");
    assert_eq!(result.skills[0].source, "path");
    assert_eq!(messages(&result.diagnostics), vec!["skill path is not a markdown file"]);
}

#[test]
fn skill_file_read_errors_and_parse_errors() {
    let (s, d) = load_skill_from_file("/a/SKILL.md", "user", Err("denied".into()));
    assert!(s.is_none());
    assert_eq!(messages(&d), vec!["denied"]);
    let (s, d) = load_skill_from_file("/a/SKILL.md", "user", Ok("---\n  bad: indent\n---\n".into()));
    assert!(s.is_none());
    assert_eq!(d.len(), 1);
    let (s, d) = load_skill_from_file("/a/other.md", "user", Ok("---\n  bad: indent\n---\n".into()));
    assert!(s.is_none());
    assert!(d.is_empty());
    let (s, _) = load_skill_from_file("/a/x/SKILL.md", "project", Ok("---\ndescription: hi\ndisable-model-invocation: yes\n---".into()));
    let s = s.unwrap();
    assert_eq!(s.name, "x");
    assert_eq!(s.base_dir, "/a/x");
    assert!(s.disable_model_invocation);
}
