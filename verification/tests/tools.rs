use zwork_sidecar::tools::{collect_prompt_contributions, ToolPrompt};

fn tp(name: &str, snippet: Option<&str>, guidelines: &[&str]) -> ToolPrompt {
    ToolPrompt {
        name: name.into(),
        snippet: snippet.map(String::from),
        guidelines: guidelines.iter().map(|g| g.to_string()).collect(),
    }
}

#[test]
fn contributions_keyed_by_tool_name() {
    let tools = vec![
        tp("read", Some("Read files"), &["Use read, not cat"]),
        tp("bash", Some("Run commands"), &[]),
        tp("ls", None, &["List first"]),
    ];
    let (snippets, guidelines) = collect_prompt_contributions(&tools);
    assert_eq!(
        snippets,
        vec![("bash".to_string(), "Run commands".to_string()), ("read".to_string(), "Read files".to_string())]
    );
    assert_eq!(
        guidelines,
        vec![
            ("ls".to_string(), vec!["List first".to_string()]),
            ("read".to_string(), vec!["Use read, not cat".to_string()]),
        ]
    );
}

#[test]
fn later_tool_of_same_name_wins() {
    let tools = vec![tp("read", Some("old"), &["g1"]), tp("read", Some("new"), &[])];
    let (snippets, guidelines) = collect_prompt_contributions(&tools);
    assert_eq!(snippets, vec![("read".to_string(), "new".to_string())]);
    assert_eq!(guidelines, vec![("read".to_string(), vec!["g1".to_string()])]);
    let (s, g) = collect_prompt_contributions(&vec![]);
    assert!(s.is_empty() && g.is_empty());
}
