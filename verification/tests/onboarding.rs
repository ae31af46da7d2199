use zwork_sidecar::server::{onboard_credential_plan, personalization_markdown, CredentialPayload, OnboardAnswer};

fn ans(key: &str, question: &str, answer: &str) -> OnboardAnswer {
    OnboardAnswer { key: key.into(), question: question.into(), answer: answer.into() }
}

#[test]
fn personalization_from_full_answers() {
    let a = vec![
        ans("name", "What should I call you?", "  Ada  "),
        ans("profession", "What do you do?", "Engineer"),
        ans("goal", "Goal?", "Ship"),
        ans("vibe", "Vibe?", "Direct"),
        ans("verbosity", "Length?", "Short"),
        ans("decisions", "Decisions?", "Walk me through"),
    ];
    let md = personalization_markdown(&a);
    assert_eq!(
        md,
        "# zWork personalization\n\n## About the user\n\n- Name: Ada\n- Profession: Engineer\n- Long-term goal: Ship\n\n## Preferences\n\n- Vibe: **Direct**\n- Verbosity: **Short**\n- Decision style: **Walk me through**\n\n## How to talk to me\n\n- Match the **Direct** tone — no filler, no over-explaining.\n- Default reply length: **Short**.\n- For multi-step work: walk me through each decision briefly.\n- Address me by my first name occasionally, never overdone.\n- Prioritize action and shipping over meta-discussion.\n\n---\n\n## Raw onboarding answers (for reference)\n\n- What should I call you?\n  → \u{20}\u{20}Ada  \n- What do you do?\n  → Engineer\n- Goal?\n  → Ship\n- Vibe?\n  → Direct\n- Length?\n  → Short\n- Decisions?\n  → Walk me through\n"
    );
}

#[test]
fn personalization_defaults_when_answers_are_missing_or_blank() {
    let a = vec![ans("preferred_name", "Name?", "   "), ans("vibe", "Vibe?", " "), ans("vibe", "Vibe again?", "Calm")];
    let md = personalization_markdown(&a);
    assert!(md.contains("- Name: rWork User\n- Profession: (not specified)\n- Long-term goal: (not specified)\n"));
    assert!(md.contains("- Vibe: **Calm**\n- Verbosity: **Balanced**\n- Decision style: **Balanced**\n"));
    assert!(md.contains("- For multi-step work: just pick sensible defaults and act.\n"));
    assert!(md.ends_with("(for reference)\n\n- Vibe again?\n  → Calm\n"));
    let empty = personalization_markdown(&vec![]);
    assert!(empty.ends_with("(for reference)\n\n\n"));
}

#[test]
fn first_name_question_decides_even_when_a_later_one_answers() {
    let a = vec![ans("name", "Name?", ""), ans("preferred_name", "Preferred?", "Bo")];
    assert!(personalization_markdown(&a).contains("- Name: rWork User\n"));
}

fn payload(credential: Option<&str>, key: Option<&str>, base: Option<&str>, model: Option<&str>, name: Option<&str>) -> CredentialPayload {
    CredentialPayload {
        shape: None,
        credential: credential.map(String::from),
        api_key: key.map(String::from),
        base_url: base.map(String::from),
        model_id: model.map(String::from),
        model_name: name.map(String::from),
    }
}

#[test]
fn onboarding_credential_defaults_to_openai() {
    let p = onboard_credential_plan(&payload(None, Some("sk"), None, Some("gpt-x"), None));
    assert_eq!(p.api_key, Some(("openai".to_string(), "sk".to_string())));
    assert_eq!(p.base_url, None);
    let m = p.model.unwrap();
    assert_eq!(m.custom_id, None);
    assert_eq!((m.name.as_str(), m.shape.as_str(), m.credential.as_str(), m.model_id.as_str(), m.base_url.as_str()), ("gpt-x", "openai", "openai", "gpt-x", ""));
}

#[test]
fn onboarding_managed_models_keep_their_id() {
    let p = onboard_credential_plan(&payload(Some("zwork_router"), Some(""), Some("https://gw"), Some("zwork-pro"), Some("Pro")));
    assert_eq!(p.api_key, None);
    assert_eq!(p.base_url, Some(("zwork_router".to_string(), "https://gw".to_string())));
    let m = p.model.unwrap();
    assert_eq!(m.custom_id.as_deref(), Some("zwork-pro"));
    assert_eq!(m.name, "Pro");
    let unsafe_id = onboard_credential_plan(&payload(Some("zwork_router"), None, None, Some("../x"), None));
    assert!(unsafe_id.model.is_none());
    let no_model = onboard_credential_plan(&payload(Some("groq"), Some("g"), None, None, None));
    assert!(no_model.model.is_none());
    assert_eq!(no_model.api_key, Some(("groq".to_string(), "g".to_string())));
}
