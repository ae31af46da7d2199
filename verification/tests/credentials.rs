use zwork_sidecar::server::{
    default_base_url, get_providers, resolve, Credentials, CustomModel, EnvValues, ProviderSettings,
};

fn pairs(v: &[(&str, &str)]) -> Vec<(String, String)> {
    v.iter().map(|(a, b)| (a.to_string(), b.to_string())).collect()
}

fn settings(keys: &[(&str, &str)], bases: &[(&str, &str)], use_cc: bool) -> ProviderSettings {
    ProviderSettings {
        api_keys: pairs(keys),
        provider_config: bases.iter().map(|(p, b)| (p.to_string(), pairs(&[("base_url", b)]))).collect(),
        use_claude_code_config: use_cc,
    }
}

fn env(process: &[(&str, &str)], cc: &[(&str, &str)]) -> EnvValues {
    EnvValues { process: pairs(process), claude_code: pairs(cc) }
}

fn parts(c: Option<Credentials>) -> Option<(String, String, String, String)> {
    c.map(|c| (c.shape, c.api_key, c.base_url, c.source))
}

fn some(shape: &str, key: &str, base: &str, source: &str) -> Option<(String, String, String, String)> {
    Some((shape.into(), key.into(), base.into(), source.into()))
}

#[test]
fn anthropic_key_from_settings_wins_over_env() {
    let s = settings(&[("anthropic", "sk-a")], &[], false);
    let e = env(&[("ANTHROPIC_API_KEY", "env-key")], &[]);
    assert_eq!(parts(resolve("anthropic", &s, &e, "")), some("anthropic", "sk-a", "https://api.anthropic.com", "byok"));
    let s = settings(&[("anthropic", "sk-a")], &[("anthropic", "https://proxy.example/")], false);
    assert_eq!(parts(resolve("anthropic", &s, &e, "")), some("anthropic", "sk-a", "https://proxy.example/", "byok"));
    assert_eq!(parts(resolve("anthropic", &s, &e, "https://o")), some("anthropic", "sk-a", "https://o", "byok"));
}

#[test]
fn anthropic_falls_back_to_env_token() {
    let s = settings(&[("anthropic", "   ")], &[], false);
    let e = env(&[("ANTHROPIC_AUTH_TOKEN", "tok"), ("ANTHROPIC_BASE_URL", "https://b")], &[]);
    assert_eq!(parts(resolve("anthropic", &s, &e, "")), some("anthropic", "tok", "https://b", "env"));
    // A blank API_KEY variable hides the AUTH_TOKEN one.
    let e = env(&[("ANTHROPIC_API_KEY", " "), ("ANTHROPIC_AUTH_TOKEN", "tok")], &[]);
    assert_eq!(parts(resolve("anthropic", &s, &e, "")), None);
    assert_eq!(parts(resolve("anthropic", &s, &env(&[], &[]), "")), None);
}

#[test]
fn openai_and_router_defaults() {
    let e = env(&[("OPENAI_API_KEY", "ok")], &[]);
    let s = settings(&[], &[], false);
    assert_eq!(parts(resolve("openai", &s, &e, "")), some("openai", "ok", "https://api.openai.com/v1", "env"));
    let s = settings(&[("openai", "k")], &[("openai", "https://oa")], false);
    assert_eq!(parts(resolve("zwork_router", &s, &e, "")), some("openai", "k", "https://oa", "byok"));
    let e = env(&[("ZWORK_GATEWAY_TOKEN", "gw")], &[]);
    assert_eq!(
        parts(resolve("zwork_router", &settings(&[], &[], false), &e, "")),
        some("openai", "gw", "https://api.tryzwork.app/api", "env")
    );
}

#[test]
fn claude_code_reads_its_own_env_table() {
    let cc = [("ANTHROPIC_AUTH_TOKEN", "cc-tok"), ("ANTHROPIC_BASE_URL", "https://gw.example//")];
    let e = env(&[], &cc);
    assert_eq!(parts(resolve("claude_code", &settings(&[], &[], false), &e, "")), None);
    assert_eq!(
        parts(resolve("claude_code", &settings(&[], &[], true), &e, "")),
        some("anthropic", "cc-tok", "https://gw.example", "claude_code")
    );
    let e = env(&[], &[("ANTHROPIC_API_KEY", "k2")]);
    assert_eq!(
        parts(resolve("claude_code", &settings(&[], &[], true), &e, "")),
        some("anthropic", "k2", "https://api.anthropic.com", "claude_code")
    );
}

#[test]
fn ollama_needs_no_key() {
    let s = settings(&[], &[], false);
    assert_eq!(parts(resolve("ollama", &s, &env(&[], &[]), "")), some("openai", "", "http://localhost:11434/v1", "ollama"));
    assert_eq!(parts(resolve("ollama", &s, &env(&[], &[]), "http://h:1/v1/")), some("openai", "", "http://h:1/v1", "ollama"));
}

#[test]
fn compatible_providers_use_default_urls_and_uppercase_env() {
    let s = settings(&[("groq", "g")], &[("groq", "")], false);
    assert_eq!(parts(resolve("groq", &s, &env(&[], &[]), "")), some("openai", "g", "https://api.groq.com/openai/v1", "byok"));
    let e = env(&[("DEEPSEEK_API_KEY", "d"), ("DEEPSEEK_BASE_URL", "")], &[]);
    assert_eq!(
        parts(resolve("deepseek", &settings(&[], &[], false), &e, "")),
        some("openai", "d", "https://api.deepseek.com/v1", "env")
    );
    let e = env(&[("ACME_API_KEY", "x"), ("ACME_BASE_URL", "https://acme")], &[]);
    assert_eq!(parts(resolve("acme", &settings(&[], &[], false), &e, "")), some("openai", "x", "https://acme", "env"));
    assert_eq!(parts(resolve("acme", &settings(&[], &[], false), &env(&[], &[]), "")), None);
    assert_eq!(default_base_url("openrouter"), "https://openrouter.ai/api/v1");
    assert_eq!(default_base_url("nobody"), "");
}

fn model(id: &str, credential: &str, model_id: &str, base: &str) -> CustomModel {
    CustomModel {
        id: id.into(),
        name: id.to_uppercase(),
        shape: "openai".into(),
        credential: credential.into(),
        model_id: model_id.into(),
        base_url_override: base.into(),
    }
}

#[test]
fn provider_list_reports_statuses_in_fixed_order() {
    let s = settings(&[("groq", "g")], &[], false);
    let v = get_providers(&s, &vec![], "", &env(&[], &[]), None);
    let names: Vec<&str> = v.credentials.iter().map(|c| c.credential.as_str()).collect();
    assert_eq!(names, ["anthropic", "openai", "claude_code", "zwork_router", "groq", "cerebras", "deepseek", "zai"]);
    let groq = &v.credentials[4];
    assert!(groq.configured);
    assert_eq!(groq.source.as_deref(), Some("byok"));
    assert_eq!(groq.base_url.as_deref(), Some("https://api.groq.com/openai/v1"));
    assert_eq!(groq.shape, "openai");
    assert!(!v.credentials[0].configured);
    assert_eq!(v.credentials[0].shape, "anthropic");
    assert!(v.models.is_empty());
    assert_eq!(v.default_model, "");
}

#[test]
fn provider_list_subtitles_and_default_choice() {
    let s = settings(&[("zwork_router", "z"), ("groq", "g")], &[], false);
    let ms = vec![
        model("a", "openai", "gpt", ""),
        model("b", "zwork_router", "zwork-PRO", ""),
        model("c", "zwork_router", "Vision-1", ""),
        model("d", "groq", "llama", "https://my.groq/"),
    ];
    let v = get_providers(&s, &ms, "", &env(&[], &[]), None);
    assert_eq!(v.models.len(), 4);
    assert_eq!(v.models[0].subtitle, "OpenAI-compatible");
    assert!(!v.models[0].configured);
    assert_eq!(v.models[1].subtitle, "Most capable model");
    assert_eq!(v.models[2].subtitle, "Vision and images");
    assert_eq!(v.models[3].subtitle, "Groq · https://my.groq/");
    assert_eq!(v.models[3].base_url_override.as_deref(), Some("https://my.groq/"));
    // The first configured entry wins when the saved default names none.
    assert_eq!(v.default_model, "b");
    let v = get_providers(&s, &ms, "d", &env(&[], &[]), None);
    assert_eq!(v.default_model, "d");
    let v = get_providers(&s, &ms, "gone", &env(&[], &[]), None);
    assert_eq!(v.default_model, "b");
    let none = settings(&[], &[], false);
    let v = get_providers(&none, &vec![model("x", "openai", "m", "")], "", &env(&[], &[]), None);
    assert_eq!(v.default_model, "x");
}

#[test]
fn provider_list_synthesizes_local_claude_entry_last() {
    let s = settings(&[("openai", "k")], &[], true);
    let e = env(&[], &[("ANTHROPIC_AUTH_TOKEN", "t"), ("ANTHROPIC_BASE_URL", "https://gw/")]);
    let v = get_providers(&s, &vec![model("m1", "openai", "gpt", "")], "", &e, None);
    assert_eq!(v.models.len(), 2);
    let cc = &v.models[1];
    assert_eq!(cc.id, "__claude_code__");
    assert_eq!(cc.subtitle, "via https://gw");
    assert_eq!(cc.model_id, "(default)");
    assert!(cc.synthesized && cc.configured);
    assert_eq!(cc.base_url_override, None);
    assert_eq!(v.default_model, "m1");
    let v = get_providers(&s, &vec![], "", &e, Some("opus".into()));
    assert_eq!(v.models[0].model_id, "opus");
    assert_eq!(v.default_model, "__claude_code__");
    let v = get_providers(&s, &vec![model("m2", "claude_code", "x", "")], "", &e, None);
    assert_eq!(v.models.len(), 1);
}

#[test]
fn compatible_provider_key_alone_gets_default_url() {
    for (name, url) in [("mistral", "https://api.mistral.ai/v1"), ("zai", "https://api.z.ai/api/paas/v4"), ("openrouter", "https://openrouter.ai/api/v1")] {
        let s = settings(&[(name, "k")], &[], false);
        assert_eq!(parts(resolve(name, &s, &env(&[], &[]), "")), some("openai", "k", url, "byok"));
    }
}
