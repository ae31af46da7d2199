use zwork_sidecar::secretstore::{
    file_after_store, file_without, load_decision, lookup_decision, store_plan, KeyLookup, LoadSource, StorePlan,
};

fn file(v: &[(&str, &str)]) -> Vec<(String, String)> {
    v.iter().map(|(a, b)| (a.to_string(), b.to_string())).collect()
}

#[test]
fn lookup_prefers_keychain_then_file() {
    let f = file(&[("groq", "g"), ("openai", "")]);
    assert!(matches!(lookup_decision("", Some("x".into()), &f), KeyLookup::Absent));
    assert!(matches!(lookup_decision("groq", Some("kc".into()), &f), KeyLookup::Keychain(k) if k == "kc"));
    assert!(matches!(lookup_decision("groq", None, &f), KeyLookup::File(v) if v == "g"));
    assert!(matches!(lookup_decision("openai", None, &f), KeyLookup::Absent));
    assert!(matches!(lookup_decision("zai", None, &f), KeyLookup::Absent));
}

#[test]
fn store_plan_and_file_rewrites() {
    assert!(matches!(store_plan("", "v"), StorePlan::Nothing));
    assert!(matches!(store_plan("groq", ""), StorePlan::Delete));
    assert!(matches!(store_plan("groq", "v"), StorePlan::Store));
    let f = file(&[("groq", "g"), ("zai", "z")]);
    assert_eq!(file_without(&f, "groq"), Some(file(&[("zai", "z")])));
    assert_eq!(file_without(&f, "openai"), None);
    assert_eq!(file_after_store(&f, "openai", "o", false), Some(file(&[("groq", "g"), ("openai", "o"), ("zai", "z")])));
    assert_eq!(file_after_store(&f, "groq", "new", false), Some(file(&[("groq", "new"), ("zai", "z")])));
    assert_eq!(file_after_store(&f, "zai", "z2", true), Some(file(&[("groq", "g")])));
    assert_eq!(file_after_store(&f, "openai", "o", true), None);
}

#[test]
fn load_order_is_keychain_file_legacy() {
    let f = file(&[("groq", "g")]);
    assert!(matches!(load_decision("groq", Some("kc".into()), &f, Some("l".into())), LoadSource::Keychain(k) if k == "kc"));
    assert!(matches!(load_decision("groq", Some("".into()), &f, None), LoadSource::File(v) if v == "g"));
    assert!(matches!(load_decision("zai", None, &f, Some("l".into())), LoadSource::Legacy(l) if l == "l"));
    assert!(matches!(load_decision("zai", None, &f, Some("".into())), LoadSource::Skip));
}
