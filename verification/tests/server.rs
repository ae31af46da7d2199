use zwork_sidecar::mcp::split_tool_name;
use zwork_sidecar::b64::{base64_decode_bytes, standard_b64_decode, standard_b64_encode};
use zwork_sidecar::server::{
    default_clean, default_export_title, default_file_kind, default_octet_stream, default_true,
    extract_html_title, guess_mime, is_safe_ollama_url, mime_for_lowercase_name, ollama_api_base,
    python_str_lit, sanitize_filename, Attachment,
};

#[test]
fn base64_round_trips_and_matches_known_vectors() {
    assert_eq!(standard_b64_encode(b""), "");
    assert_eq!(standard_b64_encode(b"f"), "Zg==");
    assert_eq!(standard_b64_encode(b"fo"), "Zm8=");
    assert_eq!(standard_b64_encode(b"foo"), "Zm9v");
    assert_eq!(standard_b64_encode(b"foobar"), "Zm9vYmFy");
    assert_eq!(standard_b64_encode(&[0xFF, 0xFE, 0x00]), "//4A");
    for data in [&b"hello world"[..], &[0u8, 1, 2, 250, 251, 252, 253][..], &b"ab"[..]] {
        let enc = standard_b64_encode(data);
        assert_eq!(standard_b64_decode(&enc).unwrap(), data.to_vec());
    }
}

#[test]
fn base64_decode_skips_padding_and_whitespace_and_rejects_junk() {
    assert_eq!(standard_b64_decode("  Zm9v\nYmFy \r\n").unwrap(), b"foobar".to_vec());
    assert_eq!(standard_b64_decode("Zm9v!").unwrap_err(), "Invalid base64");
    assert_eq!(base64_decode_bytes(b"Z g = ="), Some(b"f".to_vec()));
    assert_eq!(base64_decode_bytes(b"Zm8"), Some(b"fo".to_vec()));
    assert_eq!(base64_decode_bytes(b"\xC3\xA9"), None);
}

#[test]
fn mime_and_filenames() {
    assert_eq!(guess_mime("Photo.PNG"), "image/png");
    assert_eq!(guess_mime("a.jpeg"), "image/jpeg");
    assert_eq!(guess_mime("notes.Md"), "text/markdown");
    assert_eq!(guess_mime("archive.tar.gz"), "application/octet-stream");
    assert_eq!(mime_for_lowercase_name("x.csv"), "text/csv");
    assert_eq!(sanitize_filename("my file (1).txt"), "my_file__1_.txt");
    assert_eq!(sanitize_filename("résumé-ok_1.pdf"), "résumé-ok_1.pdf");
}

#[test]
fn html_titles_and_python_literals() {
    assert_eq!(extract_html_title("<html><title>  Hi there </title></html>"), "Hi there");
    assert_eq!(extract_html_title("<title>unterminated"), "");
    assert_eq!(extract_html_title("no title"), "");
    assert_eq!(python_str_lit("it's a \\ path"), "'it\\'s a \\\\ path'");
}

#[test]
fn ollama_url_policy() {
    assert!(is_safe_ollama_url("http://localhost:11434/"));
    assert!(is_safe_ollama_url(" https://ollama.com/api "));
    assert!(is_safe_ollama_url("http://10.0.0.5:11434"));
    assert!(is_safe_ollama_url("http://172.16.0.1:11434"));
    assert!(is_safe_ollama_url("http://172.+31.0.1"));
    assert!(!is_safe_ollama_url("http://172.32.0.1:11434"));
    assert!(!is_safe_ollama_url("http://172.x.0.1"));
    assert!(!is_safe_ollama_url("http://example.org"));
    assert_eq!(ollama_api_base("  "), "http://localhost:11434");
    assert_eq!(ollama_api_base("http://h:1/v1/"), "http://h:1");
    assert_eq!(ollama_api_base("http://h:1//"), "http://h:1");
}

#[test]
fn attachment_locator_and_defaults() {
    let mut a = Attachment {
        client_id: None,
        name: "n".into(),
        path: "/tmp/x.png".into(),
        mime: "image/png".into(),
        kind: "file".into(),
        size: None,
        data_url: None,
    };
    assert_eq!(a.path_or_url(), "/tmp/x.png");
    a.path = String::new();
    assert_eq!(a.path_or_url(), "(no path)");
    a.data_url = Some("data:short".into());
    assert_eq!(a.path_or_url(), "data:short");
    let long = "d".repeat(70);
    a.data_url = Some(long.clone());
    assert_eq!(a.path_or_url(), format!("{}…", &long[..60]));
    assert!(default_true());
    assert_eq!(default_octet_stream(), "application/octet-stream");
    assert_eq!(default_file_kind(), "file");
    assert_eq!(default_clean(), "clean");
    assert_eq!(default_export_title(), "Document");
}

#[test]
fn mcp_tool_names_split() {
    assert_eq!(split_tool_name("mcp__github__create_issue"), Some(("github".into(), "create_issue".into())));
    assert_eq!(split_tool_name("mcp__a__b__c"), Some(("a".into(), "b__c".into())));
    assert_eq!(split_tool_name("mcp____x"), None);
    assert_eq!(split_tool_name("mcp__srv__"), None);
    assert_eq!(split_tool_name("read"), None);
}
