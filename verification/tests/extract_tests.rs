//! Tests of URL sanitizing, symbol derivation and function extraction.

use proxycat::extract::{find_proxy_function, sanitize_url, symbol_for_url};
use proxycat::pac::PacConfig;

#[test]
fn sanitize_keeps_ascii_alphanumerics_and_replaces_the_rest() {
    assert_eq!(sanitize_url("http://wpad/wpad.dat"), "http___wpad_wpad_dat");
    assert_eq!(sanitize_url("abcXYZ019"), "abcXYZ019");
    assert_eq!(sanitize_url("a-b_c d/e"), "a_b_c_d_e");
    assert_eq!(sanitize_url(""), "");
}

#[test]
fn sanitize_emits_only_word_characters() {
    let out = sanitize_url("http://host:1234/p?q=1&r=#frag");
    assert!(out.chars().all(|c| c.is_ascii_alphanumeric() || c == '_'));
}

#[test]
fn sanitize_is_deterministic() {
    let u = "http://host/p.pac";
    assert_eq!(sanitize_url(u), sanitize_url(u));
}

#[test]
fn symbol_derivation_for_wpad_url() {
    assert_eq!(symbol_for_url("http://wpad/wpad.dat"), "FindProxyForURL_http___wpad_wpad_dat");
}

#[test]
fn brace_matched_extraction_ends_at_the_outermost_brace() {
    let input = "xx function FindProxyForURL(u,h){ if(u){return \"A\"} else {return \"B\"} } tail";
    let chars: Vec<char> = input.chars().collect();
    let (start, end) = find_proxy_function(&chars).unwrap();
    let region: String = chars[start..end].iter().collect();
    assert_eq!(region, "function FindProxyForURL(u,h){ if(u){return \"A\"} else {return \"B\"} }");
    assert_eq!(start, 3);
}

#[test]
fn extraction_fails_without_the_function() {
    let chars: Vec<char> = "function somethingElse() { }".chars().collect();
    assert_eq!(find_proxy_function(&chars), None);
}

#[test]
fn extraction_fails_on_unbalanced_braces() {
    let chars: Vec<char> = "function FindProxyForURL(u,h){ if(u){".chars().collect();
    assert_eq!(find_proxy_function(&chars), None);
}

#[test]
fn ingest_renames_the_function_and_records_the_url() {
    let mut c = PacConfig::empty();
    let added = c
        .ingest_external_pac("http://x/y.pac", "before function FindProxyForURL(u,h){return \"\";} after")
        .unwrap();
    assert!(added);
    assert_eq!(c.external_pac_functions.len(), 1);
    let f = &c.external_pac_functions[0].function;
    assert_eq!(f.original_url, "http://x/y.pac");
    assert_eq!(f.function_name, "FindProxyForURL_http___x_y_pac");
    assert_eq!(f.function_text, "function FindProxyForURL_http___x_y_pac(u,h){return \"\";}");
    assert!(c.external_pac_functions[0].enabled);
}

#[test]
fn ingest_same_url_twice_leaves_the_document_unchanged() {
    let mut c = PacConfig::empty();
    c.ingest_external_pac("http://x/y.pac", "function FindProxyForURL(u,h){return \"\";}")
        .unwrap();
    let before = c.clone();
    let added = c
        .ingest_external_pac("http://x/y.pac", "function FindProxyForURL(u,h){return \"X\";}")
        .unwrap();
    assert!(!added);
    assert_eq!(c, before);
}

#[test]
fn ingest_without_function_is_an_error_and_changes_nothing() {
    let mut c = PacConfig::empty();
    let before = c.clone();
    assert!(c.ingest_external_pac("http://x/y.pac", "no pac here").is_err());
    assert_eq!(c, before);
}

#[test]
fn ingest_empty_url_is_an_error() {
    let mut c = PacConfig::empty();
    assert!(c.ingest_external_pac("", "function FindProxyForURL(u,h){}").is_err());
}
