//! Tests of the generated PAC script.

use proxycat::pac::{BypassListItem, ListKind, PacConfig, ProxyRule, ProxyRuleItem};
use proxycat::pac_text::generate_pac_content;

#[test]
fn empty_document_generates_bypass_check_and_direct() {
    let c = PacConfig::empty();
    let pac = generate_pac_content(&c);
    assert!(pac.contains("function FindProxyForURL(url, host) {"));
    assert!(pac.contains("if (host === 'localhost' || host === '127.0.0.1' || host === '::1')"));
    assert!(pac.contains("return \"DIRECT\";"));
    assert!(!pac.contains("PROXY"));
}

#[test]
fn catch_all_rule_generates_unconditional_proxy_return() {
    let mut c = PacConfig::empty();
    c.add_proxy_rule_item(ProxyRuleItem {
        rule: ProxyRule {
            host: "*".to_string(),
            proxy_host: "p.example".to_string(),
            proxy_port: 8080,
        },
        enabled: true,
    })
    .unwrap();
    let pac = generate_pac_content(&c);
    assert!(pac.contains("return 'PROXY p.example:8080';"));
    assert!(!pac.contains("if (host == '*')"));
}

#[test]
fn host_rule_generates_guarded_proxy_return() {
    let mut c = PacConfig::empty();
    c.add_proxy_rule_item(ProxyRuleItem {
        rule: ProxyRule {
            host: "work.example".to_string(),
            proxy_host: "gw.example".to_string(),
            proxy_port: 3128,
        },
        enabled: true,
    })
    .unwrap();
    let pac = generate_pac_content(&c);
    assert!(pac.contains("if (host == 'work.example') return 'PROXY gw.example:3128';"));
}

#[test]
fn disabled_rules_leave_no_trace_in_the_script() {
    let mut c = PacConfig::empty();
    c.add_proxy_rule_item(ProxyRuleItem {
        rule: ProxyRule {
            host: "*".to_string(),
            proxy_host: "p.example".to_string(),
            proxy_port: 8080,
        },
        enabled: true,
    })
    .unwrap();
    c.toggle_item(ListKind::ProxyRules, 0).unwrap();
    let pac = generate_pac_content(&c);
    assert!(!pac.contains("PROXY"));
}

#[test]
fn no_enabled_bypass_entry_emits_literal_false() {
    let mut c = PacConfig::empty();
    for i in 0..3 {
        c.toggle_item(ListKind::BypassList, i).unwrap();
    }
    let pac = generate_pac_content(&c);
    assert!(pac.contains("if (false)"));
    assert!(!pac.contains("host === '"));
}

#[test]
fn extra_enabled_bypass_entry_joins_the_disjunction() {
    let mut c = PacConfig::empty();
    c.add_bypass_item(BypassListItem { host: "intranet".to_string(), enabled: true });
    let pac = generate_pac_content(&c);
    assert!(pac.contains(
        "if (host === 'localhost' || host === '127.0.0.1' || host === '::1' || host === 'intranet')"
    ));
}

#[test]
fn enabled_external_function_gets_body_and_trampoline() {
    let mut c = PacConfig::empty();
    c.ingest_external_pac(
        "http://x/y.pac",
        "function FindProxyForURL(u, h) { return \"PROXY e.example:1\"; }",
    )
    .unwrap();
    let pac = generate_pac_content(&c);
    assert!(pac.contains("function FindProxyForURL_http___x_y_pac(u, h)"));
    assert!(pac.contains("const resultFindProxyForURL_http___x_y_pac = FindProxyForURL_http___x_y_pac(url, host);"));
    assert!(pac.contains("if (!isEmptyStringSafe(resultFindProxyForURL_http___x_y_pac)) return resultFindProxyForURL_http___x_y_pac;"));
}
