//! Tests of the configuration document and its mutators.

use proxycat::pac::{
    BypassListItem, ListKind, PacConfig, ProxyRule, ProxyRuleItem, parse_list_kind,
    parse_list_type, parse_proxy_server,
};

fn one_rule_config() -> PacConfig {
    let mut c = PacConfig::empty();
    c.add_proxy_rule_item(ProxyRuleItem {
        rule: ProxyRule {
            host: "*".to_string(),
            proxy_host: "p.example".to_string(),
            proxy_port: 8080,
        },
        enabled: true,
    })
    .unwrap();
    c
}

#[test]
fn empty_document_has_default_bypass() {
    let c = PacConfig::empty();
    assert_eq!(c.proxy_rules.len(), 0);
    assert_eq!(c.external_pac_functions.len(), 0);
    let hosts: Vec<&str> = c.bypass_list.iter().map(|b| b.host.as_str()).collect();
    assert_eq!(hosts, vec!["localhost", "127.0.0.1", "::1"]);
    assert!(c.bypass_list.iter().all(|b| b.enabled));
}

#[test]
fn toggle_flips_enabled_and_persists_in_json() {
    let mut c = one_rule_config();
    assert!(c.proxy_rules[0].enabled);
    c.toggle_item(ListKind::ProxyRules, 0).unwrap();
    assert!(!c.proxy_rules[0].enabled);
    let json = c.to_json();
    assert!(json.contains("\"enabled\": false"));
}

#[test]
fn toggle_twice_restores_the_document() {
    let mut c = one_rule_config();
    let before = c.clone();
    c.toggle_item(ListKind::ProxyRules, 0).unwrap();
    assert_ne!(c, before);
    c.toggle_item(ListKind::ProxyRules, 0).unwrap();
    assert_eq!(c, before);
}

#[test]
fn toggle_out_of_range_is_an_error_and_changes_nothing() {
    let mut c = one_rule_config();
    let before = c.clone();
    let r = c.toggle_item(ListKind::ProxyRules, 1);
    assert!(r.is_err());
    assert_eq!(r.unwrap_err().http_status(), 400);
    assert_eq!(c, before);
}

#[test]
fn move_to_same_index_is_a_no_op() {
    let mut c = PacConfig::empty();
    let before = c.clone();
    c.move_item(ListKind::BypassList, 1, 1).unwrap();
    assert_eq!(c, before);
}

#[test]
fn move_reorders_bypass_entries() {
    let mut c = PacConfig::empty();
    c.move_item(ListKind::BypassList, 2, 0).unwrap();
    let hosts: Vec<&str> = c.bypass_list.iter().map(|b| b.host.as_str()).collect();
    assert_eq!(hosts, vec!["::1", "localhost", "127.0.0.1"]);
}

#[test]
fn move_to_list_end_moves_to_last_position() {
    let mut c = PacConfig::empty();
    c.move_item(ListKind::BypassList, 0, 3).unwrap();
    let hosts: Vec<&str> = c.bypass_list.iter().map(|b| b.host.as_str()).collect();
    assert_eq!(hosts, vec!["127.0.0.1", "::1", "localhost"]);
}

#[test]
fn move_out_of_range_is_an_error() {
    let mut c = PacConfig::empty();
    let before = c.clone();
    assert!(c.move_item(ListKind::BypassList, 3, 0).is_err());
    assert!(c.move_item(ListKind::BypassList, 0, 4).is_err());
    assert_eq!(c, before);
}

#[test]
fn add_proxy_rule_with_port_zero_is_rejected() {
    let mut c = PacConfig::empty();
    let r = c.add_proxy_rule_item(ProxyRuleItem {
        rule: ProxyRule {
            host: "a.example".to_string(),
            proxy_host: "p.example".to_string(),
            proxy_port: 0,
        },
        enabled: true,
    });
    assert!(r.is_err());
    assert_eq!(c.proxy_rules.len(), 0);
}

#[test]
fn add_bypass_item_appends() {
    let mut c = PacConfig::empty();
    c.add_bypass_item(BypassListItem { host: "intranet".to_string(), enabled: false });
    assert_eq!(c.bypass_list.len(), 4);
    assert_eq!(c.bypass_list[3].host, "intranet");
    assert!(!c.bypass_list[3].enabled);
}

#[test]
fn ensure_default_bypass_reinserts_missing_entries() {
    let mut c = PacConfig::empty();
    c.bypass_list.clear();
    c.add_bypass_item(BypassListItem { host: "127.0.0.1".to_string(), enabled: false });
    c.ensure_default_bypass();
    let hosts: Vec<&str> = c.bypass_list.iter().map(|b| b.host.as_str()).collect();
    assert_eq!(hosts, vec!["127.0.0.1", "localhost", "::1"]);
    // the existing entry keeps its flag; the appended ones are enabled
    assert!(!c.bypass_list[0].enabled);
    assert!(c.bypass_list[1].enabled);
    assert!(c.bypass_list[2].enabled);
}

#[test]
fn list_names_parse_camel_and_snake_case() {
    assert_eq!(parse_list_kind("proxyRules"), Some(ListKind::ProxyRules));
    assert_eq!(parse_list_kind("bypassList"), Some(ListKind::BypassList));
    assert_eq!(parse_list_kind("externalPacFunctions"), Some(ListKind::ExternalPacFunctions));
    assert_eq!(parse_list_kind("proxy_rules"), None);
    assert_eq!(parse_list_type("proxy_rules"), Some(ListKind::ProxyRules));
    assert_eq!(parse_list_type("bypass_list"), Some(ListKind::BypassList));
    assert_eq!(parse_list_type("external_pac_functions"), Some(ListKind::ExternalPacFunctions));
    assert_eq!(parse_list_type("proxyRules"), None);
}

#[test]
fn parse_proxy_server_accepts_host_port() {
    assert_eq!(parse_proxy_server("proxy.example:3128"), Some(("proxy.example".to_string(), 3128)));
    assert_eq!(parse_proxy_server("127.0.0.1:65535"), Some(("127.0.0.1".to_string(), 65535)));
}

#[test]
fn parse_proxy_server_rejects_bad_input() {
    assert_eq!(parse_proxy_server("no-port"), None);
    assert_eq!(parse_proxy_server("a:b:c"), None);
    assert_eq!(parse_proxy_server("host:"), None);
    assert_eq!(parse_proxy_server("host:0"), None);
    assert_eq!(parse_proxy_server("host:65536"), None);
    assert_eq!(parse_proxy_server("host:12x"), None);
}
