//! Tests of the JSON persistence codec.

use proxycat::codec::from_json;
use proxycat::pac::{BypassListItem, PacConfig, ProxyRule, ProxyRuleItem};

fn sample_config() -> PacConfig {
    let mut c = PacConfig::empty();
    c.add_proxy_rule_item(ProxyRuleItem {
        rule: ProxyRule {
            host: "*".to_string(),
            proxy_host: "p.example".to_string(),
            proxy_port: 8080,
        },
        enabled: true,
    })
    .unwrap();
    c.add_proxy_rule_item(ProxyRuleItem {
        rule: ProxyRule {
            host: "work.example".to_string(),
            proxy_host: "gw.example".to_string(),
            proxy_port: 3128,
        },
        enabled: false,
    })
    .unwrap();
    c.add_bypass_item(BypassListItem { host: "intranet".to_string(), enabled: false });
    c.ingest_external_pac(
        "http://x/y.pac",
        "function FindProxyForURL(u, h) {\n  if (h == \"a\") { return \"DIRECT\"; }\n  return \"PROXY q:1\";\n}",
    )
    .unwrap();
    c
}

#[test]
fn document_round_trips_through_json() {
    let c = sample_config();
    let json = c.to_json();
    let back = from_json(&json).unwrap();
    assert_eq!(back, c);
}

#[test]
fn empty_document_round_trips_through_json() {
    let c = PacConfig::empty();
    let back = from_json(&c.to_json()).unwrap();
    assert_eq!(back, c);
}

#[test]
fn round_trip_survives_mutations() {
    let mut c = sample_config();
    c.toggle_item(proxycat::pac::ListKind::ProxyRules, 0).unwrap();
    c.move_item(proxycat::pac::ListKind::BypassList, 0, 4).unwrap();
    let back = from_json(&c.to_json()).unwrap();
    assert_eq!(back, c);
}

#[test]
fn emitted_json_is_valid_and_carries_the_expected_fields() {
    let c = sample_config();
    let json = c.to_json();
    let v: serde_json::Value = serde_json::from_str(&json).unwrap();
    assert_eq!(v["proxy_rules"].as_array().unwrap().len(), 2);
    assert_eq!(v["proxy_rules"][0]["rule"]["host"], "*");
    assert_eq!(v["proxy_rules"][0]["rule"]["proxy_host"], "p.example");
    assert_eq!(v["proxy_rules"][0]["rule"]["proxy_port"], 8080);
    assert_eq!(v["proxy_rules"][0]["enabled"], true);
    assert_eq!(v["proxy_rules"][1]["enabled"], false);
    assert_eq!(v["bypass_list"][0]["host"], "localhost");
    assert_eq!(v["bypass_list"][3]["host"], "intranet");
    let f = &v["external_pac_functions"][0]["function"];
    assert_eq!(f["original_url"], "http://x/y.pac");
    assert_eq!(f["function_name"], "FindProxyForURL_http___x_y_pac");
    assert!(f["function_text"].as_str().unwrap().contains("if (h == \"a\")"));
}

#[test]
fn string_escapes_round_trip() {
    let mut c = PacConfig::empty();
    c.add_bypass_item(BypassListItem {
        host: "quote\" backslash\\ newline\n return\r tab\t end".to_string(),
        enabled: true,
    });
    let json = c.to_json();
    let back = from_json(&json).unwrap();
    assert_eq!(back, c);
    // and the escapes are real JSON escapes
    let v: serde_json::Value = serde_json::from_str(&json).unwrap();
    assert_eq!(v["bypass_list"][3]["host"], "quote\" backslash\\ newline\n return\r tab\t end");
}

#[test]
fn malformed_json_is_an_error() {
    assert!(from_json("").is_err());
    assert!(from_json("{}").is_err());
    assert!(from_json("not json at all").is_err());
    let c = PacConfig::empty();
    let mut json = c.to_json();
    json.push('x');
    assert!(from_json(&json).is_err());
}
