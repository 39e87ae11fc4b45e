//! Tests of the reconciler's decision logic, the OS-snapshot conversion and
//! the error surface.

use proxycat::errors::ProxyCatError;
use proxycat::pac::PacConfig;
use proxycat::pac_urls::get_pac_urls;
use proxycat::proxy_config::ProxyConfig;
use proxycat::reconcile::{ReconcileAction, ReconcileState};

#[test]
fn drift_is_absorbed_and_restored() {
    let master = "http://127.0.0.1:12112/master.pac".to_string();
    let mut state = ReconcileState::initial();
    // boot: the OS already points at us
    let a = state.tick(Some(master.clone()), &master);
    assert!(matches!(a, ReconcileAction::Wait));
    // a policy change points the OS somewhere else
    let a = state.tick(Some("http://x/y.pac".to_string()), &master);
    match a {
        ReconcileAction::AbsorbAndRestore(url) => assert_eq!(url, "http://x/y.pac"),
        ReconcileAction::Wait => panic!("drift must be absorbed"),
    }
    // the document gains the foreign function, then our URL is restored
    let mut doc = PacConfig::empty();
    let added = doc
        .ingest_external_pac("http://x/y.pac", "function FindProxyForURL(u,h){return \"DIRECT\";}")
        .unwrap();
    assert!(added);
    assert_eq!(doc.external_pac_functions[0].function.original_url, "http://x/y.pac");
    // next tick sees our URL again: steady
    let a = state.tick(Some(master.clone()), &master);
    assert!(matches!(a, ReconcileAction::Wait));
}

#[test]
fn repeated_foreign_url_is_not_absorbed_twice_in_a_row() {
    let master = "http://127.0.0.1:12112/master.pac".to_string();
    let mut state = ReconcileState::initial();
    let a = state.tick(Some("http://x/y.pac".to_string()), &master);
    assert!(matches!(a, ReconcileAction::AbsorbAndRestore(_)));
    // the restore failed and the OS still reports the same foreign URL
    let a = state.tick(Some("http://x/y.pac".to_string()), &master);
    assert!(matches!(a, ReconcileAction::Wait));
}

#[test]
fn failed_read_skips_the_tick() {
    let master = "http://127.0.0.1:12112/master.pac".to_string();
    let mut state = ReconcileState::initial();
    state.tick(Some("http://x/y.pac".to_string()), &master);
    let a = state.tick(None, &master);
    assert!(matches!(a, ReconcileAction::Wait));
}

#[test]
fn windows_snapshot_with_proxy_server_becomes_a_catch_all_rule() {
    let snap = ProxyConfig {
        proxy_server: Some("gw.example:3128".to_string()),
        proxy_bypass: Some("a.example;;b.example".to_string()),
        auto_config_url: None,
        use_proxy: true,
    };
    let doc = PacConfig::from_windows_config(&snap);
    assert_eq!(doc.proxy_rules.len(), 1);
    let r = &doc.proxy_rules[0].rule;
    assert_eq!(r.host, "*");
    assert_eq!(r.proxy_host, "gw.example");
    assert_eq!(r.proxy_port, 3128);
    // the bypass list is the OS one, empties dropped, defaults re-ensured
    let hosts: Vec<&str> = doc.bypass_list.iter().map(|b| b.host.as_str()).collect();
    assert_eq!(hosts, vec!["a.example", "b.example", "localhost", "127.0.0.1", "::1"]);
}

#[test]
fn empty_windows_snapshot_becomes_the_empty_document() {
    let doc = PacConfig::from_windows_config(&ProxyConfig::new());
    assert_eq!(doc, PacConfig::empty());
}

#[test]
fn unparseable_proxy_server_yields_no_rule() {
    let snap = ProxyConfig {
        proxy_server: Some("not a proxy".to_string()),
        proxy_bypass: None,
        auto_config_url: None,
        use_proxy: true,
    };
    let doc = PacConfig::from_windows_config(&snap);
    assert_eq!(doc.proxy_rules.len(), 0);
}

#[test]
fn known_pac_urls_come_in_load_order() {
    let urls = get_pac_urls();
    assert_eq!(urls.len(), 3);
    assert_eq!(urls[0].url, "http://wpad/wpad.dat");
    assert_eq!(urls[1].url, "http://localhost:3333/files/proxy.pac");
    assert_eq!(urls[2].url, "http://localhost:10224/proxy.pac");
}

#[test]
fn client_errors_get_400_and_server_errors_500() {
    assert_eq!(ProxyCatError::Internal("bad index".to_string()).http_status(), 400);
    assert_eq!(ProxyCatError::Pac("x".to_string()).http_status(), 500);
    assert_eq!(ProxyCatError::Io("x".to_string()).http_status(), 500);
    assert_eq!(ProxyCatError::Windows("x".to_string()).http_status(), 500);
    assert_eq!(ProxyCatError::MutexPoisoned("x".to_string()).http_status(), 500);
    assert_eq!(ProxyCatError::Network("x".to_string()).http_status(), 500);
}

#[test]
fn error_messages_carry_category_and_text() {
    assert_eq!(ProxyCatError::Pac("no function".to_string()).message(), "PAC error: no function");
    assert_eq!(ProxyCatError::Internal("bad".to_string()).message(), "Internal error: bad");
    assert_eq!(ProxyCatError::Io("disk".to_string()).message(), "IO error: disk");
}
