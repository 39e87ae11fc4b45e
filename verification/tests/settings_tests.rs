//! Tests of the settings store and the derived master PAC URL.

use proxycat::settings::AppConfig;

#[test]
fn defaults_give_the_default_master_pac_url() {
    let c = AppConfig::default();
    assert_eq!(c.get_host().unwrap(), "127.0.0.1");
    assert_eq!(c.get_port(), 12112);
    assert_eq!(c.get_pac_path().unwrap(), "/master.pac");
    assert_eq!(c.get_pac_url().unwrap(), "http://127.0.0.1:12112/master.pac");
    assert_eq!(c.config_file(), "proxycat_config.json");
}

#[test]
fn update_port_recomputes_the_url() {
    let mut c = AppConfig::default();
    let url = c.update_port(8080).unwrap();
    assert_eq!(url, "http://127.0.0.1:8080/master.pac");
    assert_eq!(c.get_pac_url().unwrap(), url);
    assert_eq!(c.get_port(), 8080);
}

#[test]
fn update_host_recomputes_the_url() {
    let mut c = AppConfig::default();
    let url = c.update_host("0.0.0.0".to_string()).unwrap();
    assert_eq!(url, "http://0.0.0.0:12112/master.pac");
    assert_eq!(c.get_host().unwrap(), "0.0.0.0");
    assert_eq!(c.get_pac_url().unwrap(), url);
}

#[test]
fn update_pac_path_recomputes_the_url() {
    let mut c = AppConfig::default();
    let url = c.update_pac_path("/proxy.pac".to_string()).unwrap();
    assert_eq!(url, "http://127.0.0.1:12112/proxy.pac");
    assert_eq!(c.get_pac_path().unwrap(), "/proxy.pac");
    assert_eq!(c.get_pac_url().unwrap(), url);
}

#[test]
fn url_stays_consistent_across_every_mutation() {
    let mut c = AppConfig::new("10.0.0.1".to_string(), 4400, "/x.pac".to_string());
    assert_eq!(c.get_pac_url().unwrap(), "http://10.0.0.1:4400/x.pac");
    c.update_port(1).unwrap();
    c.update_host("h".to_string()).unwrap();
    let url = c.update_pac_path("/y".to_string()).unwrap();
    assert_eq!(url, "http://h:1/y");
    assert_eq!(c.get_pac_url().unwrap(), url);
}
