use lalalm::config::{Config, ProxyMode};
use lalalm::proxy::{assemble_http_url, assemble_socks_url, effective_proxy, parse_scutil_proxy, parse_windows_reg_proxy, proxy_from_env};

const SAMPLE: &str = r#"<dictionary> {
  HTTPEnable : 1
  HTTPPort : 7890
  HTTPProxy : 127.0.0.1
  HTTPSEnable : 1
  HTTPSPort : 7890
  HTTPSProxy : 127.0.0.1
  SOCKSEnable : 0
  SOCKSPort : 0
  SOCKSProxy : (null)
  ExcludeList : (null)
}"#;

#[test]
fn parses_scutil_output() {
    let p = parse_scutil_proxy(SAMPLE).expect("should detect");
    assert_eq!(p, "http://127.0.0.1:7890");
}

#[test]
fn no_proxy_when_disabled() {
    let text = "HTTPEnable : 0\nHTTPSEnable : 0\nSOCKSEnable : 0";
    assert!(parse_scutil_proxy(text).is_none());
}

#[test]
fn socks_fallback() {
    let text = "HTTPEnable : 0\nHTTPSEnable : 0\nSOCKSEnable : 1\nSOCKSProxy : 10.0.0.2\nSOCKSPort : 1080";
    assert_eq!(parse_scutil_proxy(text), Some("socks5://10.0.0.2:1080".to_string()));
}

#[test]
fn windows_reg_proxy() {
    let enabled = "\r\n    ProxyEnable    REG_DWORD    0x1\r\n    ProxyServer    REG_SZ    127.0.0.1:7890\r\n";
    assert_eq!(parse_windows_reg_proxy(enabled), Some("http://127.0.0.1:7890".to_string()));
    let mapped = "ProxyEnable    REG_DWORD    0x1\nProxyServer    REG_SZ    http=1.2.3.4:8080;https=1.2.3.4:8443;socks=1.2.3.4:1080";
    assert_eq!(parse_windows_reg_proxy(mapped), Some("https://1.2.3.4:8443".to_string()));
    let off = "ProxyEnable    REG_DWORD    0x0\nProxyServer    REG_SZ    127.0.0.1:7890";
    assert_eq!(parse_windows_reg_proxy(off), None);
}

#[test]
fn reg_map_without_https_uses_socks_scheme() {
    let t = "ProxyEnable REG_DWORD 0x1\nProxyServer REG_SZ socks=5.6.7.8:1080;ftp=x";
    assert_eq!(parse_windows_reg_proxy(t), Some("socks://5.6.7.8:1080".to_string()));
    let none = "ProxyEnable REG_DWORD 0x1\nProxyServer REG_SZ ftp=x;https=";
    assert_eq!(parse_windows_reg_proxy(none), None);
}

#[test]
fn url_assembly() {
    let h = Some(" 10.1.1.1 ".to_string());
    assert_eq!(assemble_http_url(&h, &Some("+8080".to_string())), Some("http://10.1.1.1:8080".to_string()));
    assert_eq!(assemble_http_url(&h, &Some("0".to_string())), None);
    assert_eq!(assemble_http_url(&h, &Some("70000".to_string())), None);
    assert_eq!(assemble_http_url(&h, &None), None);
    assert_eq!(assemble_socks_url(&Some("(null)".to_string()), &Some("1".to_string())), None);
    assert_eq!(assemble_socks_url(&None, &Some("1".to_string())), None);
    assert_eq!(assemble_socks_url(&Some("h".to_string()), &Some("0001".to_string())), Some("socks5://h:1".to_string()));
}

#[test]
fn last_line_wins_and_https_first() {
    let t = "HTTPSEnable : 0\nHTTPSEnable : 1;\nHTTPSProxy : a\nHTTPSPort : 1\nHTTPEnable : 1\nHTTPProxy : b\nHTTPPort : 2";
    assert_eq!(parse_scutil_proxy(t), Some("http://a:1".to_string()));
    let t2 = "HTTPSEnable : 1\nHTTPSProxy : \nHTTPEnable : 1\nHTTPProxy : b\nHTTPPort : 2";
    assert_eq!(parse_scutil_proxy(t2), Some("http://b:2".to_string()));
}

#[test]
fn settings_proxy() {
    let mut cfg = Config::default("/h");
    cfg.proxy_mode = ProxyMode::Direct;
    assert_eq!(effective_proxy(&cfg, Some("http://s:1".to_string())), None);
    cfg.proxy_mode = ProxyMode::Manual;
    cfg.proxy_url = "  http://m:2  ".to_string();
    assert_eq!(effective_proxy(&cfg, None), Some("http://m:2".to_string()));
    cfg.proxy_url = "   ".to_string();
    assert_eq!(effective_proxy(&cfg, None), None);
    cfg.proxy_mode = ProxyMode::System;
    assert_eq!(effective_proxy(&cfg, Some("http://s:1".to_string())), Some("http://s:1".to_string()));
}

#[test]
fn env_values_first_non_empty() {
    let v = vec![None, Some("  ".to_string()), Some(" http://e:3 ".to_string()), Some("x".to_string())];
    assert_eq!(proxy_from_env(&v), Some("http://e:3".to_string()));
    assert_eq!(proxy_from_env(&vec![None]), None);
}
