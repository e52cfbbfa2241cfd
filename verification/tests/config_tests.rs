use edl::config::{config_path_in, default_config_text, default_config_with};
use edl::config::{
    apply_file_config, expand_hook, ConfigError, generate_default_config, parse_speed_limit, speed_limit_in_range, Config,
    FileConfig,
};
use edl::util::text::IntErrorKind;

#[test]
fn test_parse_speed_limit() {
    assert_eq!(parse_speed_limit("1024").unwrap(), 1024);
    assert_eq!(parse_speed_limit("1K").unwrap(), 1024);
    assert_eq!(parse_speed_limit("1k").unwrap(), 1024);
    assert_eq!(parse_speed_limit("1M").unwrap(), 1024 * 1024);
    assert_eq!(parse_speed_limit("2G").unwrap(), 2 * 1024 * 1024 * 1024);
    assert_eq!(parse_speed_limit("0").unwrap(), 0);
}

#[test]
fn test_parse_speed_limit_empty() {
    assert_eq!(parse_speed_limit("").unwrap(), 0);
    assert_eq!(parse_speed_limit("  ").unwrap(), 0);
}

#[test]
fn test_parse_speed_limit_with_whitespace() {
    assert_eq!(parse_speed_limit(" 1M ").unwrap(), 1024 * 1024);
}

#[test]
fn test_parse_speed_limit_invalid() {
    assert!(parse_speed_limit("abc").is_err());
    assert!(parse_speed_limit("M").is_err());
}

#[test]
fn test_default_config() {
    let config = Config::default();
    assert_eq!(config.max_concurrent_tasks, 5);
    assert_eq!(config.max_connections_per_task, 8);
    assert_eq!(config.timeout_secs, 30);
    assert_eq!(config.retry_count, 3);
    assert_eq!(config.max_redirects, 10);
    assert!(config.max_speed.is_none());
    assert!(config.proxy.is_none());
    assert!(config.rpc_secret.is_none());
    assert!(config.on_complete.is_none());
}

#[test]
fn test_run_on_complete_placeholders() {
    let template = "echo {file} {size} {id}";
    let cmd = expand_hook(template, &[("file", "test.zip"), ("size", "1024"), ("id", "abc123")]);
    assert_eq!(cmd, "echo test.zip 1024 abc123");
}

#[test]
fn test_run_hook_substitution() {
    let template = "notify {id} {url} {error}";
    let vars = [("id", "task1"), ("url", "http://x.com"), ("error", "timeout")];
    let cmd = expand_hook(template, &vars);
    assert_eq!(cmd, "notify task1 http://x.com timeout");
}

#[test]
fn test_run_hook_missing_placeholder() {
    // Placeholders not in vars should remain unchanged
    let template = "echo {file} {unknown}";
    let vars = [("file", "test.zip")];
    let cmd = expand_hook(template, &vars);
    assert_eq!(cmd, "echo test.zip {unknown}");
}

#[test]
fn test_generate_default_config() {
    let content = generate_default_config();
    assert!(content.contains("max_concurrent_tasks"));
    assert!(content.contains("download_dir"));
    assert!(content.contains("proxy"));
    assert!(content.contains("on_complete"));
}

#[test]
fn speed_limit_errors_name_the_reason() {
    assert_eq!(parse_speed_limit("M").unwrap_err().kind, IntErrorKind::Empty);
    assert_eq!(parse_speed_limit("abc").unwrap_err().kind, IntErrorKind::InvalidDigit);
    assert_eq!(parse_speed_limit("+").unwrap_err().kind, IntErrorKind::InvalidDigit);
    assert_eq!(parse_speed_limit("99999999999999999999").unwrap_err().kind, IntErrorKind::PosOverflow);
    assert_eq!(parse_speed_limit("99999999999999999999x").unwrap_err().kind, IntErrorKind::PosOverflow);
    assert_eq!(parse_speed_limit("12x").unwrap_err().message(), "invalid digit found in string");
    assert_eq!(parse_speed_limit("K").unwrap_err().message(), "cannot parse integer from empty string");
    assert_eq!(parse_speed_limit("+5k").unwrap(), 5 * 1024);
}

#[test]
fn speed_limit_range_check() {
    assert!(speed_limit_in_range("1G"));
    assert!(speed_limit_in_range("abc"));
    assert!(!speed_limit_in_range("18446744073709551615K"));
    assert!(speed_limit_in_range("18014398509481983K"));
    assert!(!speed_limit_in_range("18014398509481984K"));
}

#[test]
fn plain_number_reads_back() {
    for n in [0u64, 7, 1024, 123456789, u64::MAX] {
        assert_eq!(parse_speed_limit(&n.to_string()).unwrap(), n);
    }
}

#[test]
fn file_config_overrides_defaults() {
    let base = Config::with_download_dir(Some("/downloads".to_string()));
    let mut file = FileConfig::default();
    file.max_speed = Some("500K".to_string());
    file.retry_count = Some(7);
    file.proxy = Some("http://127.0.0.1:7890".to_string());
    file.headers = Some(vec!["Referer: x".to_string()]);
    let c = apply_file_config(base, file).unwrap();
    assert_eq!(c.max_speed, Some(500 * 1024));
    assert_eq!(c.retry_count, 7);
    assert_eq!(c.proxy.as_deref(), Some("http://127.0.0.1:7890"));
    assert_eq!(c.headers, vec!["Referer: x".to_string()]);
    assert_eq!(c.download_dir, "/downloads");
    assert_eq!(c.max_concurrent_tasks, 5);
    assert_eq!(c.user_agent, "ExquisiteDownload/0.1.0");
    assert_eq!(c.rpc_listen_addr, "127.0.0.1:6800");
}

#[test]
fn file_config_with_bad_speed_fails() {
    let base = Config::with_download_dir(None);
    let mut file = FileConfig::default();
    file.max_speed = Some("fast".to_string());
    match apply_file_config(base, file).unwrap_err() {
        ConfigError::InvalidSpeed(e) => assert_eq!(e.kind, IntErrorKind::InvalidDigit),
        other => panic!("unexpected {:?}", other),
    }
}

#[test]
fn file_config_listen_address_is_checked() {
    let mut file = FileConfig::default();
    file.rpc_listen_addr = Some("localhost".to_string());
    let e = apply_file_config(Config::with_download_dir(None), file).unwrap_err();
    assert!(matches!(e, ConfigError::InvalidListenAddr(ref a) if a == "localhost"));
    assert_eq!(e.message(), "invalid rpc_listen_addr: localhost");

    let mut file = FileConfig::default();
    file.rpc_listen_addr = Some("0.0.0.0:7000".to_string());
    let c = apply_file_config(Config::with_download_dir(None), file).unwrap();
    assert_eq!(c.rpc_listen_addr, "0.0.0.0:7000");

    let mut file = FileConfig::default();
    file.rpc_listen_addr = Some("[::1]:80".to_string());
    assert!(apply_file_config(Config::with_download_dir(None), file).is_ok());

    // the speed limit is checked first
    let mut file = FileConfig::default();
    file.max_speed = Some("x".to_string());
    file.rpc_listen_addr = Some("bad".to_string());
    assert!(matches!(apply_file_config(Config::with_download_dir(None), file), Err(ConfigError::InvalidSpeed(_))));
}

#[test]
fn empty_file_config_keeps_everything() {
    let base = Config::with_download_dir(None);
    let c = apply_file_config(base, FileConfig::default()).unwrap();
    assert_eq!(c.download_dir, ".");
    assert_eq!(c.max_connections_per_task, 8);
    assert!(c.cookie.is_none());
    assert!(c.headers.is_empty());
}

#[test]
fn default_config_text_escapes_backslashes() {
    let text = edl::config::default_config_text("C:\\Users\\me\\Downloads");
    assert!(text.contains("# download_dir = \"C:\\\\Users\\\\me\\\\Downloads\""));
    assert!(text.contains("# user_agent = \"ExquisiteDownload/0.1.0\""));
    assert!(text.contains("支持占位符：{file} 文件路径, {size} 文件大小, {id} 任务ID"));
    assert!(text.starts_with("# ExquisiteDownload (edl) 配置文件\n"));
    assert!(text.ends_with("# cookie = \"sid=abc; token=xyz\"\n"));
}

#[test]
fn hook_replaces_every_occurrence() {
    assert_eq!(expand_hook("{id}-{id}", &[("id", "x")]), "x-x");
    assert_eq!(expand_hook("{id}", &[("id", "{id}")]), "{id}");
    assert_eq!(expand_hook("a {b} c", &[]), "a {b} c");
}

#[test]
fn config_file_location() {
    let p = edl::config::config_path();
    assert!(p.ends_with("config.toml"));
}

#[test]
fn template_without_placeholders_is_unchanged() {
    let template = "echo done > /tmp/log";
    assert_eq!(expand_hook(template, &[("file", "x"), ("id", "y")]), template);
}

#[test]
fn config_paths_from_a_given_directory() {
    assert_eq!(config_path_in(Some("/home/u/.config/edl".into())), "/home/u/.config/edl/config.toml");
    assert_eq!(config_path_in(None), "edl.config.toml");
    assert_eq!(default_config_with(None), default_config_text("."));
    let t = default_config_with(Some("/home/u/Downloads".into()));
    assert!(t.contains("# download_dir = \"/home/u/Downloads\""));
}

#[test]
fn speed_limit_laws_on_examples() {
    assert_eq!(parse_speed_limit("\t 12k \n").unwrap(), parse_speed_limit("12k").unwrap());
    assert_eq!(parse_speed_limit("7m").unwrap(), parse_speed_limit("7M").unwrap());
    assert_eq!(parse_speed_limit("3g").unwrap(), parse_speed_limit("3G").unwrap());
    assert_eq!(parse_speed_limit("0K").unwrap(), 0);
    assert_eq!(parse_speed_limit("25K").unwrap(), 1024 * parse_speed_limit("25").unwrap());
}
