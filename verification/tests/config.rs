use vico_vee::config::{Cli, Config, ConfigEnv, LogFormat};

fn no_env() -> ConfigEnv {
    ConfigEnv {
        port: None,
        bind: None,
        data_dir: None,
        config_dir: None,
        ollama_url: None,
        log_format: None,
        tls_cert: None,
        tls_key: None,
        api_keys_file: None,
        body_limit_mb: None,
        request_timeout_secs: None,
        rate_limit_per_sec: None,
        rate_limit_burst: None,
        require_auth: None,
        api_keys: None,
    }
}

#[test]
fn config_defaults_are_sensible() {
    let cfg = Config::default();
    assert_eq!(cfg.port, 9987);
    assert_eq!(cfg.bind, "0.0.0.0");
    assert_eq!(cfg.body_limit_mb, 16);
    assert_eq!(cfg.request_timeout_secs, 30);
    assert_eq!(cfg.rate_limit_per_sec, 10);
    assert_eq!(cfg.rate_limit_burst, 50);
}

#[test]
fn config_cli_overrides_defaults() {
    let cli = Cli {
        port: Some(1234),
        bind: Some("127.0.0.1".to_string()),
        log_format: Some("json".to_string()),
        ..Default::default()
    };
    let cfg = Config::load(Some(cli), None, &no_env()).unwrap();
    assert_eq!(cfg.port, 1234);
    assert_eq!(cfg.bind, "127.0.0.1");
    assert_eq!(cfg.log_format, LogFormat::Json);
}

#[test]
fn config_env_overrides_file_and_cli_overrides_env() {
    let mut env = no_env();
    env.port = Some("4000".to_string());
    env.bind = Some("10.0.0.1".to_string());
    let mut file = Config::with_dirs("/data".to_string(), "/conf".to_string());
    file.port = 7777;
    file.body_limit_mb = 8;
    let cli = Cli { port: Some(5000), ..Default::default() };
    let cfg = Config::load(Some(cli), Some(file), &env).unwrap();
    assert_eq!(cfg.port, 5000);
    assert_eq!(cfg.bind, "10.0.0.1");
    assert_eq!(cfg.body_limit_mb, 8);
}

#[test]
fn config_env_rejects_bad_number() {
    let mut env = no_env();
    env.port = Some("not-a-port".to_string());
    let r = Config::load(None, None, &env);
    assert!(r.is_err());
}

#[test]
fn config_with_dirs_puts_keys_under_config_dir() {
    let cfg = Config::with_dirs("/data".to_string(), "/conf".to_string());
    assert_eq!(cfg.data_dir, "/data");
    assert_eq!(cfg.config_dir, "/conf");
    assert_eq!(cfg.log_format, LogFormat::Pretty);
}

#[test]
fn default_config_requires_authentication() {
    let cfg = Config::with_dirs("/data".to_string(), "/conf".to_string());
    assert!(cfg.api_keys.require_auth);
    assert_eq!(cfg.api_keys.env_override, None);
}

#[test]
fn require_auth_layers_env_then_cli() {
    let mut env = no_env();
    env.require_auth = Some("false".to_string());
    env.api_keys = Some("[keys.a]\ntoken = \"t\"".to_string());
    let cfg = Config::load(None, None, &env).unwrap();
    assert!(!cfg.api_keys.require_auth);
    assert_eq!(cfg.api_keys.env_override.as_deref(), Some("[keys.a]\ntoken = \"t\""));
    let cli = Cli { require_auth: Some(true), ..Default::default() };
    let cfg = Config::load(Some(cli), None, &env).unwrap();
    assert!(cfg.api_keys.require_auth);
    env.require_auth = Some("yes".to_string());
    let cfg = Config::load(None, None, &env).unwrap();
    assert!(cfg.api_keys.require_auth);
}
