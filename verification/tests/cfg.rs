use skyd::config::{
    self, CLIConfigParseReturn, ConfigEndpoint, ConfigEndpointTcp, ConfigEndpointTls, ConfigErrorKind,
    ConfigMode, ConfigReturn, ConfigSource, ConfigSystem, Configuration, ParsedRawArgs,
};
use std::collections::HashMap;

fn as_map(args: &ParsedRawArgs) -> HashMap<String, Vec<String>> {
    args.entries.iter().cloned().collect()
}

fn cli_src(payload: &str) -> Vec<String> {
    payload
        .split_ascii_whitespace()
        .map_while(|item| {
            let mut item = item.trim();
            if item.ends_with('\n') {
                item = &item[..item.len() - 1];
            }
            if item.is_empty() {
                None
            } else {
                Some(item.to_string())
            }
        })
        .collect()
}

fn extract_cli_args_raw(payload: &str) -> CLIConfigParseReturn<ParsedRawArgs> {
    config::parse_cli_args(&cli_src(payload)).unwrap()
}

fn extract_cli_args(payload: &str) -> ParsedRawArgs {
    extract_cli_args_raw(payload).into_config()
}

fn dict(items: &[(&str, &[&str])]) -> HashMap<String, Vec<String>> {
    items
        .iter()
        .map(|(k, vs)| (k.to_string(), vs.iter().map(|v| v.to_string()).collect()))
        .collect()
}

/// Files as read by the caller: each created empty.
fn empty_files(paths: &[&str]) -> Vec<(String, String)> {
    paths.iter().map(|p| (p.to_string(), String::new())).collect()
}

#[test]
fn parse_cli_args_simple() {
    let payload = "skyd --mode dev --endpoint tcp@localhost:2003";
    let cfg = extract_cli_args(payload);
    let expected = dict(&[("--mode", &["dev"]), ("--endpoint", &["tcp@localhost:2003"])]);
    assert_eq!(as_map(&cfg), expected);
}

#[test]
fn parse_cli_args_packed() {
    let payload = "skyd --mode=dev --endpoint=tcp@localhost:2003";
    let cfg = extract_cli_args(payload);
    let expected = dict(&[("--mode", &["dev"]), ("--endpoint", &["tcp@localhost:2003"])]);
    assert_eq!(as_map(&cfg), expected);
}

#[test]
fn parse_cli_args_multi() {
    let payload = "skyd --mode=dev --endpoint tcp@localhost:2003";
    let cfg = extract_cli_args(payload);
    let expected = dict(&[("--mode", &["dev"]), ("--endpoint", &["tcp@localhost:2003"])]);
    assert_eq!(as_map(&cfg), expected);
}

#[test]
fn parse_validate_cli_args() {
    let pkey = "__cli_args_test_private.key";
    let cert = "__cli_args_test_cert.pem";
    let payload = format!(
        "skyd --mode=dev \
        --endpoint tcp@127.0.0.1:2003 \
        --endpoint tls@127.0.0.2:2004 \
        --service-window=600 \
        --tlskey {pkey} \
        --tlscert {cert} \
        --auth pwd"
    );
    let cfg = extract_cli_args(&payload);
    let files = empty_files(&[pkey, cert]);
    let ret = config::apply_and_validate::<config::CSCommandLine>(cfg, &files)
        .unwrap()
        .into_config();
    assert_eq!(
        ret,
        Configuration::new(
            ConfigEndpoint::Multi(
                ConfigEndpointTcp::new("127.0.0.1".into(), 2003),
                ConfigEndpointTls::new(ConfigEndpointTcp::new("127.0.0.2".into(), 2004), "".into(), "".into())
            ),
            ConfigMode::Dev,
            ConfigSystem::new(600, true)
        )
    )
}

#[test]
fn parse_validate_cli_args_help_and_version() {
    let pl1 = "skyd --help";
    let pl2 = "skyd --version";
    let ret1 = extract_cli_args_raw(pl1);
    let ret2 = extract_cli_args_raw(pl2);
    assert_eq!(ret1, CLIConfigParseReturn::Help);
    assert_eq!(ret2, CLIConfigParseReturn::Version);
    let no_env: Vec<String> = vec![];
    let no_files: Vec<(String, String)> = vec![];
    let ret3 = config::check_configuration(&vec!["skyd".into(), "--help".into()], &no_env, &no_files).unwrap();
    let ret4 = config::check_configuration(&vec!["skyd".into(), "--version".into()], &no_env, &no_files).unwrap();
    assert_eq!(ret3, ConfigReturn::HelpMessage(config::CLI_HELP.to_string()));
    assert_eq!(
        ret4,
        ConfigReturn::HelpMessage(format!("Skytable Database Server (skyd) v{}", config::VERSION))
    );
}

fn vars_to_args(variables: &[String]) -> HashMap<String, Vec<String>> {
    variables
        .iter()
        .map(|var| var.split('=').map(ToString::to_string).collect::<Vec<String>>())
        .map(|mut v| {
            let key = v.remove(0);
            let values = v.remove(0).split(',').map(ToString::to_string).collect();
            (key, values)
        })
        .collect()
}

#[test]
fn parse_env_args_simple() {
    let variables = [
        format!("SKYDB_TLS_CERT=/var/skytable/keys/cert.pem"),
        format!("SKYDB_TLS_KEY=/var/skytable/keys/private.key"),
        format!("SKYDB_AUTH=pwd"),
        format!("SKYDB_ENDPOINTS=tcp@localhost:8080"),
        format!("SKYDB_RUN_MODE=dev"),
        format!("SKYDB_SERVICE_WINDOW=600"),
    ];
    let expected_args = vars_to_args(&variables);
    let args = config::parse_env_args(&variables.to_vec()).unwrap().unwrap();
    assert_eq!(as_map(&args), expected_args);
}

#[test]
fn parse_env_args_multi() {
    let variables = [
        format!("SKYDB_TLS_CERT=/var/skytable/keys/cert.pem"),
        format!("SKYDB_TLS_KEY=/var/skytable/keys/private.key"),
        format!("SKYDB_AUTH=pwd"),
        format!("SKYDB_ENDPOINTS=tcp@localhost:8080,tls@localhost:8081"),
        format!("SKYDB_RUN_MODE=dev"),
        format!("SKYDB_SERVICE_WINDOW=600"),
    ];
    let expected_args = vars_to_args(&variables);
    let args = config::parse_env_args(&variables.to_vec()).unwrap().unwrap();
    assert_eq!(as_map(&args), expected_args);
}

#[test]
fn parse_validate_env_args() {
    let cert = "__env_args_test_cert.pem";
    let key = "__env_args_test_private.key";
    let variables = vec![
        format!("SKYDB_TLS_CERT={cert}"),
        format!("SKYDB_TLS_KEY={key}"),
        format!("SKYDB_AUTH=pwd"),
        format!("SKYDB_ENDPOINTS=tcp@localhost:8080,tls@localhost:8081"),
        format!("SKYDB_RUN_MODE=dev"),
        format!("SKYDB_SERVICE_WINDOW=600"),
    ];
    let files = empty_files(&[cert, key]);
    let cfg = config::check_configuration(&vec!["skyd".into()], &variables, &files)
        .unwrap()
        .into_config();
    assert_eq!(
        cfg,
        Configuration::new(
            ConfigEndpoint::Multi(
                ConfigEndpointTcp::new("localhost".into(), 8080),
                ConfigEndpointTls::new(ConfigEndpointTcp::new("localhost".into(), 8081), "".into(), "".into())
            ),
            ConfigMode::Dev,
            ConfigSystem::new(600, true)
        )
    )
}

#[test]
fn config_defaults_without_arguments() {
    let no_env: Vec<String> = vec![];
    let no_files: Vec<(String, String)> = vec![];
    let cfg = config::check_configuration(&vec!["skyd".into()], &no_env, &no_files)
        .unwrap()
        .into_config();
    assert_eq!(
        cfg,
        Configuration::new(
            ConfigEndpoint::Insecure(ConfigEndpointTcp::new("127.0.0.1".into(), 2003)),
            ConfigMode::Dev,
            ConfigSystem::new(300, false)
        )
    );
}

#[test]
fn config_cli_conflicts_with_env() {
    let env = vec!["SKYDB_RUN_MODE=prod".to_string()];
    let no_files: Vec<(String, String)> = vec![];
    let e = config::check_configuration(&vec!["skyd".into(), "--mode".into(), "dev".into()], &env, &no_files)
        .unwrap_err();
    assert_eq!(e.kind, ConfigErrorKind::Conflict);
    assert_eq!(e.source, ConfigSource::Cli);
}

#[test]
fn config_cli_errors() {
    let e = config::parse_cli_args(&cli_src("skyd dev")).unwrap_err();
    assert_eq!(e.kind, ConfigErrorKind::UnexpectedArgument);
    let e = config::parse_cli_args(&cli_src("skyd --mode")).unwrap_err();
    assert_eq!(e.kind, ConfigErrorKind::MissingValue);
    let e = config::parse_cli_args(&cli_src("skyd --mode=dev=prod")).unwrap_err();
    assert_eq!(e.kind, ConfigErrorKind::BadlyFormattedArgument);
}

#[test]
fn config_validation_errors() {
    let no_files: Vec<(String, String)> = vec![];
    let e = config::apply_and_validate::<config::CSCommandLine>(extract_cli_args("skyd --colour blue"), &no_files)
        .unwrap_err();
    assert_eq!(e.kind, ConfigErrorKind::UnknownArgument);
    let e = config::apply_and_validate::<config::CSCommandLine>(extract_cli_args("skyd --mode dev --mode prod"), &no_files)
        .unwrap_err();
    assert_eq!(e.kind, ConfigErrorKind::DuplicateValue);
    let e = config::apply_and_validate::<config::CSCommandLine>(extract_cli_args("skyd --mode test"), &no_files)
        .unwrap_err();
    assert_eq!(e.kind, ConfigErrorKind::InvalidValue);
    let e = config::apply_and_validate::<config::CSCommandLine>(
        extract_cli_args("skyd --endpoint tls@127.0.0.1:2004"),
        &no_files,
    )
    .unwrap_err();
    assert_eq!(e.kind, ConfigErrorKind::TlsFilesMissing);
    let e = config::apply_and_validate::<config::CSCommandLine>(
        extract_cli_args("skyd --endpoint tls@127.0.0.1:2004 --tlscert c.pem --tlskey k.pem"),
        &no_files,
    )
    .unwrap_err();
    assert_eq!(e.kind, ConfigErrorKind::FileUnavailable);
}

#[test]
fn tls_file_paths_of_each_source() {
    let cli = extract_cli_args("skyd --tlskey k.pem --tlscert c.pem --mode dev");
    assert_eq!(config::tls_file_paths::<config::CSCommandLine>(&cli), vec!["c.pem".to_string(), "k.pem".to_string()]);
    let env = config::parse_env_args(&vec!["SKYDB_TLS_KEY=key.pem".to_string(), "PATH=/bin".to_string()])
        .unwrap()
        .unwrap();
    assert_eq!(config::tls_file_paths::<config::CSEnvArgs>(&env), vec!["key.pem".to_string()]);
    let none = extract_cli_args("skyd --mode dev");
    assert!(config::tls_file_paths::<config::CSCommandLine>(&none).is_empty());
}

#[test]
fn env_without_server_variables_is_none() {
    let env = vec!["PATH=/bin".to_string(), "HOME=/root".to_string()];
    assert!(config::parse_env_args(&env).unwrap().is_none());
}

#[test]
fn packed_and_separate_options_agree() {
    let a = extract_cli_args("skyd --auth=pwd --service-window=60 --mode prod");
    let b = extract_cli_args("skyd --auth pwd --service-window 60 --mode=prod");
    assert_eq!(as_map(&a), as_map(&b));
    let no_files: Vec<(String, String)> = vec![];
    let ca = config::apply_and_validate::<config::CSCommandLine>(a, &no_files).unwrap().into_config();
    assert_eq!(
        ca,
        Configuration::new(
            ConfigEndpoint::Insecure(ConfigEndpointTcp::new("127.0.0.1".into(), 2003)),
            ConfigMode::Prod,
            ConfigSystem::new(60, true)
        )
    );
}
