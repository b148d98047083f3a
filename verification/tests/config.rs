use s3_message_service::config::{normalize_bind_address, parse_usize, Config, ConfigEnv};
use s3_message_service::error::ServiceError;

#[test]
fn defaults_fill_an_empty_environment() {
    let config = Config::load_from_env(&ConfigEnv::default()).expect("config");
    assert_eq!(config.storage_provider, "filesystem");
    assert_eq!(config.filesystem_root, ".s3-message-data");
    assert_eq!(config.object_namespace, "");
    assert_eq!(config.http_address, ":8080");
    assert_eq!(config.max_page_size, 100);
    assert_eq!(config.read_lookback_minutes, 43_200);
}

#[test]
fn unparsable_numbers_take_the_default() {
    let env = ConfigEnv {
        max_page_size: Some("many".to_string()),
        read_lookback_minutes: Some("+60".to_string()),
        ..Default::default()
    };
    let config = Config::load_from_env(&env).expect("config");
    assert_eq!(config.max_page_size, 100);
    assert_eq!(config.read_lookback_minutes, 60);
}

#[test]
fn configuration_errors_in_order() {
    let env = ConfigEnv {
        storage_provider: Some("s3".to_string()),
        max_page_size: Some("0".to_string()),
        ..Default::default()
    };
    assert_eq!(
        Config::load_from_env(&env),
        Err(ServiceError::Configuration(
            "unsupported storage provider \"s3\"".to_string()
        ))
    );
    let env = ConfigEnv {
        storage_provider: Some("b2".to_string()),
        max_page_size: Some("0".to_string()),
        read_lookback_minutes: Some("0".to_string()),
        ..Default::default()
    };
    assert_eq!(
        Config::load_from_env(&env),
        Err(ServiceError::Configuration(
            "S3MS_MAX_PAGE_SIZE must be positive".to_string()
        ))
    );
    let env = ConfigEnv {
        storage_provider: Some("backblaze-b2".to_string()),
        read_lookback_minutes: Some("0".to_string()),
        ..Default::default()
    };
    assert_eq!(
        Config::load_from_env(&env),
        Err(ServiceError::Configuration(
            "S3MS_READ_LOOKBACK_MINUTES must be positive".to_string()
        ))
    );
}

#[test]
fn parse_usize_follows_std() {
    for text in ["0", "42", "+7", "", "+", "-1", " 1", "1 ", "18446744073709551615", "18446744073709551616", "1e3"] {
        assert_eq!(parse_usize(text), text.parse::<usize>().ok(), "{text:?}");
    }
}

#[test]
fn port_only_addresses_listen_everywhere() {
    assert_eq!(normalize_bind_address(":8080"), "0.0.0.0:8080");
    assert_eq!(normalize_bind_address("127.0.0.1:9000"), "127.0.0.1:9000");
    assert_eq!(normalize_bind_address(""), "");
}
