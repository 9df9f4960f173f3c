use kafka_term::config::{AppConfig, ConfigError};

#[test]
fn test_parse_valid_config() {
    let content = "\
ssh_identity_file=/home/user/.ssh/id_rsa
username=deploy
ip_address=192.168.1.100
";
    let config = AppConfig::parse_content(content).unwrap();
    assert_eq!(config.ssh_identity_file, "/home/user/.ssh/id_rsa");
    assert_eq!(config.username, "deploy");
    assert_eq!(config.ip_address, "192.168.1.100");
}

#[test]
fn test_parse_with_comments_and_whitespace() {
    let content = "\
# SSH Configuration
  ssh_identity_file = /home/user/.ssh/id_rsa  
  username = deploy  

# IP of the server
  ip_address = 10.0.0.1  
";
    let config = AppConfig::parse_content(content).unwrap();
    assert_eq!(config.ssh_identity_file, "/home/user/.ssh/id_rsa");
    assert_eq!(config.username, "deploy");
    assert_eq!(config.ip_address, "10.0.0.1");
}

#[test]
fn test_parse_missing_username() {
    let content = "\
ssh_identity_file=/home/user/.ssh/id_rsa
ip_address=192.168.1.100
";
    let err = AppConfig::parse_content(content).unwrap_err();
    match err {
        ConfigError::MissingField(field) => assert_eq!(field, "username"),
        _ => panic!("Expected MissingField error, got: {:?}", err),
    }
}

#[test]
fn test_parse_missing_ssh_identity_file() {
    let content = "\
username=deploy
ip_address=192.168.1.100
";
    let err = AppConfig::parse_content(content).unwrap_err();
    match err {
        ConfigError::MissingField(field) => assert_eq!(field, "ssh_identity_file"),
        _ => panic!("Expected MissingField error, got: {:?}", err),
    }
}

#[test]
fn test_parse_missing_ip_address() {
    let content = "\
ssh_identity_file=/home/user/.ssh/id_rsa
username=deploy
";
    let err = AppConfig::parse_content(content).unwrap_err();
    match err {
        ConfigError::MissingField(field) => assert_eq!(field, "ip_address"),
        _ => panic!("Expected MissingField error, got: {:?}", err),
    }
}

#[test]
fn test_parse_invalid_line() {
    let content = "\
ssh_identity_file=/home/user/.ssh/id_rsa
username=deploy
this-is-not-valid
ip_address=192.168.1.100
";
    let err = AppConfig::parse_content(content).unwrap_err();
    match err {
        ConfigError::ParseError(msg) => {
            assert!(msg.contains("this-is-not-valid"));
        }
        _ => panic!("Expected ParseError, got: {:?}", err),
    }
}

#[test]
fn test_display_file_not_found() {
    let err = ConfigError::FileNotFound("/some/path".to_string());
    assert_eq!(err.message(), "Config file not found: /some/path");
}

#[test]
fn test_display_missing_field() {
    let err = ConfigError::MissingField("username");
    assert_eq!(
        err.message(),
        "Missing required field 'username' in config file"
    );
}

#[test]
fn test_display_parse_error() {
    let err = ConfigError::ParseError("bad line".to_string());
    assert_eq!(err.message(), "Config parse error: bad line");
}

#[test]
fn test_parse_empty_content() {
    let err = AppConfig::parse_content("").unwrap_err();
    match err {
        ConfigError::MissingField(_) => {}
        _ => panic!("Expected MissingField error for empty config, got: {:?}", err),
    }
}

#[test]
fn test_parse_only_comments() {
    let content = "\
# This is a comment
# Another comment
";
    let err = AppConfig::parse_content(content).unwrap_err();
    match err {
        ConfigError::MissingField(_) => {}
        _ => panic!(
            "Expected MissingField error for comment-only config, got: {:?}",
            err
        ),
    }
}

#[test]
fn test_parse_ignores_unknown_keys() {
    let content = "\
ssh_identity_file=/home/user/.ssh/id_rsa
username=deploy
ip_address=192.168.1.100
extra_key=some_value
";
    let config = AppConfig::parse_content(content).unwrap();
    assert_eq!(config.username, "deploy");
}

#[test]
fn test_parse_value_with_equals_sign() {
    let content = "\
ssh_identity_file=/home/user/.ssh/id_rsa
username=deploy
ip_address=192.168.1.100=extra
";
    let config = AppConfig::parse_content(content).unwrap();
    // split_once('=') means the value includes everything after the first '='
    assert_eq!(config.ip_address, "192.168.1.100=extra");
}


#[test]
fn config_parsing_round_trip() {
    let content = "# first comment\n \tssh_identity_file\t = \t/keys/id ed25519 \t\n# second\n \tusername\t = \tdeploy user \t\n \tip_address\t = \t10.1.2.3 \t\n";
    let config = AppConfig::parse_content(content).unwrap();
    assert_eq!(config.ssh_identity_file, "/keys/id ed25519");
    assert_eq!(config.username, "deploy user");
    assert_eq!(config.ip_address, "10.1.2.3");
}

#[test]
fn missing_field_returns_error_identifying_absent_field() {
    for (content, expected) in [
        ("username=u\nip_address=i\n", "ssh_identity_file"),
        ("ssh_identity_file=k\nip_address=i\n", "username"),
        ("ssh_identity_file=k\nusername=u\n", "ip_address"),
        ("ip_address=i\n", "ssh_identity_file"),
    ] {
        match AppConfig::parse_content(content) {
            Err(ConfigError::MissingField(f)) => assert_eq!(f, expected),
            other => panic!("unexpected {:?}", other),
        }
    }
}

#[test]
fn later_value_replaces_earlier_and_crlf_is_trimmed() {
    let content = "ssh_identity_file=a\r\nusername=u\r\nip_address=i\r\nusername=v\r\n";
    let config = AppConfig::parse_content(content).unwrap();
    assert_eq!(config.username, "v");
    assert_eq!(config.ssh_identity_file, "a");
}

#[test]
fn read_error_message() {
    let err = ConfigError::ReadError("/etc/x".to_string(), "denied".to_string());
    assert_eq!(err.message(), "Failed to read config file '/etc/x': denied");
}

#[test]
fn readme_config_form_keeps_relative_key_path_and_sudo_off() {
    let content = "# Accepts relative and absolute paths, do not quote\nssh_identity_file=keys/id.pem\n\nusername=ec2-user\n\nip_address=10.0.0.5\n\n# True if it should retry access with sudo if directory access is denied\nuse_sudo=false\n";
    let config = AppConfig::parse_content(content).unwrap();
    assert_eq!(config.ssh_identity_file, "keys/id.pem");
    assert_eq!(config.username, "ec2-user");
    assert_eq!(config.ip_address, "10.0.0.5");
    assert!(!config.use_sudo);
}

#[test]
fn use_sudo_true_turns_sudo_on() {
    let content = "ssh_identity_file=k\nusername=u\nip_address=i\n  use_sudo =  true \n";
    assert!(AppConfig::parse_content(content).unwrap().use_sudo);
}

#[test]
fn use_sudo_absent_or_not_true_leaves_sudo_off() {
    let base = "ssh_identity_file=k\nusername=u\nip_address=i\n";
    assert!(!AppConfig::parse_content(base).unwrap().use_sudo);
    for v in ["TRUE", "yes", "1", "", "true1"] {
        let content = format!("{}use_sudo={}\n", base, v);
        assert!(!AppConfig::parse_content(&content).unwrap().use_sudo, "value {:?}", v);
    }
    let later = format!("{}use_sudo=true\nuse_sudo=false\n", base);
    assert!(!AppConfig::parse_content(&later).unwrap().use_sudo);
}

#[test]
fn round_trip_with_own_blanks_per_line_and_many_comments() {
    let content = "\n# a\n\t# b\n \tssh_identity_file\t= \t/k k\t\n\n\n username=u ser \t\n# c\nip_address  =\t10.1.1.1\n#\n use_sudo\t=true\n\n# end\n";
    let config = AppConfig::parse_content(content).unwrap();
    assert_eq!(config.ssh_identity_file, "/k k");
    assert_eq!(config.username, "u ser");
    assert_eq!(config.ip_address, "10.1.1.1");
    assert!(config.use_sudo);
}
