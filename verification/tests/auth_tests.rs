use filedrop::auth::{authorize, challenge_value, AuthError};
use filedrop::config::{AuthConfig, Config};

fn enabled(user: &str, pass: &str) -> AuthConfig {
    AuthConfig::Enabled {
        username: user.to_string(),
        password: pass.to_string(),
    }
}

fn basic_header(credentials: &str) -> Vec<u8> {
    let mut header = b"Basic ".to_vec();
    header.extend_from_slice(base64::encode(credentials).as_bytes());
    header
}

#[test]
fn missing_header_is_rejected_with_challenge() {
    let config = enabled("user", "pass");
    assert_eq!(
        authorize(None, &config),
        Err(AuthError::MissingCredentials)
    );
    let err = authorize(None, &config).unwrap_err();
    assert_eq!(err.status_code(), 401);
    assert_eq!(challenge_value(), "Basic");
}

#[test]
fn correct_credentials_pass() {
    let config = enabled("user", "pass");
    let header = basic_header("user:pass");
    assert_eq!(authorize(Some(&header), &config), Ok(()));
}

#[test]
fn wrong_credentials_are_rejected() {
    let config = enabled("user", "pass");
    let header = basic_header("user:wrong");
    assert_eq!(
        authorize(Some(&header), &config),
        Err(AuthError::InvalidCredentials)
    );
}

#[test]
fn surrounding_whitespace_is_trimmed() {
    let config = enabled("user", "pass");
    let header = basic_header("  user\t: pass ");
    assert_eq!(authorize(Some(&header), &config), Ok(()));
}

#[test]
fn undecodable_payload_is_malformed() {
    let config = enabled("user", "pass");
    let header = b"Basic !!!not-base64!!!".to_vec();
    assert_eq!(
        authorize(Some(&header), &config),
        Err(AuthError::MalformedCredentials)
    );
}

#[test]
fn payload_without_colon_is_invalid() {
    let config = enabled("user", "pass");
    let header = basic_header("userpass");
    assert_eq!(
        authorize(Some(&header), &config),
        Err(AuthError::InvalidCredentials)
    );
}

#[test]
fn other_scheme_counts_as_missing() {
    let config = enabled("user", "pass");
    let header = b"Bearer abcdef".to_vec();
    assert_eq!(
        authorize(Some(&header), &config),
        Err(AuthError::MissingCredentials)
    );
}

#[test]
fn disabled_gate_passes_everything() {
    assert_eq!(authorize(None, &AuthConfig::Disabled), Ok(()));
    let header = b"Basic definitely-not-valid".to_vec();
    assert_eq!(authorize(Some(&header), &AuthConfig::Disabled), Ok(()));
}

#[test]
fn config_builds_the_gate() {
    let config = Config {
        listen_address: "0.0.0.0:8989".to_string(),
        basic_auth_username: "user".to_string(),
        basic_auth_password: "pass".to_string(),
        enable_auth: true,
        storage_folder: "./uploads".to_string(),
    };
    match config.auth_config() {
        AuthConfig::Enabled { username, password } => {
            assert_eq!(username, "user");
            assert_eq!(password, "pass");
        }
        AuthConfig::Disabled => panic!("auth was enabled"),
    }
    let open = Config {
        enable_auth: false,
        ..config
    };
    match open.auth_config() {
        AuthConfig::Disabled => {}
        AuthConfig::Enabled { .. } => panic!("auth was disabled"),
    }
}
