use anonify::backup::start::post::Response as StartResponse;
use anonify::backup::stop::post::Response as StopResponse;
use anonify::enclave::{
    empty_launch_token, get_launch_token, launch_token_changed, path_secret_source, EcallError,
    EnclaveConnector, PathSecretSource,
};
use anonify::terminal::{config_terminal, global_color_option, ColorChoice, Config, LogLevel};
use anonify::types::{EnclaveReturn, CIPHERTEXT_SIZE};

#[test]
fn enclave_return_in_words() {
    assert_eq!(EnclaveReturn::default(), EnclaveReturn::Success);
    assert_eq!(EnclaveReturn::Success.to_text(), "EnclaveReturn: Success");
    assert_eq!(CIPHERTEXT_SIZE, 60);
}

#[test]
fn backup_answers_start_empty() {
    assert_eq!(StartResponse::default().status, "");
    assert_eq!(StopResponse::default().0, "");
    assert_eq!(StopResponse("done".to_string()), StopResponse("done".to_string()));
}

#[test]
fn color_option() {
    assert_eq!(global_color_option(None), Some(ColorChoice::Auto));
    assert_eq!(global_color_option(Some("auto")), Some(ColorChoice::Auto));
    assert_eq!(global_color_option(Some("always")), Some(ColorChoice::Always));
    assert_eq!(global_color_option(Some("never")), Some(ColorChoice::Never));
    assert_eq!(global_color_option(Some("Never")), None);
}

#[test]
fn terminal_settings() {
    let quiet = config_terminal(true, ColorChoice::Never, 3);
    assert_eq!(quiet, (Config { color: ColorChoice::Never, quiet: true }, None));
    assert_eq!(config_terminal(false, ColorChoice::Auto, 0).1, Some(LogLevel::Warn));
    assert_eq!(config_terminal(false, ColorChoice::Auto, 1).1, Some(LogLevel::Info));
    assert_eq!(config_terminal(false, ColorChoice::Auto, 2).1, Some(LogLevel::Debug));
    assert_eq!(config_terminal(false, ColorChoice::Auto, 3).1, Some(LogLevel::Trace));
    assert_eq!(config_terminal(false, ColorChoice::Auto, u64::MAX).1, Some(LogLevel::Trace));
}

#[test]
fn launch_token() {
    let contents: Vec<u8> = (0..1024).map(|i| (i % 7) as u8).collect();
    let token = get_launch_token(&contents).unwrap();
    assert_eq!(&token[..], &contents[..]);
    assert!(get_launch_token(&contents[..1023]).is_none());
    assert!(get_launch_token(&[]).is_none());
    assert_eq!(empty_launch_token(), [0u8; 1024]);
    assert!(launch_token_changed(1));
    assert!(launch_token_changed(-1));
    assert!(!launch_token_changed(0));
}

#[test]
fn path_secrets_come_from() {
    assert_eq!(path_secret_source(None), PathSecretSource::Local);
    assert_eq!(
        path_secret_source(Some("test".to_string())),
        PathSecretSource::LocalTestKV { until_roster_idx: 10, until_epoch: 30 }
    );
    assert_eq!(
        path_secret_source(Some("https://auditor".to_string())),
        PathSecretSource::Remote("https://auditor".to_string())
    );
}

#[test]
fn ecall_outcome() {
    let connector = EnclaveConnector::new(1, 100);
    assert_eq!(connector.inner_invoke_ecall(7, true, false, 99), Ok(99));
    assert_eq!(
        connector.inner_invoke_ecall(7, false, true, 200),
        Err(EcallError::SgxStatus { cmd: 7 })
    );
    assert_eq!(
        connector.inner_invoke_ecall(7, true, true, 200),
        Err(EcallError::EnclaveError { cmd: 7 })
    );
    assert_eq!(
        connector.inner_invoke_ecall(7, true, false, 100),
        Err(EcallError::OutputOverrun { cmd: 7 })
    );
}
