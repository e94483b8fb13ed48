use gelbooru_dl::config::{
    check_output_dir, credentials, emission_mode, http_version, sink_for, ConfigError, Credentials,
    HttpVersion,
};
use gelbooru_dl::printer::{EmissionMode, Sink};

#[test]
fn credentials_both_given() {
    assert_eq!(
        credentials(Some("key".to_string()), Some("42".to_string())),
        Ok(Some(Credentials { api_key: "key".to_string(), user_id: "42".to_string() }))
    );
}

#[test]
fn credentials_neither_given() {
    assert_eq!(credentials(None, None), Ok(None));
}

#[test]
fn credentials_one_alone_is_an_error() {
    assert_eq!(credentials(Some("key".to_string()), None), Err(ConfigError::PartialCredentials));
    assert_eq!(credentials(None, Some("42".to_string())), Err(ConfigError::PartialCredentials));
}

#[test]
fn http_version_takes_the_lowest_set() {
    assert_eq!(http_version(true, false, false), Ok(HttpVersion::Http1));
    assert_eq!(http_version(true, true, true), Ok(HttpVersion::Http1));
    assert_eq!(http_version(false, true, true), Ok(HttpVersion::Http2));
    assert_eq!(http_version(false, false, true), Ok(HttpVersion::Http3));
}

#[test]
fn http_version_none_set_is_an_error() {
    assert_eq!(http_version(false, false, false), Err(ConfigError::NoHttpVersion));
}

#[test]
fn output_dir_may_be_missing_or_a_directory() {
    assert_eq!(check_output_dir(false, false), Ok(()));
    assert_eq!(check_output_dir(true, true), Ok(()));
    assert_eq!(check_output_dir(false, true), Ok(()));
}

#[test]
fn output_dir_that_is_a_file_is_an_error() {
    assert_eq!(check_output_dir(true, false), Err(ConfigError::NotADirectory));
}

#[test]
fn config_error_messages() {
    assert_eq!(
        ConfigError::PartialCredentials.message(),
        "api_key and user_id must be specified together"
    );
    assert_eq!(ConfigError::NotADirectory.message(), "Not a directory");
    assert_eq!(ConfigError::NoHttpVersion.message(), "Invalid combination of arguments");
}

#[test]
fn sink_dash_is_the_diagnostic_stream() {
    assert_eq!(sink_for(Some("-".to_string())), Sink::Stderr);
}

#[test]
fn sink_without_path_is_posts_json() {
    assert_eq!(sink_for(None), Sink::File("posts.json".to_string()));
}

#[test]
fn sink_with_path_is_that_file() {
    assert_eq!(sink_for(Some("meta/all.json".to_string())), Sink::File("meta/all.json".to_string()));
    assert_eq!(sink_for(Some("--".to_string())), Sink::File("--".to_string()));
    assert_eq!(sink_for(Some("".to_string())), Sink::File("".to_string()));
}

#[test]
fn emission_mode_off_without_request() {
    assert_eq!(emission_mode(None, None), EmissionMode::Off);
}

#[test]
fn emission_mode_compact_and_pretty() {
    assert_eq!(
        emission_mode(Some(None), None),
        EmissionMode::Compact(Sink::File("posts.json".to_string()))
    );
    assert_eq!(emission_mode(Some(Some("-".to_string())), None), EmissionMode::Compact(Sink::Stderr));
    assert_eq!(
        emission_mode(None, Some(Some("p.json".to_string()))),
        EmissionMode::Pretty(Sink::File("p.json".to_string()))
    );
    assert_eq!(emission_mode(None, Some(Some("-".to_string()))), EmissionMode::Pretty(Sink::Stderr));
    assert_eq!(
        emission_mode(None, Some(None)),
        EmissionMode::Pretty(Sink::File("posts.json".to_string()))
    );
}

#[test]
fn emission_mode_compact_goes_first() {
    assert_eq!(
        emission_mode(Some(Some("c.json".to_string())), Some(Some("-".to_string()))),
        EmissionMode::Compact(Sink::File("c.json".to_string()))
    );
}
