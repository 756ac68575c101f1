use quotamiser::upstream::{
    cancel_path, carries_credentials, check_base_url, checked_id, retrieve_path, BaseUrlError,
    UpstreamConfig, UpstreamError,
};

#[test]
fn a_non_loopback_http_base_url_is_refused() {
    let config = |base_url: &str| UpstreamConfig {
        base_url: base_url.into(),
        api_key: "k".into(),
        project: None,
        connect_timeout_seconds: 1,
        read_timeout_seconds: 1,
    };
    assert!(matches!(
        config("http://api.openai.com/v1").base(),
        Err(UpstreamError::InsecureBaseUrl(_))
    ));
    assert!(config("https://api.openai.com/v1").base().is_ok());
    assert!(config("http://127.0.0.1:8080/v1").base().is_ok());
    assert!(matches!(
        config("not a url").base(),
        Err(UpstreamError::InvalidBaseUrl(_))
    ));
}

#[test]
fn a_response_id_cannot_change_the_path() {
    for bad in ["", "../models", "resp_1/cancel", "resp 1", "resp%2F1"] {
        assert!(checked_id(bad).is_err(), "{bad:?}");
    }
    assert!(checked_id("resp_0fca4faa0801454d006aa14bc55b3887d0b8156d57e1f3ca7d").is_ok());
}

#[test]
fn slashes_at_the_end_of_a_base_url_are_dropped() {
    assert_eq!(
        check_base_url("https://api.openai.com/v1//"),
        Ok("https://api.openai.com/v1".to_string())
    );
    assert_eq!(
        check_base_url("ftp://localhost/"),
        Err(BaseUrlError::Insecure("ftp://localhost".into()))
    );
}

#[test]
fn credentials_travel_by_https_or_not_far() {
    assert!(carries_credentials("https", Some("example.com")));
    assert!(carries_credentials("https", None));
    for host in ["127.0.0.1", "localhost", "[::1]"] {
        assert!(carries_credentials("http", Some(host)), "{host}");
    }
    assert!(!carries_credentials("http", Some("example.com")));
    assert!(!carries_credentials("http", None));
    assert!(!carries_credentials("ftp", Some("127.0.0.1")));
}

#[test]
fn ids_become_paths() {
    assert_eq!(
        retrieve_path("resp_1"),
        Ok("/responses/resp_1".to_string())
    );
    assert_eq!(
        cancel_path("resp_1"),
        Ok("/responses/resp_1/cancel".to_string())
    );
    assert_eq!(
        cancel_path("a/b").unwrap_err().message(),
        "not a valid response id: \"a/b\""
    );
}
