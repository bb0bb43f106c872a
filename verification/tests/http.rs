use vector_core::http::{
    effective_proxy, redacted_query, redirect_budget, RedirectFollower, RedirectPolicy, RedirectStep, SendError,
    REDACTED_KEY, REDACT_PATTERN,
};

#[test]
fn budgets() {
    assert_eq!(redirect_budget(RedirectPolicy::NoFollow), 0);
    assert_eq!(redirect_budget(RedirectPolicy::FollowLimit(3)), 3);
    assert_eq!(redirect_budget(RedirectPolicy::FollowAll), 100);
}

#[test]
fn start_checks_url_and_body() {
    assert_eq!(RedirectFollower::start(RedirectPolicy::FollowAll, "not a url", false).unwrap_err(), SendError::InvalidUrl);
    assert_eq!(
        RedirectFollower::start(RedirectPolicy::FollowAll, "https://a.test/x", true).unwrap_err(),
        SendError::RedirectWithStreamingBody
    );
    let f = RedirectFollower::start(RedirectPolicy::NoFollow, "https://a.test/x", true).unwrap();
    assert_eq!(f.redirects_remaining, 0);
    assert_eq!(f.current_url, "https://a.test/x");
}

#[test]
fn redirects_follow_and_strip_credentials() {
    let mut f = RedirectFollower::start(RedirectPolicy::FollowLimit(2), "https://a.test/x", false).unwrap();
    match f.on_response(true, Some("/y")).unwrap() {
        RedirectStep::Follow { url, strip_credentials } => {
            assert_eq!(url, "https://a.test/y");
            assert!(!strip_credentials);
        },
        other => panic!("unexpected {:?}", other),
    }
    match f.on_response(true, Some("https://b.test/z")).unwrap() {
        RedirectStep::Follow { url, strip_credentials } => {
            assert_eq!(url, "https://b.test/z");
            assert!(strip_credentials);
        },
        other => panic!("unexpected {:?}", other),
    }
    assert_eq!(f.redirects_remaining, 0);
    assert!(matches!(f.on_response(true, Some("/again")).unwrap(), RedirectStep::Done));
}

#[test]
fn redirect_errors() {
    let mut f = RedirectFollower::start(RedirectPolicy::FollowAll, "https://a.test/x", false).unwrap();
    assert!(matches!(f.on_response(false, None).unwrap(), RedirectStep::Done));
    assert_eq!(f.on_response(true, None).unwrap_err(), SendError::MissingLocation);
    let mut g = RedirectFollower::start(RedirectPolicy::FollowAll, "https://a.test/x", false).unwrap();
    assert!(matches!(g.on_response(true, Some("http://a.test:8080/p")).unwrap(), RedirectStep::Follow { strip_credentials: true, .. }));
}

#[test]
fn keys_are_redacted() {
    assert_eq!(REDACT_PATTERN, "key=[^&]+");
    assert_eq!(REDACTED_KEY, "key=REDACTED");
    assert_eq!(redacted_query("a=1&key=secret&b=2"), Some("a=1&key=REDACTED&b=2".to_string()));
    assert_eq!(redacted_query("key=x&apikey=y"), Some("key=REDACTED&apikey=REDACTED".to_string()));
    assert_eq!(redacted_query("a=1&key=&b"), None);
    assert_eq!(redacted_query(""), None);
}

#[test]
fn proxies() {
    assert_eq!(effective_proxy(Some("http://p:3128".to_string()), true), Some("http://p:3128".to_string()));
    assert_eq!(effective_proxy(Some("bad".to_string()), false), None);
    assert_eq!(effective_proxy(None, true), None);
}

#[test]
fn test_proxy_uri() {
    assert_eq!(effective_proxy(None, true), None);
    for raw in [
        "http://localhost:10809",
        "https://localhost:10809",
        "socks4://localhost:10808",
        "socks4a://localhost:10808",
        "socks5://localhost:10808",
        "socks5h://localhost:10808",
    ] {
        let proxy = url::Url::parse(raw).unwrap().to_string();
        assert_eq!(effective_proxy(Some(proxy.clone()), true), Some(proxy));
    }
}

#[test]
fn test_invalid_proxy_uri() {
    let proxy = url::Url::parse("socks://127.0.0.1:20170").unwrap().to_string();
    assert!(effective_proxy(Some(proxy), false).is_none(), "An invalid proxy URL should add no proxy to the client!");
}

#[test]
fn dropped_credentials_stay_dropped() {
    let mut f = RedirectFollower::start(RedirectPolicy::FollowAll, "https://a.test/x", false).unwrap();
    assert!(!f.credentials_dropped);
    assert!(matches!(f.on_response(true, Some("https://b.test/y")).unwrap(), RedirectStep::Follow { strip_credentials: true, .. }));
    match f.on_response(true, Some("/z")).unwrap() {
        RedirectStep::Follow { url, strip_credentials } => {
            assert_eq!(url, "https://b.test/z");
            assert!(strip_credentials);
        },
        other => panic!("unexpected {:?}", other),
    }
    assert!(f.credentials_dropped);
    assert!(matches!(f.on_response(false, None).unwrap(), RedirectStep::Done));
    assert!(f.credentials_dropped);
}
