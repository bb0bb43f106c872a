use vector_core::llm_client::{
    UsageLimit, UsageLimitParseError, CLIENT_SUPPORTS_EXA_WEB_SEARCH_PROVIDER_HEADER_NAME,
    MODEL_REQUESTS_USAGE_AMOUNT_HEADER_NAME, MODEL_REQUESTS_USAGE_LIMIT_HEADER_NAME,
};

#[test]
fn usage_limit_displays_number_or_unlimited() {
    assert_eq!(UsageLimit::Limited { limit: 500 }.to_string(), "500");
    assert_eq!(UsageLimit::Limited { limit: 0 }.to_string(), "0");
    assert_eq!(UsageLimit::Unlimited.to_string(), "unlimited");
}

#[test]
fn usage_limit_parses_forms() {
    assert_eq!(UsageLimit::from_str("42").unwrap(), UsageLimit::Limited { limit: 42 });
    assert_eq!(UsageLimit::from_str("  limited:7 ").unwrap(), UsageLimit::Limited { limit: 7 });
    assert_eq!(UsageLimit::from_str("UNLIMITED").unwrap(), UsageLimit::Unlimited);
    assert_eq!(UsageLimit::from_str(" Unlimited\n").unwrap(), UsageLimit::Unlimited);
    assert_eq!(UsageLimit::from_str("4294967295").unwrap(), UsageLimit::Limited { limit: u32::MAX });
}

#[test]
fn usage_limit_rejects_other_text() {
    match UsageLimit::from_str("limited:abc") {
        Err(UsageLimitParseError::Invalid(s)) => assert_eq!(s, "abc"),
        other => panic!("unexpected {:?}", other),
    }
    match UsageLimit::from_str("4294967296") {
        Err(UsageLimitParseError::Invalid(s)) => assert_eq!(s, "4294967296"),
        other => panic!("unexpected {:?}", other),
    }
    assert!(UsageLimit::from_str("").is_err());
    assert!(UsageLimit::from_str("-1").is_err());
}

#[test]
fn usage_limit_round_trips_through_text() {
    for limit in [UsageLimit::Unlimited, UsageLimit::Limited { limit: 0 }, UsageLimit::Limited { limit: 123456 }] {
        assert_eq!(UsageLimit::from_str(&limit.to_string()).unwrap(), limit);
    }
}

#[test]
fn header_names() {
    assert_eq!(MODEL_REQUESTS_USAGE_LIMIT_HEADER_NAME, "x-vector-model-requests-usage-limit");
    assert_eq!(MODEL_REQUESTS_USAGE_AMOUNT_HEADER_NAME, "x-vector-model-requests-usage-amount");
    assert_eq!(CLIENT_SUPPORTS_EXA_WEB_SEARCH_PROVIDER_HEADER_NAME, "x-vector-client-supports-exa-web-search-provider");
}
