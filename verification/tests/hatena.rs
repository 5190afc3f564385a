use discord_news_notify::hatena::count_api_url;
use discord_news_notify::hatena::parse_count_response;
use discord_news_notify::hatena::HatenaError;

#[test]
fn count_api_url_encodes_article_url() {
    let url = count_api_url("https://example.com/a b?x=1&y=2");

    assert_eq!(
        url,
        "https://bookmark.hatenaapis.com/count/entry?url=https%3A%2F%2Fexample.com%2Fa+b%3Fx%3D1%26y%3D2"
    );
}

#[test]
fn parse_count_response_accepts_number() {
    assert_eq!(parse_count_response(" 123\n").unwrap(), 123);
}

#[test]
fn parse_count_response_rejects_empty_body() {
    let err = parse_count_response(" ").unwrap_err().message();

    assert!(err.contains("empty"));
}

#[test]
fn parse_count_response_rejects_non_numeric_body() {
    let err = parse_count_response("not-number").unwrap_err().message();

    assert!(err.contains("non-numeric"));
}

#[test]
fn count_api_url_percent_encodes_non_ascii_and_keeps_safe_bytes() {
    assert_eq!(
        count_api_url("a-b_c.d*e~é"),
        "https://bookmark.hatenaapis.com/count/entry?url=a-b_c.d*e%7E%C3%A9"
    );
}

#[test]
fn non_numeric_message_quotes_the_trimmed_body() {
    let err = parse_count_response("  12a\n").unwrap_err();
    match &err {
        HatenaError::NonNumeric(value) => assert_eq!(value, "12a"),
        HatenaError::EmptyResponse => panic!("expected a non-numeric reply"),
    }
    assert_eq!(
        err.message(),
        "Hatena count API returned non-numeric response: \"12a\""
    );
}

#[test]
fn count_must_fit_in_u64() {
    assert_eq!(parse_count_response("+0").unwrap(), 0);
    assert!(parse_count_response("-1").is_err());
    assert!(parse_count_response("99999999999999999999").is_err());
    assert_eq!(
        parse_count_response("18446744073709551615").unwrap(),
        u64::MAX
    );
}

#[test]
fn empty_reply_message() {
    assert_eq!(
        parse_count_response("\t").unwrap_err().message(),
        "Hatena count API returned empty response"
    );
}
