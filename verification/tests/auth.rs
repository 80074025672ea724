use dota_coach::auth::{
    check_authentication_form, constant_time_eq, is_valid_response, parse_claimed_id, urlencode,
    verdict, OpenIdError, SteamOpenId, CALLBACK_PATH, FOREIGN_RETURN_TO, MISSING_CLAIMED_ID,
    MISSING_RETURN_TO, NOT_A_STEAM_ID64, NOT_A_STEAM_IDENTITY,
};

fn pairs(items: &[(&str, &str)]) -> Vec<(String, String)> {
    items
        .iter()
        .map(|(k, v)| (k.to_string(), v.to_string()))
        .collect()
}

fn provider() -> SteamOpenId {
    SteamOpenId::new("http://localhost:8080", "https://steamcommunity.com/openid/login")
}

#[test]
fn nonce_comparison_rejects_mismatches_of_any_shape() {
    assert!(constant_time_eq("abc123", "abc123"));
    assert!(!constant_time_eq("abc123", "abc124"));
    assert!(!constant_time_eq("abc123", "abc12"));
    assert!(!constant_time_eq("", "a"));
    assert!(constant_time_eq("", ""));
}

#[test]
fn nonce_comparison_reads_characters_not_just_lengths() {
    assert!(!constant_time_eq("é", "e\u{301}"));
    assert!(constant_time_eq("ünïcödé", "ünïcödé"));
}

#[test]
fn a_steam_claimed_id_yields_the_steam_id() {
    let steam_id =
        parse_claimed_id("https://steamcommunity.com/openid/id/76561198047011640").unwrap();
    assert_eq!(steam_id, 76_561_198_047_011_640);
}

#[test]
fn a_claimed_id_from_another_host_is_rejected() {
    for hostile in [
        "https://evil.example/openid/id/76561198047011640",
        "http://steamcommunity.com/openid/id/76561198047011640",
        "https://steamcommunity.com.evil.example/openid/id/76561198047011640",
        "76561198047011640",
    ] {
        assert!(
            parse_claimed_id(hostile).is_err(),
            "should have rejected {hostile}"
        );
    }
}

#[test]
fn a_non_numeric_claimed_id_is_rejected() {
    assert!(parse_claimed_id("https://steamcommunity.com/openid/id/").is_err());
    assert!(parse_claimed_id("https://steamcommunity.com/openid/id/abc").is_err());
    assert!(parse_claimed_id("https://steamcommunity.com/openid/id/123abc").is_err());
}

#[test]
fn each_claimed_id_failure_names_its_reason() {
    assert!(matches!(
        parse_claimed_id("https://evil.example/openid/id/1"),
        Err(OpenIdError::Malformed(m)) if m == NOT_A_STEAM_IDENTITY
    ));
    assert!(matches!(
        parse_claimed_id("https://steamcommunity.com/openid/id/12x"),
        Err(OpenIdError::Malformed(m)) if m == NOT_A_STEAM_ID64
    ));
    // One past i64::MAX does not fit a SteamID64.
    assert!(matches!(
        parse_claimed_id("https://steamcommunity.com/openid/id/9223372036854775808"),
        Err(OpenIdError::Malformed(m)) if m == NOT_A_STEAM_ID64
    ));
    assert_eq!(
        parse_claimed_id("https://steamcommunity.com/openid/id/9223372036854775807").ok(),
        Some(i64::MAX)
    );
    assert_eq!(
        parse_claimed_id("https://steamcommunity.com/openid/id/007").ok(),
        Some(7)
    );
}

#[test]
fn only_an_explicit_is_valid_true_passes() {
    assert!(is_valid_response(
        "ns:http://specs.openid.net/auth/2.0\nis_valid:true\n"
    ));
    assert!(!is_valid_response(
        "ns:http://specs.openid.net/auth/2.0\nis_valid:false\n"
    ));
    assert!(!is_valid_response(""));
    assert!(!is_valid_response("is_valid:maybe"));
    assert!(!is_valid_response("error:is_valid:true is not set"));
}

#[test]
fn a_valid_line_may_carry_spaces_and_a_carriage_return() {
    assert!(is_valid_response("ns:x\r\n  is_valid : true \r\n"));
    assert!(is_valid_response("is_valid:true"));
}

#[test]
fn verification_echoes_every_parameter_with_the_mode_swapped() {
    let params = pairs(&[
        ("openid.mode", "id_res"),
        ("openid.sig", "abc"),
        ("openid.signed", "mode,sig"),
    ]);

    let form = check_authentication_form(&params);

    assert!(form.contains(&("openid.mode".into(), "check_authentication".into())));
    assert!(form.contains(&("openid.sig".into(), "abc".into())));
    assert!(form.contains(&("openid.signed".into(), "mode,sig".into())));
    assert_eq!(form.len(), 3);
}

#[test]
fn unreserved_bytes_pass_and_everything_else_is_escaped() {
    assert_eq!(urlencode("abc-_.~XYZ09"), "abc-_.~XYZ09");
    assert_eq!(urlencode("a b/c?"), "a%20b%2Fc%3F");
    assert_eq!(urlencode("é"), "%C3%A9");
}

#[test]
fn the_authorization_url_carries_the_state_and_our_callback() {
    let url = provider().authorization_url("abc123").ok().unwrap();

    assert!(url.starts_with("https://steamcommunity.com/openid/login?"));
    assert!(url.contains("openid.mode=checkid_setup"));
    assert!(url.contains("identifier_select"));
    assert!(url.contains("callback%3Fstate%3Dabc123"));
}

#[test]
fn an_unparseable_login_endpoint_is_reported_not_guessed() {
    let broken = SteamOpenId::new("http://localhost:8080", "not a url");
    assert!(matches!(
        broken.authorization_url("abc"),
        Err(OpenIdError::Malformed(_))
    ));
}

#[test]
fn the_return_to_prefix_is_the_base_and_the_callback_path() {
    let p = provider();
    assert_eq!(
        p.return_to_prefix(),
        format!("http://localhost:8080{CALLBACK_PATH}")
    );
}

#[test]
fn an_assertion_aimed_at_another_site_never_reaches_steam() {
    let params = pairs(&[
        (
            "openid.return_to",
            "https://evil.example/auth/steam/callback",
        ),
        (
            "openid.claimed_id",
            "https://steamcommunity.com/openid/id/76561198047011640",
        ),
    ]);

    assert!(matches!(
        provider().precheck(&params),
        Err(OpenIdError::Malformed(m)) if m == FOREIGN_RETURN_TO
    ));
}

#[test]
fn a_missing_claimed_id_is_rejected_before_any_network_call() {
    let params = pairs(&[(
        "openid.return_to",
        "http://localhost:8080/api/auth/steam/callback?state=x",
    )]);

    assert!(matches!(
        provider().precheck(&params),
        Err(OpenIdError::Malformed(m)) if m == MISSING_CLAIMED_ID
    ));
    assert!(matches!(
        provider().precheck(&[]),
        Err(OpenIdError::Malformed(m)) if m == MISSING_RETURN_TO
    ));
}

#[test]
fn an_assertion_addressed_to_us_yields_its_steam_id() {
    let params = pairs(&[
        (
            "openid.return_to",
            "http://localhost:8080/api/auth/steam/callback?state=x",
        ),
        (
            "openid.claimed_id",
            "https://steamcommunity.com/openid/id/76561198047011640",
        ),
    ]);
    assert_eq!(
        provider().precheck(&params).ok(),
        Some(76_561_198_047_011_640)
    );
}

#[test]
fn steam_has_the_last_word() {
    assert_eq!(verdict(7, "is_valid:true\n").ok(), Some(7));
    assert!(matches!(
        verdict(7, "is_valid:false\n"),
        Err(OpenIdError::InvalidAssertion)
    ));
}

#[test]
fn errors_read_as_sentences() {
    assert_eq!(
        OpenIdError::Malformed("x").message(),
        "assertion is malformed: x"
    );
    assert_eq!(
        OpenIdError::Unavailable("down".into()).message(),
        "steam unreachable: down"
    );
    assert_eq!(
        OpenIdError::InvalidAssertion.message(),
        "steam rejected the assertion"
    );
}
