use spotcapture::auth::{
    authorization_url, authorize, cache_dir, callback_code, callback_of_pairs, check_client_id,
    check_exchange, check_refresh, code_challenge, exchange_form, load, login, login_instruction,
    login_response, random_string, read_request, refresh, refresh_form, request_target,
    secret_file_name, AuthError, CacheLocation, CallbackError, LoginCallback, LoginStep, Reading,
    TokenResponse, Tokens, CALLBACK_PATH, REDIRECT, SCOPES,
};
use std::path::PathBuf;

#[test]
fn callback_requires_matching_state_and_path() {
    assert_eq!(callback_code("/callback?code=hello&state=good", "good", "/callback").unwrap(), LoginCallback::Code("hello".into()));
    assert!(callback_code("/callback?code=hello&state=bad", "good", "/callback").is_err());
    assert!(callback_code("/elsewhere?code=hello&state=good", "good", "/callback").is_err());
}

#[test]
fn authenticated_denial_finishes_login_but_foreign_denial_does_not() {
    assert_eq!(callback_code("/callback?error=access_denied&state=good", "good", "/callback").unwrap(), LoginCallback::Declined);
    assert!(callback_code("/callback?error=access_denied&state=bad", "good", "/callback").is_err());
    assert!(callback_code("/callback?error=access_denied", "good", "/callback").is_err());
}

#[test]
fn ambiguous_or_empty_callback_parameters_are_rejected() {
    assert!(callback_code("/callback?code=hello&state=bad&state=good", "good", "/callback").is_err());
    assert!(callback_code("/callback?code=first&code=second&state=good", "good", "/callback").is_err());
    assert!(callback_code("/callback?code=&state=good", "good", "/callback").is_err());
}

#[test]
fn each_callback_error_has_its_cause() {
    let error = |target: &str| callback_code(target, "good", "/callback").expect_err("refused");
    assert!(matches!(error("/callback"), CallbackError::WrongPath));
    assert!(matches!(error("/other?state=good"), CallbackError::WrongPath));
    assert!(matches!(
        error("/callback?state=good&state=good"),
        CallbackError::RepeatedParameter
    ));
    assert!(matches!(error("/callback?code=x"), CallbackError::StateMismatch));
    assert!(matches!(error("/callback?state=good"), CallbackError::MissingCode));
    assert!(matches!(error("/callback?state=good&code="), CallbackError::EmptyCode));
    assert!(matches!(
        callback_code("99999?state=good", "good", "99999"),
        Err(CallbackError::InvalidUrl(_))
    ));
    assert_eq!(CallbackError::StateMismatch.message(), "Login state mismatch");
}

fn pairs(list: &[(&str, &str)]) -> Vec<(String, String)> {
    list.iter().map(|(k, v)| (k.to_string(), v.to_string())).collect()
}

#[test]
fn parameters_decide_the_callback() {
    let callback = callback_of_pairs(&pairs(&[("state", "s"), ("code", "c")]), "s");
    assert_eq!(callback.unwrap(), LoginCallback::Code("c".into()));
    let callback = callback_of_pairs(&pairs(&[("state", "s"), ("code", "c"), ("error", "")]), "s");
    assert_eq!(callback.unwrap(), LoginCallback::Declined);
    assert!(callback_of_pairs(&pairs(&[("state", "S"), ("code", "c")]), "s").is_err());
    // Escapes are read.
    assert_eq!(
        callback_code("/callback?code=a%20b%2Fc+d&state=good", "good", "/callback").unwrap(),
        LoginCallback::Code("a b/c d".into())
    );
}

#[test]
fn requests_are_read_up_to_their_empty_line() {
    let mut request = vec![];
    assert_eq!(read_request(&mut request, b"GET / HTTP/1.1\r\n\r"), Reading::More);
    assert_eq!(read_request(&mut request, b"\n"), Reading::Complete);
    assert_eq!(request, b"GET / HTTP/1.1\r\n\r\n");
    let mut closed = b"GET /".to_vec();
    assert_eq!(read_request(&mut closed, b""), Reading::Complete);
    let mut large = vec![];
    for _ in 0..8 {
        assert_eq!(read_request(&mut large, &[b'a'; 1024]), Reading::More);
    }
    assert_eq!(read_request(&mut large, b"\r\n\r\n"), Reading::TooLarge);
}

#[test]
fn only_get_requests_have_a_target() {
    assert_eq!(request_target("GET /a?b HTTP/1.1\r\nHost: x\r\n").as_deref(), Some("/a?b"));
    assert_eq!(request_target("GET").as_deref(), Some(""));
    assert_eq!(request_target("POST /a HTTP/1.1"), None);
    assert_eq!(request_target(""), None);
    assert_eq!(request_target("\nGET /a"), None);
}

#[test]
fn the_browser_is_answered() {
    let good = b"GET /callback?code=hello&state=good HTTP/1.1\r\n\r\n";
    match authorize(good, "good", CALLBACK_PATH) {
        LoginStep::Accept(response, code) => {
            assert_eq!(code, "hello");
            assert_eq!(
                response,
                "HTTP/1.1 200 OK\r\nContent-Type: text/plain\r\nContent-Length: 48\r\n\
                 Connection: close\r\n\r\nSpotify sign-in received. Return to SpotCapture."
            );
        }
        step => panic!("{step:?}"),
    }
    let declined = b"GET /callback?error=access_denied&state=good HTTP/1.1\r\n\r\n";
    assert!(matches!(authorize(declined, "good", "/callback"), LoginStep::GiveUp(_)));
    let foreign = b"GET /callback?error=access_denied&state=bad HTTP/1.1\r\n\r\n";
    match authorize(foreign, "good", "/callback") {
        LoginStep::Refuse(response) => {
            assert!(response.starts_with("HTTP/1.1 400 Bad Request\r\n"));
            assert!(response.ends_with(
                "\r\n\r\nInvalid login callback. Use the original SpotCapture login link."
            ));
        }
        step => panic!("{step:?}"),
    }
    assert!(matches!(authorize(b"PUT / HTTP/1.1\r\n\r\n", "good", "/callback"), LoginStep::Ignore));
    // Bytes that are no text are read with replacements, not refused.
    let odd = b"GET /callback?code=hello&state=good \xff\r\n\r\n";
    assert!(matches!(authorize(odd, "good", "/callback"), LoginStep::Accept(_, _)));
}

#[test]
fn responses_say_how_long_they_are() {
    for callback in [Ok(LoginCallback::Declined), Err(CallbackError::EmptyCode)] {
        let response = login_response(&callback);
        let (head, body) = response.split_once("\r\n\r\n").unwrap();
        assert!(head.contains(&format!("Content-Length: {}\r\n", body.len())));
    }
}

#[test]
fn the_sign_in_link_holds_its_query() {
    let link = authorization_url("id", REDIRECT, SCOPES, "st&te", "challenge");
    assert_eq!(
        link,
        "https://accounts.spotify.com/authorize?client_id=id&response_type=code\
         &redirect_uri=http%3A%2F%2F127.0.0.1%3A5588%2Fcallback&code_challenge_method=S256\
         &code_challenge=challenge&state=st%26te\
         &scope=streaming+user-read-private+user-read-email"
    );
    let read: Vec<(String, String)> =
        url::Url::parse(&link).unwrap().query_pairs().into_owned().collect();
    assert_eq!(read[5], ("state".to_string(), "st&te".to_string()));
    assert_eq!(read.len(), 7);
}

#[test]
fn verifiers_and_challenges_are_url_safe() {
    assert_eq!(random_string(&[0; 32]), "A".repeat(43));
    assert_eq!(random_string(&[0xff; 32]), "_".repeat(42) + "8");
    // The example of RFC 7636.
    assert_eq!(
        code_challenge("dBjftJeZ4CVP-mB92K27uhbUJU1p1r_wW1gFWFOEjXk"),
        "E9Melhoa2OwvFrEMTJguCHaoeK1t8URWbuGJSstw-cM"
    );
}

#[test]
fn client_identifiers_are_checked() {
    assert!(check_client_id("0123456789abcdefABCDEF0123456789").is_ok());
    assert_eq!(
        check_client_id("0123456789abcdefABCDEF012345678"),
        Err(AuthError::InvalidClientId)
    );
    assert!(check_client_id("0123456789abcdefABCDEF012345678g").is_err());
    assert!(check_client_id("éééééééééééééééé").is_err());
}

#[test]
fn forms_hold_what_the_server_needs() {
    assert_eq!(
        exchange_form("c", "r", "i", "v"),
        pairs(&[
            ("grant_type", "authorization_code"),
            ("code", "c"),
            ("redirect_uri", "r"),
            ("client_id", "i"),
            ("code_verifier", "v"),
        ])
    );
    assert_eq!(
        refresh_form(&tokens("a", "r", 5)),
        pairs(&[("grant_type", "refresh_token"), ("refresh_token", "r"), ("client_id", "client")])
    );
}

fn tokens(access: &str, refresh: &str, expires_at: u64) -> Tokens {
    Tokens {
        client_id: "client".into(),
        access_token: access.into(),
        refresh_token: refresh.into(),
        expires_at,
    }
}

fn response(access: &str, refresh: Option<&str>, expires_in: u64) -> TokenResponse {
    TokenResponse {
        access_token: access.into(),
        refresh_token: refresh.map(|r| r.to_string()),
        expires_in,
    }
}

#[test]
fn a_login_can_be_loaded() {
    let tokens = login("client".into(), response("a", Some("r"), 3600), 1000).unwrap();
    assert_eq!(tokens.expires_at, 4600);
    assert_eq!(load(&tokens, None, 4539), Ok(true));
    assert_eq!(load(&tokens, Some("client"), 4540), Ok(false));
    assert_eq!(load(&tokens, Some(""), 1000), Ok(true));
    assert_eq!(load(&tokens, Some("other"), 1000), Err(AuthError::ClientChanged));
}

#[test]
fn logins_without_tokens_are_refused() {
    let login = |access, refresh| login("client".into(), response(access, refresh, 1), 0).err();
    assert_eq!(login("", None), Some(AuthError::EmptyAccessToken));
    assert_eq!(login("a", None), Some(AuthError::NoRefreshToken));
    assert_eq!(login("a", Some("")), Some(AuthError::EmptyRefreshToken));
    assert_eq!(load(&tokens("", "r", 9), None, 0), Err(AuthError::IncompleteLogin));
    assert_eq!(load(&tokens("a", "", 9), Some("x"), 0), Err(AuthError::IncompleteLogin));
}

#[test]
fn a_renewal_keeps_what_it_is_not_given() {
    let renewed = refresh(tokens("a", "r", 1), response("b", None, 10), 100).unwrap();
    assert_eq!(renewed.access_token, "b");
    assert_eq!(renewed.refresh_token, "r");
    assert_eq!(renewed.client_id, "client");
    assert_eq!(renewed.expires_at, 110);
    let renewed = refresh(renewed, response("c", Some(""), u64::MAX), 100).unwrap();
    assert_eq!(renewed.refresh_token, "r");
    assert_eq!(renewed.expires_at, u64::MAX);
    let renewed = refresh(renewed, response("d", Some("s"), 0), 100).unwrap();
    assert_eq!(renewed.refresh_token, "s");
    assert_eq!(
        refresh(renewed, response("", Some("s"), 0), 100).err(),
        Some(AuthError::EmptyAccessToken)
    );
}

#[test]
fn refusals_of_the_server_are_reported() {
    assert_eq!(check_exchange(200, "200 OK"), Ok(()));
    assert_eq!(
        check_exchange(400, "400 Bad Request").unwrap_err().message(),
        "Spotify token exchange failed (HTTP 400 Bad Request). Check Client ID and redirect URI"
    );
    assert_eq!(check_refresh(204, ""), Ok(()));
    assert_eq!(
        check_refresh(500, "500 Internal Server Error").unwrap_err().message(),
        "Spotify login refresh failed (HTTP 500 Internal Server Error); sign in again"
    );
    assert_eq!(
        login_instruction(),
        "Register http://127.0.0.1:5588/callback in your Spotify app's Redirect URIs. \
         Sign in using the link."
    );
    assert_eq!(
        AuthError::Declined.message(),
        "Spotify sign-in was declined; sign in again when ready"
    );
}

#[test]
fn tokens_are_kept_where_asked() {
    let path = |p: &str| Some(PathBuf::from(p));
    match cache_dir(path("a"), path("b"), path("c")) {
        Ok(CacheLocation::Given(p)) => assert_eq!(p, PathBuf::from("a")),
        other => panic!("{other:?}"),
    }
    let config = cache_dir(None, path("b"), path("c")).unwrap();
    assert_eq!(config.components(), ["spotcapture"]);
    let home = cache_dir(None, None, path("c")).unwrap();
    assert_eq!(home.components(), [".config", "spotcapture"]);
    assert_eq!(cache_dir(None, None, None).err(), Some(AuthError::NoConfiguration));
    assert_eq!(secret_file_name(7, "xyz"), ".auth-7-xyz.tmp");
}
