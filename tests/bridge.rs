use imap_sso_bridge::sso::{
    assertion_form, extract_hidden, hidden_input_regex, login_form, session_token, LoginError,
    FORM_TOKEN_FIELD,
};

fn pairs(f: &[(String, String)]) -> Vec<(&str, &str)> {
    f.iter().map(|(a, b)| (a.as_str(), b.as_str())).collect()
}

#[test]
fn hidden_field_is_extracted() {
    let html = "<form><input type=\"hidden\" name=\"lt\" value=\"LT-1-abc\" /></form>";
    assert_eq!(extract_hidden(html, "lt").as_deref(), Some("LT-1-abc"));
    assert_eq!(extract_hidden(html, "other"), None);
}

#[test]
fn first_hidden_field_wins() {
    let html = "<input type=\"hidden\" name=\"lt\" value=\"one\"/><input type=\"hidden\" name=\"lt\" value=\"two\"/>";
    assert_eq!(extract_hidden(html, "lt").as_deref(), Some("one"));
}

#[test]
fn malformed_html_gives_none() {
    assert_eq!(extract_hidden("<input type=\"hidden\" name=\"lt\" value=\"", "lt"), None);
    assert_eq!(extract_hidden("", "lt"), None);
}

#[test]
fn pattern_names_the_field() {
    assert_eq!(
        hidden_input_regex("RelayState"),
        "<input type=\"hidden\" name=\"RelayState\" value=\"([^\"]+)\" ?\\/>"
    );
}

#[test]
fn login_form_carries_credentials_and_token() {
    let html = "<input type=\"hidden\" name=\"lt\" value=\"TOK\" />";
    let f = login_form("e-adupont", "secret", html).ok().unwrap();
    assert_eq!(
        pairs(&f),
        vec![
            ("username", "e-adupont"),
            ("password", "secret"),
            (FORM_TOKEN_FIELD, "TOK"),
            ("_eventId", "submit"),
            ("submit", "SE+CONNECTER"),
        ]
    );
}

#[test]
fn missing_form_token_is_protocol_change() {
    match login_form("u", "p", "<html></html>") {
        Err(LoginError::ProtocolChanged(w)) => assert_eq!(w, "form token"),
        _ => panic!("expected protocol change"),
    }
}

#[test]
fn assertion_form_relays_both_fields() {
    let html = "<input type=\"hidden\" name=\"SAMLResponse\" value=\"PHNhbWw+\"/>\
                <input type=\"hidden\" name=\"RelayState\" value=\"ss:mem:1\"/>";
    let f = assertion_form(html).ok().unwrap();
    assert_eq!(pairs(&f), vec![("SAMLResponse", "PHNhbWw+"), ("RelayState", "ss:mem:1")]);
}

#[test]
fn rerendered_login_form_means_no_assertion() {
    let html = "<input type=\"hidden\" name=\"lt\" value=\"LT-2\" />";
    assert!(matches!(assertion_form(html), Err(LoginError::NoAssertion)));
}

#[test]
fn missing_relay_state_is_protocol_change() {
    let html = "<input type=\"hidden\" name=\"SAMLResponse\" value=\"x\"/>";
    match assertion_form(html) {
        Err(LoginError::ProtocolChanged(w)) => assert_eq!(w, "relay state"),
        _ => panic!("expected protocol change"),
    }
}

#[test]
fn session_token_is_first_auth_cookie() {
    let cookies = vec![
        ("JSESSIONID".to_string(), "j".to_string()),
        ("ZM_AUTH_TOKEN".to_string(), "T123".to_string()),
        ("ZM_AUTH_TOKEN".to_string(), "later".to_string()),
    ];
    assert_eq!(session_token(&cookies).ok().as_deref(), Some("T123"));
}

#[test]
fn no_auth_cookie_is_no_token() {
    let cookies = vec![("JSESSIONID".to_string(), "j".to_string())];
    assert!(matches!(session_token(&cookies), Err(LoginError::NoToken)));
    assert!(matches!(session_token(&Vec::new()), Err(LoginError::NoToken)));
}

#[test]
fn error_messages() {
    assert_eq!(LoginError::NoToken.message(), "Failed to retrieve auth token");
    assert_eq!(LoginError::NoAssertion.message(), "Failed to retrieve SAML response");
    assert_eq!(
        LoginError::ProtocolChanged("form token".to_string()).message(),
        "Failed to retrieve form token"
    );
    assert_eq!(LoginError::Transport("timed out".to_string()).message(), "timed out");
}

#[test]
fn field_name_is_matched_literally() {
    let html = "<input type=\"hidden\" name=\"axb\" value=\"wrong\" />\
                <input type=\"hidden\" name=\"a.b\" value=\"right\" />\
                <input type=\"hidden\" name=\"f(x)\" value=\"paren\" />";
    assert_eq!(extract_hidden(html, "a.b").as_deref(), Some("right"));
    assert_eq!(extract_hidden(html, "f(x)").as_deref(), Some("paren"));
    assert_eq!(extract_hidden(html, "a+"), None);
}

#[test]
fn pattern_escapes_meta_characters() {
    assert_eq!(
        hidden_input_regex("a.b-c"),
        "<input type=\"hidden\" name=\"a\\.b\\-c\" value=\"([^\"]+)\" ?\\/>"
    );
}
