use vstd::prelude::*;
use vstd::string::*;

use crate::message::push_char;

verus! {

/// Landing page of the webmail, which carries the login form.
pub const LANDING_URL: &'static str = "https://mail.etu.cyu.fr";

/// Login endpoint of the identity provider.
pub const LOGIN_URL: &'static str =
    "https://auth.u-cergy.fr/login?service=https%3A%2F%2Fidp.u-cergy.fr%2Fidp%2FAuthn%2FRemoteUser";

/// Assertion-consumer endpoint of the service provider.
pub const ASSERTION_URL: &'static str = "https://sp.partage.renater.fr/ucp/Shibboleth.sso/SAML2/POST";

/// Hidden field of the login form that holds its anti-forgery token.
pub const FORM_TOKEN_FIELD: &'static str = "lt";

/// Hidden field that holds the SAML assertion.
pub const SAML_FIELD: &'static str = "SAMLResponse";

/// Hidden field that holds the relay state.
pub const RELAY_STATE_FIELD: &'static str = "RelayState";

/// Cookie in which the mail backend hands out its session token.
pub const AUTH_COOKIE: &'static str = "ZM_AUTH_TOKEN";

/// Why a login attempt failed.
pub enum LoginError {
    /// An HTTP exchange failed; the text describes it.
    Transport(String),
    /// An expected part of an upstream page was missing; the text names it.
    ProtocolChanged(String),
    /// The identity provider issued no assertion: the credentials were refused.
    NoAssertion,
    /// No session cookie came back after the assertion was relayed.
    NoToken,
}

/// Mathematical model of a login failure.
pub enum LoginErrorView {
    Transport(Seq<char>),
    ProtocolChanged(Seq<char>),
    NoAssertion,
    NoToken,
}

impl View for LoginError {
    type V = LoginErrorView;

    open spec fn view(&self) -> LoginErrorView {
        match self {
            LoginError::Transport(m) => LoginErrorView::Transport(m@),
            LoginError::ProtocolChanged(w) => LoginErrorView::ProtocolChanged(w@),
            LoginError::NoAssertion => LoginErrorView::NoAssertion,
            LoginError::NoToken => LoginErrorView::NoToken,
        }
    }
}

/// Text that describes a login failure.
pub open spec fn error_text(e: LoginErrorView) -> Seq<char> {
    match e {
        LoginErrorView::Transport(m) => m,
        LoginErrorView::ProtocolChanged(w) => "Failed to retrieve "@ + w,
        LoginErrorView::NoAssertion => "Failed to retrieve SAML response"@,
        LoginErrorView::NoToken => "Failed to retrieve auth token"@,
    }
}

impl LoginError {
    /// Text that describes the failure.
    pub fn message(&self) -> (r: String)
        ensures
            r@ == error_text(self@),
    {
        match self {
            LoginError::Transport(m) => m.clone(),
            LoginError::ProtocolChanged(w) => "Failed to retrieve ".to_owned().concat(w.as_str()),
            LoginError::NoAssertion => "Failed to retrieve SAML response".to_owned(),
            LoginError::NoToken => "Failed to retrieve auth token".to_owned(),
        }
    }
}

/// The text of the first capture group in the leftmost match of `pattern` in `text`,
/// or `None` where the pattern is not a valid expression or does not match.
pub uninterp spec fn first_capture(pattern: Seq<char>, text: Seq<char>) -> Option<Seq<char>>;

pub open spec fn opt_text(o: Option<String>) -> Option<Seq<char>> {
    match o {
        Some(s) => Some(s@),
        None => None,
    }
}

/// Relies on regex::Regex::new, Regex::captures and Captures::get: the first capture
/// group of the leftmost match, `None` where the pattern does not compile or does not match.
#[verifier::external_body]
fn regex_first_capture(pattern: &str, text: &str) -> (r: Option<String>)
    ensures
        opt_text(r) == first_capture(pattern@, text@),
{
    regex::Regex::new(pattern).ok().and_then(|re| re.captures(text)).and_then(|c| c.get(1)).map(
        |m| m.as_str().to_string(),
    )
}

/// Characters that have a meaning of their own in an expression.
pub open spec fn is_meta_char(c: char) -> bool {
    c == '\\' || c == '.' || c == '+' || c == '*' || c == '?' || c == '(' || c == ')' || c == '|'
        || c == '[' || c == ']' || c == '{' || c == '}' || c == '^' || c == '$' || c == '#'
        || c == '&' || c == '-' || c == '~'
}

/// The text with a backslash before each meta character: an expression that matches
/// exactly that text.
pub open spec fn escaped(s: Seq<char>) -> Seq<char>
    decreases s.len(),
{
    if s.len() == 0 {
        Seq::empty()
    } else if is_meta_char(s.last()) {
        escaped(s.drop_last()) + seq!['\\', s.last()]
    } else {
        escaped(s.drop_last()).push(s.last())
    }
}

/// Expression that matches a hidden form input whose name is exactly `name` and
/// captures its value.
pub open spec fn hidden_input_pattern(name: Seq<char>) -> Seq<char> {
    "<input type=\"hidden\" name=\""@ + escaped(name) + "\" value=\"([^\"]+)\" ?\\/>"@
}

/// Appends `text` to `buf` with each meta character escaped.
pub fn escape_into(text: &str, buf: &mut String)
    ensures
        final(buf)@ == old(buf)@ + escaped(text@),
{
    let len = text.unicode_len();
    let mut i: usize = 0;
    while i < len
        invariant
            i <= len,
            len == text@.len(),
            buf@ == old(buf)@ + escaped(text@.take(i as int)),
        decreases len - i,
    {
        let c = text.get_char(i);
        let is_meta = c == '\\' || c == '.' || c == '+' || c == '*' || c == '?' || c == '('
            || c == ')' || c == '|' || c == '[' || c == ']' || c == '{' || c == '}' || c == '^'
            || c == '$' || c == '#' || c == '&' || c == '-' || c == '~';
        if is_meta {
            push_char(buf, '\\');
        }
        push_char(buf, c);
        proof {
            let t = text@.take(i + 1);
            assert(t.drop_last() =~= text@.take(i as int));
            assert(t.last() == c);
            assert(buf@ =~= old(buf)@ + escaped(t));
        }
        i = i + 1;
    }
    assert(text@.take(len as int) =~= text@);
}

/// Value of the first hidden input named `name` in the page.
pub open spec fn hidden_field(html: Seq<char>, name: Seq<char>) -> Option<Seq<char>> {
    first_capture(hidden_input_pattern(name), html)
}

/// Builds the expression that finds a hidden input of the given name.
pub fn hidden_input_regex(name: &str) -> (r: String)
    ensures
        r@ == hidden_input_pattern(name@),
{
    let mut r = "<input type=\"hidden\" name=\"".to_owned();
    escape_into(name, &mut r);
    r.append("\" value=\"([^\"]+)\" ?\\/>");
    r
}

/// Value of the first hidden input named `name` in the page, taken as it stands.
pub fn extract_hidden(html: &str, name: &str) -> (r: Option<String>)
    ensures
        opt_text(r) == hidden_field(html@, name@),
{
    let pattern = hidden_input_regex(name);
    regex_first_capture(pattern.as_str(), html)
}

/// A form body: its fields as name and value.
pub type Form = Vec<(String, String)>;

pub open spec fn form_view(f: Seq<(String, String)>) -> Seq<(Seq<char>, Seq<char>)> {
    f.map_values(|p: (String, String)| (p.0@, p.1@))
}

/// Fields of the credential form.
pub open spec fn credential_fields(
    username: Seq<char>,
    password: Seq<char>,
    token: Seq<char>,
) -> Seq<(Seq<char>, Seq<char>)> {
    seq![
        ("username"@, username),
        ("password"@, password),
        ("lt"@, token),
        ("_eventId"@, "submit"@),
        ("submit"@, "SE+CONNECTER"@),
    ]
}

fn field(name: &str, value: &str) -> (r: (String, String))
    ensures
        r.0@ == name@,
        r.1@ == value@,
{
    (name.to_owned(), value.to_owned())
}

/// The credential form for the given form token; a missing token means that the
/// login page no longer has the expected shape.
pub fn credential_form(username: &str, password: &str, form_token: Option<String>) -> (r: Result<
    Form,
    LoginError,
>)
    ensures
        match form_token {
            Some(t) => r matches Ok(f) && form_view(f@) == credential_fields(
                username@,
                password@,
                t@,
            ),
            None => r matches Err(e) && e@ == LoginErrorView::ProtocolChanged("form token"@),
        },
{
    match form_token {
        Some(t) => {
            let mut f: Form = Vec::new();
            f.push(field("username", username));
            f.push(field("password", password));
            f.push(field(FORM_TOKEN_FIELD, t.as_str()));
            f.push(field("_eventId", "submit"));
            f.push(field("submit", "SE+CONNECTER"));
            assert(form_view(f@) =~= credential_fields(username@, password@, t@));
            Ok(f)
        },
        None => Err(LoginError::ProtocolChanged("form token".to_owned())),
    }
}

/// First hop: from the landing page to the credential form to submit.
pub fn login_form(username: &str, password: &str, landing_html: &str) -> (r: Result<
    Form,
    LoginError,
>)
    ensures
        match hidden_field(landing_html@, FORM_TOKEN_FIELD@) {
            Some(t) => r matches Ok(f) && form_view(f@) == credential_fields(
                username@,
                password@,
                t,
            ),
            None => r matches Err(e) && e@ == LoginErrorView::ProtocolChanged("form token"@),
        },
{
    let token = extract_hidden(landing_html, FORM_TOKEN_FIELD);
    credential_form(username, password, token)
}

/// Fields of the form that relays the assertion.
pub open spec fn assertion_fields(saml: Seq<char>, relay_state: Seq<char>) -> Seq<
    (Seq<char>, Seq<char>),
> {
    seq![("SAMLResponse"@, saml), ("RelayState"@, relay_state)]
}

/// The form that relays the assertion. No assertion means refused credentials, since
/// the identity provider then shows its login form again; a missing relay state means
/// that the page no longer has the expected shape.
pub fn relay_form(saml: Option<String>, relay_state: Option<String>) -> (r: Result<
    Form,
    LoginError,
>)
    ensures
        match (saml, relay_state) {
            (Some(s), Some(t)) => r matches Ok(f) && form_view(f@) == assertion_fields(s@, t@),
            (None, _) => r matches Err(e) && e@ == LoginErrorView::NoAssertion,
            (Some(_), None) => r matches Err(e) && e@ == LoginErrorView::ProtocolChanged(
                "relay state"@,
            ),
        },
{
    match (saml, relay_state) {
        (Some(s), Some(t)) => {
            let mut f: Form = Vec::new();
            f.push(field(SAML_FIELD, s.as_str()));
            f.push(field(RELAY_STATE_FIELD, t.as_str()));
            assert(form_view(f@) =~= assertion_fields(s@, t@));
            Ok(f)
        },
        (None, _) => Err(LoginError::NoAssertion),
        (Some(_), None) => Err(LoginError::ProtocolChanged("relay state".to_owned())),
    }
}

/// Second hop: from the response to the credentials to the form that relays the assertion.
pub fn assertion_form(response_html: &str) -> (r: Result<Form, LoginError>)
    ensures
        match (
            hidden_field(response_html@, SAML_FIELD@),
            hidden_field(response_html@, RELAY_STATE_FIELD@),
        ) {
            (Some(s), Some(t)) => r matches Ok(f) && form_view(f@) == assertion_fields(s, t),
            (None, _) => r matches Err(e) && e@ == LoginErrorView::NoAssertion,
            (Some(_), None) => r matches Err(e) && e@ == LoginErrorView::ProtocolChanged(
                "relay state"@,
            ),
        },
{
    let saml = extract_hidden(response_html, SAML_FIELD);
    let relay_state = extract_hidden(response_html, RELAY_STATE_FIELD);
    relay_form(saml, relay_state)
}

/// `k` is the first cookie that carries the session token.
pub open spec fn is_first_auth_cookie(cookies: Seq<(Seq<char>, Seq<char>)>, k: int) -> bool {
    0 <= k < cookies.len() && cookies[k].0 == AUTH_COOKIE@ && forall|j: int|
        0 <= j < k ==> cookies[j].0 != AUTH_COOKIE@
}

/// Last hop: the session token among the cookies held after the assertion was relayed,
/// given as name and value.
pub fn session_token(cookies: &Vec<(String, String)>) -> (r: Result<String, LoginError>)
    ensures
        match r {
            Ok(t) => exists|k: int|
                is_first_auth_cookie(form_view(cookies@), k) && t@ == cookies@[k].1@,
            Err(e) => e@ == LoginErrorView::NoToken && forall|j: int|
                0 <= j < cookies@.len() ==> cookies@[j].0@ != AUTH_COOKIE@,
        },
{
    let name = AUTH_COOKIE.to_owned();
    let mut i: usize = 0;
    while i < cookies.len()
        invariant
            i <= cookies@.len(),
            name@ == AUTH_COOKIE@,
            forall|j: int| 0 <= j < i ==> cookies@[j].0@ != AUTH_COOKIE@,
        decreases cookies@.len() - i,
    {
        if cookies[i].0 == name {
            assert(is_first_auth_cookie(form_view(cookies@), i as int));
            return Ok(cookies[i].1.clone());
        }
        i = i + 1;
    }
    Err(LoginError::NoToken)
}

} // verus!
