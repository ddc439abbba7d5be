//! Signing in to Spotify's Web API, which is optional and gives artwork and
//! tags: the links, the answers to the browser, and the tokens.
use crate::codec;
use crate::links;
use crate::metadata;
use crate::text;
use std::path::PathBuf;
use vstd::prelude::*;

verus! {

/// Where the browser is sent after the user has decided.
pub const REDIRECT: &'static str = "http://127.0.0.1:5588/callback";

/// The path of that address.
pub const CALLBACK_PATH: &'static str = "/callback";

/// What the user is asked to allow.
pub const SCOPES: &'static str = "streaming user-read-private user-read-email";

/// How large a request of the browser may be.
pub const REQUEST_LIMIT: usize = 8192;

/// How many seconds the user is given to sign in.
pub const LOGIN_PATIENCE_SECONDS: u64 = 300;

/// How many seconds the browser is given to send a request.
pub const REQUEST_PATIENCE_SECONDS: u64 = 3;

/// How many seconds before it expires a token is renewed.
pub const RENEWAL_MARGIN: u64 = 60;

/// The tokens of a user who signed in.
#[derive(Debug)]
pub struct Tokens {
    pub client_id: String,
    pub access_token: String,
    pub refresh_token: String,
    pub expires_at: u64,
}

/// The server's answer to a request for tokens.
#[derive(Debug)]
pub struct TokenResponse {
    pub access_token: String,
    pub refresh_token: Option<String>,
    pub expires_in: u64,
}

/// Why a user is not signed in.
#[derive(Debug, PartialEq, Eq)]
pub enum AuthError {
    NoConfiguration,
    InvalidClientId,
    /// The server did not exchange the code, with this status.
    ExchangeRefused(String),
    /// The server did not renew the tokens, with this status.
    RefreshRefused(String),
    EmptyAccessToken,
    NoRefreshToken,
    EmptyRefreshToken,
    IncompleteLogin,
    ClientChanged,
    Declined,
}

impl AuthError {
    /// The words of the error.
    pub open spec fn words(self) -> Seq<char> {
        match self {
            AuthError::NoConfiguration =>
                "Cannot locate configuration directory; use --cache-dir"@,
            AuthError::InvalidClientId =>
                "Enter your 32-character Spotify app Client ID (not its secret)"@,
            AuthError::ExchangeRefused(status) => "Spotify token exchange failed (HTTP "@ + status@
                + "). Check Client ID and redirect URI"@,
            AuthError::RefreshRefused(status) => "Spotify login refresh failed (HTTP "@ + status@
                + "); sign in again"@,
            AuthError::EmptyAccessToken =>
                "Spotify supplied an empty access token; sign in again"@,
            AuthError::NoRefreshToken =>
                "Spotify did not supply a refresh token; sign in again"@,
            AuthError::EmptyRefreshToken =>
                "Spotify supplied an empty refresh token; sign in again"@,
            AuthError::IncompleteLogin => "Saved login is incomplete; sign in again"@,
            AuthError::ClientChanged =>
                "Client ID changed; sign in again with this Client ID"@,
            AuthError::Declined => "Spotify sign-in was declined; sign in again when ready"@,
        }
    }

    /// The error in words.
    pub fn message(&self) -> (r: String)
        ensures
            r@ == self.words(),
    {
        match self {
            AuthError::NoConfiguration =>
                "Cannot locate configuration directory; use --cache-dir".to_owned(),
            AuthError::InvalidClientId =>
                "Enter your 32-character Spotify app Client ID (not its secret)".to_owned(),
            AuthError::ExchangeRefused(status) =>
                "Spotify token exchange failed (HTTP ".to_owned().concat(status.as_str()).concat(
                "). Check Client ID and redirect URI",
            ),
            AuthError::RefreshRefused(status) =>
                "Spotify login refresh failed (HTTP ".to_owned().concat(status.as_str()).concat(
                "); sign in again",
            ),
            AuthError::EmptyAccessToken =>
                "Spotify supplied an empty access token; sign in again".to_owned(),
            AuthError::NoRefreshToken =>
                "Spotify did not supply a refresh token; sign in again".to_owned(),
            AuthError::EmptyRefreshToken =>
                "Spotify supplied an empty refresh token; sign in again".to_owned(),
            AuthError::IncompleteLogin => "Saved login is incomplete; sign in again".to_owned(),
            AuthError::ClientChanged =>
                "Client ID changed; sign in again with this Client ID".to_owned(),
            AuthError::Declined =>
                "Spotify sign-in was declined; sign in again when ready".to_owned(),
        }
    }
}

// ---------------------------------------------------------------------------
// Where the tokens are kept
// ---------------------------------------------------------------------------

/// The directory in which tokens are kept.
#[derive(Debug)]
pub enum CacheLocation {
    /// The one that was asked for.
    Given(PathBuf),
    /// Below the user's configuration directory.
    InConfig(PathBuf),
    /// Below the user's home directory.
    InHome(PathBuf),
}

impl CacheLocation {
    /// The directories to go down from there.
    pub open spec fn below(self) -> Seq<Seq<char>> {
        match self {
            CacheLocation::Given(_) => Seq::empty(),
            CacheLocation::InConfig(_) => seq!["spotcapture"@],
            CacheLocation::InHome(_) => seq![".config"@, "spotcapture"@],
        }
    }

    /// The directories to go down from there.
    pub fn components(&self) -> (r: Vec<String>)
        ensures
            text::views(r@) == self.below(),
    {
        match self {
            CacheLocation::Given(_) => {
                let r: Vec<String> = Vec::new();
                assert(text::views(r@) =~= self.below());
                r
            },
            CacheLocation::InConfig(_) => {
                let r = text::list(&["spotcapture"]);
                assert(text::views(r@) =~= self.below());
                r
            },
            CacheLocation::InHome(_) => {
                let r = text::list(&[".config", "spotcapture"]);
                assert(text::views(r@) =~= self.below());
                r
            },
        }
    }
}

/// The directory in which tokens are kept: the one that was asked for, else one
/// in the configuration directory, else one in the home directory.
pub fn cache_dir(given: Option<PathBuf>, config: Option<PathBuf>, home: Option<PathBuf>) -> (r:
    Result<CacheLocation, AuthError>)
    ensures
        r == (match (given, config, home) {
            (Some(path), _, _) => Ok::<CacheLocation, AuthError>(CacheLocation::Given(path)),
            (None, Some(path), _) => Ok(CacheLocation::InConfig(path)),
            (None, None, Some(path)) => Ok(CacheLocation::InHome(path)),
            (None, None, None) => Err(AuthError::NoConfiguration),
        }),
{
    match given {
        Some(path) => Ok(CacheLocation::Given(path)),
        None => match config {
            Some(path) => Ok(CacheLocation::InConfig(path)),
            None => match home {
                Some(path) => Ok(CacheLocation::InHome(path)),
                None => Err(AuthError::NoConfiguration),
            },
        },
    }
}

/// The name of the file into which tokens are written before they replace the
/// old ones.
pub fn secret_file_name(process: u32, token: &str) -> (r: String)
    ensures
        r@ == ".auth-"@ + text::decimal(process as nat) + "-"@ + token@ + ".tmp"@,
{
    ".auth-".to_owned().concat(text::number(process as u128).as_str()).concat("-").concat(
        token,
    ).concat(".tmp")
}

// ---------------------------------------------------------------------------
// Signing in
// ---------------------------------------------------------------------------

/// The identifier of an application: thirty-two hexadecimal digits.
pub open spec fn valid_client(client_id: Seq<char>) -> bool {
    client_id.len() == 32 && text::all_hex(client_id)
}

/// Whether `client_id` can be the identifier of an application.
pub fn check_client_id(client_id: &str) -> (r: Result<(), AuthError>)
    ensures
        match r {
            Ok(_) => valid_client(client_id@),
            Err(e) => !valid_client(client_id@) && e == AuthError::InvalidClientId,
        },
{
    let cs = text::chars_of(client_id);
    if cs.len() == 32 && text::is_hex(cs.as_slice()) {
        Ok(())
    } else {
        Err(AuthError::InvalidClientId)
    }
}

/// What the user is told before they sign in.
pub fn login_instruction() -> (r: String)
    ensures
        r@ == "Register "@ + REDIRECT@
            + " in your Spotify app's Redirect URIs. Sign in using the link."@,
{
    "Register ".to_owned().concat(REDIRECT).concat(
        " in your Spotify app's Redirect URIs. Sign in using the link.",
    )
}

/// The text of thirty-two random bytes, which needs no escaping in a link.
pub fn random_string(bytes: &[u8]) -> (r: String)
    requires
        bytes@.len() == 32,
    ensures
        r@ == codec::base64_url(bytes@),
        r@.len() == 43,
        forall|i: int| 0 <= i < r@.len() ==> codec::url_safe(#[trigger] r@[i]),
{
    codec::encode_url_safe(bytes)
}

/// The challenge that proves later that the one who asks for tokens knows the
/// verifier: its SHA-256 digest.
pub fn code_challenge(verifier: &str) -> (r: String)
    ensures
        r@ == codec::base64_url(codec::sha256(vstd::utf8::encode_utf8(verifier@))),
        r@.len() == 43,
        forall|i: int| 0 <= i < r@.len() ==> codec::url_safe(#[trigger] r@[i]),
{
    let digest = codec::digest(verifier.as_bytes());
    codec::encode_url_safe(digest.as_slice())
}

/// The query of the link on which a user allows the recorder to read metadata.
pub open spec fn authorization_query(
    client_id: Seq<char>,
    redirect: Seq<char>,
    scopes: Seq<char>,
    state: Seq<char>,
    challenge: Seq<char>,
) -> Seq<(Seq<char>, Seq<char>)> {
    seq![
        ("client_id"@, client_id),
        ("response_type"@, "code"@),
        ("redirect_uri"@, redirect),
        ("code_challenge_method"@, "S256"@),
        ("code_challenge"@, challenge),
        ("state"@, state),
        ("scope"@, scopes),
    ]
}

fn pair(name: &str, value: &str) -> (r: (String, String))
    ensures
        r.0@ == name@,
        r.1@ == value@,
{
    (name.to_owned(), value.to_owned())
}

/// The link on which a user allows the recorder to read metadata. A browser that
/// reads the link finds the query that was put in.
pub fn authorization_url(
    client_id: &str,
    redirect: &str,
    scopes: &str,
    state: &str,
    challenge: &str,
) -> (r: String)
    ensures
        links::link_with_pairs(
            links::AUTHORIZE_PAGE@,
            authorization_query(client_id@, redirect@, scopes@, state@, challenge@),
        ) == Ok::<Seq<char>, Seq<char>>(r@),
        links::link_of(r@) matches Ok(link) ==> link.pairs == authorization_query(
            client_id@,
            redirect@,
            scopes@,
            state@,
            challenge@,
        ),
{
    let mut pairs: Vec<(String, String)> = Vec::new();
    pairs.push(pair("client_id", client_id));
    pairs.push(pair("response_type", "code"));
    pairs.push(pair("redirect_uri", redirect));
    pairs.push(pair("code_challenge_method", "S256"));
    pairs.push(pair("code_challenge", challenge));
    pairs.push(pair("state", state));
    pairs.push(pair("scope", scopes));
    assert(links::pair_views(pairs@) =~= authorization_query(
        client_id@,
        redirect@,
        scopes@,
        state@,
        challenge@,
    ));
    match links::extend_link(links::AUTHORIZE_PAGE, &pairs) {
        Ok(link) => link,
        Err(_) => String::new(),
    }
}

/// The form with which a code is exchanged for tokens.
pub fn exchange_form(code: &str, redirect: &str, client_id: &str, verifier: &str) -> (r: Vec<
    (String, String),
>)
    ensures
        links::pair_views(r@) == seq![
            ("grant_type"@, "authorization_code"@),
            ("code"@, code@),
            ("redirect_uri"@, redirect@),
            ("client_id"@, client_id@),
            ("code_verifier"@, verifier@),
        ],
{
    let mut pairs: Vec<(String, String)> = Vec::new();
    pairs.push(pair("grant_type", "authorization_code"));
    pairs.push(pair("code", code));
    pairs.push(pair("redirect_uri", redirect));
    pairs.push(pair("client_id", client_id));
    pairs.push(pair("code_verifier", verifier));
    assert(links::pair_views(pairs@) =~= seq![
        ("grant_type"@, "authorization_code"@),
        ("code"@, code@),
        ("redirect_uri"@, redirect@),
        ("client_id"@, client_id@),
        ("code_verifier"@, verifier@),
    ]);
    pairs
}

/// The form with which tokens are renewed.
pub fn refresh_form(tokens: &Tokens) -> (r: Vec<(String, String)>)
    ensures
        links::pair_views(r@) == seq![
            ("grant_type"@, "refresh_token"@),
            ("refresh_token"@, tokens.refresh_token@),
            ("client_id"@, tokens.client_id@),
        ],
{
    let mut pairs: Vec<(String, String)> = Vec::new();
    pairs.push(pair("grant_type", "refresh_token"));
    pairs.push(pair("refresh_token", tokens.refresh_token.as_str()));
    pairs.push(pair("client_id", tokens.client_id.as_str()));
    assert(links::pair_views(pairs@) =~= seq![
        ("grant_type"@, "refresh_token"@),
        ("refresh_token"@, tokens.refresh_token@),
        ("client_id"@, tokens.client_id@),
    ]);
    pairs
}

// ---------------------------------------------------------------------------
// The callback of the browser
// ---------------------------------------------------------------------------

/// What the browser brought.
#[derive(Debug, PartialEq, Eq)]
pub enum LoginCallback {
    /// The user agreed, and this is the code.
    Code(String),
    /// The user did not agree.
    Declined,
}

/// What a callback says.
pub enum CallbackView {
    Code(Seq<char>),
    Declined,
}

impl View for LoginCallback {
    type V = CallbackView;

    open spec fn view(&self) -> CallbackView {
        match self {
            LoginCallback::Code(code) => CallbackView::Code(code@),
            LoginCallback::Declined => CallbackView::Declined,
        }
    }
}

/// Why a callback is not taken.
#[derive(Debug)]
pub enum CallbackError {
    WrongPath,
    /// It is no URL, in the words of the parser.
    InvalidUrl(String),
    RepeatedParameter,
    StateMismatch,
    MissingCode,
    EmptyCode,
}

impl CallbackError {
    /// The words of the error.
    pub open spec fn words(self) -> Seq<char> {
        match self {
            CallbackError::WrongPath => "Wrong callback path"@,
            CallbackError::InvalidUrl(words) => words@,
            CallbackError::RepeatedParameter => "Repeated login callback parameter"@,
            CallbackError::StateMismatch => "Login state mismatch"@,
            CallbackError::MissingCode => "Missing login code"@,
            CallbackError::EmptyCode => "Empty login code"@,
        }
    }

    /// The error in words.
    pub fn message(&self) -> (r: String)
        ensures
            r@ == self.words(),
    {
        match self {
            CallbackError::WrongPath => "Wrong callback path".to_owned(),
            CallbackError::InvalidUrl(words) => words.clone(),
            CallbackError::RepeatedParameter => "Repeated login callback parameter".to_owned(),
            CallbackError::StateMismatch => "Login state mismatch".to_owned(),
            CallbackError::MissingCode => "Missing login code".to_owned(),
            CallbackError::EmptyCode => "Empty login code".to_owned(),
        }
    }
}

/// The value of the first parameter of a name.
pub open spec fn parameter(pairs: Seq<(Seq<char>, Seq<char>)>, name: Seq<char>) -> Option<Seq<char>>
    decreases pairs.len(),
{
    if pairs.len() == 0 {
        None
    } else if pairs[0].0 == name {
        Some(pairs[0].1)
    } else {
        parameter(pairs.drop_first(), name)
    }
}

/// No parameter is given twice.
pub open spec fn unambiguous(pairs: Seq<(Seq<char>, Seq<char>)>) -> bool {
    forall|i: int, j: int|
        0 <= i < j < pairs.len() ==> (#[trigger] pairs[i]).0 != (#[trigger] pairs[j]).0
}

/// What the parameters of a callback come to, where `state` is what was sent
/// along with the user: it must come back, and nothing may be ambiguous.
pub open spec fn callback_in(pairs: Seq<(Seq<char>, Seq<char>)>, state: Seq<char>) -> Result<
    CallbackView,
    CallbackError,
> {
    if !unambiguous(pairs) {
        Err(CallbackError::RepeatedParameter)
    } else if parameter(pairs, "state"@) != Some(state) {
        Err(CallbackError::StateMismatch)
    } else if parameter(pairs, "error"@) is Some {
        Ok(CallbackView::Declined)
    } else {
        match parameter(pairs, "code"@) {
            Some(code) => if code.len() == 0 {
                Err(CallbackError::EmptyCode)
            } else {
                Ok(CallbackView::Code(code))
            },
            None => Err(CallbackError::MissingCode),
        }
    }
}

/// The result of reading a callback comes to this.
pub open spec fn callback_is(
    r: Result<LoginCallback, CallbackError>,
    expected: Result<CallbackView, CallbackError>,
) -> bool {
    match r {
        Ok(callback) => expected == Ok::<CallbackView, CallbackError>(callback@),
        Err(e) => expected == Err::<CallbackView, CallbackError>(e),
    }
}

fn read_parameter<'a>(pairs: &'a Vec<(String, String)>, name: &str) -> (r: Option<&'a String>)
    ensures
        match r {
            Some(value) => parameter(links::pair_views(pairs@), name@) == Some(value@),
            None => parameter(links::pair_views(pairs@), name@) is None,
        },
{
    let ghost all = links::pair_views(pairs@);
    assert(all.skip(0) =~= all);
    for i in 0..pairs.len()
        invariant
            all == links::pair_views(pairs@),
            parameter(all, name@) == parameter(all.skip(i as int), name@),
    {
        assert(all.skip(i as int)[0] == (pairs@[i as int].0@, pairs@[i as int].1@));
        if text::same(pairs[i].0.as_str(), name) {
            return Some(&pairs[i].1);
        }
        assert(all.skip(i as int).drop_first() =~= all.skip(i as int + 1));
    }
    None
}

fn is_unambiguous(pairs: &Vec<(String, String)>) -> (r: bool)
    ensures
        r == unambiguous(links::pair_views(pairs@)),
{
    let ghost all = links::pair_views(pairs@);
    for j in 0..pairs.len()
        invariant
            all == links::pair_views(pairs@),
            forall|a: int, b: int| 0 <= a < b < j ==> (#[trigger] all[a]).0 != (#[trigger] all[b]).0,
    {
        for i in 0..j
            invariant
                j < pairs@.len(),
                all == links::pair_views(pairs@),
                forall|a: int| 0 <= a < i ==> (#[trigger] all[a]).0 != all[j as int].0,
        {
            if text::same(pairs[i].0.as_str(), pairs[j].0.as_str()) {
                assert(all[i as int].0 == all[j as int].0);
                return false;
            }
        }
    }
    true
}

/// What the parameters of a callback come to.
pub fn callback_of_pairs(pairs: &Vec<(String, String)>, expected_state: &str) -> (r: Result<
    LoginCallback,
    CallbackError,
>)
    ensures
        callback_is(r, callback_in(links::pair_views(pairs@), expected_state@)),
{
    if !is_unambiguous(pairs) {
        return Err(CallbackError::RepeatedParameter);
    }
    let known = match read_parameter(pairs, "state") {
        Some(state) => text::same(state.as_str(), expected_state),
        None => false,
    };
    if !known {
        return Err(CallbackError::StateMismatch);
    }
    if read_parameter(pairs, "error").is_some() {
        return Ok(LoginCallback::Declined);
    }
    match read_parameter(pairs, "code") {
        Some(code) => {
            if code.as_str().is_empty() {
                Err(CallbackError::EmptyCode)
            } else {
                Ok(LoginCallback::Code(code.clone()))
            }
        },
        None => Err(CallbackError::MissingCode),
    }
}

/// A target of a request with this path and a query.
pub open spec fn has_path(target: Seq<char>, path: Seq<char>) -> bool {
    let parts = text::split(text::Charset::One('?'), target);
    parts.len() >= 2 && parts[0] == path
}

/// The address of a target at the callback's host.
pub open spec fn callback_address(target: Seq<char>) -> Seq<char> {
    "http://127.0.0.1:5588"@ + target
}

/// What the target of a request of the browser comes to, where `expected_state`
/// and `expected_path` are the state and the path of this login.
pub fn callback_code(target: &str, expected_state: &str, expected_path: &str) -> (r: Result<
    LoginCallback,
    CallbackError,
>)
    ensures
        if !has_path(target@, expected_path@) {
            r is Err && r->Err_0 == CallbackError::WrongPath
        } else {
            match links::link_of(callback_address(target@)) {
                Ok(link) => callback_is(r, callback_in(link.pairs, expected_state@)),
                Err(words) => r is Err && r->Err_0 is InvalidUrl && r->Err_0->InvalidUrl_0@
                    == words,
            }
        },
{
    let cs = text::chars_of(target);
    let parts = text::split_at(text::Charset::One('?'), cs.as_slice());
    assert(text::runs(parts@)[0] == parts@[0]@);
    if parts.len() < 2 {
        return Err(CallbackError::WrongPath);
    }
    let path = text::string_of(parts[0].as_slice());
    if !text::same(path.as_str(), expected_path) {
        return Err(CallbackError::WrongPath);
    }
    let address = "http://127.0.0.1:5588".to_owned().concat(target);
    match links::parse_link(address.as_str()) {
        Ok(link) => callback_of_pairs(&link.pairs, expected_state),
        Err(words) => Err(CallbackError::InvalidUrl(words)),
    }
}

/// A callback is taken, to sign in or to give up, only if it brings back the
/// state of this login, and no other value for it.
pub proof fn law_callback_needs_state(pairs: Seq<(Seq<char>, Seq<char>)>, state: Seq<char>)
    requires
        callback_in(pairs, state) is Ok,
    ensures
        exists|i: int| 0 <= i < pairs.len() && #[trigger] pairs[i] == ("state"@, state),
        forall|i: int|
            0 <= i < pairs.len() && (#[trigger] pairs[i]).0 == "state"@ ==> pairs[i].1 == state,
{
    lemma_parameter(pairs, "state"@);
    let i = choose|i: int| 0 <= i < pairs.len() && #[trigger] pairs[i] == ("state"@, state);
    assert forall|j: int| 0 <= j < pairs.len() && (#[trigger] pairs[j]).0 == "state"@ implies pairs[j].1
        == state by {
        if i < j {
            assert(pairs[i].0 != pairs[j].0);
        } else if j < i {
            assert(pairs[j].0 != pairs[i].0);
        }
    }
}

/// The code that a callback brings is the one it names, and is not empty; it is
/// taken only where no error is named.
pub proof fn law_callback_code(pairs: Seq<(Seq<char>, Seq<char>)>, state: Seq<char>, code: Seq<char>)
    requires
        callback_in(pairs, state) == Ok::<CallbackView, CallbackError>(CallbackView::Code(code)),
    ensures
        code.len() > 0,
        exists|i: int| 0 <= i < pairs.len() && #[trigger] pairs[i] == ("code"@, code),
        forall|i: int| 0 <= i < pairs.len() ==> (#[trigger] pairs[i]).0 != "error"@,
{
    lemma_parameter(pairs, "code"@);
    lemma_parameter(pairs, "error"@);
}

/// A callback without repeated parameters that brings back the state ends the
/// login: with its code, if it names one that is not empty and no error, and
/// otherwise, if it names an error, by giving up.
pub proof fn law_good_callback_is_taken(
    pairs: Seq<(Seq<char>, Seq<char>)>,
    state: Seq<char>,
    code: Seq<char>,
)
    requires
        unambiguous(pairs),
        pairs.contains(("state"@, state)),
    ensures
        (exists|i: int| 0 <= i < pairs.len() && (#[trigger] pairs[i]).0 == "error"@) ==> callback_in(
            pairs,
            state,
        ) == Ok::<CallbackView, CallbackError>(CallbackView::Declined),
        pairs.contains(("code"@, code)) && code.len() > 0 && (forall|i: int|
            0 <= i < pairs.len() ==> (#[trigger] pairs[i]).0 != "error"@) ==> callback_in(
            pairs,
            state,
        ) == Ok::<CallbackView, CallbackError>(CallbackView::Code(code)),
{
    lemma_parameter(pairs, "error"@);
    lemma_only_parameter(pairs, "state"@, state);
    if pairs.contains(("code"@, code)) {
        lemma_only_parameter(pairs, "code"@, code);
    }
}

proof fn lemma_only_parameter(
    pairs: Seq<(Seq<char>, Seq<char>)>,
    name: Seq<char>,
    value: Seq<char>,
)
    requires
        unambiguous(pairs),
        pairs.contains((name, value)),
    ensures
        parameter(pairs, name) == Some(value),
{
    lemma_parameter(pairs, name);
    let i = choose|i: int| 0 <= i < pairs.len() && #[trigger] pairs[i] == (name, value);
    match parameter(pairs, name) {
        Some(found) => {
            let j = choose|j: int| 0 <= j < pairs.len() && #[trigger] pairs[j] == (name, found);
            if i < j {
                assert(pairs[i].0 != pairs[j].0);
            } else if j < i {
                assert(pairs[j].0 != pairs[i].0);
            }
        },
        None => {
            assert(pairs[i].0 != name);
        },
    }
}

proof fn lemma_parameter(pairs: Seq<(Seq<char>, Seq<char>)>, name: Seq<char>)
    ensures
        match parameter(pairs, name) {
            Some(value) => exists|i: int|
                0 <= i < pairs.len() && #[trigger] pairs[i] == (name, value),
            None => forall|i: int| 0 <= i < pairs.len() ==> (#[trigger] pairs[i]).0 != name,
        },
    decreases pairs.len(),
{
    if pairs.len() > 0 {
        if pairs[0].0 == name {
            assert(pairs[0] == (name, pairs[0].1));
        } else {
            let rest = pairs.drop_first();
            lemma_parameter(rest, name);
            match parameter(rest, name) {
                Some(value) => {
                    let i = choose|i: int|
                        0 <= i < rest.len() && #[trigger] rest[i] == (name, value);
                    assert(pairs[i + 1] == (name, value));
                },
                None => {
                    assert forall|i: int| 0 <= i < pairs.len() implies (#[trigger] pairs[i]).0
                        != name by {
                        if i > 0 {
                            assert(rest[i - 1].0 != name);
                        }
                    }
                },
            }
        }
    }
}

// ---------------------------------------------------------------------------
// The requests of the browser
// ---------------------------------------------------------------------------

/// What to do after a part of a request was read.
#[derive(Clone, Copy, Debug, PartialEq, Eq, Structural)]
pub enum Reading {
    /// Read on.
    More,
    /// The head of the request is there.
    Complete,
    /// The request is too large.
    TooLarge,
}

/// The empty line that ends the head of a request.
pub open spec fn head_end() -> Seq<u8> {
    seq![13u8, 10u8, 13u8, 10u8]
}

/// The head of the request is there.
pub open spec fn head_ended(request: Seq<u8>) -> bool {
    exists|i: int|
        0 <= i && i + 4 <= request.len() && #[trigger] request.subrange(i, i + 4) == head_end()
}

fn has_head_ended(request: &Vec<u8>) -> (r: bool)
    ensures
        r == head_ended(request@),
{
    if request.len() < 4 {
        return false;
    }
    for i in 0..request.len() - 3
        invariant
            request@.len() >= 4,
            forall|j: int|
                0 <= j < i ==> #[trigger] request@.subrange(j, j + 4) != head_end(),
    {
        if request[i] == 13 && request[i + 1] == 10 && request[i + 2] == 13 && request[i + 3] == 10 {
            assert(request@.subrange(i as int, i as int + 4) =~= head_end());
            return true;
        }
        assert(request@.subrange(i as int, i as int + 4) != head_end()) by {
            let w = request@.subrange(i as int, i as int + 4);
            assert(w[0] == request@[i as int] && w[1] == request@[i + 1] && w[2] == request@[i + 2]
                && w[3] == request@[i + 3]);
        }
    }
    false
}

/// Adds what was read next to a request; nothing more was there where `chunk` is
/// empty.
pub fn read_request(request: &mut Vec<u8>, chunk: &[u8]) -> (r: Reading)
    ensures
        final(request)@ == old(request)@ + chunk@,
        r == (if chunk@.len() == 0 {
            Reading::Complete
        } else if final(request)@.len() > REQUEST_LIMIT {
            Reading::TooLarge
        } else if head_ended(final(request)@) {
            Reading::Complete
        } else {
            Reading::More
        }),
{
    if chunk.len() == 0 {
        assert(request@ =~= request@ + chunk@);
        return Reading::Complete;
    }
    crate::output::push_bytes(request, chunk);
    if request.len() > REQUEST_LIMIT {
        Reading::TooLarge
    } else if has_head_ended(request) {
        Reading::Complete
    } else {
        Reading::More
    }
}

/// The target of a `GET` request: the second word of its first line, or nothing
/// where there is none. `None` for any other request.
pub open spec fn get_target(request: Seq<char>) -> Option<Seq<char>> {
    let first = if text::lines(request).len() > 0 {
        text::lines(request)[0]
    } else {
        Seq::empty()
    };
    let words = text::words(first);
    if words.len() > 0 && words[0] == "GET"@ {
        Some(
            if words.len() > 1 {
                words[1]
            } else {
                Seq::empty()
            },
        )
    } else {
        None
    }
}

/// The target of a `GET` request.
pub fn request_target(request: &str) -> (r: Option<String>)
    ensures
        text::option_view(r) == get_target(request@),
{
    let cs = text::chars_of(request);
    let lines = text::lines_of(cs.as_slice());
    let ghost all = text::lines(request@);
    assert(all.len() == lines@.len());
    let empty: Vec<char> = Vec::new();
    let first = if lines.len() > 0 {
        assert(all[0] == lines@[0]@);
        lines[0].as_slice()
    } else {
        empty.as_slice()
    };
    let words = text::words_of(first);
    let ghost said = text::words(first@);
    assert(said.len() == words@.len());
    if words.len() == 0 {
        return None;
    }
    assert(said[0] == words@[0]@);
    let method = text::string_of(words[0].as_slice());
    if !text::same(method.as_str(), "GET") {
        return None;
    }
    if words.len() > 1 {
        assert(said[1] == words@[1]@);
        Some(text::string_of(words[1].as_slice()))
    } else {
        Some(String::new())
    }
}

/// The status and the words with which the browser is answered.
pub open spec fn answer(callback: Result<LoginCallback, CallbackError>) -> (Seq<char>, Seq<char>) {
    match callback {
        Ok(LoginCallback::Code(_)) => (
            "200 OK"@,
            "Spotify sign-in received. Return to SpotCapture."@,
        ),
        Ok(LoginCallback::Declined) => (
            "200 OK"@,
            "Spotify sign-in was declined. Return to SpotCapture to try again."@,
        ),
        Err(_) => (
            "400 Bad Request"@,
            "Invalid login callback. Use the original SpotCapture login link."@,
        ),
    }
}

/// The response with a status and words, which says how many bytes they take.
pub open spec fn http_response(status: Seq<char>, body: Seq<char>) -> Seq<char> {
    "HTTP/1.1 "@ + status + "\r\nContent-Type: text/plain\r\nContent-Length: "@ + text::decimal(
        text::size(body),
    ) + "\r\nConnection: close\r\n\r\n"@ + body
}

/// The response to the browser that brought this callback.
pub fn login_response(callback: &Result<LoginCallback, CallbackError>) -> (r: String)
    ensures
        r@ == http_response(answer(*callback).0, answer(*callback).1),
{
    let (status, body) = match callback {
        Ok(LoginCallback::Code(_)) => (
            "200 OK",
            "Spotify sign-in received. Return to SpotCapture.",
        ),
        Ok(LoginCallback::Declined) => (
            "200 OK",
            "Spotify sign-in was declined. Return to SpotCapture to try again.",
        ),
        Err(_) => (
            "400 Bad Request",
            "Invalid login callback. Use the original SpotCapture login link.",
        ),
    };
    let size: usize = text::size_of(body);
    "HTTP/1.1 ".to_owned().concat(status).concat(
        "\r\nContent-Type: text/plain\r\nContent-Length: ",
    ).concat(text::number(size as u128).as_str()).concat("\r\nConnection: close\r\n\r\n").concat(
        body,
    )
}

/// What to do about a request of the browser.
#[derive(Debug)]
pub enum LoginStep {
    /// It is no `GET` request: drop it and wait for the next.
    Ignore,
    /// Send this answer and wait for the next request.
    Refuse(String),
    /// Send this answer; the login goes on with this code.
    Accept(String, String),
    /// Send this answer; the login has failed.
    GiveUp(String),
}

/// What to do about a request of the browser, where `state` and `path` are those
/// of this login.
pub fn authorize(request: &[u8], state: &str, path: &str) -> (r: LoginStep)
    ensures
        match get_target(codec::utf8_lossy(request@)) {
            None => r is Ignore,
            Some(target) => {
                let refused = http_response(
                    "400 Bad Request"@,
                    "Invalid login callback. Use the original SpotCapture login link."@,
                );
                let good = has_path(target, path@) && links::link_of(callback_address(target))
                    is Ok;
                let outcome = callback_in(
                    links::link_of(callback_address(target))->Ok_0.pairs,
                    state@,
                );
                if good && outcome is Ok {
                    match outcome->Ok_0 {
                        CallbackView::Code(code) => {
                            &&& r is Accept
                            &&& r->Accept_0@ == http_response(
                                "200 OK"@,
                                "Spotify sign-in received. Return to SpotCapture."@,
                            )
                            &&& r->Accept_1@ == code
                        },
                        CallbackView::Declined => {
                            &&& r is GiveUp
                            &&& r->GiveUp_0@ == http_response(
                                "200 OK"@,
                                "Spotify sign-in was declined. Return to SpotCapture to try again."@,
                            )
                        },
                    }
                } else {
                    r is Refuse && r->Refuse_0@ == refused
                }
            },
        },
{
    let words = codec::read_lossy(request);
    let target = match request_target(words.as_str()) {
        Some(target) => target,
        None => return LoginStep::Ignore,
    };
    let callback = callback_code(target.as_str(), state, path);
    let response = login_response(&callback);
    match callback {
        Ok(LoginCallback::Code(code)) => LoginStep::Accept(response, code),
        Ok(LoginCallback::Declined) => LoginStep::GiveUp(response),
        Err(_) => LoginStep::Refuse(response),
    }
}

// ---------------------------------------------------------------------------
// Tokens
// ---------------------------------------------------------------------------

/// Whether the server exchanged a code, going by the status of its answer, which
/// is also given in words.
pub fn check_exchange(status: u16, shown: &str) -> (r: Result<(), AuthError>)
    ensures
        match r {
            Ok(_) => metadata::success(status),
            Err(AuthError::ExchangeRefused(s)) => !metadata::success(status) && s@ == shown@,
            Err(_) => false,
        },
{
    if 200 <= status && status < 300 {
        Ok(())
    } else {
        Err(AuthError::ExchangeRefused(shown.to_owned()))
    }
}

/// Whether the server renewed the tokens, going by the status of its answer,
/// which is also given in words.
pub fn check_refresh(status: u16, shown: &str) -> (r: Result<(), AuthError>)
    ensures
        match r {
            Ok(_) => metadata::success(status),
            Err(AuthError::RefreshRefused(s)) => !metadata::success(status) && s@ == shown@,
            Err(_) => false,
        },
{
    if 200 <= status && status < 300 {
        Ok(())
    } else {
        Err(AuthError::RefreshRefused(shown.to_owned()))
    }
}

/// When a token expires that is good for so many seconds from now.
pub open spec fn expiry(now: u64, expires_in: u64) -> u64 {
    if now + expires_in > u64::MAX {
        u64::MAX
    } else {
        (now + expires_in) as u64
    }
}

/// Why tokens are not taken from the server's answer to a code, if so.
pub open spec fn login_refused(response: TokenResponse) -> Option<AuthError> {
    if response.access_token@.len() == 0 {
        Some(AuthError::EmptyAccessToken)
    } else if response.refresh_token is None {
        Some(AuthError::NoRefreshToken)
    } else if response.refresh_token->0@.len() == 0 {
        Some(AuthError::EmptyRefreshToken)
    } else {
        None
    }
}

/// The tokens that the server's answer to a code gives.
pub fn login(client_id: String, response: TokenResponse, now: u64) -> (r: Result<Tokens, AuthError>)
    ensures
        match r {
            Ok(tokens) => {
                &&& login_refused(response) is None
                &&& tokens.client_id == client_id
                &&& tokens.access_token == response.access_token
                &&& tokens.refresh_token == response.refresh_token->0
                &&& tokens.expires_at == expiry(now, response.expires_in)
            },
            Err(e) => login_refused(response) == Some(e),
        },
{
    if response.access_token.as_str().is_empty() {
        return Err(AuthError::EmptyAccessToken);
    }
    match response.refresh_token {
        Some(refresh_token) => {
            if refresh_token.as_str().is_empty() {
                return Err(AuthError::EmptyRefreshToken);
            }
            Ok(
                Tokens {
                    client_id,
                    access_token: response.access_token,
                    refresh_token,
                    expires_at: now.saturating_add(response.expires_in),
                },
            )
        },
        None => Err(AuthError::NoRefreshToken),
    }
}

/// Why saved tokens are not used, if so. `client_id` is the application that was
/// asked for; none, or an empty one, means any.
pub open spec fn saved_refused(tokens: Tokens, client_id: Option<Seq<char>>) -> Option<AuthError> {
    if tokens.access_token@.len() == 0 || tokens.refresh_token@.len() == 0 {
        Some(AuthError::IncompleteLogin)
    } else if client_id is Some && client_id->0.len() > 0 && client_id->0 != tokens.client_id@ {
        Some(AuthError::ClientChanged)
    } else {
        None
    }
}

/// Tokens that need no renewal yet.
pub open spec fn fresh(tokens: Tokens, now: u64) -> bool {
    tokens.expires_at > now + RENEWAL_MARGIN
}

/// Whether saved tokens may be used, and if so whether they are fresh; otherwise
/// they are to be renewed first.
pub fn load(tokens: &Tokens, client_id: Option<&str>, now: u64) -> (r: Result<bool, AuthError>)
    requires
        now + RENEWAL_MARGIN <= u64::MAX,
    ensures
        ({
            let refused = saved_refused(
                *tokens,
                match client_id {
                    Some(id) => Some(id@),
                    None => None,
                },
            );
            match r {
                Ok(is_fresh) => refused is None && is_fresh == fresh(*tokens, now),
                Err(e) => refused == Some(e),
            }
        }),
{
    if tokens.access_token.as_str().is_empty() || tokens.refresh_token.as_str().is_empty() {
        return Err(AuthError::IncompleteLogin);
    }
    if let Some(id) = client_id {
        if !id.is_empty() && !text::same(id, tokens.client_id.as_str()) {
            return Err(AuthError::ClientChanged);
        }
    }
    Ok(tokens.expires_at > now + RENEWAL_MARGIN)
}

/// The refresh token after a renewal: the new one, if there is one.
pub open spec fn renewed_refresh_token(
    tokens: Tokens,
    response: TokenResponse,
) -> String {
    match response.refresh_token {
        Some(token) => if token@.len() > 0 {
            token
        } else {
            tokens.refresh_token
        },
        None => tokens.refresh_token,
    }
}

/// The tokens that the server's answer to a renewal gives.
pub fn refresh(tokens: Tokens, response: TokenResponse, now: u64) -> (r: Result<Tokens, AuthError>)
    ensures
        match r {
            Ok(renewed) => {
                &&& response.access_token@.len() > 0
                &&& renewed == (Tokens {
                    client_id: tokens.client_id,
                    access_token: response.access_token,
                    refresh_token: renewed_refresh_token(tokens, response),
                    expires_at: expiry(now, response.expires_in),
                })
            },
            Err(e) => response.access_token@.len() == 0 && e == AuthError::EmptyAccessToken,
        },
{
    if response.access_token.as_str().is_empty() {
        return Err(AuthError::EmptyAccessToken);
    }
    let mut renewed = tokens;
    renewed.access_token = response.access_token;
    if let Some(token) = response.refresh_token {
        if !token.as_str().is_empty() {
            renewed.refresh_token = token;
        }
    }
    renewed.expires_at = now.saturating_add(response.expires_in);
    Ok(renewed)
}

/// The tokens of a login are complete: when they are read back later, for the
/// same application or any, they are used, and need no renewal as long as they
/// are good for.
pub proof fn law_login_can_be_loaded(response: TokenResponse, tokens: Tokens, now: u64, later: u64)
    requires
        login_refused(response) is None,
        tokens.access_token == response.access_token,
        tokens.refresh_token == response.refresh_token->0,
        tokens.expires_at == expiry(now, response.expires_in),
    ensures
        saved_refused(tokens, None) is None,
        saved_refused(tokens, Some(tokens.client_id@)) is None,
        later + RENEWAL_MARGIN < now + response.expires_in && later + RENEWAL_MARGIN < u64::MAX
            ==> fresh(tokens, later),
{
}

/// Renewing tokens that can be used gives tokens that can be used, for the same
/// application.
pub proof fn law_renewal_can_be_loaded(
    tokens: Tokens,
    response: TokenResponse,
    renewed: Tokens,
    client_id: Option<Seq<char>>,
)
    requires
        saved_refused(tokens, client_id) is None,
        response.access_token@.len() > 0,
        renewed.client_id == tokens.client_id,
        renewed.access_token == response.access_token,
        renewed.refresh_token == renewed_refresh_token(tokens, response),
    ensures
        saved_refused(renewed, client_id) is None,
{
}

// ---------------------------------------------------------------------------
// Laws of signing in
// ---------------------------------------------------------------------------

/// The identifier of an application is thirty-two hexadecimal digits, and nothing
/// else is one.
pub proof fn law_what_an_application_is(client_id: Seq<char>)
    ensures
        valid_client(client_id) <==> client_id.len() == 32 && forall|i: int|
            0 <= i < client_id.len() ==> {
                ||| '0' <= #[trigger] client_id[i] <= '9'
                ||| 'a' <= client_id[i] <= 'f'
                ||| 'A' <= client_id[i] <= 'F'
            },
{
    if valid_client(client_id) {
        assert forall|i: int| 0 <= i < client_id.len() implies {
            ||| '0' <= #[trigger] client_id[i] <= '9'
            ||| 'a' <= client_id[i] <= 'f'
            ||| 'A' <= client_id[i] <= 'F'
        } by {
            assert(text::hex_digit(client_id[i]));
        }
    }
}

/// The query of the login link gives each thing once and under its own name: the
/// application, where to come back to, the state, the challenge with its method,
/// and what is to be allowed.
pub proof fn law_login_link_says_everything(
    client_id: Seq<char>,
    redirect: Seq<char>,
    scopes: Seq<char>,
    state: Seq<char>,
    challenge: Seq<char>,
)
    ensures
        ({
            let query = authorization_query(client_id, redirect, scopes, state, challenge);
            &&& query.len() == 7
            &&& unambiguous(query)
            &&& parameter(query, "client_id"@) == Some(client_id)
            &&& parameter(query, "response_type"@) == Some("code"@)
            &&& parameter(query, "redirect_uri"@) == Some(redirect)
            &&& parameter(query, "code_challenge_method"@) == Some("S256"@)
            &&& parameter(query, "code_challenge"@) == Some(challenge)
            &&& parameter(query, "state"@) == Some(state)
            &&& parameter(query, "scope"@) == Some(scopes)
        }),
{
    reveal_strlit("client_id");
    reveal_strlit("response_type");
    reveal_strlit("redirect_uri");
    reveal_strlit("code_challenge_method");
    reveal_strlit("code_challenge");
    reveal_strlit("state");
    reveal_strlit("scope");
    assert("client_id"@.len() == 9 && "response_type"@.len() == 13 && "redirect_uri"@.len() == 12);
    assert("code_challenge_method"@.len() == 21 && "code_challenge"@.len() == 14);
    assert("state"@.len() == 5 && "scope"@.len() == 5);
    assert("state"@[1] == 't' && "scope"@[1] == 'c');
    let query = authorization_query(client_id, redirect, scopes, state, challenge);
    assert(unambiguous(query));
    assert(query[0] == ("client_id"@, client_id));
    assert(query[1] == ("response_type"@, "code"@));
    assert(query[2] == ("redirect_uri"@, redirect));
    assert(query[3] == ("code_challenge_method"@, "S256"@));
    assert(query[4] == ("code_challenge"@, challenge));
    assert(query[5] == ("state"@, state));
    assert(query[6] == ("scope"@, scopes));
    lemma_only_parameter(query, "client_id"@, client_id);
    lemma_only_parameter(query, "response_type"@, "code"@);
    lemma_only_parameter(query, "redirect_uri"@, redirect);
    lemma_only_parameter(query, "code_challenge_method"@, "S256"@);
    lemma_only_parameter(query, "code_challenge"@, challenge);
    lemma_only_parameter(query, "state"@, state);
    lemma_only_parameter(query, "scope"@, scopes);
}

/// The target of a request is what stands between the method and the version in
/// its first line, whatever follows that line; a request with another method has
/// none.
pub proof fn law_target_of_a_request(
    method: Seq<char>,
    target: Seq<char>,
    version: Seq<char>,
    rest: Seq<char>,
)
    requires
        method.len() > 0,
        target.len() > 0,
        version.len() > 0,
        forall|i: int| 0 <= i < method.len() ==> !text::white_space(#[trigger] method[i]),
        forall|i: int| 0 <= i < target.len() ==> !text::white_space(#[trigger] target[i]),
        forall|i: int| 0 <= i < version.len() ==> !text::white_space(#[trigger] version[i]),
    ensures
        get_target(method + seq![' '] + (target + seq![' '] + version) + seq!['\r', '\n'] + rest)
            == if method == "GET"@ {
            Some(target)
        } else {
            None
        },
{
    let inner = target + seq![' '] + version;
    let first = method + seq![' '] + inner;
    text::law_one_word(method);
    text::law_one_word(target);
    text::law_one_word(version);
    text::law_words_are_parted(target, ' ', version);
    text::law_words_are_parted(method, ' ', inner);
    assert(seq![target] + seq![version] =~= seq![target, version]);
    assert(seq![method] + seq![target, version] =~= seq![method, target, version]);
    assert(!first.contains('\n')) by {
        if first.contains('\n') {
            let i = choose|i: int| 0 <= i < first.len() && first[i] == '\n';
            let m = method.len() as int;
            let t = target.len() as int;
            if i < m {
                assert(!text::white_space(method[i]));
            } else if m < i < m + 1 + t {
                assert(!text::white_space(target[i - m - 1]));
            } else if i > m + 1 + t {
                assert(!text::white_space(version[i - m - t - 2]));
            }
        }
    }
    assert(first.last() == version.last());
    assert(!text::white_space(version[version.len() - 1]));
    text::law_lines_end_at_line_feeds(first, rest);
}

/// A target has a path exactly if the path and a question mark are its front. (No
/// path holds a question mark.)
pub proof fn law_path_of_a_target(target: Seq<char>, path: Seq<char>)
    requires
        !path.contains('?'),
    ensures
        has_path(target, path) <==> (path + seq!['?']).is_prefix_of(target),
{
    let set = text::Charset::One('?');
    let parts = text::split(set, target);
    text::law_joining_undoes_split(target, '?');
    if has_path(target, path) {
        let rest = parts.skip(1);
        assert(parts =~= seq![parts[0]] + rest);
        text::law_joined_in_parts(seq![parts[0]], rest, seq!['?']);
        text::law_one_part_is_joined(parts[0], seq!['?']);
        assert(target == path + seq!['?'] + text::joined(rest, seq!['?']));
        assert(target.take(path.len() as int + 1) =~= path + seq!['?']);
    }
    if (path + seq!['?']).is_prefix_of(target) {
        let n = path.len() as int;
        let query = target.skip(n + 1);
        assert(target.take(n + 1) =~= path + seq!['?']);
        assert(target =~= path + seq!['?'] + query);
        assert forall|i: int| 0 <= i < path.len() implies !text::member(set, #[trigger] path[i]) by {
            if path[i] == '?' {
                assert(path.contains('?'));
            }
        }
        text::law_one_piece(set, path);
        text::law_separator_cuts(set, path, '?', query);
        text::law_joining_undoes_split(query, '?');
        assert(parts[0] == path);
    }
}

/// A response is a status line, three headers and an empty line, then the words;
/// the third line says how many bytes they take.
pub proof fn law_response_has_its_length(status: Seq<char>, body: Seq<char>)
    requires
        !status.contains('\n'),
        status.len() > 0,
        status.last() != '\r',
    ensures
        text::lines(http_response(status, body)) == seq![
            "HTTP/1.1 "@ + status,
            "Content-Type: text/plain"@,
            "Content-Length: "@ + text::decimal(text::size(body)),
            "Connection: close"@,
            Seq::<char>::empty(),
        ] + text::lines(body),
        body.is_suffix_of(http_response(status, body)),
{
    let end = seq!['\r', '\n'];
    let digits = text::decimal(text::size(body));
    let none = Seq::<char>::empty();
    let l1 = "HTTP/1.1 "@ + status;
    let l2 = "Content-Type: text/plain"@;
    let l3 = "Content-Length: "@ + digits;
    let l4 = "Connection: close"@;
    text::lemma_decimal_digits(text::size(body));
    lemma_header_lines();
    lemma_header(l1, "HTTP/1.1 "@, status);
    assert(!digits.contains('\n')) by {
        if digits.contains('\n') {
            let i = choose|i: int| 0 <= i < digits.len() && digits[i] == '\n';
            assert(text::is_digit(digits[i]));
        }
    }
    lemma_header(l3, "Content-Length: "@, digits);
    lemma_five_lines(l1, l2, l3, l4, body);
    lemma_response_parts(status, digits, body);
    let whole = http_response(status, body);
    assert(whole == l1 + end + (l2 + end + (l3 + end + (l4 + end + (none + end + body)))));
    assert(whole.subrange(whole.len() - body.len(), whole.len() as int) =~= body);
}

/// A text that can stand before a carriage return and a line feed.
spec fn header(line: Seq<char>) -> bool {
    !line.contains('\n') && (line.len() == 0 || line.last() != '\r')
}

proof fn lemma_header_lines()
    ensures
        header("Content-Type: text/plain"@),
        header("Connection: close"@),
        !"HTTP/1.1 "@.contains('\n'),
        !"Content-Length: "@.contains('\n'),
{
    reveal_strlit("HTTP/1.1 ");
    reveal_strlit("Content-Type: text/plain");
    reveal_strlit("Content-Length: ");
    reveal_strlit("Connection: close");
}

proof fn lemma_header(line: Seq<char>, name: Seq<char>, value: Seq<char>)
    requires
        line == name + value,
        !name.contains('\n'),
        !value.contains('\n'),
        value.len() > 0,
        value.last() != '\r',
    ensures
        header(line),
{
    if line.contains('\n') {
        let i = choose|i: int| 0 <= i < line.len() && line[i] == '\n';
        if i < name.len() {
            assert(name[i] == '\n');
        } else {
            assert(value[i - name.len()] == '\n');
        }
    }
    assert(line.last() == value.last());
}

proof fn lemma_five_lines(
    l1: Seq<char>,
    l2: Seq<char>,
    l3: Seq<char>,
    l4: Seq<char>,
    body: Seq<char>,
)
    requires
        header(l1),
        header(l2),
        header(l3),
        header(l4),
    ensures
        text::lines(
            l1 + seq!['\r', '\n'] + (l2 + seq!['\r', '\n'] + (l3 + seq!['\r', '\n'] + (l4 + seq![
                '\r',
                '\n',
            ] + (Seq::<char>::empty() + seq!['\r', '\n'] + body)))),
        ) == seq![l1, l2, l3, l4, Seq::<char>::empty()] + text::lines(body),
{
    let end = seq!['\r', '\n'];
    let none = Seq::<char>::empty();
    let r5 = none + end + body;
    let r4 = l4 + end + r5;
    let r3 = l3 + end + r4;
    let r2 = l2 + end + r3;
    assert(!none.contains('\n'));
    text::law_lines_end_at_line_feeds(none, body);
    text::law_lines_end_at_line_feeds(l4, r5);
    text::law_lines_end_at_line_feeds(l3, r4);
    text::law_lines_end_at_line_feeds(l2, r3);
    text::law_lines_end_at_line_feeds(l1, r2);
    assert(seq![l1] + (seq![l2] + (seq![l3] + (seq![l4] + (seq![none] + text::lines(body)))))
        =~= seq![l1, l2, l3, l4, none] + text::lines(body));
}

proof fn lemma_response_parts(status: Seq<char>, digits: Seq<char>, body: Seq<char>)
    ensures
        "HTTP/1.1 "@ + status + "\r\nContent-Type: text/plain\r\nContent-Length: "@ + digits
            + "\r\nConnection: close\r\n\r\n"@ + body == "HTTP/1.1 "@ + status + seq!['\r', '\n'] + (
        "Content-Type: text/plain"@ + seq!['\r', '\n'] + ("Content-Length: "@ + digits + seq![
            '\r',
            '\n',
        ] + ("Connection: close"@ + seq!['\r', '\n'] + (Seq::<char>::empty() + seq!['\r', '\n']
            + body)))),
{
    reveal_strlit("\r\nContent-Type: text/plain\r\nContent-Length: ");
    reveal_strlit("\r\nConnection: close\r\n\r\n");
    reveal_strlit("Content-Type: text/plain");
    reveal_strlit("Content-Length: ");
    reveal_strlit("Connection: close");
    let end = seq!['\r', '\n'];
    assert("\r\nContent-Type: text/plain\r\nContent-Length: "@ =~= end + "Content-Type: text/plain"@
        + end + "Content-Length: "@);
    assert("\r\nConnection: close\r\n\r\n"@ =~= end + "Connection: close"@ + end + end);
    let front = "HTTP/1.1 "@ + status;
    assert(front + (end + "Content-Type: text/plain"@ + end + "Content-Length: "@) + digits + (end
        + "Connection: close"@ + end + end) + body =~= front + end + ("Content-Type: text/plain"@
        + end + ("Content-Length: "@ + digits + end + ("Connection: close"@ + end + (
    Seq::<char>::empty() + end + body)))));
}

/// The head of a request is there exactly if somewhere in it an empty line ends
/// it.
pub proof fn law_end_of_a_head(before: Seq<u8>, after: Seq<u8>, request: Seq<u8>)
    ensures
        head_ended(before + seq![13u8, 10u8, 13u8, 10u8] + after),
        head_ended(request) ==> exists|i: int|
            0 <= i < request.len() - 3 && #[trigger] request[i] == 13 && request[i + 1] == 10
                && request[i + 2] == 13 && request[i + 3] == 10,
{
    let whole = before + seq![13u8, 10u8, 13u8, 10u8] + after;
    let n = before.len() as int;
    assert(whole.subrange(n, n + 4) =~= head_end());
    if head_ended(request) {
        let i = choose|i: int|
            0 <= i && i + 4 <= request.len() && #[trigger] request.subrange(i, i + 4) == head_end();
        let w = request.subrange(i, i + 4);
        assert(w[0] == request[i] && w[1] == request[i + 1] && w[2] == request[i + 2] && w[3]
            == request[i + 3]);
        assert(request[i] == 13);
    }
}

/// A browser is told of success exactly where its callback was one.
pub proof fn law_answers_to_callbacks(callback: Result<LoginCallback, CallbackError>)
    ensures
        callback is Ok ==> answer(callback).0 == "200 OK"@,
        callback is Err ==> answer(callback).0 == "400 Bad Request"@,
{
}

/// Tokens are good until as many seconds after they were given as the server
/// said, as far as that can be counted, and are renewed in the last minute.
pub proof fn law_tokens_in_plain_numbers(tokens: Tokens, now: u64, expires_in: u64)
    ensures
        now + expires_in <= u64::MAX ==> expiry(now, expires_in) == now + expires_in,
        now + expires_in > u64::MAX ==> expiry(now, expires_in) == u64::MAX,
        fresh(tokens, now) <==> tokens.expires_at - now > 60,
{
}

/// A login is taken exactly where the server gave both tokens, and saved tokens are
/// used exactly where both are there and the application, if one is asked for, is
/// the one that they are for.
pub proof fn law_which_tokens_are_used(
    response: TokenResponse,
    tokens: Tokens,
    client_id: Option<Seq<char>>,
)
    ensures
        login_refused(response) is None <==> response.access_token@.len() > 0
            && response.refresh_token is Some && response.refresh_token->0@.len() > 0,
        saved_refused(tokens, client_id) is None <==> tokens.access_token@.len() > 0
            && tokens.refresh_token@.len() > 0 && (client_id is None || client_id->0.len() == 0
            || client_id->0 == tokens.client_id@),
        saved_refused(tokens, client_id) == Some(AuthError::ClientChanged) ==> client_id is Some
            && client_id->0 != tokens.client_id@,
{
}

/// A renewal keeps the refresh token unless the server gives another that is not
/// empty.
pub proof fn law_refresh_token_after_renewal(tokens: Tokens, response: TokenResponse)
    ensures
        response.refresh_token is None ==> renewed_refresh_token(tokens, response)
            == tokens.refresh_token,
        response.refresh_token matches Some(token) ==> renewed_refresh_token(tokens, response)
            == if token@.len() == 0 {
            tokens.refresh_token
        } else {
            token
        },
{
}

/// Each callback that is not taken is refused for its own reason: a parameter that
/// is given twice, a state that is not that of this login, no code, or an empty
/// one.
pub proof fn law_refused_callbacks(
    pairs: Seq<(Seq<char>, Seq<char>)>,
    state: Seq<char>,
    i: int,
    j: int,
)
    ensures
        0 <= i < j < pairs.len() && pairs[i].0 == pairs[j].0 ==> callback_in(pairs, state) == Err::<
            CallbackView,
            CallbackError,
        >(CallbackError::RepeatedParameter),
        unambiguous(pairs) && !pairs.contains(("state"@, state)) ==> callback_in(pairs, state)
            == Err::<CallbackView, CallbackError>(CallbackError::StateMismatch),
        unambiguous(pairs) && pairs.contains(("state"@, state)) && (forall|k: int|
            0 <= k < pairs.len() ==> (#[trigger] pairs[k]).0 != "error"@ && pairs[k].0 != "code"@)
            ==> callback_in(pairs, state) == Err::<CallbackView, CallbackError>(
            CallbackError::MissingCode,
        ),
        unambiguous(pairs) && pairs.contains(("state"@, state)) && pairs.contains(
            ("code"@, Seq::<char>::empty()),
        ) && (forall|k: int| 0 <= k < pairs.len() ==> (#[trigger] pairs[k]).0 != "error"@)
            ==> callback_in(pairs, state) == Err::<CallbackView, CallbackError>(
            CallbackError::EmptyCode,
        ),
{
    lemma_parameter(pairs, "state"@);
    lemma_parameter(pairs, "code"@);
    lemma_parameter(pairs, "error"@);
    if unambiguous(pairs) && pairs.contains(("state"@, state)) {
        lemma_only_parameter(pairs, "state"@, state);
        if pairs.contains(("code"@, Seq::<char>::empty())) {
            lemma_only_parameter(pairs, "code"@, Seq::<char>::empty());
        }
    }
}

} // verus!
