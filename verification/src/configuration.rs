//! The service configuration and its authentication decisions: which
//! requests may proceed, which are challenged, and which are sent to the
//! OAuth2 provider. Reading the configuration file and speaking HTTP
//! stay outside the verified core; what is decided about their contents
//! is here.

use vstd::prelude::*;
use vstd::string::*;
use base64::Engine;
use crate::text::{all_in, str_eq, str_in, CharKind};

verus! {

/// The service configuration.
#[derive(Clone)]
pub struct Configuration {
    pub auth: Authentication,
    pub i18n: Internationalization,
    pub server: ServerInformation,
}

/// The authentication schemes the service supports. `Basic` credentials
/// are prerendered into a comparison header once, at configuration load;
/// at request time only `Disabled`, `BasicPrerendered` and `OAuth2`
/// occur.
#[derive(Clone)]
pub enum Authentication {
    Disabled,
    BasicPrerendered { header: String },
    Basic { username: String, password: String },
    OAuth2 {
        client_id: String,
        client_secret: String,
        auth_url: String,
        scope: String,
        token_url: String,
        introspect_url: String,
        redirect_url: String,
    },
}

/// Texts shown by the interstitial pages.
#[derive(Clone)]
pub struct Internationalization {
    pub lang: String,
    pub dir: String,
    pub countdown: String,
    pub blocker: String,
    pub approval: Untrusted,
}

/// Texts of the approval page for untrusted targets.
#[derive(Clone)]
pub struct Untrusted {
    pub label: String,
    pub button: String,
}

/// Where the service is reachable from outside.
#[derive(Clone)]
pub struct ServerInformation {
    pub public_origin: String,
}

/// Query parameter of the OAuth2 code exchange.
pub struct Oauth2Code {
    pub code: String,
}

impl Untrusted {
    /// A field-by-field copy with the same value.
    pub fn duplicate(&self) -> (r: Untrusted)
        ensures
            r == *self,
    {
        Untrusted { label: self.label.clone(), button: self.button.clone() }
    }
}

impl Internationalization {
    /// A field-by-field copy with the same value.
    pub fn duplicate(&self) -> (r: Internationalization)
        ensures
            r == *self,
    {
        Internationalization {
            lang: self.lang.clone(),
            dir: self.dir.clone(),
            countdown: self.countdown.clone(),
            blocker: self.blocker.clone(),
            approval: self.approval.duplicate(),
        }
    }
}

impl ServerInformation {
    /// A field-by-field copy with the same value.
    pub fn duplicate(&self) -> (r: ServerInformation)
        ensures
            r == *self,
    {
        ServerInformation { public_origin: self.public_origin.clone() }
    }
}

impl Authentication {
    /// A variant-by-variant copy with the same value.
    pub fn duplicate(&self) -> (r: Authentication)
        ensures
            r == *self,
    {
        match self {
            Authentication::Disabled => Authentication::Disabled,
            Authentication::BasicPrerendered { header } => Authentication::BasicPrerendered {
                header: header.clone(),
            },
            Authentication::Basic { username, password } => Authentication::Basic {
                username: username.clone(),
                password: password.clone(),
            },
            Authentication::OAuth2 {
                client_id,
                client_secret,
                auth_url,
                scope,
                token_url,
                introspect_url,
                redirect_url,
            } => Authentication::OAuth2 {
                client_id: client_id.clone(),
                client_secret: client_secret.clone(),
                auth_url: auth_url.clone(),
                scope: scope.clone(),
                token_url: token_url.clone(),
                introspect_url: introspect_url.clone(),
                redirect_url: redirect_url.clone(),
            },
        }
    }
}

/// The comparison header prerendered from `Basic` credentials:
/// `Basic <base64url(username:password)>`.
pub open spec fn prerendered_header(username: Seq<char>, password: Seq<char>) -> Seq<char> {
    "Basic "@ + b64_url_of(username + seq![':'] + password)
}

/// What base64 encoding with the URL-safe alphabet and padding returns
/// for a given text; a function of the text alone.
pub uninterp spec fn b64_url_of(s: Seq<char>) -> Seq<char>;

/// Relies on base64's `Engine::encode` with the `GeneralPurpose` engine
/// over the URL-safe alphabet, with padding: the encoding is a function
/// of the input bytes alone, and encodes every three bytes (rounded up)
/// as four characters.
#[verifier::external_body]
fn b64_url_pad(s: &str) -> (r: String)
    ensures
        r@ == b64_url_of(s@),
        s.is_ascii() ==> r@.len() == 4 * ((s@.len() + 2) / 3),
{
    let engine = base64::engine::GeneralPurpose::new(
        &base64::alphabet::URL_SAFE,
        base64::engine::general_purpose::PAD,
    );
    engine.encode(s)
}

/// Prerender `Basic` credentials into the comparison header, leaving
/// every other scheme as it is, so that request handling only ever
/// compares strings.
pub fn normalize(c: &Configuration) -> (r: Configuration)
    ensures
        r.i18n == c.i18n,
        r.server == c.server,
        match c.auth {
            Authentication::Basic { username, password } => r.auth matches
                Authentication::BasicPrerendered { header } && header@ == prerendered_header(
                username@,
                password@,
            ),
            _ => r.auth == c.auth,
        },
{
    proof {
        reveal_strlit(":");
    }
    let auth = match &c.auth {
        Authentication::Basic { username, password } => {
            let mut cred = username.clone();
            cred.append(":");
            cred.append(password.as_str());
            proof {
                assert(":"@ =~= seq![':']);
                assert(cred@ =~= username@ + seq![':'] + password@);
            }
            let mut header = "Basic ".to_owned();
            header.append(b64_url_pad(cred.as_str()).as_str());
            Authentication::BasicPrerendered { header }
        },
        other => other.duplicate(),
    };
    Configuration { auth, i18n: c.i18n.duplicate(), server: c.server.duplicate() }
}

/// What the authentication layer decides about a request before any
/// outside work happens.
#[derive(Debug)]
pub enum AuthStep {
    /// Serve the request.
    Allow,
    /// Refuse with a `Basic` challenge.
    Unauthorized,
    /// Send the client to the provider's authorization URL.
    RedirectToProvider(String),
    /// Validate this bearer token against the introspection endpoint,
    /// then decide again with `after_introspection`.
    Introspect(String),
}

/// The provider redirect of an OAuth2 configuration.
pub open spec fn provider_url_chars(
    auth_url: Seq<char>,
    client_id: Seq<char>,
    scope: Seq<char>,
    redirect_url: Seq<char>,
) -> Seq<char> {
    auth_url + "?client_id="@ + client_id + "&scope="@ + scope
        + "&response_type=code&redirect_uri="@ + redirect_url
}

/// Build the provider redirect for an OAuth2 configuration.
fn provider_url(
    auth_url: &String,
    client_id: &String,
    scope: &String,
    redirect_url: &String,
) -> (r: String)
    ensures
        r@ == provider_url_chars(auth_url@, client_id@, scope@, redirect_url@),
{
    let mut u = auth_url.clone();
    u.append("?client_id=");
    u.append(client_id.as_str());
    u.append("&scope=");
    u.append(scope.as_str());
    u.append("&response_type=code&redirect_uri=");
    u.append(redirect_url.as_str());
    u
}

/// Decide a request from its authorization header and cookie. With
/// `OAuth2`, a cookie of the shape `token=<token>` whose token is
/// nonempty and token-shaped asks for an introspection round trip; any
/// other cookie, or none, is sent to the provider. Runtime `Basic`
/// lookup is not implemented, so a configuration still carrying it is
/// ruled out here; the caller refuses it before deciding.
pub fn auth_decision(
    auth: &Authentication,
    authorization: Option<&String>,
    cookie: Option<&String>,
) -> (r: AuthStep)
    requires
        !(auth matches Authentication::Basic { .. }),
        cookie matches Option::Some(c) ==> c@.len() >= 6,
    ensures
        match auth {
            Authentication::Disabled => r matches AuthStep::Allow,
            Authentication::BasicPrerendered { header } => match authorization {
                Option::Some(v) => if v@ == header@ {
                    r matches AuthStep::Allow
                } else {
                    r matches AuthStep::Unauthorized
                },
                Option::None => r matches AuthStep::Unauthorized,
            },
            Authentication::OAuth2 {
                client_id,
                scope,
                auth_url,
                redirect_url,
                ..
            } => {
                let redirect_ok = r matches AuthStep::RedirectToProvider(u) && u@
                    == provider_url_chars(auth_url@, client_id@, scope@, redirect_url@);
                match cookie {
                    Option::Some(c) => {
                        let token = c@.skip(6);
                        if token.len() > 0 && all_in(CharKind::Token, token) {
                            r matches AuthStep::Introspect(t) && t@ == token
                        } else {
                            redirect_ok
                        }
                    },
                    Option::None => redirect_ok,
                }
            },
            Authentication::Basic { .. } => true,
        },
{
    match auth {
        Authentication::Disabled => AuthStep::Allow,
        Authentication::BasicPrerendered { header } => match authorization {
            Option::Some(v) => if str_eq(v.as_str(), header.as_str()) {
                AuthStep::Allow
            } else {
                AuthStep::Unauthorized
            },
            Option::None => AuthStep::Unauthorized,
        },
        Authentication::OAuth2 { client_id, scope, auth_url, redirect_url, .. } => {
            match cookie {
                Option::Some(c) => {
                    let n = c.as_str().unicode_len();
                    let token = c.as_str().substring_char(6, n).to_owned();
                    proof {
                        assert(token@ =~= c@.skip(6));
                    }
                    if token.as_str().unicode_len() > 0 && str_in(
                        CharKind::Token,
                        token.as_str(),
                    ) {
                        AuthStep::Introspect(token)
                    } else {
                        AuthStep::RedirectToProvider(
                            provider_url(auth_url, client_id, scope, redirect_url),
                        )
                    }
                },
                Option::None => AuthStep::RedirectToProvider(
                    provider_url(auth_url, client_id, scope, redirect_url),
                ),
            }
        },
        Authentication::Basic { .. } => AuthStep::Allow,
    }
}

/// Decide a request once the introspection round trip has come back:
/// a validated token serves the request, anything else is sent to the
/// provider.
pub fn after_introspection(auth: &Authentication, ok: bool) -> (r: AuthStep)
    requires
        auth matches Authentication::OAuth2 { .. },
    ensures
        ok ==> r matches AuthStep::Allow,
        !ok ==> match auth {
            Authentication::OAuth2 { client_id, scope, auth_url, redirect_url, .. } => r matches
                AuthStep::RedirectToProvider(u) && u@ == provider_url_chars(
                auth_url@,
                client_id@,
                scope@,
                redirect_url@,
            ),
            _ => true,
        },
{
    if ok {
        AuthStep::Allow
    } else {
        match auth {
            Authentication::OAuth2 { client_id, scope, auth_url, redirect_url, .. } => {
                AuthStep::RedirectToProvider(provider_url(auth_url, client_id, scope, redirect_url))
            },
            _ => AuthStep::Allow,
        }
    }
}

/// The token-exchange request of the OAuth2 code route, with the
/// authorization code filled in.
pub open spec fn token_request_chars(
    token_url: Seq<char>,
    client_id: Seq<char>,
    redirect_url: Seq<char>,
    client_secret: Seq<char>,
    code: Seq<char>,
) -> Seq<char> {
    token_url + "?grant_type=authorization_code&client_id="@ + client_id + "&redirect_uri="@
        + redirect_url + "&client_secret="@ + client_secret + "&code="@ + code
}

/// Build the token-exchange request URL; nothing for a configuration
/// without OAuth2.
pub fn token_request_url(auth: &Authentication, code: &String) -> (r: Option<String>)
    ensures
        match auth {
            Authentication::OAuth2 {
                client_id,
                client_secret,
                token_url,
                redirect_url,
                ..
            } => r matches Option::Some(u) && u@ == token_request_chars(
                token_url@,
                client_id@,
                redirect_url@,
                client_secret@,
                code@,
            ),
            _ => r is None,
        },
{
    match auth {
        Authentication::OAuth2 { client_id, client_secret, token_url, redirect_url, .. } => {
            let mut u = token_url.clone();
            u.append("?grant_type=authorization_code&client_id=");
            u.append(client_id.as_str());
            u.append("&redirect_uri=");
            u.append(redirect_url.as_str());
            u.append("&client_secret=");
            u.append(client_secret.as_str());
            u.append("&code=");
            u.append(code.as_str());
            Option::Some(u)
        },
        _ => Option::None,
    }
}

/// The cookie that carries a freshly exchanged token back to the client.
pub open spec fn session_cookie_chars(token: Seq<char>) -> Seq<char> {
    "token="@ + token + "; Path=/; HttpOnly; Secure; SameSite=None"@
}

/// Build the session cookie for a token.
pub fn session_cookie(token: &String) -> (r: String)
    ensures
        r@ == session_cookie_chars(token@),
{
    let mut c = "token=".to_owned();
    c.append(token.as_str());
    c.append("; Path=/; HttpOnly; Secure; SameSite=None");
    c
}

} // verus!
