//! The provider's discovery document (`/.well-known/openid-configuration`).
use vstd::prelude::*;
use crate::http::response::Response;
use crate::AppState;

verus! {

/// The abstract content of the discovery metadata.
pub ghost struct WellKnownConfigView {
    pub issuer: Seq<char>,
    pub auth_endpoint: Seq<char>,
    pub token_endpoint: Seq<char>,
    pub userinfo_endpoint: Seq<char>,
    pub jwks_uri: Seq<char>,
    pub response_types_supported: Seq<Seq<char>>,
    pub subject_types_supported: Seq<Seq<char>>,
    pub id_token_signing_alg_values_supported: Seq<Seq<char>>,
    pub scopes_supported: Seq<Seq<char>>,
}

/// The metadata of the provider whose issuer URL is `issuer`: the endpoints are the
/// issuer followed by their paths, and the supported values are fixed.
pub open spec fn config_for(issuer: Seq<char>) -> WellKnownConfigView {
    WellKnownConfigView {
        issuer,
        auth_endpoint: issuer + "/authorize"@,
        token_endpoint: issuer + "/token"@,
        userinfo_endpoint: issuer + "/userinfo"@,
        jwks_uri: issuer + "/.well-known/jwks.json"@,
        response_types_supported: seq!["code"@],
        subject_types_supported: seq!["public"@],
        id_token_signing_alg_values_supported: seq!["RS256"@],
        scopes_supported: seq!["openid"@, "profile"@, "email"@, "offline_access"@],
    }
}

/// Discovery metadata of the provider.
pub struct WellKnownConfig {
    issuer: String,
    auth_endpoint: String,
    token_endpoint: String,
    userinfo_endpoint: String,
    jwks_uri: String,
    response_types_supported: Vec<String>,
    subject_types_supported: Vec<String>,
    id_token_signing_alg_values_supported: Vec<String>,
    scopes_supported: Vec<String>,
}

impl View for WellKnownConfig {
    type V = WellKnownConfigView;

    closed spec fn view(&self) -> WellKnownConfigView {
        WellKnownConfigView {
            issuer: self.issuer@,
            auth_endpoint: self.auth_endpoint@,
            token_endpoint: self.token_endpoint@,
            userinfo_endpoint: self.userinfo_endpoint@,
            jwks_uri: self.jwks_uri@,
            response_types_supported: crate::text::views(self.response_types_supported@),
            subject_types_supported: crate::text::views(self.subject_types_supported@),
            id_token_signing_alg_values_supported: crate::text::views(
                self.id_token_signing_alg_values_supported@,
            ),
            scopes_supported: crate::text::views(self.scopes_supported@),
        }
    }
}

impl WellKnownConfig {
    /// The metadata for the issuer URL `issuer` (see `config_for`).
    pub fn new(issuer: String) -> (r: Self)
        ensures
            r@ == config_for(issuer@),
    {
        let auth_endpoint = issuer.clone().concat("/authorize");
        let token_endpoint = issuer.clone().concat("/token");
        let userinfo_endpoint = issuer.clone().concat("/userinfo");
        let jwks_uri = issuer.clone().concat("/.well-known/jwks.json");
        let r = WellKnownConfig {
            issuer,
            auth_endpoint,
            token_endpoint,
            userinfo_endpoint,
            jwks_uri,
            response_types_supported: vec!["code".to_owned()],
            subject_types_supported: vec!["public".to_owned()],
            id_token_signing_alg_values_supported: vec!["RS256".to_owned()],
            scopes_supported: vec![
                "openid".to_owned(),
                "profile".to_owned(),
                "email".to_owned(),
                "offline_access".to_owned(),
            ],
        };
        assert(r@.response_types_supported =~= seq!["code"@]);
        assert(r@.subject_types_supported =~= seq!["public"@]);
        assert(r@.id_token_signing_alg_values_supported =~= seq!["RS256"@]);
        assert(r@.scopes_supported =~= seq!["openid"@, "profile"@, "email"@, "offline_access"@]);
        r
    }

    /// The issuer URL.
    pub fn issuer(&self) -> (r: &String)
        ensures
            r@ == self@.issuer,
    {
        &self.issuer
    }

    /// The authorization endpoint.
    pub fn auth_endpoint(&self) -> (r: &String)
        ensures
            r@ == self@.auth_endpoint,
    {
        &self.auth_endpoint
    }

    /// The token endpoint.
    pub fn token_endpoint(&self) -> (r: &String)
        ensures
            r@ == self@.token_endpoint,
    {
        &self.token_endpoint
    }

    /// The userinfo endpoint.
    pub fn userinfo_endpoint(&self) -> (r: &String)
        ensures
            r@ == self@.userinfo_endpoint,
    {
        &self.userinfo_endpoint
    }

    /// The key set location.
    pub fn jwks_uri(&self) -> (r: &String)
        ensures
            r@ == self@.jwks_uri,
    {
        &self.jwks_uri
    }

    /// The supported response types.
    pub fn response_types_supported(&self) -> (r: &Vec<String>)
        ensures
            crate::text::views(r@) == self@.response_types_supported,
    {
        &self.response_types_supported
    }

    /// The supported subject types.
    pub fn subject_types_supported(&self) -> (r: &Vec<String>)
        ensures
            crate::text::views(r@) == self@.subject_types_supported,
    {
        &self.subject_types_supported
    }

    /// The supported ID token signing algorithms.
    pub fn id_token_signing_alg_values_supported(&self) -> (r: &Vec<String>)
        ensures
            crate::text::views(r@) == self@.id_token_signing_alg_values_supported,
    {
        &self.id_token_signing_alg_values_supported
    }

    /// The supported scopes.
    pub fn scopes_supported(&self) -> (r: &Vec<String>)
        ensures
            crate::text::views(r@) == self@.scopes_supported,
    {
        &self.scopes_supported
    }

    /// Answers a discovery request. The handler sets nothing on the response yet: the
    /// answer is a fresh response (status 500, no fields, empty body).
    pub fn handle_discovery(state: &AppState) -> (r: Response)
        ensures
            r.status_view() == crate::http::status::StatusCode::InternalServerError,
            r.header_pairs() == Seq::<(Seq<char>, Seq<char>)>::empty(),
            r.body_view() == Seq::<char>::empty(),
    {
        Response::new()
    }
}


/// Every endpoint is the issuer URL followed by its own path: the issuer is a prefix
/// of each, what follows it is `/authorize`, `/token`, `/userinfo` or
/// `/.well-known/jwks.json`, and the four endpoints are distinct. Distinct issuers
/// give distinct metadata.
pub proof fn lemma_endpoints_under_issuer(i: Seq<char>, j: Seq<char>)
    ensures
        config_for(i).issuer == i,
        config_for(i).auth_endpoint.take(i.len() as int) == i,
        config_for(i).auth_endpoint.skip(i.len() as int) == "/authorize"@,
        config_for(i).token_endpoint.take(i.len() as int) == i,
        config_for(i).token_endpoint.skip(i.len() as int) == "/token"@,
        config_for(i).userinfo_endpoint.take(i.len() as int) == i,
        config_for(i).userinfo_endpoint.skip(i.len() as int) == "/userinfo"@,
        config_for(i).jwks_uri.take(i.len() as int) == i,
        config_for(i).jwks_uri.skip(i.len() as int) == "/.well-known/jwks.json"@,
        config_for(i).auth_endpoint != config_for(i).token_endpoint,
        config_for(i).auth_endpoint != config_for(i).userinfo_endpoint,
        config_for(i).auth_endpoint != config_for(i).jwks_uri,
        config_for(i).token_endpoint != config_for(i).userinfo_endpoint,
        config_for(i).token_endpoint != config_for(i).jwks_uri,
        config_for(i).userinfo_endpoint != config_for(i).jwks_uri,
        i != j ==> config_for(i) != config_for(j),
{
    let c = config_for(i);
    reveal_strlit("/authorize");
    reveal_strlit("/token");
    reveal_strlit("/userinfo");
    reveal_strlit("/.well-known/jwks.json");
    assert(c.auth_endpoint.take(i.len() as int) =~= i);
    assert(c.auth_endpoint.skip(i.len() as int) =~= "/authorize"@);
    assert(c.token_endpoint.take(i.len() as int) =~= i);
    assert(c.token_endpoint.skip(i.len() as int) =~= "/token"@);
    assert(c.userinfo_endpoint.take(i.len() as int) =~= i);
    assert(c.userinfo_endpoint.skip(i.len() as int) =~= "/userinfo"@);
    assert(c.jwks_uri.take(i.len() as int) =~= i);
    assert(c.jwks_uri.skip(i.len() as int) =~= "/.well-known/jwks.json"@);
    assert("/authorize"@.len() == 10);
    assert("/token"@.len() == 6);
    assert("/userinfo"@.len() == 9);
    assert("/.well-known/jwks.json"@.len() == 22);
}

} // verus!
