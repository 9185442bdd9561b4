//! Credentials and the signed-request subsystem of the client: endpoint
//! constants, API path resolution, `Authorization` header construction for
//! each stage of the three-legged OAuth flow, token-response parsing, and
//! the decision logic around the flow.
//!
//! Network transport stays outside: every function here turns plain values
//! into plain values, so an unverified shell can drive the handshake by
//! POSTing the computed headers and handing response bodies back.

use vstd::prelude::*;
use crate::error::{PlurkError, CODE_AUTH, CODE_CONFIG, CODE_SIGNING};
use crate::query::{lookup_spec, split_amp, split_query, lookup_field};
use crate::sign::{
    canon_params, header_carries_oauth_fields, opt_view, pairs_view, signed_header_of, sign_post,
};
use crate::strutil::{find_pos, is_prefix, lemma_find_pos};

verus! {

/// The fixed request-token endpoint.
pub open spec fn request_token_url() -> Seq<char> {
    "https://www.plurk.com/OAuth/request_token"@
}

/// The fixed human-facing authorization endpoint.
pub open spec fn authorize_url() -> Seq<char> {
    "https://www.plurk.com/OAuth/authorize"@
}

/// The fixed access-token endpoint.
pub open spec fn access_token_url() -> Seq<char> {
    "https://www.plurk.com/OAuth/access_token"@
}

/// The fixed API base origin.
pub open spec fn base_url() -> Seq<char> {
    "https://www.plurk.com"@
}

/// The request-token endpoint, for callers that issue the POST.
pub fn request_token_url_str() -> (r: &'static str)
    ensures
        r@ == request_token_url(),
{
    "https://www.plurk.com/OAuth/request_token"
}

/// The access-token endpoint, for callers that issue the POST.
pub fn access_token_url_str() -> (r: &'static str)
    ensures
        r@ == access_token_url(),
{
    "https://www.plurk.com/OAuth/access_token"
}

/// The fixed token endpoints carry no query part, so signing a POST to
/// them cannot fail.
pub proof fn lemma_fixed_endpoints_query_free()
    ensures
        find_pos(request_token_url(), '?') is None,
        find_pos(access_token_url(), '?') is None,
{
    reveal_strlit("https://www.plurk.com/OAuth/request_token");
    reveal_strlit("https://www.plurk.com/OAuth/access_token");
    lemma_find_pos(request_token_url(), '?');
    lemma_find_pos(access_token_url(), '?');
    match find_pos(request_token_url(), '?') {
        Some(i) => {
            assert(request_token_url()[i] != '?');
        },
        None => {},
    }
    match find_pos(access_token_url(), '?') {
        Some(i) => {
            assert(access_token_url()[i] != '?');
        },
        None => {},
    }
}

/// An API path resolved against the fixed base origin: a reference that
/// already carries an `http` or `https` scheme stands as it is; everything
/// else is a path under the origin, with a `/` supplied when missing.
pub open spec fn resolve_api(api: Seq<char>) -> Seq<char> {
    if is_prefix("http://"@, api) || is_prefix("https://"@, api) {
        api
    } else if api.len() > 0 && api[0] == '/' {
        base_url() + api
    } else {
        base_url() + seq!['/'] + api
    }
}

/// Resolves an API path against the fixed base origin.  Resolution is total:
/// every path yields a URL.
pub fn resolve_api_path(api: &str) -> (r: String)
    ensures
        r@ == resolve_api(api@),
{
    if crate::strutil::starts_with(api, "http://") || crate::strutil::starts_with(
        api,
        "https://",
    ) {
        return api.to_owned();
    }
    let mut out = "https://www.plurk.com".to_owned();
    if api.unicode_len() > 0 && api.get_char(0) == '/' {
        out.append(api);
        assert(out@ =~= base_url() + api@);
    } else {
        crate::strutil::push_char(&mut out, '/');
        out.append(api);
        assert(out@ =~= base_url() + seq!['/'] + api@);
    }
    out
}

/// OAuth credentials of one client session: the consumer key pair, the
/// (request or access) token pair, and whether the access-token exchange has
/// completed.
#[derive(Debug)]
pub struct Plurk {
    pub client: String,
    pub client_secret: String,
    pub token: String,
    pub token_secret: String,
    pub authed: bool,
}

/// Outcome of the authorization decision: either the credentials are already
/// authorized and nothing must be done, or the flow has to begin with a
/// request-token exchange.
pub enum AuthDecision {
    Authorized(Plurk),
    NeedsRequestToken(Plurk),
}

/// Body encoding chosen for an API request.
#[derive(Debug, PartialEq, Eq, Structural)]
pub enum RequestBody {
    Empty,
    Form,
    Multipart,
}

/// The fields named by a URL-encoded token response: the values of
/// `oauth_token` and `oauth_token_secret`, when both are present and decode.
pub open spec fn token_response_fields(body: Seq<char>) -> Option<(Seq<char>, Seq<char>)> {
    let segs = split_amp(body);
    match (lookup_spec(segs, "oauth_token"@), lookup_spec(segs, "oauth_token_secret"@)) {
        (Some(Some(t)), Some(Some(s))) => Some((t, s)),
        _ => None,
    }
}

impl Plurk {
    /// Well-formed credentials: the authorized flag can stand only on a
    /// non-empty token pair.
    pub open spec fn wf(&self) -> bool {
        self.authed ==> self.token@.len() > 0 && self.token_secret@.len() > 0
    }

    /// Builds credentials from a consumer key pair and an optional token
    /// pair.  The credentials count as authorized only when both token parts
    /// are present and non-empty.
    pub fn new(c: &str, cs: &str, t: Option<String>, ts: Option<String>) -> (r: Plurk)
        ensures
            r.client@ == c@,
            r.client_secret@ == cs@,
            r.token@ == (if t is Some && ts is Some {
                t.unwrap()@
            } else {
                Seq::<char>::empty()
            }),
            r.token_secret@ == (if t is Some && ts is Some {
                ts.unwrap()@
            } else {
                Seq::<char>::empty()
            }),
            r.authed == (t is Some && ts is Some && t.unwrap()@.len() > 0
                && ts.unwrap()@.len() > 0),
            r.wf(),
    {
        match (t, ts) {
            (Some(tv), Some(tsv)) => {
                let authed = !tv.as_str().is_empty() && !tsv.as_str().is_empty();
                Plurk {
                    client: c.to_owned(),
                    client_secret: cs.to_owned(),
                    token: tv,
                    token_secret: tsv,
                    authed,
                }
            },
            (_, _) => Plurk {
                client: c.to_owned(),
                client_secret: cs.to_owned(),
                token: String::new(),
                token_secret: String::new(),
                authed: false,
            },
        }
    }

    /// Builds credentials from the four persisted key strings, as a
    /// configuration loader hands them over.  The credentials count as
    /// authorized only when both token parts are non-empty.
    pub fn from_keys(client: String, client_secret: String, token: String, token_secret: String) -> (r:
        Plurk)
        ensures
            r.client == client,
            r.client_secret == client_secret,
            r.token == token,
            r.token_secret == token_secret,
            r.authed == (token@.len() > 0 && token_secret@.len() > 0),
            r.wf(),
    {
        let authed = !token.as_str().is_empty() && !token_secret.as_str().is_empty();
        Plurk { client, client_secret, token, token_secret, authed }
    }

    /// Whether the access-token exchange has completed for these credentials.
    pub fn is_authed(&self) -> (r: bool)
        ensures
            r == self.authed,
    {
        self.authed
    }

    /// The human-facing authorization URL for the current request token.
    pub fn get_auth_url(&self) -> (r: String)
        ensures
            r@ == authorize_url() + "?oauth_token="@ + self.token@,
    {
        let mut out = "https://www.plurk.com/OAuth/authorize".to_owned();
        out.append("?oauth_token=");
        out.append(self.token.as_str());
        assert(out@ =~= authorize_url() + "?oauth_token="@ + self.token@);
        out
    }

    /// The authorization decision of the flow: already-authorized
    /// credentials pass through unchanged and require no network exchange;
    /// anything else must begin with the request-token step.
    pub fn ensure_authorized_step(self) -> (r: AuthDecision)
        ensures
            self.authed ==> (r matches AuthDecision::Authorized(p) && p == self),
            !self.authed ==> (r matches AuthDecision::NeedsRequestToken(p) && p == self),
    {
        if self.authed {
            AuthDecision::Authorized(self)
        } else {
            AuthDecision::NeedsRequestToken(self)
        }
    }

    /// The `Authorization` header for the request-token exchange: a POST to
    /// the request-token endpoint signed with the current credentials and no
    /// body parameters.
    pub fn request_token_header(&self, nonce: &str, timestamp: u64) -> (r: String)
        requires
            timestamp >= 1,
        ensures
            r@ == signed_header_of(
                "POST"@,
                request_token_url(),
                self.client@,
                self.client_secret@,
                self.token@,
                self.token_secret@,
                None,
                Seq::<(Seq<char>, Seq<char>)>::empty(),
                nonce@,
                timestamp,
            ),
            header_carries_oauth_fields(r@, self.client@, self.token@, None, nonce@, timestamp),
    {
        let data: Vec<(String, String)> = Vec::new();
        proof {
            lemma_fixed_endpoints_query_free();
            assert(pairs_view(data@) =~= Seq::<(Seq<char>, Seq<char>)>::empty());
            assert(canon_params(pairs_view(data@)) =~= Seq::<(Seq<char>, Seq<char>)>::empty());
        }
        let r = sign_post(
            request_token_url_str(),
            self.client.as_str(),
            self.client_secret.as_str(),
            self.token.as_str(),
            self.token_secret.as_str(),
            None,
            &data,
            nonce,
            timestamp,
        );
        match r {
            Ok(h) => h,
            Err(_) => {
                proof {
                    assert(false);
                }
                String::new()
            },
        }
    }

    /// The `Authorization` header for the access-token exchange: a POST to
    /// the access-token endpoint signed with the request token and the
    /// user-supplied verifier.
    pub fn access_token_header(&self, verifier: &str, nonce: &str, timestamp: u64) -> (r: String)
        requires
            timestamp >= 1,
        ensures
            r@ == signed_header_of(
                "POST"@,
                access_token_url(),
                self.client@,
                self.client_secret@,
                self.token@,
                self.token_secret@,
                Some(verifier@),
                Seq::<(Seq<char>, Seq<char>)>::empty(),
                nonce@,
                timestamp,
            ),
            header_carries_oauth_fields(
                r@,
                self.client@,
                self.token@,
                Some(verifier@),
                nonce@,
                timestamp,
            ),
    {
        let data: Vec<(String, String)> = Vec::new();
        proof {
            lemma_fixed_endpoints_query_free();
            assert(pairs_view(data@) =~= Seq::<(Seq<char>, Seq<char>)>::empty());
            assert(canon_params(pairs_view(data@)) =~= Seq::<(Seq<char>, Seq<char>)>::empty());
        }
        let r = sign_post(
            access_token_url_str(),
            self.client.as_str(),
            self.client_secret.as_str(),
            self.token.as_str(),
            self.token_secret.as_str(),
            Some(verifier),
            &data,
            nonce,
            timestamp,
        );
        match r {
            Ok(h) => h,
            Err(_) => {
                proof {
                    assert(false);
                }
                String::new()
            },
        }
    }

    /// The resolved URL and `Authorization` header for an API request: the
    /// path is resolved against the base origin, and the POST is signed with
    /// the body parameters in canonical order.  A path that resolves to a
    /// URL with a query part cannot be signed and is rejected.
    pub fn api_request_header(
        &self,
        api: &str,
        data: &Vec<(String, String)>,
        nonce: &str,
        timestamp: u64,
    ) -> (r: Result<(String, String), PlurkError>)
        requires
            timestamp >= 1,
        ensures
            r is Ok <==> find_pos(resolve_api(api@), '?') is None,
            (r matches Ok(p) ==> {
                &&& p.0@ == resolve_api(api@)
                &&& p.1@ == signed_header_of(
                    "POST"@,
                    resolve_api(api@),
                    self.client@,
                    self.client_secret@,
                    self.token@,
                    self.token_secret@,
                    None,
                    canon_params(pairs_view(data@)),
                    nonce@,
                    timestamp,
                )
                &&& header_carries_oauth_fields(
                    p.1@,
                    self.client@,
                    self.token@,
                    None,
                    nonce@,
                    timestamp,
                )
            }),
            (r matches Err(e) ==> e.code == CODE_SIGNING),
    {
        let url = resolve_api_path(api);
        let header = match sign_post(
            url.as_str(),
            self.client.as_str(),
            self.client_secret.as_str(),
            self.token.as_str(),
            self.token_secret.as_str(),
            None,
            data,
            nonce,
            timestamp,
        ) {
            Ok(h) => h,
            Err(e) => {
                return Err(e);
            },
        };
        Ok((url, header))
    }

    /// Applies a URL-encoded token response to the credentials: reads
    /// `oauth_token` and `oauth_token_secret` and replaces the token pair.
    /// After the access stage the credentials count as authorized, provided
    /// the returned pair is non-empty.  A response missing either field
    /// fails the handshake step.
    pub fn apply_token_response(self, body: &str, access_stage: bool) -> (r: Result<
        Plurk,
        PlurkError,
    >)
        ensures
            r is Ok <==> token_response_fields(body@) is Some,
            r matches Ok(p) ==> {
                let fields = token_response_fields(body@).unwrap();
                &&& p.client == self.client
                &&& p.client_secret == self.client_secret
                &&& p.token@ == fields.0
                &&& p.token_secret@ == fields.1
                &&& p.authed == (access_stage && fields.0.len() > 0 && fields.1.len() > 0)
                &&& p.wf()
            },
            r matches Err(e) ==> e.code == CODE_AUTH,
    {
        let segs = split_query(body);
        let tok = match lookup_field(&segs, "oauth_token") {
            Some(Some(v)) => v,
            _ => {
                return Err(
                    PlurkError::new(CODE_AUTH, "token response lacks oauth_token".to_owned()),
                );
            },
        };
        let sec = match lookup_field(&segs, "oauth_token_secret") {
            Some(Some(v)) => v,
            _ => {
                return Err(
                    PlurkError::new(
                        CODE_AUTH,
                        "token response lacks oauth_token_secret".to_owned(),
                    ),
                );
            },
        };
        let authed = access_stage && !tok.as_str().is_empty() && !sec.as_str().is_empty();
        Ok(
            Plurk {
                client: self.client,
                client_secret: self.client_secret,
                token: tok,
                token_secret: sec,
                authed,
            },
        )
    }
}

/// Chooses the body encoding of an API request: no parameters mean an empty
/// body, body parameters mean a URL-encoded form, file parameters mean a
/// multipart body, and supplying both at once is rejected as a configuration
/// error, since no single well-defined HTTP encoding carries both.
pub fn select_encoding(has_data: bool, has_file: bool) -> (r: Result<RequestBody, PlurkError>)
    ensures
        match r {
            Ok(b) => {
                &&& !has_data && !has_file ==> b == RequestBody::Empty
                &&& has_data && !has_file ==> b == RequestBody::Form
                &&& !has_data && has_file ==> b == RequestBody::Multipart
                &&& !(has_data && has_file)
            },
            Err(e) => has_data && has_file && e.code == CODE_CONFIG,
        },
{
    if has_data && has_file {
        Err(
            PlurkError::new(
                CODE_CONFIG,
                "a request cannot carry both form and file parameters".to_owned(),
            ),
        )
    } else if has_data {
        Ok(RequestBody::Form)
    } else if has_file {
        Ok(RequestBody::Multipart)
    } else {
        Ok(RequestBody::Empty)
    }
}

} // verus!
