//! Building a client: where it connects, with which authorization, over which
//! transport.
use vstd::prelude::*;
use crate::auth::{bearer, AuthInterceptor};
use crate::text::{chars_of, matches_at, push_all, starts_with};
use crate::transport::{
    invalid_metadata_description, invalid_metadata_text, invalid_uri_text,
    transport_error_description, transport_error_text, uri_error_text,
};
use crate::transport::{
    endpoint_accepts, endpoint_from_shared, endpoint_target, is_metadata_text, uri_target,
};
use tonic::metadata::errors::InvalidMetadataValue;
use tonic::transport::{Channel, Endpoint};

verus! {

/// Why a client could not be built.
#[derive(Debug)]
pub enum ClientError {
    /// The endpoint is no valid URI.
    InvalidEndpoint(http::uri::InvalidUri),
    /// The token makes no valid `authorization` metadata value.
    InvalidTokenMetadata(InvalidMetadataValue),
    /// The transport failed, or refused the endpoint.
    Transport(tonic::transport::Error),
}

/// The words that open the message of an error of each kind.
pub open spec fn error_prefix(e: ClientError) -> Seq<char> {
    match e {
        ClientError::InvalidEndpoint(_) => seq!['i', 'n', 'v', 'a', 'l', 'i', 'd', ' ', 'e', 'n', 'd', 'p', 'o', 'i', 'n', 't', ':', ' '],
        ClientError::InvalidTokenMetadata(_) => seq!['i', 'n', 'v', 'a', 'l', 'i', 'd', ' ', 't', 'o', 'k', 'e', 'n', ' ', 'm', 'e', 't', 'a', 'd', 'a', 't', 'a', ':', ' '],
        ClientError::Transport(_) => seq!['t', 'r', 'a', 'n', 's', 'p', 'o', 'r', 't', ' ', 'e', 'r', 'r', 'o', 'r', ':', ' '],
    }
}

/// The text of the error that an error of each kind carries.
pub open spec fn error_detail(e: ClientError) -> Seq<char> {
    match e {
        ClientError::InvalidEndpoint(u) => uri_error_text(u),
        ClientError::InvalidTokenMetadata(_) => invalid_metadata_description(),
        ClientError::Transport(t) => transport_error_description(t),
    }
}

impl ClientError {
    /// The message for the error: its kind, a colon, and the text of the error it
    /// carries.
    pub fn message(&self) -> (r: String)
        ensures
            r@ == error_prefix(*self) + error_detail(*self),
    {
        let (prefix, text): (Vec<char>, String) = match self {
            ClientError::InvalidEndpoint(e) => (vec!['i', 'n', 'v', 'a', 'l', 'i', 'd', ' ', 'e', 'n', 'd', 'p', 'o', 'i', 'n', 't', ':', ' '], invalid_uri_text(e)),
            ClientError::InvalidTokenMetadata(e) => (vec!['i', 'n', 'v', 'a', 'l', 'i', 'd', ' ', 't', 'o', 'k', 'e', 'n', ' ', 'm', 'e', 't', 'a', 'd', 'a', 't', 'a', ':', ' '], invalid_metadata_text(e)),
            ClientError::Transport(e) => (vec!['t', 'r', 'a', 'n', 's', 'p', 'o', 'r', 't', ' ', 'e', 'r', 'r', 'o', 'r', ':', ' '], transport_error_text(e)),
        };
        let mut r = String::new();
        push_all(&mut r, &prefix);
        let rest = chars_of(text.as_str());
        push_all(&mut r, &rest);
        r
    }
}

impl From<http::uri::InvalidUri> for ClientError {
    fn from(e: http::uri::InvalidUri) -> (r: Self) {
        ClientError::InvalidEndpoint(e)
    }
}

impl vstd::std_specs::convert::FromSpecImpl<http::uri::InvalidUri> for ClientError {
    open spec fn obeys_from_spec() -> bool {
        true
    }

    open spec fn from_spec(e: http::uri::InvalidUri) -> Self {
        ClientError::InvalidEndpoint(e)
    }
}

impl From<InvalidMetadataValue> for ClientError {
    fn from(e: InvalidMetadataValue) -> (r: Self) {
        ClientError::InvalidTokenMetadata(e)
    }
}

impl vstd::std_specs::convert::FromSpecImpl<InvalidMetadataValue> for ClientError {
    open spec fn obeys_from_spec() -> bool {
        true
    }

    open spec fn from_spec(e: InvalidMetadataValue) -> Self {
        ClientError::InvalidTokenMetadata(e)
    }
}

impl From<tonic::transport::Error> for ClientError {
    fn from(e: tonic::transport::Error) -> (r: Self) {
        ClientError::Transport(e)
    }
}

impl vstd::std_specs::convert::FromSpecImpl<tonic::transport::Error> for ClientError {
    open spec fn obeys_from_spec() -> bool {
        true
    }

    open spec fn from_spec(e: tonic::transport::Error) -> Self {
        ClientError::Transport(e)
    }
}

/// `http://`
pub open spec fn http_scheme() -> Seq<char> {
    seq!['h', 't', 't', 'p', ':', '/', '/']
}

/// `https://`
pub open spec fn https_scheme() -> Seq<char> {
    seq!['h', 't', 't', 'p', 's', ':', '/', '/']
}

/// The URI that is dialled for `endpoint`: as it is when it names the `http` or
/// `https` scheme, otherwise with `http://` when the transport is plaintext and
/// `https://` when it is not.
pub open spec fn with_scheme(endpoint: Seq<char>, insecure: bool) -> Seq<char> {
    if starts_with(endpoint, http_scheme()) || starts_with(endpoint, https_scheme()) {
        endpoint
    } else if insecure {
        http_scheme() + endpoint
    } else {
        https_scheme() + endpoint
    }
}

/// The URI that is dialled for `endpoint`, with `http://` or `https://` put in
/// front when it names neither scheme.
pub fn endpoint_with_scheme(endpoint: &str, insecure: bool) -> (r: String)
    ensures
        r@ == with_scheme(endpoint@, insecure),
{
    let e = chars_of(endpoint);
    let http: Vec<char> = vec!['h', 't', 't', 'p', ':', '/', '/'];
    let https: Vec<char> = vec!['h', 't', 't', 'p', 's', ':', '/', '/'];
    proof {
        assert(e@.subrange(0, e.len() as int) =~= e@);
    }
    let has_http = matches_at(&e, 0, e.len(), &http);
    let has_https = matches_at(&e, 0, e.len(), &https);
    proof {
        if e.len() >= 7 {
            assert(e@.subrange(0, 7) =~= e@.take(7));
        }
        if e.len() >= 8 {
            assert(e@.subrange(0, 8) =~= e@.take(8));
        }
    }
    let mut r = String::new();
    if has_http || has_https {
        push_all(&mut r, &e);
    } else if insecure {
        push_all(&mut r, &http);
        push_all(&mut r, &e);
    } else {
        push_all(&mut r, &https);
        push_all(&mut r, &e);
    }
    r
}

/// The settings of a client-to-be, in its view.
pub struct ClientBuilderView {
    pub endpoint: Seq<char>,
    pub token: Option<Seq<char>>,
    pub insecure: bool,
}

/// The endpoint that a default builder dials: the hosted Authzed service.
pub open spec fn default_endpoint() -> Seq<char> {
    "grpc.authzed.com:443"@
}

/// Settings for a client: the endpoint, an optional bearer token, and whether
/// the transport is plaintext HTTP/2.
#[derive(Debug, Clone)]
pub struct ClientBuilder {
    endpoint: String,
    token: Option<String>,
    insecure: bool,
}

impl View for ClientBuilder {
    type V = ClientBuilderView;

    closed spec fn view(&self) -> ClientBuilderView {
        ClientBuilderView {
            endpoint: self.endpoint@,
            token: match self.token {
                Some(t) => Some(t@),
                None => None,
            },
            insecure: self.insecure,
        }
    }
}

impl Default for ClientBuilder {
    /// The hosted Authzed service, over TLS, without a token.
    fn default() -> (r: Self)
        ensures
            r@ == (ClientBuilderView { endpoint: default_endpoint(), token: None, insecure: false }),
    {
        ClientBuilder {
            endpoint: String::from_str("grpc.authzed.com:443"),
            token: None,
            insecure: false,
        }
    }
}

impl ClientBuilder {
    /// Settings for `endpoint`, over TLS, without a token.
    pub fn new(endpoint: &str) -> (r: Self)
        ensures
            r@ == (ClientBuilderView { endpoint: endpoint@, token: None, insecure: false }),
    {
        ClientBuilder { endpoint: String::from_str(endpoint), ..Self::default() }
    }

    /// Sets the Bearer token attached as `authorization` metadata.
    ///
    /// If omitted, requests are sent without an authorization header.
    pub fn with_token(self, token: &str) -> (r: Self)
        ensures
            r@ == (ClientBuilderView { token: Some(token@), ..self@ }),
    {
        ClientBuilder { token: Some(String::from_str(token)), ..self }
    }

    /// Toggles plaintext HTTP/2 transport (no TLS).
    ///
    /// This is typically useful for local development and integration tests.
    pub fn insecure(self, insecure: bool) -> (r: Self)
        ensures
            r@ == (ClientBuilderView { insecure, ..self@ }),
    {
        ClientBuilder { insecure, ..self }
    }

    /// The endpoint that connecting dials: the configured endpoint with its
    /// scheme made explicit. Fails with a transport error when tonic refuses it.
    pub fn connect_endpoint(&self) -> (r: Result<Endpoint, ClientError>)
        ensures
            r is Ok <==> endpoint_accepts(with_scheme(self@.endpoint, self@.insecure)),
            r matches Ok(e) ==> endpoint_target(e) == uri_target(
                with_scheme(self@.endpoint, self@.insecure),
            ),
            r matches Err(e) ==> e is Transport && error_detail(e) == "invalid URI"@,
    {
        let uri = endpoint_with_scheme(self.endpoint.as_str(), self.insecure);
        match endpoint_from_shared(uri) {
            Ok(endpoint) => Ok(endpoint),
            Err(e) => Err(ClientError::from(e)),
        }
    }

    /// The client over `channel`, with the authorization for this builder's token.
    pub fn build(self, channel: Channel) -> (r: Result<Client, ClientError>)
        ensures
            build_succeeds(self@.token) <==> r is Ok,
            r matches Ok(c) ==> c.channel_spec() == channel && c.interceptor_spec()@
                == authorization_for(self@.token),
            r matches Err(e) ==> e is InvalidTokenMetadata,
    {
        match &self.token {
            Some(t) => build_client(channel, Some(t.as_str())),
            None => build_client(channel, None),
        }
    }
}

/// Whether a client can be built with the optional token.
pub open spec fn build_succeeds(token: Option<Seq<char>>) -> bool {
    match token {
        Some(t) => is_metadata_text(t),
        None => true,
    }
}

/// The `authorization` value that requests carry for the optional token.
pub open spec fn authorization_for(token: Option<Seq<char>>) -> Option<Seq<char>> {
    match token {
        Some(t) => Some(bearer(t)),
        None => None,
    }
}

/// A client of the SpiceDB API: a channel and the authorization that every
/// request on it carries.
#[derive(Debug, Clone)]
pub struct Client {
    channel: Channel,
    interceptor: AuthInterceptor,
}

impl Client {
    /// The channel the client talks over.
    pub closed spec fn channel_spec(&self) -> Channel {
        self.channel
    }

    /// The authorization the client attaches.
    pub closed spec fn interceptor_spec(&self) -> AuthInterceptor {
        self.interceptor
    }

    /// Default settings: the hosted Authzed service, over TLS, without a token.
    pub fn builder() -> (r: ClientBuilder)
        ensures
            r@ == (ClientBuilderView { endpoint: default_endpoint(), token: None, insecure: false }),
    {
        ClientBuilder::default()
    }

    /// The channel the client talks over.
    pub fn channel(&self) -> (r: &Channel)
        ensures
            *r == self.channel_spec(),
    {
        &self.channel
    }

    /// The authorization the client attaches to every request.
    pub fn interceptor(&self) -> (r: &AuthInterceptor)
        ensures
            *r == self.interceptor_spec(),
    {
        &self.interceptor
    }
}

/// The client over `channel` with the authorization for the optional token;
/// fails when `Bearer <token>` is no valid ASCII metadata value.
pub fn build_client(channel: Channel, token: Option<&str>) -> (r: Result<Client, ClientError>)
    ensures
        build_succeeds(match token {
            Some(t) => Some(t@),
            None => None,
        }) <==> r is Ok,
        r matches Ok(c) ==> c.channel_spec() == channel && c.interceptor_spec()@ == authorization_for(
            match token {
                Some(t) => Some(t@),
                None => None,
            },
        ),
        r matches Err(e) ==> e is InvalidTokenMetadata,
{
    match AuthInterceptor::from_token(token) {
        Ok(interceptor) => Ok(Client { channel, interceptor }),
        Err(e) => Err(ClientError::from(e)),
    }
}

/// A URI that already names its scheme is dialled as it is, whatever the
/// transport setting.
pub proof fn law_explicit_scheme_is_kept(endpoint: Seq<char>, insecure: bool)
    requires
        starts_with(endpoint, http_scheme()) || starts_with(endpoint, https_scheme()),
    ensures
        with_scheme(endpoint, insecure) == endpoint,
{
}

/// Making the scheme explicit is idempotent: the dialled URI always names its
/// scheme, so doing it again, with either setting, changes nothing.
pub proof fn law_with_scheme_idempotent(endpoint: Seq<char>, insecure: bool, again: bool)
    ensures
        with_scheme(with_scheme(endpoint, insecure), again) == with_scheme(endpoint, insecure),
{
    let u = with_scheme(endpoint, insecure);
    if !(starts_with(endpoint, http_scheme()) || starts_with(endpoint, https_scheme())) {
        if insecure {
            assert(u.take(7) =~= http_scheme());
        } else {
            assert(u.take(8) =~= https_scheme());
        }
    }
}

/// Without a scheme, the endpoint is dialled in plaintext (`http://`) exactly when
/// the builder is insecure, and over TLS (`https://`) otherwise.
pub proof fn law_insecure_selects_plaintext(endpoint: Seq<char>, insecure: bool)
    requires
        !starts_with(endpoint, http_scheme()),
        !starts_with(endpoint, https_scheme()),
    ensures
        starts_with(with_scheme(endpoint, insecure), http_scheme()) == insecure,
        starts_with(with_scheme(endpoint, insecure), https_scheme()) == !insecure,
{
    let u = with_scheme(endpoint, insecure);
    if insecure {
        assert(u.take(7) =~= http_scheme());
        assert(u[4] == ':');
        assert(https_scheme()[4] == 's');
    } else {
        assert(u.take(8) =~= https_scheme());
        assert(u[4] == 's');
        assert(http_scheme()[4] == ':');
    }
}

/// The URI that a builder's connecting endpoint is made from is `http://` and
/// the endpoint when the builder is set to insecure, otherwise `https://` and the
/// endpoint, unless the endpoint names its scheme already. (`connect_endpoint`
/// states that its endpoint targets `uri_target` of exactly this URI.)
pub proof fn law_insecure_setting_picks_target(v: ClientBuilderView, insecure: bool)
    ensures
        ({
            let b = ClientBuilderView { insecure, ..v };
            with_scheme(b.endpoint, b.insecure) == (if starts_with(v.endpoint, http_scheme())
                || starts_with(v.endpoint, https_scheme()) {
                v.endpoint
            } else if insecure {
                http_scheme() + v.endpoint
            } else {
                https_scheme() + v.endpoint
            })
        }),
{
}

/// Setting the token and the transport are independent: in either order the
/// builder ends up the same.
pub proof fn law_settings_commute(v: ClientBuilderView, token: Seq<char>, insecure: bool)
    ensures
        (ClientBuilderView { insecure, ..ClientBuilderView { token: Some(token), ..v } }) == (
        ClientBuilderView { token: Some(token), ..ClientBuilderView { insecure, ..v } }),
{
}

/// A builder that was never given a token builds a client whose requests carry
/// no authorization.
pub proof fn law_no_token_no_authorization(v: ClientBuilderView)
    requires
        v.token is None,
    ensures
        build_succeeds(v.token),
        authorization_for(v.token) is None,
{
}

/// A builder given a token builds a client exactly when `Bearer <token>` is a
/// valid metadata value, and its requests then carry that value.
pub proof fn law_token_is_bearer(v: ClientBuilderView, token: Seq<char>)
    requires
        v.token == Some(token),
    ensures
        build_succeeds(v.token) == is_metadata_text(bearer(token)),
        authorization_for(v.token) == Some(bearer(token)),
{
    crate::auth::lemma_bearer_is_metadata(token);
}

} // verus!
