use spicedb_rs_client::{
    build_client, endpoint_with_scheme, AuthInterceptor, Client, ClientBuilder, ClientError,
};
use tonic::transport::{Channel, Endpoint};

fn debug<T: std::fmt::Debug>(value: &T) -> String {
    format!("{value:?}")
}

fn with_lazy_channel<R>(uri: &'static str, f: impl FnOnce(Channel) -> R) -> R {
    let runtime = tokio::runtime::Builder::new_current_thread()
        .build()
        .expect("runtime should start");
    let _guard = runtime.enter();
    let channel = Endpoint::from_static(uri).connect_lazy();
    f(channel)
}

#[test]
fn default_builder_targets_hosted_service_over_tls() {
    let builder = ClientBuilder::default();
    assert_eq!(
        debug(&builder),
        "ClientBuilder { endpoint: \"grpc.authzed.com:443\", token: None, insecure: false }"
    );
    assert_eq!(debug(&Client::builder()), debug(&builder));
}

#[test]
fn new_keeps_endpoint_and_defaults_the_rest() {
    let builder = ClientBuilder::new("localhost:50051");
    assert_eq!(
        debug(&builder),
        "ClientBuilder { endpoint: \"localhost:50051\", token: None, insecure: false }"
    );
}

#[test]
fn with_token_and_insecure_set_their_fields() {
    let builder = ClientBuilder::new("localhost:50051")
        .with_token("spicedb")
        .insecure(true);
    assert_eq!(
        debug(&builder),
        "ClientBuilder { endpoint: \"localhost:50051\", token: Some(\"spicedb\"), insecure: true }"
    );
    let later = builder.with_token("other").insecure(false);
    assert_eq!(
        debug(&later),
        "ClientBuilder { endpoint: \"localhost:50051\", token: Some(\"other\"), insecure: false }"
    );
}

#[test]
fn settings_commute() {
    let a = ClientBuilder::new("h:1").with_token("t").insecure(true);
    let b = ClientBuilder::new("h:1").insecure(true).with_token("t");
    assert_eq!(debug(&a), debug(&b));
}

#[test]
fn scheme_is_added_by_transport_setting() {
    assert_eq!(endpoint_with_scheme("localhost:50051", true), "http://localhost:50051");
    assert_eq!(endpoint_with_scheme("localhost:50051", false), "https://localhost:50051");
    assert_eq!(endpoint_with_scheme("", false), "https://");
    assert_eq!(endpoint_with_scheme("httpx://host", true), "http://httpx://host");
    assert_eq!(endpoint_with_scheme("http:/host", false), "https://http:/host");
}

#[test]
fn explicit_scheme_is_kept() {
    assert_eq!(endpoint_with_scheme("http://host:1", false), "http://host:1");
    assert_eq!(endpoint_with_scheme("https://host:1", true), "https://host:1");
}

#[test]
fn scheme_is_idempotent() {
    for endpoint in ["grpc.authzed.com:443", "http://a", "https://b", ""] {
        for insecure in [false, true] {
            let once = endpoint_with_scheme(endpoint, insecure);
            assert_eq!(endpoint_with_scheme(&once, !insecure), once);
        }
    }
}

#[test]
fn connect_endpoint_dials_uri_with_scheme() {
    let endpoint = ClientBuilder::new("localhost:50051")
        .insecure(true)
        .connect_endpoint()
        .expect("endpoint should parse");
    assert_eq!(endpoint.uri().to_string(), "http://localhost:50051/");
    let endpoint = ClientBuilder::new("localhost:50051")
        .connect_endpoint()
        .expect("endpoint should parse");
    assert_eq!(endpoint.uri().to_string(), "https://localhost:50051/");
}

#[test]
fn connect_endpoint_refuses_invalid_uri_as_transport_error() {
    let result = ClientBuilder::new("bad host:1").connect_endpoint();
    assert!(matches!(result, Err(ClientError::Transport(_))));
}

#[test]
fn no_token_means_no_authorization() {
    let interceptor = AuthInterceptor::from_token(None).expect("no token is fine");
    assert_eq!(interceptor.authorization_header(), None);
}

#[test]
fn token_becomes_bearer_authorization() {
    let interceptor = AuthInterceptor::from_token(Some("spicedb")).expect("valid token");
    assert_eq!(interceptor.authorization_header(), Some("Bearer spicedb"));
    let copy = interceptor.clone();
    assert_eq!(copy.authorization_header(), Some("Bearer spicedb"));
}

#[test]
fn token_metadata_validity_follows_header_rules() {
    assert!(AuthInterceptor::from_token(Some("a\nb")).is_err());
    assert!(AuthInterceptor::from_token(Some("a\u{7f}")).is_err());
    assert!(AuthInterceptor::from_token(Some("\u{1f}")).is_err());
    assert_eq!(
        AuthInterceptor::from_token(Some("a\tb"))
            .expect("tab is allowed")
            .authorization_header(),
        Some("Bearer a\tb")
    );
    assert_eq!(
        AuthInterceptor::from_token(Some("tok\u{e9}n"))
            .expect("bytes above 127 are allowed")
            .authorization_header(),
        Some("Bearer tok\u{e9}n")
    );
    assert_eq!(
        AuthInterceptor::from_token(Some(""))
            .expect("empty token is allowed")
            .authorization_header(),
        Some("Bearer ")
    );
}

#[test]
fn build_client_attaches_authorization() {
    with_lazy_channel("http://localhost:50051", |channel| {
        let client = build_client(channel, Some("secret")).expect("valid token");
        assert_eq!(client.interceptor().authorization_header(), Some("Bearer secret"));
    });
    with_lazy_channel("http://localhost:50051", |channel| {
        let client = build_client(channel, None).expect("no token");
        assert_eq!(client.interceptor().authorization_header(), None);
    });
}

#[test]
fn build_client_refuses_invalid_token() {
    with_lazy_channel("http://localhost:50051", |channel| {
        let result = build_client(channel, Some("bad\ntoken"));
        assert!(matches!(result, Err(ClientError::InvalidTokenMetadata(_))));
    });
}

#[test]
fn builder_builds_with_its_token() {
    with_lazy_channel("http://localhost:50051", |channel| {
        let client = ClientBuilder::new("localhost:50051")
            .with_token("t0k")
            .build(channel)
            .expect("valid token");
        assert_eq!(client.interceptor().authorization_header(), Some("Bearer t0k"));
        let copy = client.clone();
        assert_eq!(copy.interceptor().authorization_header(), Some("Bearer t0k"));
        let _channel: Channel = client.channel().clone();
    });
    with_lazy_channel("http://localhost:50051", |channel| {
        let result = ClientBuilder::new("localhost:50051")
            .with_token("x\r\ny")
            .build(channel);
        assert!(matches!(result, Err(ClientError::InvalidTokenMetadata(_))));
    });
}

#[test]
fn client_error_converts_from_sources() {
    let invalid_uri = "a b".parse::<http::Uri>().expect_err("space is no uri");
    assert!(matches!(ClientError::from(invalid_uri), ClientError::InvalidEndpoint(_)));
    let invalid_meta = "\n"
        .parse::<tonic::metadata::MetadataValue<tonic::metadata::Ascii>>()
        .expect_err("newline is no metadata");
    assert!(matches!(
        ClientError::from(invalid_meta),
        ClientError::InvalidTokenMetadata(_)
    ));
}

#[test]
fn client_error_messages_name_their_kind() {
    let text = "a b".parse::<http::Uri>().expect_err("space is no uri").to_string();
    let error = ClientError::from("a b".parse::<http::Uri>().expect_err("space is no uri"));
    assert_eq!(error.message(), format!("invalid endpoint: {text}"));
    assert_eq!(error.message(), "invalid endpoint: invalid uri character");

    let text = "\n"
        .parse::<tonic::metadata::MetadataValue<tonic::metadata::Ascii>>()
        .expect_err("newline is no metadata")
        .to_string();
    let error = AuthInterceptor::from_token(Some("\n")).map(|_| ()).map_err(ClientError::from);
    assert_eq!(
        error.expect_err("newline is refused").message(),
        format!("invalid token metadata: {text}")
    );
    assert_eq!(text, "failed to parse metadata value");

    let expected = match ClientBuilder::new("bad host:1").connect_endpoint() {
        Err(ClientError::Transport(e)) => format!("transport error: {e}"),
        _ => panic!("expected a transport error"),
    };
    let message = ClientBuilder::new("bad host:1")
        .connect_endpoint()
        .expect_err("invalid uri")
        .message();
    assert_eq!(message, expected);
    assert_eq!(message, "transport error: invalid URI");
}
