use fal_rust::client::{classify, ClientCredentials, FalClient};
use fal_rust::environment::Environment;
use fal_rust::error::FalError;

fn key_client() -> FalClient {
    FalClient::new(ClientCredentials::from_key("abc"))
}

fn host_override(host: &str) -> Environment {
    let mut env = Environment::new();
    env.set("FAL_RUN_HOST", host);
    env
}

fn is_invalid_credentials(result: Result<&str, FalError<String>>) -> bool {
    matches!(result, Err(FalError::InvalidCredentials))
}

#[test]
fn authorization_of_a_single_key() {
    assert_eq!(key_client().authorization(), "Key abc");
}

#[test]
fn authorization_of_a_key_pair() {
    let client = FalClient::new(ClientCredentials::from_key_pair("id1", "sec2"));
    assert_eq!(client.authorization(), "Key id1:sec2");
}

#[test]
fn client_keeps_its_credentials() {
    let client = FalClient::new(ClientCredentials::from_key_pair("id1", "sec2"));
    match client.credentials() {
        ClientCredentials::KeyPair(key_id, secret) => {
            assert_eq!(key_id, "id1");
            assert_eq!(secret, "sec2");
        }
        other => panic!("expected a key pair, got {:?}", other),
    }
    let placeholder = FalClient::new(ClientCredentials::FromEnv("x".to_string()));
    assert!(!placeholder.credentials().is_renderable());
}

#[test]
fn build_url_with_and_without_leading_slash() {
    let env = Environment::new();
    assert_eq!(key_client().build_url(&env, "/foo/bar"), "https://fal.run/foo/bar");
    assert_eq!(key_client().build_url(&env, "foo/bar"), "https://fal.run/foo/bar");
}

#[test]
fn build_url_with_host_override() {
    let env = host_override("example.com");
    assert_eq!(key_client().build_url(&env, "/foo/bar"), "https://example.com/foo/bar");
    assert_eq!(key_client().build_url(&env, "foo/bar"), "https://example.com/foo/bar");
}

#[test]
fn build_url_drops_one_slash_only() {
    let env = Environment::new();
    assert_eq!(key_client().build_url(&env, "//foo/bar"), "https://fal.run//foo/bar");
    assert_eq!(key_client().build_url(&env, "///"), "https://fal.run///");
}

#[test]
fn build_url_keeps_inner_and_trailing_slashes() {
    let env = Environment::new();
    assert_eq!(key_client().build_url(&env, "fal-ai/stable-cascade/"), "https://fal.run/fal-ai/stable-cascade/");
}

#[test]
fn build_url_of_empty_path_and_of_a_lone_slash() {
    let env = Environment::new();
    assert_eq!(key_client().build_url(&env, ""), "https://fal.run/");
    assert_eq!(key_client().build_url(&env, "/"), "https://fal.run/");
}

#[test]
fn build_url_takes_an_empty_host_as_set() {
    let env = host_override("");
    assert_eq!(key_client().build_url(&env, "foo"), "https:///foo");
}

#[test]
fn build_url_keeps_characters_beyond_ascii() {
    let env = host_override("bücher.example");
    assert_eq!(key_client().build_url(&env, "/säge/ü"), "https://bücher.example/säge/ü");
}

#[test]
fn build_url_reads_the_host_on_every_call() {
    let client = key_client();
    let mut env = Environment::new();
    assert_eq!(client.build_url(&env, "f"), "https://fal.run/f");
    env.set("FAL_RUN_HOST", "one.example");
    assert_eq!(client.build_url(&env, "f"), "https://one.example/f");
    env.set("FAL_RUN_HOST", "two.example");
    assert_eq!(client.build_url(&env, "f"), "https://two.example/f");
}

#[test]
fn build_url_does_not_depend_on_the_credentials() {
    let env = Environment::new();
    let pair = FalClient::new(ClientCredentials::from_key_pair("id1", "sec2"));
    let placeholder = FalClient::new(ClientCredentials::FromEnv("x".to_string()));
    assert_eq!(pair.build_url(&env, "/f"), "https://fal.run/f");
    assert_eq!(placeholder.build_url(&env, "/f"), "https://fal.run/f");
}

#[test]
fn request_holds_url_and_authorization_header() {
    let env = host_override("example.com");
    let request = key_client().request(&env, "/fal-ai/stable-cascade");
    assert_eq!(request.url, "https://example.com/fal-ai/stable-cascade");
    assert_eq!(request.header_name, "Authorization");
    assert_eq!(request.header_value, "Key abc");
}

#[test]
fn request_of_a_key_pair_on_the_default_host() {
    let client = FalClient::new(ClientCredentials::from_key_pair("id1", "sec2"));
    let request = client.request(&Environment::new(), "fal-ai/stable-cascade");
    assert_eq!(request.url, "https://fal.run/fal-ai/stable-cascade");
    assert_eq!(request.header_name, "Authorization");
    assert_eq!(request.header_value, "Key id1:sec2");
}

#[test]
fn success_status_hands_the_response_on() {
    for status in [200u16, 201, 204, 299] {
        let result: Result<&str, FalError<String>> = classify(Ok((status, "body")));
        assert!(matches!(result, Ok("body")), "status {}", status);
    }
}

#[test]
fn status_401_and_status_500_are_classified_alike() {
    assert!(is_invalid_credentials(classify(Ok((401, "unauthorized")))));
    assert!(is_invalid_credentials(classify(Ok((500, "server error")))));
}

#[test]
fn every_other_status_is_invalid_credentials() {
    for status in [0u16, 99, 100, 199, 300, 301, 400, 404, 422, 429, 503, 999, 1000, u16::MAX] {
        assert!(is_invalid_credentials(classify(Ok((status, "body")))), "status {}", status);
    }
}

#[test]
fn transport_failure_is_a_request_error_with_its_cause() {
    let result: Result<&str, FalError<String>> = classify(Err("connection refused".to_string()));
    match result {
        Err(FalError::RequestError(cause)) => assert_eq!(cause, "connection refused"),
        other => panic!("expected a request error, got {:?}", other),
    }
}

#[test]
fn transport_failure_is_not_invalid_credentials() {
    let result: Result<&str, FalError<u32>> = classify(Err(7));
    assert!(!matches!(result, Err(FalError::InvalidCredentials)));
    assert!(!matches!(result, Ok(_)));
}
