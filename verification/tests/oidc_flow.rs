use kvile::httpmodel::known_method;
use kvile::oidc::{
    build_auth_url, callback_result_from_pairs, generate_pkce, generate_state, request_path_of,
    token_request_params, OidcConfig,
};
use kvile::strmap::StrMap;
use kvile::watchpath::{is_http_file_name, is_relevant_path, skip_dir_name};

#[test]
fn test_generate_pkce() {
    let pkce = generate_pkce();
    assert!(!pkce.code_verifier.is_empty());
    assert!(!pkce.code_challenge.is_empty());
    assert_eq!(pkce.code_challenge_method, "S256");
    // Verifier should be ~43 chars (32 bytes base64 encoded)
    assert!(pkce.code_verifier.len() >= 40);
}

#[test]
fn test_pkce_challenge_is_a_digest_encoding() {
    // 32 digest bytes encode to exactly 43 unpadded base64 characters; a
    // digest that merely echoed its input would encode to a longer text.
    let pkce = generate_pkce();
    assert_eq!(pkce.code_verifier.len(), 43);
    assert_eq!(pkce.code_challenge.len(), 43);
}

#[test]
fn test_generate_state() {
    let state = generate_state();
    assert!(!state.is_empty());
    // State should be ~22 chars (16 bytes base64 encoded)
    assert!(state.len() >= 20);
}

#[test]
fn test_build_auth_url() {
    let config = OidcConfig {
        issuer: None,
        authorization_endpoint: Some("https://auth.example.com/authorize".to_string()),
        token_endpoint: Some("https://auth.example.com/token".to_string()),
        client_id: "my-client".to_string(),
        client_secret: None,
        redirect_url: "http://localhost:8080/callback".to_string(),
        scopes: vec!["openid".to_string(), "profile".to_string()],
        extra_params: StrMap::new(),
    };

    let pkce = generate_pkce();
    let state = generate_state();

    let url = build_auth_url(&config, None, state.as_str(), &pkce).unwrap();

    assert!(url.contains("response_type=code"));
    assert!(url.contains("client_id=my-client"));
    assert!(url.contains("redirect_uri="));
    assert!(url.contains("scope=openid+profile"));
    assert!(url.contains("code_challenge="));
    assert!(url.contains("code_challenge_method=S256"));
}

#[test]
fn test_build_auth_url_without_endpoint() {
    let config = OidcConfig {
        issuer: None,
        authorization_endpoint: None,
        token_endpoint: None,
        client_id: "c".to_string(),
        client_secret: None,
        redirect_url: "http://localhost:1/cb".to_string(),
        scopes: vec![],
        extra_params: StrMap::new(),
    };
    let pkce = generate_pkce();
    let err = build_auth_url(&config, None, "st", &pkce).unwrap_err();
    assert_eq!(err, "No authorization endpoint configured");
}

#[test]
fn test_callback_state_mismatch() {
    let pairs = vec![
        ("code".to_string(), "abc".to_string()),
        ("state".to_string(), "other".to_string()),
    ];
    let err = callback_result_from_pairs(&pairs, "expected").unwrap_err();
    assert_eq!(err, "State mismatch - possible CSRF attack");
}

#[test]
fn test_callback_extracts_fields() {
    let pairs = vec![
        ("code".to_string(), "abc".to_string()),
        ("state".to_string(), "st".to_string()),
    ];
    let cb = callback_result_from_pairs(&pairs, "st").unwrap();
    assert_eq!(cb.code, Some("abc".to_string()));
    assert_eq!(cb.state, Some("st".to_string()));
    assert_eq!(cb.error, None);
}

#[test]
fn test_request_path_extraction() {
    assert_eq!(
        request_path_of("GET /callback?code=x HTTP/1.1"),
        Some("/callback?code=x".to_string())
    );
    assert_eq!(request_path_of("GET"), None);
}

#[test]
fn test_token_request_params_include_secret() {
    let config = OidcConfig {
        issuer: None,
        authorization_endpoint: None,
        token_endpoint: Some("https://auth.example.com/token".to_string()),
        client_id: "cid".to_string(),
        client_secret: Some("shhh".to_string()),
        redirect_url: "http://localhost:1/cb".to_string(),
        scopes: vec![],
        extra_params: StrMap::new(),
    };
    let params = token_request_params(&config, "thecode", "verifier");
    assert_eq!(params[0], ("grant_type".to_string(), "authorization_code".to_string()));
    assert_eq!(params[1], ("code".to_string(), "thecode".to_string()));
    assert_eq!(params.len(), 6);
    assert_eq!(params[5].0, "client_secret");
}

#[test]
fn test_known_method_validation() {
    assert_eq!(known_method("get"), Some("GET".to_string()));
    assert_eq!(known_method("PaTcH"), Some("PATCH".to_string()));
    assert_eq!(known_method("FETCH"), None);
}

#[test]
fn test_relevant_paths() {
    assert!(is_relevant_path("/work/api.http", false, "api.http"));
    assert!(is_relevant_path("/work/API.REST", false, "API.REST"));
    assert!(is_relevant_path("/work/http-client.env.json", false, "http-client.env.json"));
    assert!(is_relevant_path("/work/sub", true, "sub"));
    assert!(!is_relevant_path("/work/.git/x.http", false, "x.http"));
    assert!(!is_relevant_path("/work/node_modules/a.http", false, "a.http"));
    assert!(!is_relevant_path("/work/target/a.http", false, "a.http"));
    assert!(!is_relevant_path("/work/notes.txt", false, "notes.txt"));
}

#[test]
fn test_file_and_dir_name_filters() {
    assert!(is_http_file_name("a.http"));
    assert!(is_http_file_name("a.rest"));
    assert!(!is_http_file_name("a.HTTP"));
    assert!(skip_dir_name(".hidden"));
    assert!(skip_dir_name("node_modules"));
    assert!(skip_dir_name("target"));
    assert!(!skip_dir_name("src"));
}
