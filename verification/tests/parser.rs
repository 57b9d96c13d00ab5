use kvile::detect::{detect_format, parse_http_content};
use kvile::jetbrains::parse_jetbrains;
use kvile::strmap::StrMap;
use kvile::subst::substitute_variables;
use kvile::types::HttpFileFormat;
use kvile::vscode::parse_vscode;

#[test]
fn test_parse_simple_get() {
    let content = r#"
GET https://api.example.com/users
"#;
    let requests = parse_jetbrains(content).unwrap();
    assert_eq!(requests.len(), 1);
    assert_eq!(requests[0].method, "GET");
    assert_eq!(requests[0].url, "https://api.example.com/users");
}

#[test]
fn test_parse_with_headers() {
    let content = r#"
GET https://api.example.com/users
Content-Type: application/json
Authorization: Bearer token123
"#;
    let requests = parse_jetbrains(content).unwrap();
    assert_eq!(requests.len(), 1);
    assert_eq!(
        requests[0].headers.get("Content-Type"),
        Some(&"application/json".to_string())
    );
    assert_eq!(
        requests[0].headers.get("Authorization"),
        Some(&"Bearer token123".to_string())
    );
}

#[test]
fn test_parse_with_body() {
    let content = r#"
POST https://api.example.com/users
Content-Type: application/json

{
  "name": "John",
  "email": "john@example.com"
}
"#;
    let requests = parse_jetbrains(content).unwrap();
    assert_eq!(requests.len(), 1);
    assert_eq!(requests[0].method, "POST");
    assert!(requests[0].body.is_some());
}

#[test]
fn test_parse_multiple_requests() {
    let content = r#"
### Get all users
GET https://api.example.com/users

###
POST https://api.example.com/users
Content-Type: application/json

{"name": "John"}
"#;
    let requests = parse_jetbrains(content).unwrap();
    assert_eq!(requests.len(), 2);
    assert_eq!(requests[0].name, Some("Get all users".to_string()));
    assert_eq!(requests[0].method, "GET");
    assert_eq!(requests[1].method, "POST");
}

#[test]
fn test_parse_pre_request_script() {
    let content = r#"
< {%
    request.variables.set("timestamp", Date.now());
%}

GET https://api.example.com/users
X-Timestamp: {{timestamp}}
"#;
    let requests = parse_jetbrains(content).unwrap();
    assert_eq!(requests.len(), 1);
    assert!(requests[0].pre_script.is_some());
    let script = requests[0].pre_script.as_ref().unwrap();
    assert!(script.contains("request.variables.set"));
}

#[test]
fn test_parse_post_request_script() {
    let content = r#"
GET https://api.example.com/users

> {%
    client.global.set("userCount", response.body.length);
    client.test("Status is 200", function() {
        client.assert(response.status === 200);
    });
%}
"#;
    let requests = parse_jetbrains(content).unwrap();
    assert_eq!(requests.len(), 1);
    assert!(requests[0].post_script.is_some());
    let script = requests[0].post_script.as_ref().unwrap();
    assert!(script.contains("client.global.set"));
    assert!(script.contains("client.test"));
}

#[test]
fn test_parse_both_scripts() {
    let content = r#"
< {%
    request.variables.set("nonce", Math.random());
%}

POST https://api.example.com/auth
Content-Type: application/json

{"nonce": "{{nonce}}"}

> {%
    client.global.set("token", response.body.token);
%}
"#;
    let requests = parse_jetbrains(content).unwrap();
    assert_eq!(requests.len(), 1);
    assert!(requests[0].pre_script.is_some());
    assert!(requests[0].post_script.is_some());
    assert!(requests[0].pre_script.as_ref().unwrap().contains("nonce"));
    assert!(requests[0].post_script.as_ref().unwrap().contains("token"));
}

#[test]
fn test_parse_multiline_post_script() {
    let content = r#"### Get posts with tests
GET {{baseUrl}}/posts

> {%
    client.test("Status is 200", function() {
        client.assert(response.status === 200, "Expected 200 OK");
    });

    client.test("Response is array", function() {
        client.assert(Array.isArray(response.body), "Expected array response");
    });

    // Store first post ID for next request
    client.global.set("firstPostId", response.body[0].id);
    client.log("Found", response.body.length, "posts");
%}

###

### Next request
GET {{baseUrl}}/posts/1
"#;
    let requests = parse_jetbrains(content).unwrap();
    assert_eq!(requests.len(), 2);
    assert!(
        requests[0].post_script.is_some(),
        "First request should have post_script"
    );
    assert!(
        requests[0].body.is_none(),
        "First request should not have body"
    );
    let script = requests[0].post_script.as_ref().unwrap();
    assert!(script.contains("client.test"));
    assert!(script.contains("client.global.set"));
}

#[test]
fn test_parse_with_variables() {
    let content = r#"
@hostname = localhost
@port = 3000

GET http://{{hostname}}:{{port}}/users
"#;
    let requests = parse_vscode(content).unwrap();
    assert_eq!(requests.len(), 1);
    assert_eq!(
        requests[0].variables.get("hostname"),
        Some(&"localhost".to_string())
    );
    assert_eq!(requests[0].variables.get("port"), Some(&"3000".to_string()));
}

#[test]
fn test_detect_vscode_format() {
    let content = r#"
@hostname = localhost
@port = 3000

GET http://{{hostname}}:{{port}}/api
"#;
    assert_eq!(detect_format(content), HttpFileFormat::VsCode);
}

#[test]
fn test_detect_jetbrains_format() {
    let content = r#"
### Get users
GET https://api.example.com/users
Content-Type: application/json
"#;
    assert_eq!(detect_format(content), HttpFileFormat::JetBrains);
}

#[test]
fn test_substitute_variables() {
    let mut vars = StrMap::new();
    vars.insert("host".to_string(), "localhost".to_string());
    vars.insert("port".to_string(), "8080".to_string());

    let result = substitute_variables("http://{{host}}:{{port}}/api", &vars);
    assert_eq!(result, "http://localhost:8080/api");
}

#[test]
fn test_substitute_missing_variable() {
    let vars = StrMap::new();
    let result = substitute_variables("http://{{host}}/api", &vars);
    assert_eq!(result, "http://{{host}}/api");
}

#[test]
fn test_single_method_line_round_trip() {
    let requests = parse_http_content("DELETE https://api.example.com/items/7").unwrap();
    assert_eq!(requests.len(), 1);
    assert_eq!(requests[0].method, "DELETE");
    assert_eq!(requests[0].url, "https://api.example.com/items/7");
    assert_eq!(requests[0].headers.len(), 0);
    assert!(requests[0].body.is_none());
    assert!(requests[0].name.is_none());
    assert_eq!(requests[0].line_number, 1);
}

#[test]
fn test_two_separated_sections() {
    let content = "###\nGET /one\n###\nPOST /two";
    let requests = parse_http_content(content).unwrap();
    assert_eq!(requests.len(), 2);
    assert_eq!(requests[0].method, "GET");
    assert_eq!(requests[0].url, "/one");
    assert_eq!(requests[1].method, "POST");
    assert_eq!(requests[1].url, "/two");
}

#[test]
fn test_header_only_document_yields_nothing() {
    let requests = parse_http_content("Content-Type: application/json").unwrap();
    assert_eq!(requests.len(), 0);
}

#[test]
fn test_body_capture_boundary() {
    let requests = parse_http_content("POST /x\n\n{\"a\":1}\n").unwrap();
    assert_eq!(requests.len(), 1);
    assert_eq!(requests[0].body, Some("{\"a\":1}".to_string()));
}

#[test]
fn test_substitution_idempotent_once_resolved() {
    let mut vars = StrMap::new();
    vars.insert("host".to_string(), "localhost".to_string());
    let once = substitute_variables("http://{{host}}/api", &vars);
    let twice = substitute_variables(once.as_str(), &vars);
    assert_eq!(once, twice);
}

#[test]
fn test_scripts_dominate_detection() {
    let content = "@var = value\n< {%\n  request.variables.set(\"a\", 1);\n%}\nGET /x";
    assert_eq!(detect_format(content), HttpFileFormat::JetBrains);
}

#[test]
fn test_variable_defined_after_last_request() {
    let content = "@early = 1\n### first\nGET /a\n### second\nGET /b\n@late = 2";
    let requests = parse_http_content(content).unwrap();
    assert_eq!(requests.len(), 2);
    for r in &requests {
        assert_eq!(r.variables.get("early"), Some(&"1".to_string()));
        assert_eq!(r.variables.get("late"), Some(&"2".to_string()));
    }
}

#[test]
fn test_empty_document() {
    assert_eq!(detect_format(""), HttpFileFormat::JetBrains);
    let requests = parse_http_content("").unwrap();
    assert_eq!(requests.len(), 0);
}

#[test]
fn test_unclosed_script_block_drops_opener() {
    let content = "< {%\nGET /after\n### next\nGET /real";
    let requests = parse_jetbrains(content).unwrap();
    // The opener is dropped; the following method line starts a request.
    assert_eq!(requests.len(), 2);
    assert_eq!(requests[0].url, "/after");
    assert_eq!(requests[1].url, "/real");
    assert!(requests[0].pre_script.is_none());
}

#[test]
fn test_script_content_on_closing_line() {
    let content = "GET /x\n\n> {%\n  check(); done()%}\n";
    let requests = parse_jetbrains(content).unwrap();
    assert_eq!(requests.len(), 1);
    assert_eq!(requests[0].post_script, Some("check(); done()".to_string()));
}

#[test]
fn test_metadata_annotation() {
    let content = "# @name createUser\nPOST /users";
    let requests = parse_jetbrains(content).unwrap();
    assert_eq!(requests.len(), 1);
    assert_eq!(
        requests[0].metadata.get("name"),
        Some(&"createUser".to_string())
    );
}

#[test]
fn test_duplicate_header_keeps_last() {
    let content = "GET /x\nAccept: one\nAccept: two";
    let requests = parse_jetbrains(content).unwrap();
    assert_eq!(requests[0].headers.get("Accept"), Some(&"two".to_string()));
    assert_eq!(requests[0].headers.len(), 1);
}

#[test]
fn test_method_line_with_version() {
    let content = "GET https://api.example.com/users HTTP/1.1";
    let requests = parse_jetbrains(content).unwrap();
    assert_eq!(requests.len(), 1);
    assert_eq!(requests[0].url, "https://api.example.com/users");
    assert_eq!(requests[0].http_version, Some("HTTP/1.1".to_string()));
}

#[test]
fn test_bare_url_is_implicit_get() {
    // A path-style line with no method becomes an implicit GET.  (A full
    // `https://...` line is taken by the header rule, which has priority.)
    let content = "/api/ping\nAccept: text/plain";
    let requests = parse_jetbrains(content).unwrap();
    assert_eq!(requests.len(), 1);
    assert_eq!(requests[0].method, "GET");
    assert_eq!(requests[0].url, "/api/ping");
}

#[test]
fn test_substitute_dotted_and_hyphened_names() {
    let mut vars = StrMap::new();
    vars.insert("api.host-name".to_string(), "example.org".to_string());
    let result = substitute_variables("{{api.host-name}}/x", &vars);
    assert_eq!(result, "example.org/x");
}
