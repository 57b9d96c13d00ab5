use kvile::envfile::{merge_environment_configs, parse_dotenv, Environment, EnvironmentConfig};
use kvile::strmap::StrMap;

#[test]
fn test_parse_dotenv() {
    let content = r#"
# This is a comment
HOST=localhost:3000
API_TOKEN=your-token
DEBUG=true
QUOTED="hello world"
SINGLE_QUOTED='single quotes'
"#;

    let vars = parse_dotenv(content);
    assert_eq!(vars.get("HOST"), Some(&"localhost:3000".to_string()));
    assert_eq!(vars.get("API_TOKEN"), Some(&"your-token".to_string()));
    assert_eq!(vars.get("DEBUG"), Some(&"true".to_string()));
    assert_eq!(vars.get("QUOTED"), Some(&"hello world".to_string()));
    assert_eq!(
        vars.get("SINGLE_QUOTED"),
        Some(&"single quotes".to_string())
    );
}

#[test]
fn test_parse_dotenv_skips_lines_without_equals() {
    let vars = parse_dotenv("just some text\nKEY=value");
    assert_eq!(vars.len(), 1);
    assert_eq!(vars.get("KEY"), Some(&"value".to_string()));
}

#[test]
fn test_parse_dotenv_last_definition_wins() {
    let vars = parse_dotenv("A=1\nA=2");
    assert_eq!(vars.get("A"), Some(&"2".to_string()));
    assert_eq!(vars.len(), 1);
}

#[test]
fn test_merge_private_overrides_public() {
    let mut base_vars = StrMap::new();
    base_vars.insert("host".to_string(), "public".to_string());
    base_vars.insert("keep".to_string(), "yes".to_string());
    let mut base = EnvironmentConfig {
        environments: vec![Environment {
            name: "dev".to_string(),
            variables: base_vars,
            source_file: "env.json".to_string(),
        }],
        shared: StrMap::new(),
    };

    let mut priv_vars = StrMap::new();
    priv_vars.insert("host".to_string(), "secret".to_string());
    let mut priv_shared = StrMap::new();
    priv_shared.insert("token".to_string(), "tok-123".to_string());
    let priv_cfg = EnvironmentConfig {
        environments: vec![
            Environment {
                name: "dev".to_string(),
                variables: priv_vars,
                source_file: "private.json".to_string(),
            },
            Environment {
                name: "staging".to_string(),
                variables: StrMap::new(),
                source_file: "private.json".to_string(),
            },
        ],
        shared: priv_shared,
    };

    merge_environment_configs(&mut base, priv_cfg);
    assert_eq!(base.environments.len(), 2);
    let dev = base
        .environments
        .iter()
        .find(|e| e.name == "dev")
        .unwrap();
    assert_eq!(dev.variables.get("host"), Some(&"secret".to_string()));
    assert_eq!(dev.variables.get("keep"), Some(&"yes".to_string()));
    assert!(base.environments.iter().any(|e| e.name == "staging"));
    assert_eq!(base.shared.get("token"), Some(&"tok-123".to_string()));
}
