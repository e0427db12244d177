use fracta::compose::{
    generate_compose, rewrite_container_name, rewrite_long_port, sanitize_container_name,
};
use fracta::env::Env;
use fracta::listing::extract_ports;
use fracta::ports::rewrite_short_port;
use serde_yaml::{Mapping, Value};

#[test]
fn test_rewrite_short_port() {
    let mut warnings = Vec::new();
    let env = Env::new();
    let (value, changed) = rewrite_short_port("8080:80", 1000, &env, &mut warnings);
    assert_eq!(value, "9080:80");
    assert!(changed);

    let (value, changed) = rewrite_short_port("127.0.0.1:8080:80", 1000, &env, &mut warnings);
    assert_eq!(value, "127.0.0.1:9080:80");
    assert!(changed);

    let (value, changed) = rewrite_short_port("8080:80/tcp", 1000, &env, &mut warnings);
    assert_eq!(value, "9080:80/tcp");
    assert!(changed);

    let (value, changed) = rewrite_short_port("3000", 1000, &env, &mut warnings);
    assert_eq!(value, "3000");
    assert!(!changed);
}

#[test]
fn test_rewrite_long_port() {
    let mut warnings = Vec::new();
    let env = Env::new();
    let mut map = Mapping::new();
    map.insert(Value::String("target".to_string()), Value::Number(80.into()));
    map.insert(Value::String("published".to_string()), Value::Number(8080.into()));

    let (new_map, changed) = rewrite_long_port(&map, 1000, &env, &mut warnings);
    assert!(changed);
    assert_eq!(
        new_map.get(&Value::String("published".to_string())),
        Some(&Value::Number(9080.into()))
    );
}

#[test]
fn test_rewrite_env_default() {
    let mut warnings = Vec::new();
    let env = Env::new();
    let (value, changed) =
        rewrite_short_port("${BACKEND_PORT-12910}:12910", 1000, &env, &mut warnings);
    assert_eq!(value, "13910:12910");
    assert!(changed);
}

#[test]
fn test_rewrite_env_value() {
    let mut warnings = Vec::new();
    let mut env = Env::new();
    env.insert("BACKEND_PORT".to_string(), "12000".to_string());
    let (value, changed) =
        rewrite_short_port("${BACKEND_PORT-12910}:12910", 1000, &env, &mut warnings);
    assert_eq!(value, "13000:12910");
    assert!(changed);
}

#[test]
fn test_sanitize_container_name() {
    assert_eq!(sanitize_container_name("develop3"), "develop3");
    assert_eq!(sanitize_container_name("feature/new-feature"), "feature-new-feature");
    assert_eq!(sanitize_container_name("bugfix/issue-123"), "bugfix-issue-123");
    assert_eq!(sanitize_container_name("feature//double-slash"), "feature-double-slash");
    assert_eq!(sanitize_container_name("/leading-slash"), "leading-slash");
    assert_eq!(sanitize_container_name("trailing-slash/"), "trailing-slash");
}

#[test]
fn test_rewrite_container_name() {
    let mut warnings = Vec::new();
    let value = Value::String("localstack-main".to_string());
    let rewritten = rewrite_container_name(&value, "develop3", &mut warnings);
    assert_eq!(
        rewritten,
        Some(Value::String("localstack-main-develop3".to_string()))
    );
}

#[test]
fn test_rewrite_container_name_with_slash() {
    let mut warnings = Vec::new();
    let value = Value::String("localstack-main".to_string());
    let rewritten = rewrite_container_name(&value, "feature/new-feature", &mut warnings);
    assert_eq!(
        rewritten,
        Some(Value::String("localstack-main-feature-new-feature".to_string()))
    );
}

#[test]
fn test_extract_ports_short() {
    let yaml = r#"
services:
  app:
    ports:
      - 8080:80
      - 127.0.0.1:9000:9000/tcp
"#;
    let ports = extract_ports(yaml).unwrap();
    assert_eq!(ports.len(), 2);
    assert_eq!(ports[0].service, "app");
    assert_eq!(ports[0].host, "8080");
    assert_eq!(ports[0].target, "80");
    assert_eq!(ports[1].host, "127.0.0.1:9000");
    assert_eq!(ports[1].target, "9000/tcp");
}

#[test]
fn generate_compose_shifts_ports_and_names_containers() {
    let yaml = "services:\n  app:\n    image: nginx\n    container_name: web\n    ports:\n      - \"8080:80\"\n      - published: 9000\n        target: 90\n";
    let env = Env::new();
    let result = generate_compose(yaml, 1000, "feature/x", &env).unwrap();
    assert!(result.warnings.is_empty());
    let doc: Value = serde_yaml::from_str(&result.yaml).unwrap();
    let app = &doc["services"]["app"];
    assert_eq!(app["image"], Value::String("nginx".to_string()));
    assert_eq!(app["container_name"], Value::String("web-feature-x".to_string()));
    assert_eq!(app["ports"][0], Value::String("9080:80".to_string()));
    assert_eq!(app["ports"][1]["published"], Value::Number(10000.into()));
    assert_eq!(app["ports"][1]["target"], Value::Number(90.into()));
}
