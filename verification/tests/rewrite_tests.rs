use fracta::compose::{
    generate_compose, rewrite, rewrite_container_name, rewrite_long_port, rewrite_ports,
    ComposeError,
};
use fracta::env::{parse_dotenv, parse_env_expr, merge_env, resolve_env_expr, strip_quotes, Env, EnvExpr};
use fracta::listing::{extract_ports, format_ports_table, parse_long_port_entry, PortEntry};
use fracta::ports::{
    host_to_link, is_port_range, parse_short_port_entry, resolve_env_number, resolve_host_port,
    rewrite_short_port,
};
use serde_yaml::{Mapping, Value};

fn text(s: &str) -> Value {
    Value::String(s.to_string())
}

#[test]
fn short_port_is_shifted_up_to_the_last_port() {
    let env = Env::new();
    let mut warnings = Vec::new();
    let (value, changed) = rewrite_short_port("64535:80", 1000, &env, &mut warnings);
    assert_eq!(value, "65535:80");
    assert!(changed);
    assert!(warnings.is_empty());
}

#[test]
fn short_port_overflow_keeps_the_entry_and_warns() {
    let env = Env::new();
    let mut warnings = Vec::new();
    let (value, changed) = rewrite_short_port("65000:80", 1000, &env, &mut warnings);
    assert_eq!(value, "65000:80");
    assert!(!changed);
    assert_eq!(warnings, vec!["Port overflow: 65000:80".to_string()]);
}

#[test]
fn short_port_above_the_port_range_warns() {
    let env = Env::new();
    let mut warnings = Vec::new();
    let (value, changed) = rewrite_short_port("70000:80", 0, &env, &mut warnings);
    assert_eq!(value, "70000:80");
    assert!(!changed);
    assert_eq!(warnings, vec!["Host port overflow: 70000".to_string()]);
}

#[test]
fn short_port_too_long_for_a_number_is_not_numeric() {
    let env = Env::new();
    let mut warnings = Vec::new();
    let (value, changed) =
        rewrite_short_port("99999999999999999999:80", 1, &env, &mut warnings);
    assert_eq!(value, "99999999999999999999:80");
    assert!(!changed);
    assert_eq!(
        warnings,
        vec!["Non-numeric host port: 99999999999999999999".to_string()]
    );
}

#[test]
fn short_port_range_is_not_supported() {
    let env = Env::new();
    let mut warnings = Vec::new();
    let (value, changed) = rewrite_short_port("8000-8010:80", 1000, &env, &mut warnings);
    assert_eq!(value, "8000-8010:80");
    assert!(!changed);
    assert_eq!(warnings, vec!["Port range not supported: 8000-8010".to_string()]);
    assert!(is_port_range("8000-8010"));
    assert!(!is_port_range("8000-"));
    assert!(!is_port_range("8000-8010-8020"));
    assert!(!is_port_range("8000"));
    assert!(!is_port_range("a-b"));
}

#[test]
fn short_port_with_four_segments_is_not_supported() {
    let env = Env::new();
    let mut warnings = Vec::new();
    let (value, changed) = rewrite_short_port("a:b:c:d", 1000, &env, &mut warnings);
    assert_eq!(value, "a:b:c:d");
    assert!(!changed);
    assert_eq!(warnings, vec!["Unsupported port format: a:b:c:d".to_string()]);
}

#[test]
fn short_port_is_split_at_the_last_slash() {
    let env = Env::new();
    let mut warnings = Vec::new();
    let (value, changed) =
        rewrite_short_port("127.0.0.1:8080:80/udp", 500, &env, &mut warnings);
    assert_eq!(value, "127.0.0.1:8580:80/udp");
    assert!(changed);
    let (value, changed) = rewrite_short_port("x:90/a:80/b", 1, &env, &mut warnings);
    assert_eq!(value, "x:90/a:80/b");
    assert!(!changed);
    assert_eq!(warnings, vec!["Non-numeric host port: 90/a".to_string()]);
}

#[test]
fn short_port_with_leading_zeros_is_written_anew() {
    let env = Env::new();
    let mut warnings = Vec::new();
    let (value, changed) = rewrite_short_port("0080:80", 0, &env, &mut warnings);
    assert_eq!(value, "80:80");
    assert!(changed);
}

#[test]
fn unresolved_reference_fails_only_its_entry() {
    let env = Env::new();
    let mut warnings = Vec::new();
    let (value, changed) = rewrite_short_port("${PORT}:80", 1000, &env, &mut warnings);
    assert_eq!(value, "${PORT}:80");
    assert!(!changed);
    assert_eq!(
        warnings,
        vec![
            "Unresolved env port: ${PORT}".to_string(),
            "Non-numeric host port: ${PORT}".to_string()
        ]
    );
}

#[test]
fn default_after_hyphen_applies_only_to_unset_variables() {
    let mut env = Env::new();
    env.insert("EMPTY".to_string(), "".to_string());
    let mut warnings = Vec::new();
    assert_eq!(resolve_env_number("${EMPTY-8080}", &env, &mut warnings), None);
    assert_eq!(resolve_env_number("${EMPTY:-8080}", &env, &mut warnings), Some(8080));
    assert_eq!(resolve_env_number("${UNSET-8080}", &env, &mut warnings), Some(8080));
    assert_eq!(resolve_env_number("${UNSET:-8081}", &env, &mut warnings), Some(8081));
    assert_eq!(resolve_env_number("", &env, &mut warnings), None);
    assert_eq!(resolve_env_number("0012", &env, &mut warnings), Some(12));
    assert_eq!(resolve_env_number("abc", &env, &mut warnings), None);
    assert!(warnings.is_empty());
}

#[test]
fn non_numeric_variable_is_reported() {
    let mut env = Env::new();
    env.insert("PORT".to_string(), "http".to_string());
    let mut warnings = Vec::new();
    assert_eq!(resolve_env_number("${PORT}", &env, &mut warnings), None);
    assert_eq!(warnings, vec!["Non-numeric env port: ${PORT}".to_string()]);
    let mut warnings = Vec::new();
    assert_eq!(resolve_host_port("${PORT}", &env, &mut warnings), None);
    assert_eq!(
        warnings,
        vec![
            "Non-numeric env port: ${PORT}".to_string(),
            "Non-numeric host port: ${PORT}".to_string()
        ]
    );
    let mut warnings = Vec::new();
    assert_eq!(resolve_host_port("65535", &env, &mut warnings), Some(65535));
    assert_eq!(resolve_host_port("65536", &env, &mut warnings), None);
    assert_eq!(warnings, vec!["Host port overflow: 65536".to_string()]);
}

#[test]
fn env_expressions_are_parsed_in_their_three_forms() {
    match parse_env_expr("${NAME}") {
        Some(EnvExpr::Simple { name }) => assert_eq!(name, "NAME"),
        _ => panic!("expected a plain reference"),
    }
    match parse_env_expr("${NAME-80}") {
        Some(EnvExpr::Default { name, default, treat_empty }) => {
            assert_eq!(name, "NAME");
            assert_eq!(default, "80");
            assert!(!treat_empty);
        }
        _ => panic!("expected a default"),
    }
    match parse_env_expr("${NAME:-a-b}") {
        Some(EnvExpr::Default { name, default, treat_empty }) => {
            assert_eq!(name, "NAME");
            assert_eq!(default, "a-b");
            assert!(treat_empty);
        }
        _ => panic!("expected a default for empty values"),
    }
    assert!(parse_env_expr("${}").is_none());
    assert!(parse_env_expr("${-80}").is_none());
    assert!(parse_env_expr("${:-80}").is_none());
    assert!(parse_env_expr("$NAME").is_none());
    assert!(parse_env_expr("${NAME").is_none());
    assert!(parse_env_expr("${").is_none());
    let env = Env::new();
    let expr = parse_env_expr("${NAME}").unwrap();
    assert_eq!(resolve_env_expr(&expr, &env), None);
    let expr = parse_env_expr("${NAME-x}").unwrap();
    assert_eq!(resolve_env_expr(&expr, &env), Some("x".to_string()));
}

#[test]
fn long_port_keeps_the_kind_of_published() {
    let env = Env::new();
    let mut warnings = Vec::new();
    let mut map = Mapping::new();
    map.insert(text("target"), Value::Number(80.into()));
    map.insert(text("published"), text("8080"));
    map.insert(text("protocol"), text("tcp"));
    let (new_map, changed) = rewrite_long_port(&map, 1000, &env, &mut warnings);
    assert!(changed);
    assert_eq!(new_map.get("published"), Some(&text("9080")));
    assert_eq!(new_map.get("target"), Some(&Value::Number(80.into())));
    assert_eq!(new_map.get("protocol"), Some(&text("tcp")));
    assert_eq!(new_map.len(), 3);
    let keys: Vec<&Value> = new_map.keys().collect();
    assert_eq!(keys, vec![&text("target"), &text("published"), &text("protocol")]);
    assert!(warnings.is_empty());
}

#[test]
fn long_port_agrees_with_short_port() {
    let env = Env::new();
    for (published, offset) in [(8080u64, 1000u16), (65000, 535), (65000, 536), (70000, 0)] {
        let mut warnings = Vec::new();
        let mut map = Mapping::new();
        map.insert(text("published"), Value::Number(published.into()));
        map.insert(text("target"), Value::Number(80.into()));
        let (new_map, long_changed) = rewrite_long_port(&map, offset, &env, &mut warnings);
        let short = format!("{}:80", published);
        let (value, short_changed) = rewrite_short_port(&short, offset, &env, &mut warnings);
        assert_eq!(long_changed, short_changed);
        if long_changed {
            let shifted = published + u64::from(offset);
            assert_eq!(new_map.get("published"), Some(&Value::Number(shifted.into())));
            assert_eq!(value, format!("{}:80", shifted));
        } else {
            assert_eq!(new_map, map);
            assert_eq!(value, short);
            assert_eq!(warnings.len(), 2);
        }
    }
}

#[test]
fn long_port_failures_warn_and_change_nothing() {
    let env = Env::new();
    let cases: Vec<(Value, &str)> = vec![
        (Value::Number(65000.into()), "Published port overflow"),
        (Value::Number((-1).into()), "Non-integer published port; skipping"),
        (Value::Bool(true), "Unsupported published port type"),
        (text("${WEB}"), "Unresolved env port: ${WEB}"),
        (text("web"), "Non-numeric published port: web"),
        (text("65000"), "Published port overflow"),
    ];
    for (published, warning) in cases {
        let mut warnings = Vec::new();
        let mut map = Mapping::new();
        map.insert(text("published"), published);
        let (new_map, changed) = rewrite_long_port(&map, 1000, &env, &mut warnings);
        assert!(!changed);
        assert_eq!(new_map, map);
        assert_eq!(warnings, vec![warning.to_string()]);
    }
    let mut warnings = Vec::new();
    let mut map = Mapping::new();
    map.insert(text("target"), Value::Number(80.into()));
    let (new_map, changed) = rewrite_long_port(&map, 1000, &env, &mut warnings);
    assert!(!changed);
    assert_eq!(new_map, map);
    assert!(warnings.is_empty());
}

#[test]
fn ports_are_rewritten_entry_by_entry() {
    let env = Env::new();
    let mut warnings = Vec::new();
    let mut long = Mapping::new();
    long.insert(text("published"), Value::Number(9000.into()));
    let ports = Value::Sequence(vec![
        text("8080:80"),
        Value::Mapping(long),
        Value::Number(3000.into()),
        text("3000"),
    ]);
    let (new_ports, changed) = rewrite_ports(&ports, 1000, &env, &mut warnings).unwrap();
    assert!(changed);
    assert_eq!(new_ports.len(), 4);
    assert_eq!(new_ports[0], text("9080:80"));
    assert_eq!(new_ports[1]["published"], Value::Number(10000.into()));
    assert_eq!(new_ports[2], Value::Number(3000.into()));
    assert_eq!(new_ports[3], text("3000"));
    assert_eq!(
        warnings,
        vec!["ports entry has unsupported type; skipping".to_string()]
    );

    let mut warnings = Vec::new();
    assert!(rewrite_ports(&text("8080:80"), 1000, &env, &mut warnings).is_none());
    assert_eq!(warnings, vec!["ports is not a list; skipping".to_string()]);

    let mut warnings = Vec::new();
    let (same, changed) =
        rewrite_ports(&Value::Sequence(vec![text("3000")]), 1000, &env, &mut warnings).unwrap();
    assert!(!changed);
    assert_eq!(same, vec![text("3000")]);
}

#[test]
fn container_name_is_suffixed_once() {
    let mut warnings = Vec::new();
    let once = rewrite_container_name(&text("localstack-main"), "feature/new-feature", &mut warnings)
        .unwrap();
    assert_eq!(once, text("localstack-main-feature-new-feature"));
    assert_eq!(
        rewrite_container_name(&once, "feature/new-feature", &mut warnings),
        None
    );
    assert_eq!(rewrite_container_name(&text(""), "develop", &mut warnings), None);
    assert_eq!(rewrite_container_name(&text("web"), "", &mut warnings), None);
    assert_eq!(rewrite_container_name(&text("web"), "//", &mut warnings), None);
    assert!(warnings.is_empty());
    assert_eq!(
        rewrite_container_name(&Value::Number(1.into()), "develop", &mut warnings),
        None
    );
    assert_eq!(
        warnings,
        vec!["container_name is not a string; skipping".to_string()]
    );
}

#[test]
fn scenario_service_app_with_offset_1000() {
    let env = Env::new();
    let result =
        generate_compose("services:\n  app:\n    ports: [\"8080:80\"]\n", 1000, "dev", &env)
            .unwrap();
    let doc: Value = serde_yaml::from_str(&result.yaml).unwrap();
    assert_eq!(
        doc["services"]["app"]["ports"],
        Value::Sequence(vec![text("9080:80")])
    );
    assert!(result.warnings.is_empty());
}

#[test]
fn overlay_keeps_everything_else_in_place() {
    let yaml = "version: '3'\nservices:\n  db:\n    image: postgres\n    environment:\n      A: 1\n  app:\n    build: .\n    ports:\n      - 3000\n      - \"${WEB-8080}:80\"\n    container_name: app\nvolumes:\n  data: {}\n";
    let mut env = Env::new();
    env.insert("WEB".to_string(), "8000".to_string());
    let base: Value = serde_yaml::from_str(yaml).unwrap();
    let (overlay, warnings) = rewrite(&base, 2000, "develop3", &env).unwrap();
    assert_eq!(warnings, vec!["ports entry has unsupported type; skipping".to_string()]);
    let mut expected = base.clone();
    expected["services"]["app"]["ports"][1] = text("10000:80");
    expected["services"]["app"]["container_name"] = text("app-develop3");
    assert_eq!(overlay, expected);
    let top: Vec<&Value> = overlay.as_mapping().unwrap().keys().collect();
    assert_eq!(top, vec![&text("version"), &text("services"), &text("volumes")]);
}

#[test]
fn overlay_is_the_same_for_the_same_input() {
    let yaml = "services:\n  app:\n    container_name: web\n    ports:\n      - 8080:80\n";
    let env = Env::new();
    let first = generate_compose(yaml, 3000, "feature/a", &env).unwrap();
    let second = generate_compose(yaml, 3000, "feature/a", &env).unwrap();
    assert_eq!(first.yaml, second.yaml);
    assert_eq!(first.warnings, second.warnings);
    let again = generate_compose(&first.yaml, 0, "feature/a", &env).unwrap();
    let before: Value = serde_yaml::from_str(&first.yaml).unwrap();
    let after: Value = serde_yaml::from_str(&again.yaml).unwrap();
    assert_eq!(before, after);
}

#[test]
fn document_without_services_is_passed_through_with_a_warning() {
    let env = Env::new();
    let result = generate_compose("volumes:\n  data: {}\n", 1000, "dev", &env).unwrap();
    assert_eq!(
        result.warnings,
        vec!["No services found in compose base".to_string()]
    );
    let before: Value = serde_yaml::from_str("volumes:\n  data: {}\n").unwrap();
    let after: Value = serde_yaml::from_str(&result.yaml).unwrap();
    assert_eq!(before, after);
    let result = generate_compose("services: none\n", 1000, "dev", &env).unwrap();
    assert_eq!(
        result.warnings,
        vec!["No services found in compose base".to_string()]
    );
}

#[test]
fn document_that_is_no_mapping_is_refused() {
    let env = Env::new();
    match generate_compose("- a\n- b\n", 1000, "dev", &env) {
        Err(ComposeError::NotAMapping) => {}
        _ => panic!("expected a refusal"),
    }
    match generate_compose("services: [unclosed", 1000, "dev", &env) {
        Err(ComposeError::Parse(message)) => assert!(!message.is_empty()),
        _ => panic!("expected a parse failure"),
    }
    assert_eq!(
        ComposeError::NotAMapping.message(),
        "Compose document is not a mapping"
    );
    assert!(extract_ports("services: [unclosed").is_err());
}

#[test]
fn zero_offset_keeps_the_listed_ports() {
    let yaml = "services:\n  app:\n    container_name: app\n    ports:\n      - 8080:80\n      - 127.0.0.1:9000:9000/tcp\n      - published: 5000\n        target: 50\n        protocol: udp\n      - published: \"6000\"\n        target: 60\n  db:\n    ports:\n      - 5432\n";
    let env = Env::new();
    let overlay = generate_compose(yaml, 0, "feature/a", &env).unwrap();
    let before = extract_ports(yaml).unwrap();
    let after = extract_ports(&overlay.yaml).unwrap();
    assert_eq!(before.len(), 4);
    assert_eq!(after.len(), before.len());
    for (a, b) in before.iter().zip(after.iter()) {
        assert_eq!(a.service, b.service);
        assert_eq!(a.host, b.host);
        assert_eq!(a.target, b.target);
        assert_eq!(a.link, b.link);
    }
    assert_eq!(before[2].host, "5000");
    assert_eq!(before[2].target, "50/udp");
    assert_eq!(before[3].host, "6000");
    assert_eq!(before[3].target, "60");
}

#[test]
fn listing_reads_both_forms() {
    assert_eq!(
        parse_short_port_entry("0.0.0.0:8080:80/tcp"),
        Some(("0.0.0.0:8080".to_string(), "80/tcp".to_string()))
    );
    assert_eq!(parse_short_port_entry("3000"), None);
    assert_eq!(parse_short_port_entry("a:b:c:d"), None);
    let mut map = Mapping::new();
    map.insert(text("published"), text("${WEB}"));
    map.insert(text("target"), Value::Number(80.into()));
    map.insert(text("protocol"), text(""));
    assert_eq!(
        parse_long_port_entry(&map),
        Some(("${WEB}".to_string(), "80".to_string()))
    );
    map.insert(text("target"), Value::Bool(true));
    assert_eq!(parse_long_port_entry(&map), None);
    let ports = extract_ports("services:\n  1:\n    ports:\n      - 80:80\n").unwrap();
    assert_eq!(ports.len(), 1);
    assert_eq!(ports[0].service, "unknown");
    assert!(extract_ports("- 1\n").unwrap().is_empty());
}

#[test]
fn links_are_told_from_numeric_hosts() {
    assert_eq!(host_to_link("8080"), Some("http://localhost:8080".to_string()));
    assert_eq!(host_to_link("0.0.0.0:80"), Some("http://localhost:80".to_string()));
    assert_eq!(
        host_to_link("127.0.0.1:9000"),
        Some("http://127.0.0.1:9000".to_string())
    );
    assert_eq!(host_to_link("${WEB}"), None);
    assert_eq!(host_to_link("127.0.0.1:${WEB}"), None);
    assert_eq!(host_to_link(""), Some("http://localhost:".to_string()));
}

#[test]
fn ports_table_has_padded_columns() {
    let entries = vec![
        PortEntry {
            service: "app".to_string(),
            host: "8080".to_string(),
            target: "80".to_string(),
            link: Some("http://localhost:8080".to_string()),
        },
        PortEntry {
            service: "a-service-with-a-very-long-name".to_string(),
            host: "${WEB}".to_string(),
            target: "80/tcp".to_string(),
            link: None,
        },
    ];
    let mut expected = String::new();
    expected.push_str(&format!("{:<22} {:<18} {:<18} {}\n", "SERVICE", "HOST", "TARGET", "LINK"));
    expected.push_str(&format!("{}\n", "-".repeat(80)));
    expected.push_str(&format!(
        "{:<22} {:<18} {:<18} {}\n",
        "app", "8080", "80", "http://localhost:8080"
    ));
    expected.push_str(&format!(
        "{:<22} {:<18} {:<18} {}\n",
        "a-service-with-a-very-long-name", "${WEB}", "80/tcp", ""
    ));
    assert_eq!(format_ports_table(&entries), expected.trim_end());
    assert_eq!(
        format_ports_table(&[]),
        format!("{:<22} {:<18} {:<18} {}\n{}", "SERVICE", "HOST", "TARGET", "LINK", "-".repeat(80))
    );
}

#[test]
fn dotenv_lines_are_read_with_export_comments_and_quotes() {
    let env = parse_dotenv(
        "# comment\n\nexport WEB=8080\r\n  DB = \"5432\" \nNAME='quoted value'\nBROKEN\n=x\nWEB=9090\nHALF=\"open\n",
    );
    assert_eq!(env.get("WEB"), Some(&"9090".to_string()));
    assert_eq!(env.get("DB"), Some(&"5432".to_string()));
    assert_eq!(env.get("NAME"), Some(&"quoted value".to_string()));
    assert_eq!(env.get("HALF"), Some(&"\"open".to_string()));
    assert_eq!(env.get("BROKEN"), None);
    assert!(!env.contains_key(""));
    assert_eq!(strip_quotes("\"a\""), "a");
    assert_eq!(strip_quotes("'a'"), "a");
    assert_eq!(strip_quotes("\"a'"), "\"a'");
    assert_eq!(strip_quotes("\""), "\"");
    assert_eq!(strip_quotes("\"\""), "");
}

#[test]
fn process_variables_win_over_the_dotenv_file() {
    let mut process = Env::new();
    process.insert("WEB".to_string(), "1".to_string());
    let file = parse_dotenv("WEB=2\nDB=3\n");
    let merged = merge_env(&process, &file);
    assert_eq!(merged.get("WEB"), Some(&"1".to_string()));
    assert_eq!(merged.get("DB"), Some(&"3".to_string()));
    assert_eq!(merged.get("OTHER"), None);
}
