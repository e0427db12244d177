use fracta::template::{generate, TemplateConfig};

#[test]
fn test_template_config_default() {
    let config = TemplateConfig::default();
    assert_eq!(config.cpus, 4);
    assert_eq!(config.memory, "8GiB");
    assert_eq!(config.disk, "50GiB");
    assert!(config.registry_mirror.is_none());
}

#[test]
fn test_generate_template() {
    let config = TemplateConfig::new("/home/user/project");
    let template = generate(&config);

    assert!(template.contains("cpus: 4"));
    assert!(template.contains("memory: \"8GiB\""));
    assert!(template.contains("disk: \"50GiB\""));
    assert!(template.contains("/home/user/project"));
    assert!(template.contains("vmType: \"vz\""));
    assert!(template.contains("curl -fsSL https://get.docker.com"));
}

#[test]
fn test_generate_template_with_registry_mirror() {
    let mut config = TemplateConfig::new("/home/user/project");
    config.registry_mirror = Some("http://host.lima.internal:5000".to_string());
    let template = generate(&config);

    assert!(template.contains("registry-mirrors"));
    assert!(template.contains("host.lima.internal:5000"));
}
