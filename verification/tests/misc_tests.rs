use fracta::config::{config_files, merge_config, merge_hooks, Config, HookCommands};
use fracta::hooks::{hook_environment, plan_config_hook, vm_command, HookAction, HookContext};
use fracta::images::{collect_compose_images, ImagesError};
use fracta::machine::{parse_status_from_json, InstanceStatus};
use fracta::paths::{
    compose_base_path, compose_generated_path, fracta_worktree_dir, hook_path, join_path,
};
use fracta::scripts::{build_script, compose_env_prefix, is_supported_browser};
use fracta::template::{generate, TemplateConfig};

#[test]
fn test_parse_status_from_json() {
    let json = r#"{"name": "fracta-test", "status": "Running"}"#;
    assert_eq!(
        parse_status_from_json(json, "fracta-test"),
        InstanceStatus::Running
    );

    let json = r#"{"name": "fracta-test", "status": "Stopped"}"#;
    assert_eq!(
        parse_status_from_json(json, "fracta-test"),
        InstanceStatus::Stopped
    );

    let json = r#""#;
    assert_eq!(
        parse_status_from_json(json, "fracta-test"),
        InstanceStatus::NotFound
    );
}

#[test]
fn status_is_read_from_the_line_of_the_machine() {
    let json = "not json\n\n{\"name\": \"other\", \"status\": \"Running\"}\r\n  {\"name\": \"fracta-x\", \"status\": \"Broken\"}  \n{\"name\": \"fracta-x\", \"status\": \"Running\"}\n";
    assert_eq!(parse_status_from_json(json, "fracta-x"), InstanceStatus::Stopped);
    assert_eq!(parse_status_from_json(json, "other"), InstanceStatus::Running);
    assert_eq!(parse_status_from_json(json, "none"), InstanceStatus::NotFound);
    assert_eq!(
        parse_status_from_json("{\"name\": \"a\", \"status\": 1}\n{\"name\": \"a\"}\n[1]", "a"),
        InstanceStatus::NotFound
    );
    assert_eq!(InstanceStatus::Running.label(), "Running");
    assert_eq!(InstanceStatus::Stopped.label(), "Stopped");
    assert_eq!(InstanceStatus::NotFound.label(), "NotFound");
}

#[test]
fn images_are_listed_once_and_in_order() {
    let json = r#"{"name": "My/Project", "services": {
        "web": {"image": "nginx:1"},
        "api": {"build": {"context": "."}},
        "db": {"image": "postgres"},
        "cache": {"image": "nginx:1"},
        "worker": {"image": 7}
    }}"#;
    assert_eq!(
        collect_compose_images(json, "dir").unwrap(),
        vec![
            "My-Project-api".to_string(),
            "My-Project-worker".to_string(),
            "nginx:1".to_string(),
            "postgres".to_string()
        ]
    );
    let json = r#"{"services": {"api": {}}}"#;
    assert_eq!(
        collect_compose_images(json, "repo/feature").unwrap(),
        vec!["repo-feature-api".to_string()]
    );
    assert_eq!(
        collect_compose_images(r#"{"services": {}}"#, "dir").unwrap(),
        Vec::<String>::new()
    );
}

#[test]
fn images_need_a_configuration_with_services() {
    match collect_compose_images(r#"{"name": "p"}"#, "dir") {
        Err(ImagesError::NoServices) => {}
        _ => panic!("expected missing services"),
    }
    match collect_compose_images(r#"{"services": []}"#, "dir") {
        Err(ImagesError::NoServices) => {}
        _ => panic!("expected missing services"),
    }
    match collect_compose_images("{", "dir") {
        Err(ImagesError::Parse(message)) => assert!(!message.is_empty()),
        _ => panic!("expected a parse failure"),
    }
    assert_eq!(
        ImagesError::NoServices.message(),
        "Compose config does not contain services"
    );
}

#[test]
fn hooks_are_looked_up_by_name() {
    let mut config = Config::default();
    assert_eq!(config.compose_base(), "docker-compose.yml");
    assert_eq!(config.hook_command("pre_add"), None);
    let mut hooks = HookCommands::default();
    hooks.pre_add = Some("make setup".to_string());
    hooks.post_restart = Some("vm: make restart".to_string());
    config.hooks = Some(hooks);
    config.compose_base = Some("deploy/compose.yml".to_string());
    assert_eq!(config.compose_base(), "deploy/compose.yml");
    assert_eq!(config.hook_command("pre_add"), Some("make setup"));
    assert_eq!(config.hook_command("post_restart"), Some("vm: make restart"));
    assert_eq!(config.hook_command("post_add"), None);
    assert_eq!(config.hook_command("pre_build"), None);
}

#[test]
fn later_configuration_overrides_what_it_sets() {
    let mut base = HookCommands::default();
    base.pre_up = Some("one".to_string());
    base.post_up = Some("two".to_string());
    let mut target = Config { compose_base: Some("a.yml".to_string()), hooks: Some(base) };
    let mut over = HookCommands::default();
    over.post_up = Some("three".to_string());
    over.pre_down = Some("four".to_string());
    merge_config(&mut target, Config { compose_base: None, hooks: Some(over) });
    assert_eq!(target.compose_base(), "a.yml");
    assert_eq!(target.hook_command("pre_up"), Some("one"));
    assert_eq!(target.hook_command("post_up"), Some("three"));
    assert_eq!(target.hook_command("pre_down"), Some("four"));
    merge_config(&mut target, Config { compose_base: Some("b.yml".to_string()), hooks: None });
    assert_eq!(target.compose_base(), "b.yml");
    assert_eq!(target.hook_command("post_up"), Some("three"));
    let mut none: Option<HookCommands> = None;
    let mut only = HookCommands::default();
    only.post_remove = Some("five".to_string());
    merge_hooks(&mut none, only);
    let merged = none.unwrap();
    assert_eq!(merged.post_remove, Some("five".to_string()));
    assert_eq!(merged.pre_remove, None);
}

#[test]
fn configuration_files_are_read_main_first() {
    let names: Vec<String> = ["fracta.z.toml", "README.md", "fracta.toml", "fracta.a.toml", "fracta.toml.bak", "other.toml", "fracta.a.toml"]
        .iter()
        .map(|s| s.to_string())
        .collect();
    assert_eq!(
        config_files(&names),
        vec!["fracta.toml".to_string(), "fracta.a.toml".to_string(), "fracta.z.toml".to_string()]
    );
    let names: Vec<String> = vec!["fracta.local.toml".to_string()];
    assert_eq!(config_files(&names), vec!["fracta.local.toml".to_string()]);
    assert!(config_files(&Vec::new()).is_empty());
}

#[test]
fn paths_are_joined_as_directories_are() {
    assert_eq!(join_path("/repo", "file"), "/repo/file");
    assert_eq!(join_path("/repo/", "file"), "/repo/file");
    assert_eq!(join_path("", "file"), "file");
    assert_eq!(join_path("/repo", "/abs/file"), "/abs/file");
    assert_eq!(join_path("/repo", ""), "/repo/");
    assert_eq!(fracta_worktree_dir("/work/x"), "/work/x/.fracta");
    assert_eq!(
        compose_generated_path("/work/x"),
        "/work/x/.fracta/compose.generated.yml"
    );
    assert_eq!(hook_path("/repo", "pre_up"), "/repo/.fracta/hooks/pre_up");
    let mut config = Config::default();
    assert_eq!(compose_base_path(&config, "/work/x"), "/work/x/docker-compose.yml");
    config.compose_base = Some("/etc/stack.yml".to_string());
    assert_eq!(compose_base_path(&config, "/work/x"), "/etc/stack.yml");
    config.compose_base = Some("deploy/stack.yml".to_string());
    assert_eq!(compose_base_path(&config, "/work/x"), "/work/x/deploy/stack.yml");
}

fn context() -> HookContext {
    HookContext {
        name: "feature/x".to_string(),
        worktree_path: "/work/x".to_string(),
        main_repo: "/repo".to_string(),
        port_offset: 3000,
        compose_base: "/work/x/docker-compose.yml".to_string(),
        compose_file: "/work/x/.fracta/compose.generated.yml".to_string(),
    }
}

#[test]
fn hook_commands_run_on_the_host_or_in_the_machine() {
    match plan_config_hook("  make setup  ") {
        HookAction::OnHost(command) => assert_eq!(command, "make setup"),
        _ => panic!("expected a host command"),
    }
    match plan_config_hook("vm:  make setup ") {
        HookAction::InMachine(command) => assert_eq!(command, "make setup"),
        _ => panic!("expected a machine command"),
    }
    match plan_config_hook(" limactl:ls") {
        HookAction::InMachine(command) => assert_eq!(command, "ls"),
        _ => panic!("expected a machine command"),
    }
    match plan_config_hook(" \t\n") {
        HookAction::Nothing => {}
        _ => panic!("expected nothing to run"),
    }
    match plan_config_hook("vm:") {
        HookAction::InMachine(command) => assert_eq!(command, ""),
        _ => panic!("expected a machine command"),
    }
}

#[test]
fn hooks_are_told_about_the_operation() {
    let ctx = context();
    let env = hook_environment(&ctx);
    let expected: Vec<(String, String)> = [
        ("FRACTA_NAME", "feature/x"),
        ("FRACTA_PATH", "/work/x"),
        ("MAIN_REPO", "/repo"),
        ("PORT_OFFSET", "3000"),
        ("COMPOSE_BASE", "/work/x/docker-compose.yml"),
        ("COMPOSE_OVERRIDE", "/work/x/.fracta/compose.generated.yml"),
    ]
    .iter()
    .map(|(k, v)| (k.to_string(), v.to_string()))
    .collect();
    assert_eq!(env, expected);
    let command = vm_command("make up", &ctx);
    assert_eq!(command.instance, "fracta-feature-x");
    assert_eq!(
        command.script,
        format!(
            "export FRACTA_NAME=\"{name}\" FRACTA_PATH=\"{path}\" MAIN_REPO=\"{repo}\" PORT_OFFSET=\"{offset}\" COMPOSE_BASE=\"{base}\" COMPOSE_OVERRIDE=\"{over}\"; {cmd}",
            name = "feature/x",
            path = "/work/x",
            repo = "/repo",
            offset = 3000,
            base = "/work/x/docker-compose.yml",
            over = "/work/x/.fracta/compose.generated.yml",
            cmd = "make up"
        )
    );
}

#[test]
fn compose_runs_under_the_project_name() {
    assert_eq!(compose_env_prefix("app", true), "COMPOSE_PROJECT_NAME=app ");
    assert_eq!(
        compose_env_prefix("app", false),
        "COMPOSE_PROJECT_NAME=app COMPOSE_PARALLEL_BUILD=0 "
    );
}

#[test]
fn browser_script_launches_through_the_proxy() {
    let expected = format!(
        r#"
const {{ {} }} = require('playwright');

(async () => {{
  const browser = await {}.launch({{
    headless: false,
    proxy: {{ server: 'socks5://127.0.0.1:{}' }}
  }});
  const context = await browser.newContext();
  const page = await context.newPage();
  await page.goto('{}');
  console.log('Playwright launched with SOCKS5 proxy. Press Ctrl+C to exit.');
  await new Promise(() => {{}});
}})().catch((err) => {{
  console.error(err);
  process.exit(1);
}});
"#,
        "chromium", "chromium", 1080, "about:blank"
    );
    assert_eq!(build_script("chrome", 1080, "about:blank"), expected);
    assert_eq!(build_script("chromium", 1080, "about:blank"), expected);
    assert!(build_script("firefox", 1, "x").contains("const { firefox } = require"));
    assert!(build_script("webkit", 1, "x").contains("await webkit.launch"));
    assert!(is_supported_browser("chrome"));
    assert!(is_supported_browser("chromium"));
    assert!(is_supported_browser("firefox"));
    assert!(!is_supported_browser("webkit"));
    assert!(!is_supported_browser(""));
}

#[test]
fn template_names_cpus_memory_disk_and_mount() {
    let mut config = TemplateConfig::new("/work/x");
    config.cpus = 12;
    config.memory = "16GiB".to_string();
    let template = generate(&config);
    assert!(template.starts_with("# fracta Lima VM template\n# Auto-generated for worktree development\n\n# VM configuration\ncpus: 12\nmemory: \"16GiB\"\ndisk: \"50GiB\"\n"));
    assert!(template.contains("mounts:\n  - location: \"/work/x\"\n    writable: true\n"));
    assert!(template.contains("usermod -aG docker \"{{.User}}\""));
    assert!(template.contains("DOCKER_CONFIG=${DOCKER_CONFIG:-/usr/local/lib/docker}"));
    assert!(!template.contains("registry-mirrors"));
    assert!(template.ends_with("UV_NO_MODIFY_PATH=1 sh\n      fi\n\n"));
    config.registry_mirror = Some("http://mirror:5000".to_string());
    let template = generate(&config);
    assert!(template.contains("      {\"registry-mirrors\": [\"http://mirror:5000\"]}\n      EOF\n      systemctl restart docker\n"));
}
