use fracta::names::instance_name;
use fracta::state::{migrate_v1_to_v2, Instance, PortForward, StateV1, StateV2, WorktreeState};
use std::collections::HashMap;

#[test]
fn test_instance_name() {
    assert_eq!(instance_name("develop"), "fracta-develop");
    assert_eq!(instance_name("feature/new"), "fracta-feature-new");
}

#[test]
fn test_state_v2_default() {
    let state = StateV2::default();
    assert_eq!(state.version, 0);
    assert!(state.instances.is_empty());
    assert!(state.port_allocations.is_empty());
}

#[test]
fn test_add_remove_instance() {
    let mut state = StateV2 {
        version: 2,
        instances: Vec::new(),
        port_allocations: HashMap::new(),
    };

    let instance = Instance {
        name: "test".to_string(),
        path: "/path/to/test".to_string(),
        branch: "main".to_string(),
        lima_instance: "fracta-test".to_string(),
        active_forwards: Vec::new(),
        active_proxy: None,
        active_browser: None,
    };

    state.add_instance(instance);
    assert_eq!(state.instances.len(), 1);
    assert!(state.find_instance("test").is_some());

    state.remove_instance("test");
    assert!(state.instances.is_empty());
}

#[test]
fn test_port_forward_management() {
    let mut state = StateV2 {
        version: 2,
        instances: vec![Instance {
            name: "test".to_string(),
            path: "/path/to/test".to_string(),
            branch: "main".to_string(),
            lima_instance: "fracta-test".to_string(),
            active_forwards: Vec::new(),
            active_proxy: None,
            active_browser: None,
        }],
        port_allocations: HashMap::new(),
    };

    let fwd = PortForward {
        local_port: 22901,
        remote_port: 3000,
        pid: 12345,
    };

    state.add_forward("test", fwd).unwrap();
    assert_eq!(state.port_allocations.len(), 1);
    assert!(state.port_allocations.contains_key(&22901));

    let inst = state.find_instance("test").unwrap();
    assert_eq!(inst.active_forwards.len(), 1);

    state.remove_forward("test", 22901).unwrap();
    assert!(state.port_allocations.is_empty());
}

#[test]
fn test_migrate_v1_to_v2() {
    let v1 = StateV1 {
        worktrees: vec![WorktreeState {
            name: "develop".to_string(),
            path: "/path/to/develop".to_string(),
            branch: "develop".to_string(),
            port_offset: 1000,
        }],
    };

    let v2 = migrate_v1_to_v2(v1);
    assert_eq!(v2.version, 2);
    assert_eq!(v2.instances.len(), 1);
    assert_eq!(v2.instances[0].name, "develop");
    assert_eq!(v2.instances[0].lima_instance, "fracta-develop");
}
