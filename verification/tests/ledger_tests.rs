use fracta::offset::{calculate_port_offset, choose_from_base, choose_port_offset, offset_for_hash};
use fracta::state::{
    find_available_port, forwards_remote, instance_holds, migrate_v1_to_v2, select_port,
    BrowserSession, Instance, LedgerError, PortForward, ProxyForward, StateV1, StateV2,
    WorktreeState,
};
use std::collections::HashSet;

fn instance(name: &str) -> Instance {
    Instance {
        name: name.to_string(),
        path: format!("/work/{}", name),
        branch: name.to_string(),
        lima_instance: format!("fracta-{}", name),
        active_forwards: Vec::new(),
        active_proxy: None,
        active_browser: None,
    }
}

fn forward(local_port: u16, pid: u32) -> PortForward {
    PortForward { local_port, remote_port: 80, pid }
}

fn two_instances() -> StateV2 {
    let mut state = StateV2::new();
    state.add_instance(instance("a"));
    state.add_instance(instance("b"));
    state
}

fn assert_consistent(state: &StateV2) {
    for (port, owner) in &state.port_allocations {
        let holder = state.find_instance(owner).unwrap();
        let on_forward = holder.active_forwards.iter().any(|f| f.local_port == *port);
        let on_proxy = holder.active_proxy.map(|p| p.local_port == *port).unwrap_or(false);
        assert!(on_forward || on_proxy);
    }
    for inst in &state.instances {
        for f in &inst.active_forwards {
            assert_eq!(state.port_allocations.get(&f.local_port), Some(&inst.name));
        }
        if let Some(proxy) = inst.active_proxy {
            assert_eq!(state.port_allocations.get(&proxy.local_port), Some(&inst.name));
        }
    }
}

#[test]
fn scenario_port_of_another_instance_is_a_conflict() {
    let mut state = two_instances();
    state.add_forward("a", forward(9080, 1)).unwrap();
    match state.add_forward("b", forward(9080, 2)) {
        Err(LedgerError::Conflict { port, owner }) => {
            assert_eq!(port, 9080);
            assert_eq!(owner, "a");
        }
        _ => panic!("expected a conflict"),
    }
    assert_eq!(state.port_owner(9080), Some(&"a".to_string()));
    assert!(state.find_instance("b").unwrap().active_forwards.is_empty());
    assert_consistent(&state);
    state.remove_forward("a", 9080).unwrap();
    state.add_forward("b", forward(9080, 2)).unwrap();
    assert_eq!(state.port_owner(9080), Some(&"b".to_string()));
    assert_consistent(&state);
}

#[test]
fn forward_for_an_unknown_instance_changes_nothing() {
    let mut state = two_instances();
    match state.add_forward("c", forward(9080, 1)) {
        Err(LedgerError::InstanceNotFound(name)) => assert_eq!(name, "c"),
        _ => panic!("expected a missing instance"),
    }
    assert!(state.port_allocations.is_empty());
    assert!(state.remove_forward("c", 9080).is_err());
    assert!(state.clear_forwards("c").is_err());
    assert!(state.add_proxy("c", ProxyForward { local_port: 1080, pid: 1 }).is_err());
    assert!(state.remove_proxy("c").is_err());
    assert!(state.remove_browser("c").is_err());
    assert_eq!(
        LedgerError::InstanceNotFound("c".to_string()).message(),
        "Instance 'c' not found"
    );
    assert_eq!(
        LedgerError::Conflict { port: 9080, owner: "a".to_string() }.message(),
        "Local port 9080 is already in use by instance 'a'"
    );
}

#[test]
fn ledger_follows_every_change_of_the_forwards() {
    let mut state = two_instances();
    state.add_forward("a", forward(9080, 1)).unwrap();
    state.add_forward("a", forward(9081, 2)).unwrap();
    state.add_forward("b", forward(9090, 3)).unwrap();
    state.add_proxy("a", ProxyForward { local_port: 1080, pid: 4 }).unwrap();
    assert_consistent(&state);
    assert_eq!(state.port_allocations.len(), 4);

    assert_eq!(state.remove_forward("a", 9999).unwrap().map(|f| f.pid), None);
    let removed = state.remove_forward("a", 9080).unwrap().unwrap();
    assert_eq!(removed.pid, 1);
    assert_eq!(state.port_owner(9080), None);
    assert_consistent(&state);

    // A second forward on a port keeps the port in the ledger until both are gone.
    state.add_forward("a", forward(9081, 5)).unwrap();
    assert_eq!(state.remove_forward("a", 9081).unwrap().unwrap().pid, 2);
    assert_eq!(state.port_owner(9081), Some(&"a".to_string()));
    assert_consistent(&state);
    assert_eq!(state.remove_forward("a", 9081).unwrap().unwrap().pid, 5);
    assert_eq!(state.port_owner(9081), None);
    assert_consistent(&state);

    state.add_forward("a", forward(1080, 6)).unwrap();
    state.add_forward("a", forward(9082, 7)).unwrap();
    let cleared = state.clear_forwards("a").unwrap();
    assert_eq!(cleared.iter().map(|f| f.pid).collect::<Vec<u32>>(), vec![6, 7]);
    assert_eq!(state.port_owner(1080), Some(&"a".to_string()));
    assert_eq!(state.port_owner(9082), None);
    assert_eq!(state.port_owner(9090), Some(&"b".to_string()));
    assert_consistent(&state);

    let proxy = state.remove_proxy("a").unwrap().unwrap();
    assert_eq!(proxy.local_port, 1080);
    assert_eq!(state.remove_proxy("a").unwrap().map(|p| p.pid), None);
    assert_eq!(state.port_owner(1080), None);
    assert_consistent(&state);
}

#[test]
fn new_proxy_replaces_the_old_and_releases_its_port() {
    let mut state = two_instances();
    state.add_proxy("a", ProxyForward { local_port: 1080, pid: 1 }).unwrap();
    state.add_proxy("a", ProxyForward { local_port: 1081, pid: 2 }).unwrap();
    assert_eq!(state.port_owner(1080), None);
    assert_eq!(state.port_owner(1081), Some(&"a".to_string()));
    assert_eq!(state.find_instance("a").unwrap().active_proxy.unwrap().pid, 2);
    match state.add_proxy("b", ProxyForward { local_port: 1081, pid: 3 }) {
        Err(LedgerError::Conflict { port, owner }) => {
            assert_eq!(port, 1081);
            assert_eq!(owner, "a");
        }
        _ => panic!("expected a conflict"),
    }
    assert_consistent(&state);
}

#[test]
fn browser_sessions_do_not_touch_the_ledger() {
    let mut state = two_instances();
    let session = BrowserSession { browser: "firefox".to_string(), url: "about:blank".to_string(), pid: 9 };
    state.add_browser("a", session).unwrap();
    assert!(state.port_allocations.is_empty());
    assert_eq!(state.find_instance("a").unwrap().active_browser.as_ref().unwrap().pid, 9);
    let closed = state.remove_browser("a").unwrap().unwrap();
    assert_eq!(closed.browser, "firefox");
    assert!(state.find_instance("a").unwrap().active_browser.is_none());
    assert!(state.remove_browser("a").unwrap().is_none());
}

#[test]
fn removing_an_instance_releases_all_its_ports() {
    let mut state = two_instances();
    state.add_forward("a", forward(9080, 1)).unwrap();
    state.add_forward("a", forward(9081, 2)).unwrap();
    state.add_proxy("a", ProxyForward { local_port: 1080, pid: 3 }).unwrap();
    state.add_forward("b", forward(9090, 4)).unwrap();
    state.remove_instance("a");
    assert_eq!(state.instances.len(), 1);
    assert_eq!(state.instances[0].name, "b");
    assert_eq!(state.port_allocations.len(), 1);
    assert_eq!(state.port_owner(9090), Some(&"b".to_string()));
    assert_consistent(&state);
    state.remove_instance("missing");
    assert_eq!(state.instances.len(), 1);
}

#[test]
fn instance_knows_its_ports() {
    let mut state = two_instances();
    state.add_forward("a", PortForward { local_port: 9080, remote_port: 3000, pid: 1 }).unwrap();
    state.add_proxy("a", ProxyForward { local_port: 1080, pid: 2 }).unwrap();
    let a = state.find_instance("a").unwrap();
    assert!(forwards_remote(a, 3000));
    assert!(!forwards_remote(a, 9080));
    assert!(instance_holds(a, 9080));
    assert!(instance_holds(a, 1080));
    assert!(!instance_holds(a, 3000));
    assert!(!instance_holds(state.find_instance("b").unwrap(), 9080));
}

#[test]
fn instances_are_found_by_name() {
    let mut state = two_instances();
    assert_eq!(state.find_index("b"), Some(1));
    assert_eq!(state.find_index("c"), None);
    assert!(state.find_instance("c").is_none());
    state.find_instance_mut("b").unwrap().branch = "other".to_string();
    assert_eq!(state.find_instance("b").unwrap().branch, "other");
    assert_eq!(state.find_instance("a").unwrap().branch, "a");
    assert_eq!(StateV2::state_file_path("/repo"), "/repo/.fracta/state.json");
}

#[test]
fn proxy_ports_are_given_from_the_lowest_free() {
    let mut state = two_instances();
    assert_eq!(find_available_port(&state).unwrap(), 1080);
    state.add_forward("a", forward(1080, 1)).unwrap();
    state.add_forward("b", forward(1081, 2)).unwrap();
    assert_eq!(find_available_port(&state).unwrap(), 1082);
    assert_eq!(select_port(&state, None).unwrap(), 1082);
    assert_eq!(select_port(&state, Some(2000)).unwrap(), 2000);
    match select_port(&state, Some(1081)) {
        Err(LedgerError::Conflict { port, owner }) => {
            assert_eq!(port, 1081);
            assert_eq!(owner, "b");
        }
        _ => panic!("expected a conflict"),
    }
    for port in 1082..=1099 {
        state.add_forward("a", forward(port, 3)).unwrap();
    }
    match find_available_port(&state) {
        Err(LedgerError::Exhausted) => {}
        _ => panic!("expected an exhausted range"),
    }
    assert_eq!(
        LedgerError::Exhausted.message(),
        "No available proxy ports in range 1080-1099"
    );
}

#[test]
fn migration_starts_with_an_empty_ledger() {
    let v1 = StateV1 {
        worktrees: vec![
            WorktreeState {
                name: "feature/x".to_string(),
                path: "/work/x".to_string(),
                branch: "feature/x".to_string(),
                port_offset: 3000,
            },
            WorktreeState {
                name: "main".to_string(),
                path: "/work/main".to_string(),
                branch: "main".to_string(),
                port_offset: 0,
            },
        ],
    };
    let v2 = migrate_v1_to_v2(v1);
    assert_eq!(v2.version, 2);
    assert_eq!(v2.instances.len(), 2);
    assert_eq!(v2.instances[0].lima_instance, "fracta-feature-x");
    assert_eq!(v2.instances[0].path, "/work/x");
    assert_eq!(v2.instances[1].branch, "main");
    assert!(v2.instances.iter().all(|i| i.active_forwards.is_empty()
        && i.active_proxy.is_none()
        && i.active_browser.is_none()));
    assert!(v2.port_allocations.is_empty());
}

#[test]
fn offset_blocks_are_probed_in_a_circle() {
    assert_eq!(offset_for_hash(0), 1000);
    assert_eq!(offset_for_hash(8), 9000);
    assert_eq!(offset_for_hash(9), 1000);
    assert_eq!(offset_for_hash(u64::MAX), (u64::MAX % 9 + 1) as u16 * 1000);
    let mut used = HashSet::new();
    assert_eq!(choose_from_base(8000, &used), 8000);
    used.insert(8000);
    assert_eq!(choose_from_base(8000, &used), 9000);
    used.insert(9000);
    assert_eq!(choose_from_base(8000, &used), 1000);
    for block in 1..=7 {
        used.insert(block * 1000);
    }
    assert_eq!(choose_from_base(8000, &used), 8000);
    used.remove(&5000);
    assert_eq!(choose_from_base(8000, &used), 5000);
    assert_eq!(choose_from_base(0, &used), 0);
}

#[test]
fn main_has_no_offset_even_when_zero_is_taken() {
    let mut used = HashSet::new();
    used.insert(0);
    assert_eq!(choose_port_offset("main", &used), 0);
    assert_eq!(choose_port_offset("", &used), 0);
}

#[test]
fn chosen_offset_is_free_while_a_block_is_free() {
    let name = "feature-A";
    let base = calculate_port_offset(name);
    let mut used = HashSet::new();
    for block in 1..=9u16 {
        if block * 1000 != 1000 * ((base / 1000) % 9 + 1) {
            used.insert(block * 1000);
        }
    }
    let chosen = choose_port_offset(name, &used);
    assert!(!used.contains(&chosen));
    assert_eq!(chosen, 1000 * ((base / 1000) % 9 + 1));
    used.insert(chosen);
    assert_eq!(choose_port_offset(name, &used), base);
}

#[test]
fn names_hash_to_more_than_one_block() {
    let names = ["a", "b", "c", "d", "e", "f", "g", "h", "develop", "feature/x"];
    let first = calculate_port_offset(names[0]);
    assert!(names.iter().any(|n| calculate_port_offset(n) != first));
}

#[test]
fn dead_process_is_forgotten_with_its_ports() {
    let mut state = two_instances();
    state.add_forward("a", forward(9080, 1)).unwrap();
    state.add_forward("a", forward(9081, 2)).unwrap();
    state.add_forward("a", forward(9082, 1)).unwrap();
    state.add_forward("a", forward(1080, 2)).unwrap();
    state.add_proxy("a", ProxyForward { local_port: 1080, pid: 1 }).unwrap();
    let session = BrowserSession { browser: "chrome".to_string(), url: "x".to_string(), pid: 3 };
    state.add_browser("a", session).unwrap();
    state.add_forward("b", forward(9090, 1)).unwrap();

    state.forget_process("a", 1).unwrap();
    let a = state.find_instance("a").unwrap();
    assert_eq!(a.active_forwards.iter().map(|f| f.local_port).collect::<Vec<u16>>(), vec![9081, 1080]);
    assert!(a.active_proxy.is_none());
    assert_eq!(a.active_browser.as_ref().unwrap().pid, 3);
    assert_eq!(state.port_owner(9080), None);
    assert_eq!(state.port_owner(9082), None);
    assert_eq!(state.port_owner(1080), Some(&"a".to_string()));
    assert_eq!(state.port_owner(9090), Some(&"b".to_string()));
    assert_consistent(&state);

    state.forget_process("a", 3).unwrap();
    assert!(state.find_instance("a").unwrap().active_browser.is_none());
    assert_eq!(state.port_allocations.len(), 3);
    assert!(state.forget_process("c", 1).is_err());
    assert_consistent(&state);
}

#[test]
fn everything_of_an_instance_is_released_in_one_step() {
    let mut state = two_instances();
    state.add_forward("a", forward(9080, 1)).unwrap();
    state.add_forward("a", forward(9081, 2)).unwrap();
    state.add_proxy("a", ProxyForward { local_port: 1080, pid: 3 }).unwrap();
    let session = BrowserSession { browser: "chrome".to_string(), url: "x".to_string(), pid: 4 };
    state.add_browser("a", session).unwrap();
    state.add_forward("b", forward(9090, 5)).unwrap();

    let released = state.release_all("a").unwrap();
    assert_eq!(released.forwards.iter().map(|f| f.pid).collect::<Vec<u32>>(), vec![1, 2]);
    assert_eq!(released.proxy.unwrap().pid, 3);
    assert_eq!(released.browser.unwrap().pid, 4);
    let a = state.find_instance("a").unwrap();
    assert!(a.active_forwards.is_empty() && a.active_proxy.is_none() && a.active_browser.is_none());
    assert_eq!(state.port_allocations.len(), 1);
    assert_eq!(state.port_owner(9090), Some(&"b".to_string()));
    assert_consistent(&state);
    assert!(state.release_all("c").is_err());
}
