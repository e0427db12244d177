//! The instances of a repository and the ledger of the local ports they
//! occupy.
//!
//! Every local port that an instance occupies, through a forward or through
//! its proxy, stands in the ledger under the name of that instance, and the
//! ledger holds nothing else: this is what `StateV2::consistent` says, and
//! every operation here keeps it.

use vstd::prelude::*;
use vstd::string::*;
use std::collections::HashMap;
use crate::text::same_text;
use crate::names::{instance_name, machine_name};

verus! {

/// A tunnel from a local port to a port inside the machine of an instance.
#[derive(Debug, Clone, Copy)]
pub struct PortForward {
    pub local_port: u16,
    pub remote_port: u16,
    /// The process that keeps the tunnel open.
    pub pid: u32,
}

/// A SOCKS proxy into the network of an instance.
#[derive(Debug, Clone, Copy)]
pub struct ProxyForward {
    pub local_port: u16,
    /// The process that keeps the proxy open.
    pub pid: u32,
}

/// A browser that was started for an instance.
#[derive(Debug, Clone)]
pub struct BrowserSession {
    pub browser: String,
    pub url: String,
    pub pid: u32,
}

/// One managed sandbox: a worktree and the machine that runs its services.
#[derive(Debug, Clone)]
pub struct Instance {
    pub name: String,
    pub path: String,
    pub branch: String,
    pub lima_instance: String,
    pub active_forwards: Vec<PortForward>,
    pub active_proxy: Option<ProxyForward>,
    pub active_browser: Option<BrowserSession>,
}

/// The instances of a repository and the ledger of their local ports.
#[derive(Debug)]
pub struct StateV2 {
    pub version: u32,
    pub instances: Vec<Instance>,
    /// The ledger: each occupied local port with the name of its owner.
    pub port_allocations: HashMap<u16, String>,
}

/// A worktree as the first layout of the state file recorded it.
#[derive(Debug, Clone)]
pub struct WorktreeState {
    pub name: String,
    pub path: String,
    pub branch: String,
    pub port_offset: u16,
}

/// The first layout of the state file: a plain list of worktrees.
#[derive(Debug)]
pub struct StateV1 {
    pub worktrees: Vec<WorktreeState>,
}

/// Why the ledger refused an operation.
#[derive(Debug)]
pub enum LedgerError {
    /// No instance has this name.
    InstanceNotFound(String),
    /// The port belongs to another instance.
    Conflict { port: u16, owner: String },
    /// Every port of the range that is searched is taken.
    Exhausted,
}

/// One of the forwards is on the local port `port`.
pub open spec fn port_among(forwards: Seq<PortForward>, port: u16) -> bool {
    exists|k: int| 0 <= k < forwards.len() && (#[trigger] forwards[k]).local_port == port
}

/// A forward of `instance` occupies the local port `port`.
pub open spec fn forward_on(instance: Instance, port: u16) -> bool {
    port_among(instance.active_forwards@, port)
}

/// The proxy of `instance` occupies the local port `port`.
pub open spec fn proxy_on(instance: Instance, port: u16) -> bool {
    match instance.active_proxy {
        Some(proxy) => proxy.local_port == port,
        None => false,
    }
}

/// `instance` occupies the local port `port`.
pub open spec fn holds(instance: Instance, port: u16) -> bool {
    forward_on(instance, port) || proxy_on(instance, port)
}

/// An instance called `name` occupies the local port `port`.
pub open spec fn held_by(instances: Seq<Instance>, name: Seq<char>, port: u16) -> bool {
    exists|i: int|
        0 <= i < instances.len() && (#[trigger] instances[i]).name@ == name && holds(
            instances[i],
            port,
        )
}

/// The ledger as a map from ports to the names of their owners.
pub open spec fn ledger_of(allocations: Map<u16, String>) -> Map<u16, Seq<char>> {
    Map::new(|port: u16| allocations.contains_key(port), |port: u16| allocations[port]@)
}

/// No two instances have the same name.
pub open spec fn distinct_names(instances: Seq<Instance>) -> bool {
    forall|i: int, j: int|
        0 <= i < instances.len() && 0 <= j < instances.len() && (#[trigger] instances[i]).name@ == (
        #[trigger] instances[j]).name@ ==> i == j
}

/// Ledger and instances agree: no two instances have the same name, each
/// port of the ledger is occupied by the instance of its owner's name, and
/// each port that an instance occupies stands in the ledger under that
/// instance's name.
pub open spec fn agree(instances: Seq<Instance>, ledger: Map<u16, Seq<char>>) -> bool {
    &&& distinct_names(instances)
    &&& forall|port: u16| #[trigger]
        ledger.contains_key(port) ==> held_by(instances, ledger[port], port)
    &&& forall|i: int, port: u16|
        0 <= i < instances.len() && #[trigger] holds(instances[i], port) ==> ledger.contains_key(
            port,
        ) && ledger[port] == instances[i].name@
}

/// The index of the first instance called `name`, or the number of instances
/// where none is.
pub open spec fn first_named(instances: Seq<Instance>, name: Seq<char>) -> int
    decreases instances.len(),
{
    if instances.len() == 0 {
        0
    } else if instances[0].name@ == name {
        0
    } else {
        1 + first_named(instances.drop_first(), name)
    }
}

/// `first_named` is the least index of an instance called `name`.
pub proof fn lemma_first_named(instances: Seq<Instance>, name: Seq<char>)
    ensures
        0 <= first_named(instances, name) <= instances.len(),
        forall|j: int|
            0 <= j < first_named(instances, name) ==> (#[trigger] instances[j]).name@ != name,
        first_named(instances, name) < instances.len() ==> instances[first_named(
            instances,
            name,
        )].name@ == name,
    decreases instances.len(),
{
    if instances.len() > 0 && instances[0].name@ != name {
        let rest = instances.drop_first();
        lemma_first_named(rest, name);
        assert forall|j: int| 0 <= j < first_named(instances, name) implies (
        #[trigger] instances[j]).name@ != name by {
            if j > 0 {
                assert(instances[j] == rest[j - 1]);
            }
        }
    }
}

/// `b` is `a` but for its forwards.
pub open spec fn same_but_forwards(a: Instance, b: Instance) -> bool {
    &&& b.name == a.name
    &&& b.path == a.path
    &&& b.branch == a.branch
    &&& b.lima_instance == a.lima_instance
    &&& b.active_proxy == a.active_proxy
    &&& b.active_browser == a.active_browser
}

/// `b` is `a` but for its proxy.
pub open spec fn same_but_proxy(a: Instance, b: Instance) -> bool {
    &&& b.name == a.name
    &&& b.path == a.path
    &&& b.branch == a.branch
    &&& b.lima_instance == a.lima_instance
    &&& b.active_forwards == a.active_forwards
    &&& b.active_browser == a.active_browser
}

/// `b` is `a` but for its browser session.
pub open spec fn same_but_browser(a: Instance, b: Instance) -> bool {
    &&& b.name == a.name
    &&& b.path == a.path
    &&& b.branch == a.branch
    &&& b.lima_instance == a.lima_instance
    &&& b.active_forwards == a.active_forwards
    &&& b.active_proxy == a.active_proxy
}

impl LedgerError {
    /// A sentence that says what was refused.
    pub fn message(&self) -> (r: String)
        ensures
            r@ == match self {
                LedgerError::InstanceNotFound(name) => "Instance '"@ + name@ + "' not found"@,
                LedgerError::Conflict { port, owner } => "Local port "@ + crate::text::decimal_text(
                    *port as nat,
                ) + " is already in use by instance '"@ + owner@ + "'"@,
                LedgerError::Exhausted => "No available proxy ports in range 1080-1099"@,
            },
    {
        match self {
            LedgerError::InstanceNotFound(name) => {
                let mut text = String::from_str("Instance '");
                text.append(name.as_str());
                text.append("' not found");
                text
            },
            LedgerError::Conflict { port, owner } => {
                let digits = crate::text::decimal_chars(*port as u64);
                let mut text = String::from_str("Local port ");
                text.append(crate::text::string_of(digits.as_slice()).as_str());
                text.append(" is already in use by instance '");
                text.append(owner.as_str());
                text.append("'");
                text
            },
            LedgerError::Exhausted => String::from_str(
                "No available proxy ports in range 1080-1099",
            ),
        }
    }
}

impl Default for StateV2 {
    /// The state without a version, an instance or an occupied port.
    fn default() -> (r: StateV2)
        ensures
            r.version == 0,
            r.instances@.len() == 0,
            r.ledger() == Map::<u16, Seq<char>>::empty(),
            r.consistent(),
    {
        let r = StateV2 { version: 0, instances: Vec::new(), port_allocations: HashMap::new() };
        assert(r.ledger() =~= Map::<u16, Seq<char>>::empty());
        r
    }
}

impl StateV2 {
    /// The ledger as a map from ports to the names of their owners.
    pub open spec fn ledger(&self) -> Map<u16, Seq<char>> {
        ledger_of(self.port_allocations@)
    }

    /// Ledger and instances agree.
    pub open spec fn consistent(&self) -> bool {
        agree(self.instances@, self.ledger())
    }

    /// The index of the first instance called `name`, or the number of
    /// instances where none is.
    pub open spec fn index_of(&self, name: Seq<char>) -> int {
        first_named(self.instances@, name)
    }

    /// The empty state, in the current layout.
    pub fn new() -> (r: StateV2)
        ensures
            r.version == 2,
            r.instances@.len() == 0,
            r.ledger() == Map::<u16, Seq<char>>::empty(),
            r.consistent(),
    {
        let r = StateV2 { version: 2, instances: Vec::new(), port_allocations: HashMap::new() };
        assert(r.ledger() =~= Map::<u16, Seq<char>>::empty());
        r
    }

    /// The place of the first instance called `name`.
    pub fn find_index(&self, name: &str) -> (r: Option<usize>)
        ensures
            match r {
                Some(i) => i == self.index_of(name@) && i < self.instances.len()
                    && self.instances@[i as int].name@ == name@,
                None => self.index_of(name@) == self.instances.len(),
            },
    {
        let mut i: usize = 0;
        proof {
            assert(self.instances@.skip(0) =~= self.instances@);
        }
        while i < self.instances.len()
            invariant
                0 <= i <= self.instances.len(),
                first_named(self.instances@, name@) == i + first_named(
                    self.instances@.skip(i as int),
                    name@,
                ),
            decreases self.instances.len() - i,
        {
            if same_text(self.instances[i].name.as_str(), name) {
                return Some(i);
            }
            proof {
                assert(self.instances@.skip(i as int).drop_first() =~= self.instances@.skip(i + 1));
            }
            i += 1;
        }
        None
    }

    /// The first instance called `name`.
    pub fn find_instance(&self, name: &str) -> (r: Option<&Instance>)
        ensures
            match r {
                Some(instance) => self.index_of(name@) < self.instances.len() && *instance
                    == self.instances@[self.index_of(name@)] && instance.name@ == name@,
                None => self.index_of(name@) == self.instances.len(),
            },
    {
        match self.find_index(name) {
            Some(i) => Some(&self.instances[i]),
            None => None,
        }
    }

    /// The first instance called `name`, to be changed in place. Nothing
    /// else of the state changes with it.
    pub fn find_instance_mut(&mut self, name: &str) -> (r: Option<&mut Instance>)
        ensures
            match r {
                Some(instance) => {
                    &&& old(self).index_of(name@) < old(self).instances.len()
                    &&& *instance == old(self).instances@[old(self).index_of(name@)]
                    &&& final(self).instances@ == old(self).instances@.update(
                        old(self).index_of(name@),
                        *final(instance),
                    )
                    &&& final(self).version == old(self).version
                    &&& final(self).port_allocations == old(self).port_allocations
                },
                None => old(self).index_of(name@) == old(self).instances.len() && *final(self)
                    == *old(self),
            },
    {
        match self.find_index(name) {
            Some(i) => Some(&mut self.instances[i]),
            None => None,
        }
    }

    /// The owner of the local port `port`, where it has one. In a
    /// consistent state the owner is an instance, and that instance occupies
    /// the port.
    pub fn port_owner(&self, port: u16) -> (r: Option<&String>)
        ensures
            match r {
                Some(owner) => self.ledger().contains_key(port) && self.ledger()[port] == owner@
                    && (self.consistent() ==> held_by(self.instances@, owner@, port)),
                None => !self.ledger().contains_key(port),
            },
    {
        self.port_allocations.get(&port)
    }

    /// The file that holds the state of the repository at `main_repo`.
    pub fn state_file_path(main_repo: &str) -> (r: String)
        ensures
            r@ == crate::paths::joined(
                crate::paths::joined(main_repo@, ".fracta"@),
                "state.json"@,
            ),
    {
        let dir = crate::paths::fracta_worktree_dir(main_repo);
        crate::paths::join_path(dir.as_str(), "state.json")
    }

    /// Adds an instance at the end. An instance under a new name that
    /// occupies no port yet leaves ledger and instances in agreement.
    pub fn add_instance(&mut self, instance: Instance)
        ensures
            final(self).instances@ == old(self).instances@.push(instance),
            final(self).version == old(self).version,
            final(self).port_allocations == old(self).port_allocations,
            old(self).consistent() && old(self).index_of(instance.name@) == old(
                self,
            ).instances.len() && instance.active_forwards@.len() == 0
                && instance.active_proxy is None ==> final(self).consistent(),
    {
        self.instances.push(instance);
        proof {
            if old(self).consistent() && old(self).index_of(instance.name@) == old(
                self,
            ).instances.len() && instance.active_forwards@.len() == 0
                && instance.active_proxy is None {
                let before = old(self).instances@;
                let after = self.instances@;
                let ledger = self.ledger();
                lemma_first_named(before, instance.name@);
                assert forall|i: int, j: int|
                    0 <= i < after.len() && 0 <= j < after.len() && (#[trigger] after[i]).name@ == (
                    #[trigger] after[j]).name@ implies i == j by {
                    if i < before.len() {
                        assert(after[i] == before[i]);
                    }
                    if j < before.len() {
                        assert(after[j] == before[j]);
                    }
                }
                assert forall|port: u16| #[trigger] ledger.contains_key(port) implies held_by(
                    after,
                    ledger[port],
                    port,
                ) by {
                    let i = choose|i: int|
                        0 <= i < before.len() && (#[trigger] before[i]).name@ == ledger[port]
                            && holds(before[i], port);
                    assert(after[i] == before[i]);
                }
                assert forall|i: int, port: u16|
                    0 <= i < after.len() && #[trigger] holds(
                        after[i],
                        port,
                    ) implies ledger.contains_key(port) && ledger[port] == after[i].name@ by {
                    if i < before.len() {
                        assert(after[i] == before[i]);
                        assert(holds(before[i], port));
                    }
                }
            }
        }
    }

    /// Records the forward `forward` for the instance `instance_name` and
    /// enters its local port in the ledger.
    ///
    /// Fails, and changes nothing, where no instance has that name or the
    /// port belongs to an instance of another name.
    pub fn add_forward(&mut self, instance_name: &str, forward: PortForward) -> (r: Result<
        (),
        LedgerError,
    >)
        ensures
            match r {
                Ok(_) => {
                    let i = old(self).index_of(instance_name@);
                    &&& i < old(self).instances.len()
                    &&& old(self).ledger().contains_key(forward.local_port) ==> old(
                        self,
                    ).ledger()[forward.local_port] == instance_name@
                    &&& final(self).instances@.len() == old(self).instances@.len()
                    &&& forall|j: int|
                        0 <= j < old(self).instances@.len() && j != i ==> final(self).instances@[j]
                            == old(self).instances@[j]
                    &&& same_but_forwards(old(self).instances@[i], final(self).instances@[i])
                    &&& final(self).instances@[i].active_forwards@ == old(
                        self,
                    ).instances@[i].active_forwards@.push(forward)
                    &&& final(self).ledger() == old(self).ledger().insert(
                        forward.local_port,
                        instance_name@,
                    )
                    &&& final(self).version == old(self).version
                },
                Err(LedgerError::InstanceNotFound(name)) => {
                    &&& old(self).index_of(instance_name@) == old(self).instances.len()
                    &&& name@ == instance_name@
                    &&& *final(self) == *old(self)
                },
                Err(LedgerError::Conflict { port, owner }) => {
                    &&& old(self).index_of(instance_name@) < old(self).instances.len()
                    &&& port == forward.local_port
                    &&& old(self).ledger().contains_key(port)
                    &&& old(self).ledger()[port] == owner@
                    &&& owner@ != instance_name@
                    &&& *final(self) == *old(self)
                },
                Err(LedgerError::Exhausted) => false,
            },
            old(self).consistent() ==> final(self).consistent(),
    {
        let place = match self.find_index(instance_name) {
            Some(place) => place,
            None => {
                return Err(LedgerError::InstanceNotFound(String::from_str(instance_name)));
            },
        };
        match self.port_allocations.get(&forward.local_port) {
            Some(owner) => {
                if !same_text(owner.as_str(), instance_name) {
                    return Err(
                        LedgerError::Conflict { port: forward.local_port, owner: owner.clone() },
                    );
                }
            },
            None => {},
        }
        self.port_allocations.insert(forward.local_port, String::from_str(instance_name));
        self.instances[place].active_forwards.push(forward);
        proof {
            assert(self.ledger() =~= old(self).ledger().insert(
                forward.local_port,
                instance_name@,
            ));
            let k = old(self).instances@[place as int].active_forwards@.len() as int;
            assert(self.instances@[place as int].active_forwards@[k].local_port
                == forward.local_port);
            if old(self).consistent() {
                lemma_holds_after_push(
                    old(self).instances@[place as int],
                    self.instances@[place as int],
                    forward,
                );
                lemma_agree_after_gain(
                    old(self).instances@,
                    self.instances@,
                    old(self).ledger(),
                    place as int,
                    forward.local_port,
                );
            }
        }
        Ok(())
    }
}

/// Changing one instance but for its name keeps the names distinct.
pub proof fn lemma_names_kept(before: Seq<Instance>, after: Seq<Instance>, place: int)
    requires
        distinct_names(before),
        0 <= place < before.len(),
        after.len() == before.len(),
        forall|j: int| 0 <= j < before.len() && j != place ==> after[j] == before[j],
        after[place].name == before[place].name,
    ensures
        distinct_names(after),
{
    assert forall|i: int, j: int|
        0 <= i < after.len() && 0 <= j < after.len() && (#[trigger] after[i]).name@ == (
        #[trigger] after[j]).name@ implies i == j by {
        assert(after[i].name == before[i].name);
        assert(after[j].name == before[j].name);
    }
}

/// The ports among `ports` that `instance` does not occupy but that the
/// ledger still holds under its name.
pub open spec fn stale_ports(
    instance: Instance,
    ledger: Map<u16, Seq<char>>,
    ports: Set<u16>,
) -> Set<u16> {
    Set::new(
        |p: u16|
            ports.contains(p) && !holds(instance, p) && ledger.contains_key(p) && ledger[p]
                == instance.name@,
    )
}

/// The ledger after `instance` has given up what it no longer occupies of
/// `ports`: the ledger without those ports that stood under its name.
pub open spec fn released(instance: Instance, ledger: Map<u16, Seq<char>>, ports: Set<u16>) -> Map<
    u16,
    Seq<char>,
> {
    ledger.remove_keys(stale_ports(instance, ledger, ports))
}

/// Ledger and instances still agree after instance `place` has given up
/// some of its ports, all of them among `ports`, and the ledger has released
/// them.
pub proof fn lemma_agree_after_release(
    before: Seq<Instance>,
    after: Seq<Instance>,
    ledger: Map<u16, Seq<char>>,
    place: int,
    ports: Set<u16>,
)
    requires
        agree(before, ledger),
        0 <= place < before.len(),
        after.len() == before.len(),
        forall|j: int| 0 <= j < before.len() && j != place ==> after[j] == before[j],
        after[place].name == before[place].name,
        forall|p: u16| holds(after[place], p) ==> holds(before[place], p),
        forall|p: u16| holds(before[place], p) && !holds(after[place], p) ==> ports.contains(p),
    ensures
        agree(after, released(after[place], ledger, ports)),
{
    let rest = released(after[place], ledger, ports);
    lemma_names_kept(before, after, place);
    assert forall|p: u16| #[trigger] rest.contains_key(p) implies held_by(after, rest[p], p) by {
        let i = choose|i: int|
            0 <= i < before.len() && (#[trigger] before[i]).name@ == ledger[p] && holds(
                before[i],
                p,
            );
        if i == place {
            assert(holds(after[place], p));
        } else {
            assert(after[i] == before[i]);
        }
    }
    assert forall|i: int, p: u16|
        0 <= i < after.len() && #[trigger] holds(after[i], p) implies rest.contains_key(p)
            && rest[p] == after[i].name@ by {
        if i == place {
            assert(holds(before[place], p));
        } else {
            assert(after[i] == before[i]);
            assert(holds(before[i], p));
            assert(before[i].name@ != before[place].name@);
        }
    }
}

/// An instance with one more forward occupies one more port, at most.
pub proof fn lemma_holds_after_push(a: Instance, b: Instance, forward: PortForward)
    requires
        b.active_forwards@ == a.active_forwards@.push(forward),
        b.active_proxy == a.active_proxy,
    ensures
        forall|p: u16| holds(b, p) <==> holds(a, p) || p == forward.local_port,
{
    let n = a.active_forwards@.len() as int;
    assert forall|p: u16| holds(b, p) <==> holds(a, p) || p == forward.local_port by {
        if forward_on(a, p) {
            let k = choose|k: int|
                0 <= k < a.active_forwards@.len() && (#[trigger] a.active_forwards@[k]).local_port
                    == p;
            assert(b.active_forwards@[k].local_port == p);
        }
        if p == forward.local_port {
            assert(b.active_forwards@[n].local_port == p);
        }
        if forward_on(b, p) {
            let k = choose|k: int|
                0 <= k < b.active_forwards@.len() && (#[trigger] b.active_forwards@[k]).local_port
                    == p;
            if k < n {
                assert(a.active_forwards@[k].local_port == p);
            }
        }
    }
}

/// Ledger and instances still agree after instance `place` has come to
/// occupy `port`, a port that was free or its own, and the ledger has
/// entered it under that instance's name.
pub proof fn lemma_agree_after_gain(
    before: Seq<Instance>,
    after: Seq<Instance>,
    ledger: Map<u16, Seq<char>>,
    place: int,
    port: u16,
)
    requires
        agree(before, ledger),
        0 <= place < before.len(),
        after.len() == before.len(),
        forall|j: int| 0 <= j < before.len() && j != place ==> after[j] == before[j],
        after[place].name == before[place].name,
        forall|p: u16| holds(after[place], p) <==> holds(before[place], p) || p == port,
        ledger.contains_key(port) ==> ledger[port] == before[place].name@,
    ensures
        agree(after, ledger.insert(port, before[place].name@)),
{
    let name = before[place].name@;
    let grown = ledger.insert(port, name);
    lemma_names_kept(before, after, place);
    assert forall|p: u16| #[trigger] grown.contains_key(p) implies held_by(after, grown[p], p) by {
        if p == port {
            assert(holds(after[place], port));
            assert(after[place].name@ == name);
        } else {
            let i = choose|i: int|
                0 <= i < before.len() && (#[trigger] before[i]).name@ == ledger[p] && holds(
                    before[i],
                    p,
                );
            if i == place {
                assert(holds(after[place], p));
            } else {
                assert(after[i] == before[i]);
            }
        }
    }
    assert forall|i: int, p: u16|
        0 <= i < after.len() && #[trigger] holds(after[i], p) implies grown.contains_key(p)
            && grown[p] == after[i].name@ by {
        if i == place {
            if p != port {
                assert(holds(before[place], p));
            }
        } else {
            assert(after[i] == before[i]);
            assert(holds(before[i], p));
        }
    }
}

/// The index of the first forward on the local port `port`, or the number
/// of forwards where there is none.
pub open spec fn first_forward(forwards: Seq<PortForward>, port: u16) -> int
    decreases forwards.len(),
{
    if forwards.len() == 0 {
        0
    } else if forwards[0].local_port == port {
        0
    } else {
        1 + first_forward(forwards.drop_first(), port)
    }
}

/// `first_forward` is the least index of a forward on `port`.
pub proof fn lemma_first_forward(forwards: Seq<PortForward>, port: u16)
    ensures
        0 <= first_forward(forwards, port) <= forwards.len(),
        forall|j: int|
            0 <= j < first_forward(forwards, port) ==> (#[trigger] forwards[j]).local_port != port,
        first_forward(forwards, port) < forwards.len() ==> forwards[first_forward(
            forwards,
            port,
        )].local_port == port,
    decreases forwards.len(),
{
    if forwards.len() > 0 && forwards[0].local_port != port {
        let rest = forwards.drop_first();
        lemma_first_forward(rest, port);
        assert forall|j: int| 0 <= j < first_forward(forwards, port) implies (
        #[trigger] forwards[j]).local_port != port by {
            if j > 0 {
                assert(forwards[j] == rest[j - 1]);
            }
        }
    }
}

/// The place of the first forward on the local port `port`.
pub fn find_forward(forwards: &Vec<PortForward>, port: u16) -> (r: Option<usize>)
    ensures
        match r {
            Some(k) => k == first_forward(forwards@, port) && k < forwards.len()
                && forwards@[k as int].local_port == port,
            None => first_forward(forwards@, port) == forwards.len() && forall|j: int|
                0 <= j < forwards.len() ==> (#[trigger] forwards@[j]).local_port != port,
        },
{
    let mut k: usize = 0;
    while k < forwards.len()
        invariant
            0 <= k <= forwards.len(),
            forall|j: int| 0 <= j < k ==> (#[trigger] forwards@[j]).local_port != port,
        decreases forwards.len() - k,
    {
        if forwards[k].local_port == port {
            proof {
                lemma_first_forward(forwards@, port);
            }
            return Some(k);
        }
        k += 1;
    }
    proof {
        lemma_first_forward(forwards@, port);
    }
    None
}

/// One of the forwards leads to the port `port` inside the machine.
pub open spec fn remote_among(forwards: Seq<PortForward>, port: u16) -> bool {
    exists|k: int| 0 <= k < forwards.len() && (#[trigger] forwards[k]).remote_port == port
}

/// Whether a forward of `instance` leads to the port `remote_port` inside
/// its machine.
pub fn forwards_remote(instance: &Instance, remote_port: u16) -> (r: bool)
    ensures
        r == remote_among(instance.active_forwards@, remote_port),
{
    let mut k: usize = 0;
    while k < instance.active_forwards.len()
        invariant
            0 <= k <= instance.active_forwards.len(),
            forall|j: int|
                0 <= j < k ==> (#[trigger] instance.active_forwards@[j]).remote_port
                    != remote_port,
        decreases instance.active_forwards.len() - k,
    {
        if instance.active_forwards[k].remote_port == remote_port {
            return true;
        }
        k += 1;
    }
    false
}

/// Whether `instance` occupies the local port `port`.
pub fn instance_holds(instance: &Instance, port: u16) -> (r: bool)
    ensures
        r == holds(*instance, port),
{
    let on_proxy = match &instance.active_proxy {
        Some(proxy) => proxy.local_port == port,
        None => false,
    };
    on_proxy || find_forward(&instance.active_forwards, port).is_some()
}

/// The local ports of the forwards.
pub open spec fn forward_ports(forwards: Seq<PortForward>) -> Set<u16> {
    Set::new(|p: u16| port_among(forwards, p))
}

/// The instances that are not called `name`, in order.
pub open spec fn without_name(instances: Seq<Instance>, name: Seq<char>) -> Seq<Instance>
    decreases instances.len(),
{
    if instances.len() == 0 {
        Seq::empty()
    } else if instances.last().name@ == name {
        without_name(instances.drop_last(), name)
    } else {
        without_name(instances.drop_last(), name).push(instances.last())
    }
}

/// What `without_name` keeps: the instances under other names, each once
/// where each was there once.
pub proof fn lemma_without_name(instances: Seq<Instance>, name: Seq<char>)
    ensures
        forall|j: int|
            0 <= j < without_name(instances, name).len() ==> (#[trigger] without_name(
                instances,
                name,
            )[j]).name@ != name && exists|i: int|
                0 <= i < instances.len() && #[trigger] instances[i] == without_name(
                    instances,
                    name,
                )[j],
        forall|i: int|
            0 <= i < instances.len() && (#[trigger] instances[i]).name@ != name ==> exists|j: int|
                0 <= j < without_name(instances, name).len() && #[trigger] without_name(
                    instances,
                    name,
                )[j] == instances[i],
        distinct_names(instances) ==> distinct_names(without_name(instances, name)),
    decreases instances.len(),
{
    if instances.len() > 0 {
        let front = instances.drop_last();
        let last = instances.last();
        let kept = without_name(front, name);
        let all = without_name(instances, name);
        lemma_without_name(front, name);
        assert forall|j: int| 0 <= j < all.len() implies (#[trigger] all[j]).name@ != name
            && exists|i: int| 0 <= i < instances.len() && #[trigger] instances[i] == all[j] by {
            if j < kept.len() {
                assert(all[j] == kept[j]);
                let i = choose|i: int| 0 <= i < front.len() && #[trigger] front[i] == kept[j];
                assert(instances[i] == all[j]);
            } else {
                assert(instances[instances.len() - 1] == all[j]);
            }
        }
        assert forall|i: int| 0 <= i < instances.len() && (#[trigger] instances[i]).name@
            != name implies exists|j: int| 0 <= j < all.len() && #[trigger] all[j]
            == instances[i] by {
            if i < front.len() {
                assert(front[i] == instances[i]);
                let j = choose|j: int| 0 <= j < kept.len() && #[trigger] kept[j] == front[i];
                assert(all[j] == instances[i]);
            } else {
                assert(all[all.len() - 1] == instances[i]);
            }
        }
        if distinct_names(instances) {
            assert(distinct_names(front)) by {
                assert forall|i: int, j: int|
                    0 <= i < front.len() && 0 <= j < front.len() && (#[trigger] front[i]).name@ == (
                    #[trigger] front[j]).name@ implies i == j by {
                    assert(instances[i] == front[i]);
                    assert(instances[j] == front[j]);
                }
            }
            assert forall|a: int, b: int|
                0 <= a < all.len() && 0 <= b < all.len() && (#[trigger] all[a]).name@ == (
                #[trigger] all[b]).name@ implies a == b by {
                if a < kept.len() && b < kept.len() {
                    assert(all[a] == kept[a]);
                    assert(all[b] == kept[b]);
                } else if a < kept.len() {
                    assert(all[a] == kept[a]);
                    let i = choose|i: int| 0 <= i < front.len() && #[trigger] front[i] == kept[a];
                    assert(instances[i] == front[i]);
                    assert(instances[instances.len() - 1] == all[b]);
                } else if b < kept.len() {
                    assert(all[b] == kept[b]);
                    let i = choose|i: int| 0 <= i < front.len() && #[trigger] front[i] == kept[b];
                    assert(instances[i] == front[i]);
                    assert(instances[instances.len() - 1] == all[a]);
                }
            }
        }
    }
}

/// Ledger and instances still agree after the instances called `name` have
/// left, with every port they occupied.
pub proof fn lemma_agree_after_leave(
    before: Seq<Instance>,
    ledger: Map<u16, Seq<char>>,
    name: Seq<char>,
)
    requires
        agree(before, ledger),
    ensures
        agree(
            without_name(before, name),
            ledger.remove_keys(Set::new(|p: u16| held_by(before, name, p))),
        ),
{
    let after = without_name(before, name);
    let gone = Set::new(|p: u16| held_by(before, name, p));
    let rest = ledger.remove_keys(gone);
    lemma_without_name(before, name);
    assert forall|p: u16| #[trigger] rest.contains_key(p) implies held_by(after, rest[p], p) by {
        let i = choose|i: int|
            0 <= i < before.len() && (#[trigger] before[i]).name@ == ledger[p] && holds(
                before[i],
                p,
            );
        assert(before[i].name@ != name);
        let j = choose|j: int| 0 <= j < after.len() && #[trigger] after[j] == before[i];
        assert(after[j].name@ == ledger[p] && holds(after[j], p));
    }
    assert forall|j: int, p: u16|
        0 <= j < after.len() && #[trigger] holds(after[j], p) implies rest.contains_key(p)
            && rest[p] == after[j].name@ by {
        let i = choose|i: int| 0 <= i < before.len() && #[trigger] before[i] == after[j];
        assert(holds(before[i], p));
        if held_by(before, name, p) {
            let k = choose|k: int|
                0 <= k < before.len() && (#[trigger] before[k]).name@ == name && holds(
                    before[k],
                    p,
                );
            assert(ledger[p] == before[k].name@);
        }
    }
}

impl StateV2 {
    /// Takes the local port `port` out of the ledger, where instance `place`
    /// does not occupy it and the ledger holds it under that instance's name.
    fn release_port(&mut self, place: usize, port: u16)
        requires
            place < old(self).instances.len(),
        ensures
            final(self).instances == old(self).instances,
            final(self).version == old(self).version,
            final(self).ledger() == released(
                old(self).instances@[place as int],
                old(self).ledger(),
                set![port],
            ),
    {
        if instance_holds(&self.instances[place], port) {
            assert(self.ledger() =~= released(
                old(self).instances@[place as int],
                old(self).ledger(),
                set![port],
            ));
            return ;
        }
        let owned = match self.port_allocations.get(&port) {
            Some(owner) => same_text(owner.as_str(), self.instances[place].name.as_str()),
            None => false,
        };
        if owned {
            self.port_allocations.remove(&port);
        }
        assert(self.ledger() =~= released(
            old(self).instances@[place as int],
            old(self).ledger(),
            set![port],
        ));
    }

    /// Removes the first forward of the instance `instance_name` on the
    /// local port `local_port` and hands it out. The port leaves the ledger
    /// unless the instance still occupies it.
    ///
    /// Fails, and changes nothing, where no instance has that name. Where
    /// the instance has no such forward, nothing changes either.
    pub fn remove_forward(&mut self, instance_name: &str, local_port: u16) -> (r: Result<
        Option<PortForward>,
        LedgerError,
    >)
        ensures
            match r {
                Ok(Some(forward)) => {
                    let i = old(self).index_of(instance_name@);
                    let forwards = old(self).instances@[i].active_forwards@;
                    let k = first_forward(forwards, local_port);
                    &&& i < old(self).instances.len()
                    &&& k < forwards.len()
                    &&& forward == forwards[k]
                    &&& final(self).instances@.len() == old(self).instances@.len()
                    &&& forall|j: int|
                        0 <= j < old(self).instances@.len() && j != i ==> final(self).instances@[j]
                            == old(self).instances@[j]
                    &&& same_but_forwards(old(self).instances@[i], final(self).instances@[i])
                    &&& final(self).instances@[i].active_forwards@ == forwards.remove(k)
                    &&& final(self).ledger() == released(
                        final(self).instances@[i],
                        old(self).ledger(),
                        set![local_port],
                    )
                    &&& final(self).version == old(self).version
                },
                Ok(None) => {
                    let i = old(self).index_of(instance_name@);
                    &&& i < old(self).instances.len()
                    &&& !forward_on(old(self).instances@[i], local_port)
                    &&& *final(self) == *old(self)
                },
                Err(LedgerError::InstanceNotFound(name)) => {
                    &&& old(self).index_of(instance_name@) == old(self).instances.len()
                    &&& name@ == instance_name@
                    &&& *final(self) == *old(self)
                },
                Err(_) => false,
            },
            old(self).consistent() ==> final(self).consistent(),
    {
        let place = match self.find_index(instance_name) {
            Some(place) => place,
            None => {
                return Err(LedgerError::InstanceNotFound(String::from_str(instance_name)));
            },
        };
        let at = match find_forward(&self.instances[place].active_forwards, local_port) {
            Some(at) => at,
            None => {
                return Ok(None);
            },
        };
        let removed = self.instances[place].active_forwards.remove(at);
        let ghost middle = self.instances@;
        self.release_port(place, local_port);
        proof {
            if old(self).consistent() {
                let before = old(self).instances@[place as int];
                let after = middle[place as int];
                lemma_holds_after_remove(before, after, at as int);
                lemma_agree_after_release(
                    old(self).instances@,
                    middle,
                    old(self).ledger(),
                    place as int,
                    set![local_port],
                );
            }
        }
        Ok(Some(removed))
    }

    /// Removes all forwards of the instance `instance_name` and hands them
    /// out. Their local ports leave the ledger, unless the proxy of the
    /// instance occupies them.
    ///
    /// Fails, and changes nothing, where no instance has that name.
    pub fn clear_forwards(&mut self, instance_name: &str) -> (r: Result<
        Vec<PortForward>,
        LedgerError,
    >)
        ensures
            match r {
                Ok(forwards) => {
                    let i = old(self).index_of(instance_name@);
                    &&& i < old(self).instances.len()
                    &&& forwards@ == old(self).instances@[i].active_forwards@
                    &&& final(self).instances@.len() == old(self).instances@.len()
                    &&& forall|j: int|
                        0 <= j < old(self).instances@.len() && j != i ==> final(self).instances@[j]
                            == old(self).instances@[j]
                    &&& same_but_forwards(old(self).instances@[i], final(self).instances@[i])
                    &&& final(self).instances@[i].active_forwards@.len() == 0
                    &&& final(self).ledger() == released(
                        final(self).instances@[i],
                        old(self).ledger(),
                        forward_ports(forwards@),
                    )
                    &&& final(self).version == old(self).version
                },
                Err(LedgerError::InstanceNotFound(name)) => {
                    &&& old(self).index_of(instance_name@) == old(self).instances.len()
                    &&& name@ == instance_name@
                    &&& *final(self) == *old(self)
                },
                Err(_) => false,
            },
            old(self).consistent() ==> final(self).consistent(),
    {
        let place = match self.find_index(instance_name) {
            Some(place) => place,
            None => {
                return Err(LedgerError::InstanceNotFound(String::from_str(instance_name)));
            },
        };
        let mut forwards: Vec<PortForward> = Vec::new();
        std::mem::swap(&mut self.instances[place].active_forwards, &mut forwards);
        let ghost middle = self.instances@;
        let ghost cleared = middle[place as int];
        let mut k: usize = 0;
        proof {
            assert(self.ledger() =~= released(
                cleared,
                old(self).ledger(),
                forward_ports(forwards@.take(0)),
            ));
        }
        while k < forwards.len()
            invariant
                0 <= k <= forwards.len(),
                place < self.instances.len(),
                self.instances@ == middle,
                cleared == middle[place as int],
                self.version == old(self).version,
                self.ledger() == released(
                    cleared,
                    old(self).ledger(),
                    forward_ports(forwards@.take(k as int)),
                ),
            decreases forwards.len() - k,
        {
            let ghost sofar = forward_ports(forwards@.take(k as int));
            let port = forwards[k].local_port;
            self.release_port(place, port);
            proof {
                lemma_forward_ports_step(forwards@, k as int);
                let next = forward_ports(forwards@.take(k + 1));
                assert(self.ledger() =~= released(cleared, old(self).ledger(), next));
            }
            k += 1;
        }
        proof {
            assert(forwards@.take(forwards.len() as int) =~= forwards@);
            if old(self).consistent() {
                let before = old(self).instances@[place as int];
                assert forall|p: u16| holds(cleared, p) implies holds(before, p) by {
                    assert(!forward_on(cleared, p));
                }
                assert forall|p: u16| holds(before, p) && !holds(cleared, p) implies forward_ports(
                    forwards@,
                ).contains(p) by {
                    assert(forward_on(before, p));
                }
                lemma_agree_after_release(
                    old(self).instances@,
                    middle,
                    old(self).ledger(),
                    place as int,
                    forward_ports(forwards@),
                );
            }
        }
        Ok(forwards)
    }

    /// Records `proxy` as the proxy of the instance `instance_name` and
    /// enters its local port in the ledger. A proxy that the instance had
    /// before is replaced, and its port released.
    ///
    /// Fails, and changes nothing, where no instance has that name or the
    /// port belongs to an instance of another name.
    pub fn add_proxy(&mut self, instance_name: &str, proxy: ProxyForward) -> (r: Result<
        (),
        LedgerError,
    >)
        ensures
            match r {
                Ok(_) => {
                    let i = old(self).index_of(instance_name@);
                    &&& i < old(self).instances.len()
                    &&& old(self).ledger().contains_key(proxy.local_port) ==> old(
                        self,
                    ).ledger()[proxy.local_port] == instance_name@
                    &&& final(self).instances@.len() == old(self).instances@.len()
                    &&& forall|j: int|
                        0 <= j < old(self).instances@.len() && j != i ==> final(self).instances@[j]
                            == old(self).instances@[j]
                    &&& same_but_proxy(old(self).instances@[i], final(self).instances@[i])
                    &&& final(self).instances@[i].active_proxy == Some(proxy)
                    &&& final(self).ledger() == released(
                        final(self).instances@[i],
                        old(self).ledger(),
                        match old(self).instances@[i].active_proxy {
                            Some(earlier) => set![earlier.local_port],
                            None => Set::empty(),
                        },
                    ).insert(proxy.local_port, instance_name@)
                    &&& final(self).version == old(self).version
                },
                Err(LedgerError::InstanceNotFound(name)) => {
                    &&& old(self).index_of(instance_name@) == old(self).instances.len()
                    &&& name@ == instance_name@
                    &&& *final(self) == *old(self)
                },
                Err(LedgerError::Conflict { port, owner }) => {
                    &&& old(self).index_of(instance_name@) < old(self).instances.len()
                    &&& port == proxy.local_port
                    &&& old(self).ledger().contains_key(port)
                    &&& old(self).ledger()[port] == owner@
                    &&& owner@ != instance_name@
                    &&& *final(self) == *old(self)
                },
                Err(LedgerError::Exhausted) => false,
            },
            old(self).consistent() ==> final(self).consistent(),
    {
        let place = match self.find_index(instance_name) {
            Some(place) => place,
            None => {
                return Err(LedgerError::InstanceNotFound(String::from_str(instance_name)));
            },
        };
        match self.port_allocations.get(&proxy.local_port) {
            Some(owner) => {
                if !same_text(owner.as_str(), instance_name) {
                    return Err(
                        LedgerError::Conflict { port: proxy.local_port, owner: owner.clone() },
                    );
                }
            },
            None => {},
        }
        let earlier = self.instances[place].active_proxy;
        self.instances[place].active_proxy = Some(proxy);
        let ghost middle = self.instances@;
        let ghost ports: Set<u16> = match earlier {
            Some(e) => set![e.local_port],
            None => Set::empty(),
        };
        match earlier {
            Some(e) => {
                self.release_port(place, e.local_port);
            },
            None => {
                assert(self.ledger() =~= released(middle[place as int], old(self).ledger(), ports));
            },
        }
        let ghost between = self.ledger();
        self.port_allocations.insert(proxy.local_port, String::from_str(instance_name));
        proof {
            assert(self.ledger() =~= between.insert(proxy.local_port, instance_name@));
            if old(self).consistent() {
                let before = old(self).instances@[place as int];
                let bare = Instance { active_proxy: None, ..before };
                let without = old(self).instances@.update(place as int, bare);
                assert forall|p: u16| holds(bare, p) implies holds(before, p) by {
                    assert(forward_on(bare, p) == forward_on(before, p));
                }
                assert forall|p: u16| holds(before, p) && !holds(bare, p) implies ports.contains(
                    p,
                ) by {
                    assert(forward_on(bare, p) == forward_on(before, p));
                }
                lemma_agree_after_release(
                    old(self).instances@,
                    without,
                    old(self).ledger(),
                    place as int,
                    ports,
                );
                let after = middle[place as int];
                assert forall|p: u16| holds(after, p) <==> holds(bare, p) || p
                    == proxy.local_port by {
                    assert(forward_on(bare, p) == forward_on(after, p));
                }
                let lightened = released(bare, old(self).ledger(), ports);
                assert(lightened.insert(proxy.local_port, instance_name@) =~= self.ledger()) by {
                    assert(forall|p: u16| forward_on(bare, p) == forward_on(after, p));
                }
                lemma_agree_after_gain(without, middle, lightened, place as int, proxy.local_port);
            }
        }
        Ok(())
    }

    /// Removes the proxy of the instance `instance_name` and hands it out.
    /// Its local port leaves the ledger unless a forward of the instance
    /// occupies it.
    ///
    /// Fails, and changes nothing, where no instance has that name. Where
    /// the instance has no proxy, nothing changes either.
    pub fn remove_proxy(&mut self, instance_name: &str) -> (r: Result<
        Option<ProxyForward>,
        LedgerError,
    >)
        ensures
            match r {
                Ok(Some(proxy)) => {
                    let i = old(self).index_of(instance_name@);
                    &&& i < old(self).instances.len()
                    &&& old(self).instances@[i].active_proxy == Some(proxy)
                    &&& final(self).instances@.len() == old(self).instances@.len()
                    &&& forall|j: int|
                        0 <= j < old(self).instances@.len() && j != i ==> final(self).instances@[j]
                            == old(self).instances@[j]
                    &&& same_but_proxy(old(self).instances@[i], final(self).instances@[i])
                    &&& final(self).instances@[i].active_proxy is None
                    &&& final(self).ledger() == released(
                        final(self).instances@[i],
                        old(self).ledger(),
                        set![proxy.local_port],
                    )
                    &&& final(self).version == old(self).version
                },
                Ok(None) => {
                    let i = old(self).index_of(instance_name@);
                    &&& i < old(self).instances.len()
                    &&& old(self).instances@[i].active_proxy is None
                    &&& *final(self) == *old(self)
                },
                Err(LedgerError::InstanceNotFound(name)) => {
                    &&& old(self).index_of(instance_name@) == old(self).instances.len()
                    &&& name@ == instance_name@
                    &&& *final(self) == *old(self)
                },
                Err(_) => false,
            },
            old(self).consistent() ==> final(self).consistent(),
    {
        let place = match self.find_index(instance_name) {
            Some(place) => place,
            None => {
                return Err(LedgerError::InstanceNotFound(String::from_str(instance_name)));
            },
        };
        let proxy = match self.instances[place].active_proxy {
            Some(proxy) => proxy,
            None => {
                return Ok(None);
            },
        };
        self.instances[place].active_proxy = None;
        let ghost middle = self.instances@;
        self.release_port(place, proxy.local_port);
        proof {
            if old(self).consistent() {
                let before = old(self).instances@[place as int];
                let after = middle[place as int];
                assert forall|p: u16| holds(after, p) implies holds(before, p) by {
                    assert(forward_on(after, p) == forward_on(before, p));
                }
                assert forall|p: u16| holds(before, p) && !holds(after, p) implies set![
                    proxy.local_port,
                ].contains(p) by {
                    assert(forward_on(after, p) == forward_on(before, p));
                }
                lemma_agree_after_release(
                    old(self).instances@,
                    middle,
                    old(self).ledger(),
                    place as int,
                    set![proxy.local_port],
                );
            }
        }
        Ok(Some(proxy))
    }

    /// Records `session` as the browser of the instance `instance_name`, in
    /// place of any it had before.
    ///
    /// Fails, and changes nothing, where no instance has that name.
    pub fn add_browser(&mut self, instance_name: &str, session: BrowserSession) -> (r: Result<
        (),
        LedgerError,
    >)
        ensures
            match r {
                Ok(_) => {
                    let i = old(self).index_of(instance_name@);
                    &&& i < old(self).instances.len()
                    &&& final(self).instances@.len() == old(self).instances@.len()
                    &&& forall|j: int|
                        0 <= j < old(self).instances@.len() && j != i ==> final(self).instances@[j]
                            == old(self).instances@[j]
                    &&& same_but_browser(old(self).instances@[i], final(self).instances@[i])
                    &&& final(self).instances@[i].active_browser == Some(session)
                    &&& final(self).port_allocations == old(self).port_allocations
                    &&& final(self).version == old(self).version
                },
                Err(LedgerError::InstanceNotFound(name)) => {
                    &&& old(self).index_of(instance_name@) == old(self).instances.len()
                    &&& name@ == instance_name@
                    &&& *final(self) == *old(self)
                },
                Err(_) => false,
            },
            old(self).consistent() ==> final(self).consistent(),
    {
        let place = match self.find_index(instance_name) {
            Some(place) => place,
            None => {
                return Err(LedgerError::InstanceNotFound(String::from_str(instance_name)));
            },
        };
        self.instances[place].active_browser = Some(session);
        proof {
            if old(self).consistent() {
                lemma_agree_same_ports(
                    old(self).instances@,
                    self.instances@,
                    self.ledger(),
                    place as int,
                );
            }
        }
        Ok(())
    }

    /// Removes the browser session of the instance `instance_name` and hands
    /// it out.
    ///
    /// Fails, and changes nothing, where no instance has that name.
    pub fn remove_browser(&mut self, instance_name: &str) -> (r: Result<
        Option<BrowserSession>,
        LedgerError,
    >)
        ensures
            match r {
                Ok(session) => {
                    let i = old(self).index_of(instance_name@);
                    &&& i < old(self).instances.len()
                    &&& session == old(self).instances@[i].active_browser
                    &&& final(self).instances@.len() == old(self).instances@.len()
                    &&& forall|j: int|
                        0 <= j < old(self).instances@.len() && j != i ==> final(self).instances@[j]
                            == old(self).instances@[j]
                    &&& same_but_browser(old(self).instances@[i], final(self).instances@[i])
                    &&& final(self).instances@[i].active_browser is None
                    &&& final(self).port_allocations == old(self).port_allocations
                    &&& final(self).version == old(self).version
                },
                Err(LedgerError::InstanceNotFound(name)) => {
                    &&& old(self).index_of(instance_name@) == old(self).instances.len()
                    &&& name@ == instance_name@
                    &&& *final(self) == *old(self)
                },
                Err(_) => false,
            },
            old(self).consistent() ==> final(self).consistent(),
    {
        let place = match self.find_index(instance_name) {
            Some(place) => place,
            None => {
                return Err(LedgerError::InstanceNotFound(String::from_str(instance_name)));
            },
        };
        let mut session: Option<BrowserSession> = None;
        std::mem::swap(&mut self.instances[place].active_browser, &mut session);
        proof {
            if old(self).consistent() {
                lemma_agree_same_ports(
                    old(self).instances@,
                    self.instances@,
                    self.ledger(),
                    place as int,
                );
            }
        }
        Ok(session)
    }
}

/// Ledger and instances still agree after instance `place` has changed
/// without a change to its name or to the ports it occupies.
pub proof fn lemma_agree_same_ports(
    before: Seq<Instance>,
    after: Seq<Instance>,
    ledger: Map<u16, Seq<char>>,
    place: int,
)
    requires
        agree(before, ledger),
        0 <= place < before.len(),
        after.len() == before.len(),
        forall|j: int| 0 <= j < before.len() && j != place ==> after[j] == before[j],
        after[place].name == before[place].name,
        after[place].active_forwards == before[place].active_forwards,
        after[place].active_proxy == before[place].active_proxy,
    ensures
        agree(after, ledger),
{
    lemma_names_kept(before, after, place);
    assert forall|p: u16| #[trigger] ledger.contains_key(p) implies held_by(
        after,
        ledger[p],
        p,
    ) by {
        let i = choose|i: int|
            0 <= i < before.len() && (#[trigger] before[i]).name@ == ledger[p] && holds(
                before[i],
                p,
            );
        if i == place {
            assert(forward_on(after[place], p) == forward_on(before[place], p));
            assert(holds(after[place], p));
        } else {
            assert(after[i] == before[i]);
        }
    }
    assert forall|i: int, p: u16|
        0 <= i < after.len() && #[trigger] holds(after[i], p) implies ledger.contains_key(p)
            && ledger[p] == after[i].name@ by {
        if i == place {
            assert(forward_on(after[place], p) == forward_on(before[place], p));
            assert(holds(before[place], p));
        } else {
            assert(after[i] == before[i]);
            assert(holds(before[i], p));
        }
    }
}

/// An instance with one forward less occupies no new port, and gives up at
/// most the port of that forward.
pub proof fn lemma_holds_after_remove(a: Instance, b: Instance, at: int)
    requires
        0 <= at < a.active_forwards@.len(),
        b.active_forwards@ == a.active_forwards@.remove(at),
        b.active_proxy == a.active_proxy,
    ensures
        forall|p: u16| holds(b, p) ==> holds(a, p),
        forall|p: u16|
            holds(a, p) && !holds(b, p) ==> set![a.active_forwards@[at].local_port].contains(p),
{
    assert forall|p: u16| holds(b, p) implies holds(a, p) by {
        if forward_on(b, p) {
            let k = choose|k: int|
                0 <= k < b.active_forwards@.len() && (#[trigger] b.active_forwards@[k]).local_port
                    == p;
            if k < at {
                assert(a.active_forwards@[k].local_port == p);
            } else {
                assert(a.active_forwards@[k + 1].local_port == p);
            }
        }
    }
    assert forall|p: u16| holds(a, p) && !holds(b, p) implies set![
        a.active_forwards@[at].local_port,
    ].contains(p) by {
        let k = choose|k: int|
            0 <= k < a.active_forwards@.len() && (#[trigger] a.active_forwards@[k]).local_port == p;
        if k < at {
            assert(b.active_forwards@[k].local_port == p);
        } else if k > at {
            assert(b.active_forwards@[k - 1].local_port == p);
        }
    }
}

/// The first port of the range that proxies are given from.
pub const PROXY_PORT_START: u16 = 1080;

/// The last port of the range that proxies are given from.
pub const PROXY_PORT_END: u16 = 1099;

/// The lowest port of the proxy range that the ledger of `state` does not
/// hold. Fails where it holds them all.
pub fn find_available_port(state: &StateV2) -> (r: Result<u16, LedgerError>)
    ensures
        match r {
            Ok(port) => {
                &&& PROXY_PORT_START <= port <= PROXY_PORT_END
                &&& !state.ledger().contains_key(port)
                &&& forall|q: u16| PROXY_PORT_START <= q < port ==> state.ledger().contains_key(q)
            },
            Err(e) => e is Exhausted && forall|q: u16|
                PROXY_PORT_START <= q <= PROXY_PORT_END ==> state.ledger().contains_key(q),
        },
{
    let mut port: u16 = PROXY_PORT_START;
    while port <= PROXY_PORT_END
        invariant
            PROXY_PORT_START <= port <= PROXY_PORT_END + 1,
            forall|q: u16| PROXY_PORT_START <= q < port ==> state.ledger().contains_key(q),
        decreases PROXY_PORT_END + 1 - port,
    {
        if !state.port_allocations.contains_key(&port) {
            return Ok(port);
        }
        port += 1;
    }
    Err(LedgerError::Exhausted)
}

/// The local port for a new proxy: the port asked for, where one is asked
/// for and the ledger does not hold it; without a wish, the lowest free port
/// of the proxy range.
pub fn select_port(state: &StateV2, requested: Option<u16>) -> (r: Result<u16, LedgerError>)
    ensures
        match r {
            Ok(port) => {
                &&& !state.ledger().contains_key(port)
                &&& match requested {
                    Some(wish) => port == wish,
                    None => PROXY_PORT_START <= port <= PROXY_PORT_END && forall|q: u16|
                        PROXY_PORT_START <= q < port ==> state.ledger().contains_key(q),
                }
            },
            Err(LedgerError::Conflict { port, owner }) => {
                &&& requested == Some(port)
                &&& state.ledger().contains_key(port)
                &&& state.ledger()[port] == owner@
            },
            Err(LedgerError::Exhausted) => requested is None && forall|q: u16|
                PROXY_PORT_START <= q <= PROXY_PORT_END ==> state.ledger().contains_key(q),
            Err(LedgerError::InstanceNotFound(_)) => false,
        },
{
    match requested {
        Some(wish) => match state.port_owner(wish) {
            Some(owner) => Err(LedgerError::Conflict { port: wish, owner: owner.clone() }),
            None => Ok(wish),
        },
        None => find_available_port(state),
    }
}

/// `instance` is what the worktree `worktree` of the first layout becomes:
/// the same name, path and branch, the machine called after the name, and
/// nothing running.
pub open spec fn migrated(worktree: WorktreeState, instance: Instance) -> bool {
    &&& instance.name@ == worktree.name@
    &&& instance.path@ == worktree.path@
    &&& instance.branch@ == worktree.branch@
    &&& instance.lima_instance@ == machine_name(worktree.name@)
    &&& instance.active_forwards@.len() == 0
    &&& instance.active_proxy is None
    &&& instance.active_browser is None
}

/// Brings a state of the first layout into the current one: every worktree
/// becomes an instance, and the ledger starts empty. The offsets of the
/// first layout are dropped.
pub fn migrate_v1_to_v2(v1: StateV1) -> (r: StateV2)
    ensures
        r.version == 2,
        r.instances@.len() == v1.worktrees@.len(),
        forall|i: int|
            0 <= i < v1.worktrees@.len() ==> migrated(v1.worktrees@[i], #[trigger] r.instances@[i]),
        r.ledger() == Map::<u16, Seq<char>>::empty(),
        distinct_names(r.instances@) ==> r.consistent(),
{
    let mut instances: Vec<Instance> = Vec::new();
    let mut i: usize = 0;
    while i < v1.worktrees.len()
        invariant
            0 <= i <= v1.worktrees.len(),
            instances@.len() == i,
            forall|j: int| 0 <= j < i ==> migrated(v1.worktrees@[j], #[trigger] instances@[j]),
        decreases v1.worktrees.len() - i,
    {
        let worktree = &v1.worktrees[i];
        instances.push(
            Instance {
                name: worktree.name.clone(),
                path: worktree.path.clone(),
                branch: worktree.branch.clone(),
                lima_instance: instance_name(worktree.name.as_str()),
                active_forwards: Vec::new(),
                active_proxy: None,
                active_browser: None,
            },
        );
        i += 1;
    }
    let r = StateV2 { version: 2, instances, port_allocations: HashMap::new() };
    proof {
        assert(r.ledger() =~= Map::<u16, Seq<char>>::empty());
        assert forall|j: int, p: u16| 0 <= j < r.instances@.len() implies !#[trigger] holds(
            r.instances@[j],
            p,
        ) by {
            assert(migrated(v1.worktrees@[j], r.instances@[j]));
        }
    }
    r
}

impl StateV2 {
    /// Removes the instances called `name`, and from the ledger every port
    /// that they occupy.
    pub fn remove_instance(&mut self, name: &str)
        ensures
            final(self).instances@ == without_name(old(self).instances@, name@),
            final(self).ledger() == old(self).ledger().remove_keys(
                Set::new(|p: u16| held_by(old(self).instances@, name@, p)),
            ),
            final(self).version == old(self).version,
            old(self).consistent() ==> final(self).consistent(),
    {
        let ghost all = self.instances@;
        let ghost ledger = self.ledger();
        let mut i: usize = 0;
        proof {
            assert(self.ledger() =~= ledger.remove_keys(
                Set::new(|p: u16| held_by(all.take(0), name@, p)),
            ));
        }
        while i < self.instances.len()
            invariant
                0 <= i <= self.instances.len(),
                self.instances@ == all,
                self.version == old(self).version,
                self.ledger() == ledger.remove_keys(
                    Set::new(|p: u16| held_by(all.take(i as int), name@, p)),
                ),
            decreases self.instances.len() - i,
        {
            let ghost done = Set::new(|p: u16| held_by(all.take(i as int), name@, p));
            let ghost next = Set::new(|p: u16| held_by(all.take(i + 1), name@, p));
            let ghost here = all[i as int];
            proof {
                assert forall|p: u16| next.contains(p) <==> done.contains(p) || (here.name@
                    == name@ && holds(here, p)) by {
                    if done.contains(p) {
                        let j = choose|j: int|
                            0 <= j < all.take(i as int).len() && (#[trigger] all.take(
                                i as int,
                            )[j]).name@ == name@ && holds(all.take(i as int)[j], p);
                        assert(all.take(i + 1)[j] == all.take(i as int)[j]);
                    }
                    if here.name@ == name@ && holds(here, p) {
                        assert(all.take(i + 1)[i as int] == here);
                    }
                    if next.contains(p) {
                        let j = choose|j: int|
                            0 <= j < all.take(i + 1).len() && (#[trigger] all.take(i + 1)[j]).name@
                                == name@ && holds(all.take(i + 1)[j], p);
                        if j < i {
                            assert(all.take(i as int)[j] == all.take(i + 1)[j]);
                        }
                    }
                }
            }
            if same_text(self.instances[i].name.as_str(), name) {
                let mut k: usize = 0;
                proof {
                    assert(self.ledger() =~= ledger.remove_keys(
                        Set::new(
                            |p: u16|
                                done.contains(p) || port_among(
                                    here.active_forwards@.take(0),
                                    p,
                                ),
                        ),
                    ));
                }
                while k < self.instances[i].active_forwards.len()
                    invariant
                        0 <= k <= here.active_forwards@.len(),
                        i < self.instances.len(),
                        self.instances@ == all,
                        here == all[i as int],
                        self.version == old(self).version,
                        self.ledger() == ledger.remove_keys(
                            Set::new(
                                |p: u16|
                                    done.contains(p) || port_among(
                                        here.active_forwards@.take(k as int),
                                        p,
                                    ),
                            ),
                        ),
                    decreases here.active_forwards@.len() - k,
                {
                    let port = self.instances[i].active_forwards[k].local_port;
                    let ghost prior = self.ledger();
                    self.port_allocations.remove(&port);
                    proof {
                        assert(self.ledger() =~= prior.remove(port));
                        let before = here.active_forwards@.take(k as int);
                        let after = here.active_forwards@.take(k + 1);
                        assert forall|p: u16| port_among(after, p) <==> port_among(before, p) || p
                            == port by {
                            if port_among(before, p) {
                                let j = choose|j: int|
                                    0 <= j < before.len() && (#[trigger] before[j]).local_port == p;
                                assert(after[j].local_port == p);
                            }
                            if p == port {
                                assert(after[k as int].local_port == p);
                            }
                            if port_among(after, p) {
                                let j = choose|j: int|
                                    0 <= j < after.len() && (#[trigger] after[j]).local_port == p;
                                if j < k {
                                    assert(before[j].local_port == p);
                                }
                            }
                        }
                        assert(self.ledger() =~= ledger.remove_keys(
                            Set::new(|p: u16| done.contains(p) || port_among(after, p)),
                        ));
                    }
                    k += 1;
                }
                proof {
                    assert(here.active_forwards@.take(k as int) =~= here.active_forwards@);
                }
                let ghost prior = self.ledger();
                match self.instances[i].active_proxy {
                    Some(proxy) => {
                        self.port_allocations.remove(&proxy.local_port);
                        proof {
                            assert(self.ledger() =~= prior.remove(proxy.local_port));
                        }
                    },
                    None => {},
                }
                proof {
                    assert forall|p: u16| next.contains(p) <==> done.contains(p) || forward_on(
                        here,
                        p,
                    ) || proxy_on(here, p) by {}
                    assert(self.ledger() =~= ledger.remove_keys(next));
                }
            } else {
                proof {
                    assert(next =~= done);
                }
            }
            i += 1;
        }
        proof {
            assert(all.take(all.len() as int) =~= all);
        }
        let ghost mut seen: int = 0;
        let mut j: usize = 0;
        proof {
            assert(all.skip(0) =~= all);
            assert(self.instances@ =~= without_name(all.take(0), name@) + all.skip(0));
        }
        while j < self.instances.len()
            invariant
                0 <= seen <= all.len(),
                j == without_name(all.take(seen), name@).len(),
                self.instances@ == without_name(all.take(seen), name@) + all.skip(seen),
                self.version == old(self).version,
                self.ledger() == ledger.remove_keys(Set::new(|p: u16| held_by(all, name@, p))),
            decreases all.len() - seen,
        {
            proof {
                assert(self.instances@[j as int] == all.skip(seen)[0]);
                assert(all.take(seen + 1).drop_last() =~= all.take(seen));
                assert(all.take(seen + 1).last() == all[seen]);
            }
            if same_text(self.instances[j].name.as_str(), name) {
                self.instances.remove(j);
                proof {
                    assert(self.instances@ =~= without_name(all.take(seen + 1), name@) + all.skip(
                        seen + 1,
                    ));
                }
            } else {
                proof {
                    assert(self.instances@ =~= without_name(all.take(seen + 1), name@) + all.skip(
                        seen + 1,
                    ));
                }
                j += 1;
            }
            proof {
                seen = seen + 1;
            }
        }
        proof {
            assert(all.skip(seen).len() == 0);
            assert(seen == all.len());
            assert(all.take(seen) =~= all);
            assert(self.instances@ =~= without_name(all, name@));
            if old(self).consistent() {
                lemma_agree_after_leave(all, ledger, name@);
            }
        }
    }
}

/// The forwards that the process `pid` does not keep open, in order.
pub open spec fn without_pid(forwards: Seq<PortForward>, pid: u32) -> Seq<PortForward>
    decreases forwards.len(),
{
    if forwards.len() == 0 {
        Seq::empty()
    } else if forwards.last().pid == pid {
        without_pid(forwards.drop_last(), pid)
    } else {
        without_pid(forwards.drop_last(), pid).push(forwards.last())
    }
}

/// Every forward that `without_pid` keeps was there before.
pub proof fn lemma_without_pid(forwards: Seq<PortForward>, pid: u32)
    ensures
        forall|p: u16| port_among(without_pid(forwards, pid), p) ==> port_among(forwards, p),
    decreases forwards.len(),
{
    if forwards.len() > 0 {
        let front = forwards.drop_last();
        let kept = without_pid(forwards, pid);
        lemma_without_pid(front, pid);
        assert forall|p: u16| port_among(kept, p) implies port_among(forwards, p) by {
            let k = choose|k: int| 0 <= k < kept.len() && (#[trigger] kept[k]).local_port == p;
            if k < without_pid(front, pid).len() {
                assert(without_pid(front, pid)[k].local_port == p);
                assert(port_among(without_pid(front, pid), p));
                assert(port_among(front, p));
                let j = choose|j: int|
                    0 <= j < front.len() && (#[trigger] front[j]).local_port == p;
                assert(forwards[j].local_port == p);
            } else {
                assert(forwards[forwards.len() - 1].local_port == p);
            }
        }
    }
}

/// The proxy, unless the process `pid` keeps it open.
pub open spec fn proxy_without(proxy: Option<ProxyForward>, pid: u32) -> Option<ProxyForward> {
    if proxy is Some && proxy->Some_0.pid == pid {
        None
    } else {
        proxy
    }
}

/// The browser session, unless the process `pid` is its browser.
pub open spec fn session_without(session: Option<BrowserSession>, pid: u32) -> Option<
    BrowserSession,
> {
    if session is Some && session->Some_0.pid == pid {
        None
    } else {
        session
    }
}

/// The ports that an instance occupies.
pub open spec fn ports_of(instance: Instance) -> Set<u16> {
    Set::new(|p: u16| holds(instance, p))
}

impl StateV2 {
    /// Forgets what the process `pid` did for the instance `instance_name`,
    /// once the process is known to be gone: its forwards, its proxy and its
    /// browser session leave the instance, and the ports that the instance
    /// no longer occupies leave the ledger.
    ///
    /// Fails, and changes nothing, where no instance has that name.
    pub fn forget_process(&mut self, instance_name: &str, pid: u32) -> (r: Result<
        (),
        LedgerError,
    >)
        ensures
            match r {
                Ok(_) => {
                    let i = old(self).index_of(instance_name@);
                    let before = old(self).instances@[i];
                    let after = final(self).instances@[i];
                    &&& i < old(self).instances.len()
                    &&& final(self).instances@.len() == old(self).instances@.len()
                    &&& forall|j: int|
                        0 <= j < old(self).instances@.len() && j != i ==> final(self).instances@[j]
                            == old(self).instances@[j]
                    &&& after.name == before.name
                    &&& after.path == before.path
                    &&& after.branch == before.branch
                    &&& after.lima_instance == before.lima_instance
                    &&& after.active_forwards@ == without_pid(before.active_forwards@, pid)
                    &&& after.active_proxy == proxy_without(before.active_proxy, pid)
                    &&& after.active_browser == session_without(before.active_browser, pid)
                    &&& final(self).ledger() == released(
                        after,
                        old(self).ledger(),
                        ports_of(before),
                    )
                    &&& final(self).version == old(self).version
                },
                Err(LedgerError::InstanceNotFound(name)) => {
                    &&& old(self).index_of(instance_name@) == old(self).instances.len()
                    &&& name@ == instance_name@
                    &&& *final(self) == *old(self)
                },
                Err(_) => false,
            },
            old(self).consistent() ==> final(self).consistent(),
    {
        let place = match self.find_index(instance_name) {
            Some(place) => place,
            None => {
                return Err(LedgerError::InstanceNotFound(String::from_str(instance_name)));
            },
        };
        let ghost before = self.instances@[place as int];
        let mut forwards: Vec<PortForward> = Vec::new();
        std::mem::swap(&mut self.instances[place].active_forwards, &mut forwards);
        let mut kept: Vec<PortForward> = Vec::new();
        let mut k: usize = 0;
        while k < forwards.len()
            invariant
                0 <= k <= forwards.len(),
                kept@ == without_pid(forwards@.take(k as int), pid),
            decreases forwards.len() - k,
        {
            proof {
                assert(forwards@.take(k + 1).drop_last() =~= forwards@.take(k as int));
                assert(forwards@.take(k + 1).last() == forwards@[k as int]);
            }
            if forwards[k].pid != pid {
                kept.push(forwards[k]);
            }
            k += 1;
        }
        proof {
            assert(forwards@.take(forwards.len() as int) =~= forwards@);
        }
        self.instances[place].active_forwards = kept;
        let proxy = self.instances[place].active_proxy;
        match proxy {
            Some(found) => {
                if found.pid == pid {
                    self.instances[place].active_proxy = None;
                }
            },
            None => {},
        }
        let mut session: Option<BrowserSession> = None;
        std::mem::swap(&mut self.instances[place].active_browser, &mut session);
        match session {
            Some(found) => {
                if found.pid != pid {
                    self.instances[place].active_browser = Some(found);
                }
            },
            None => {},
        }
        let ghost middle = self.instances@;
        let ghost after = middle[place as int];
        let mut j: usize = 0;
        proof {
            assert(self.ledger() =~= released(
                after,
                old(self).ledger(),
                forward_ports(forwards@.take(0)),
            ));
        }
        while j < forwards.len()
            invariant
                0 <= j <= forwards.len(),
                place < self.instances.len(),
                self.instances@ == middle,
                after == middle[place as int],
                self.version == old(self).version,
                self.ledger() == released(
                    after,
                    old(self).ledger(),
                    forward_ports(forwards@.take(j as int)),
                ),
            decreases forwards.len() - j,
        {
            let ghost sofar = forward_ports(forwards@.take(j as int));
            let port = forwards[j].local_port;
            self.release_port(place, port);
            proof {
                lemma_forward_ports_step(forwards@, j as int);
                let next = forward_ports(forwards@.take(j + 1));
                assert(self.ledger() =~= released(after, old(self).ledger(), next));
            }
            j += 1;
        }
        proof {
            assert(forwards@.take(forwards.len() as int) =~= forwards@);
        }
        match proxy {
            Some(found) => {
                self.release_port(place, found.local_port);
            },
            None => {},
        }
        proof {
            lemma_without_pid(before.active_forwards@, pid);
            assert forall|p: u16| holds(after, p) implies holds(before, p) by {}
            assert(self.ledger() =~= released(after, old(self).ledger(), ports_of(before))) by {
                assert forall|p: u16| ports_of(before).contains(p) <==> forward_ports(
                    forwards@,
                ).contains(p) || proxy_on(before, p) by {}
            }
            if old(self).consistent() {
                lemma_agree_after_release(
                    old(self).instances@,
                    middle,
                    old(self).ledger(),
                    place as int,
                    ports_of(before),
                );
            }
        }
        Ok(())
    }
}

/// What an instance had running when it gave everything up.
pub struct Released {
    pub forwards: Vec<PortForward>,
    pub proxy: Option<ProxyForward>,
    pub browser: Option<BrowserSession>,
}

impl StateV2 {
    /// Takes everything that runs for the instance `instance_name` out of
    /// the state in one step, and hands it out: its forwards, its proxy and
    /// its browser session leave the instance, and every port that stood in
    /// the ledger under its name for them leaves the ledger.
    ///
    /// Fails, and changes nothing, where no instance has that name.
    pub fn release_all(&mut self, instance_name: &str) -> (r: Result<Released, LedgerError>)
        ensures
            match r {
                Ok(released_records) => {
                    let i = old(self).index_of(instance_name@);
                    let before = old(self).instances@[i];
                    let after = final(self).instances@[i];
                    &&& i < old(self).instances.len()
                    &&& released_records.forwards@ == before.active_forwards@
                    &&& released_records.proxy == before.active_proxy
                    &&& released_records.browser == before.active_browser
                    &&& final(self).instances@.len() == old(self).instances@.len()
                    &&& forall|j: int|
                        0 <= j < old(self).instances@.len() && j != i ==> final(self).instances@[j]
                            == old(self).instances@[j]
                    &&& after.name == before.name
                    &&& after.path == before.path
                    &&& after.branch == before.branch
                    &&& after.lima_instance == before.lima_instance
                    &&& after.active_forwards@.len() == 0
                    &&& after.active_proxy is None
                    &&& after.active_browser is None
                    &&& final(self).ledger() == released(
                        after,
                        old(self).ledger(),
                        ports_of(before),
                    )
                    &&& final(self).version == old(self).version
                },
                Err(LedgerError::InstanceNotFound(name)) => {
                    &&& old(self).index_of(instance_name@) == old(self).instances.len()
                    &&& name@ == instance_name@
                    &&& *final(self) == *old(self)
                },
                Err(_) => false,
            },
            old(self).consistent() ==> final(self).consistent(),
    {
        let place = match self.find_index(instance_name) {
            Some(place) => place,
            None => {
                return Err(LedgerError::InstanceNotFound(String::from_str(instance_name)));
            },
        };
        let ghost before = self.instances@[place as int];
        let mut forwards: Vec<PortForward> = Vec::new();
        std::mem::swap(&mut self.instances[place].active_forwards, &mut forwards);
        let proxy = self.instances[place].active_proxy;
        self.instances[place].active_proxy = None;
        let mut browser: Option<BrowserSession> = None;
        std::mem::swap(&mut self.instances[place].active_browser, &mut browser);
        let ghost middle = self.instances@;
        let ghost after = middle[place as int];
        let mut j: usize = 0;
        proof {
            assert(self.ledger() =~= released(
                after,
                old(self).ledger(),
                forward_ports(forwards@.take(0)),
            ));
        }
        while j < forwards.len()
            invariant
                0 <= j <= forwards.len(),
                place < self.instances.len(),
                self.instances@ == middle,
                after == middle[place as int],
                self.version == old(self).version,
                self.ledger() == released(
                    after,
                    old(self).ledger(),
                    forward_ports(forwards@.take(j as int)),
                ),
            decreases forwards.len() - j,
        {
            let ghost sofar = forward_ports(forwards@.take(j as int));
            let port = forwards[j].local_port;
            self.release_port(place, port);
            proof {
                lemma_forward_ports_step(forwards@, j as int);
                let next = forward_ports(forwards@.take(j + 1));
                assert(self.ledger() =~= released(after, old(self).ledger(), next));
            }
            j += 1;
        }
        proof {
            assert(forwards@.take(forwards.len() as int) =~= forwards@);
        }
        match proxy {
            Some(found) => {
                self.release_port(place, found.local_port);
            },
            None => {},
        }
        proof {
            assert forall|p: u16| holds(after, p) implies holds(before, p) by {
                assert(!forward_on(after, p));
            }
            assert(self.ledger() =~= released(after, old(self).ledger(), ports_of(before))) by {
                assert forall|p: u16| ports_of(before).contains(p) <==> forward_ports(
                    forwards@,
                ).contains(p) || proxy_on(before, p) by {}
            }
            if old(self).consistent() {
                lemma_agree_after_release(
                    old(self).instances@,
                    middle,
                    old(self).ledger(),
                    place as int,
                    ports_of(before),
                );
            }
        }
        Ok(Released { forwards, proxy, browser })
    }
}

/// The ports of the first `j + 1` forwards are those of the first `j` and
/// the port of the next.
pub proof fn lemma_forward_ports_step(forwards: Seq<PortForward>, j: int)
    requires
        0 <= j < forwards.len(),
    ensures
        forall|p: u16|
            forward_ports(forwards.take(j + 1)).contains(p) <==> forward_ports(
                forwards.take(j),
            ).contains(p) || p == forwards[j].local_port,
{
    let sofar = forwards.take(j);
    let next = forwards.take(j + 1);
    assert forall|p: u16| forward_ports(next).contains(p) <==> forward_ports(sofar).contains(p)
        || p == forwards[j].local_port by {
        if forward_ports(sofar).contains(p) {
            let n = choose|n: int| 0 <= n < sofar.len() && (#[trigger] sofar[n]).local_port == p;
            assert(next[n].local_port == p);
        }
        if p == forwards[j].local_port {
            assert(next[j].local_port == p);
        }
        if forward_ports(next).contains(p) {
            let n = choose|n: int| 0 <= n < next.len() && (#[trigger] next[n]).local_port == p;
            if n < j {
                assert(sofar[n].local_port == p);
            }
        }
    }
}

/// In a consistent state the ledger and the instances say the same: the
/// owner that the ledger names for a port is an instance that occupies the
/// port, and the ledger names each instance as the owner of every port that
/// it occupies through a forward or through its proxy.
///
/// Every operation of `StateV2` keeps a consistent state consistent, so this
/// holds after any sequence of them on a state that began consistent; the
/// empty state is.
pub proof fn lemma_ledger_matches_instances(state: StateV2, port: u16, i: int)
    requires
        state.consistent(),
        0 <= i < state.instances@.len(),
    ensures
        state.ledger().contains_key(port) ==> held_by(
            state.instances@,
            state.ledger()[port],
            port,
        ),
        holds(state.instances@[i], port) ==> state.ledger().contains_key(port)
            && state.ledger()[port] == state.instances@[i].name@,
        state.ledger().contains_key(port) && state.ledger()[port] == state.instances@[i].name@
            ==> holds(state.instances@[i], port),
{
    if state.ledger().contains_key(port) && state.ledger()[port] == state.instances@[i].name@ {
        let k = choose|k: int|
            0 <= k < state.instances@.len() && (#[trigger] state.instances@[k]).name@
                == state.ledger()[port] && holds(state.instances@[k], port);
        assert(k == i);
    }
}

} // verus!
