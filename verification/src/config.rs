//! Operator-side configuration model: a list of known nodes, each with an
//! address and an optional per-target credential, plus the rules for picking
//! the configuration file path and for merging newly discovered daemons into
//! the node list.

use vstd::prelude::*;

verus! {

/// One configured node: an optional display name, the target address the
/// dispatcher uses, and an optional credential sent as a header on requests
/// to exactly this address.
pub struct NodeConfig {
    pub name: Option<String>,
    pub address: String,
    pub api_key: Option<String>,
}

/// Abstract value of a `NodeConfig`.
pub ghost struct NodeView {
    pub name: Option<Seq<char>>,
    pub address: Seq<char>,
    pub api_key: Option<Seq<char>>,
}

impl View for NodeConfig {
    type V = NodeView;

    open spec fn view(&self) -> NodeView {
        NodeView {
            name: match self.name {
                Some(n) => Some(n@),
                None => None,
            },
            address: self.address@,
            api_key: match self.api_key {
                Some(k) => Some(k@),
                None => None,
            },
        }
    }
}

/// The operator's configuration: the list of known nodes.
pub struct Config {
    pub nodes: Vec<NodeConfig>,
}

impl View for Config {
    type V = Seq<NodeView>;

    open spec fn view(&self) -> Seq<NodeView> {
        self.nodes@.map_values(|n: NodeConfig| n@)
    }
}

/// The default configuration file name, used when no explicit path is given.
pub open spec fn spec_default_config_path() -> Seq<char> {
    ".cobbler.yaml"@
}

/// Pick the configuration file path. An explicit path is taken as given and
/// treated as present; otherwise the default name is used, with presence as
/// probed by the caller.
pub fn resolve_config_path(explicit_path: Option<String>, default_exists: bool) -> (r: (
    String,
    bool,
))
    ensures
        match explicit_path {
            Some(p) => r.0@ == p@ && r.1,
            None => r.0@ == spec_default_config_path() && r.1 == default_exists,
        },
{
    match explicit_path {
        Some(p) => (p, true),
        None => {
            let d = String::from_str(".cobbler.yaml");
            (d, default_exists)
        },
    }
}

/// Whether some node in `nodes` has address `addr`.
pub open spec fn has_address(nodes: Seq<NodeView>, addr: Seq<char>) -> bool {
    exists|i: int| 0 <= i < nodes.len() && nodes[i].address == addr
}

/// A node as created for a newly discovered address: no name, no credential.
pub open spec fn discovered_node(addr: Seq<char>) -> NodeView {
    NodeView { name: None, address: addr, api_key: None }
}

/// The node list after merging a list of discovered addresses, in order:
/// each address not already present (in the configuration or earlier in the
/// list) is appended as a fresh node.
pub open spec fn spec_merge(nodes: Seq<NodeView>, addrs: Seq<Seq<char>>) -> Seq<NodeView>
    decreases addrs.len(),
{
    if addrs.len() == 0 {
        nodes
    } else {
        let next = if has_address(nodes, addrs[0]) {
            nodes
        } else {
            nodes.push(discovered_node(addrs[0]))
        };
        spec_merge(next, addrs.drop_first())
    }
}

/// Whether the node list already has a node with the given address,
/// executably.
fn contains_address(nodes: &Vec<NodeConfig>, addr: &String) -> (b: bool)
    ensures
        b == has_address(nodes@.map_values(|n: NodeConfig| n@), addr@),
{
    let ghost views = nodes@.map_values(|n: NodeConfig| n@);
    let mut i: usize = 0;
    while i < nodes.len()
        invariant
            i <= nodes@.len(),
            views == nodes@.map_values(|n: NodeConfig| n@),
            forall|j: int| 0 <= j < i ==> #[trigger] views[j].address != addr@,
        decreases nodes@.len() - i,
    {
        proof {
            assert(views[i as int] == nodes@[i as int]@);
        }
        if nodes[i].address.eq(addr) {
            assert(views[i as int].address == addr@);
            return true;
        }
        i = i + 1;
    }
    false
}

/// Merge discovered daemon addresses into the configuration: each address
/// not already known is appended as a fresh node. Returns whether anything
/// was added.
pub fn merge_discovered(config: &mut Config, discovered: &Vec<String>) -> (updated: bool)
    ensures
        final(config)@ == spec_merge(old(config)@, discovered@.map_values(|s: String| s@)),
        updated == (final(config)@.len() != old(config)@.len()),
{
    let ghost addrs = discovered@.map_values(|s: String| s@);
    proof {
        assert(addrs.subrange(0, addrs.len() as int) =~= addrs);
    }
    let mut updated = false;
    let mut i: usize = 0;
    while i < discovered.len()
        invariant
            i <= discovered@.len(),
            addrs == discovered@.map_values(|s: String| s@),
            spec_merge(config@, addrs.subrange(i as int, addrs.len() as int)) == spec_merge(
                old(config)@,
                addrs,
            ),
            config@.len() >= old(config)@.len(),
            updated == (config@.len() != old(config)@.len()),
        decreases discovered@.len() - i,
    {
        proof {
            assert(addrs.subrange(i as int, addrs.len() as int).drop_first() =~= addrs.subrange(
                i + 1,
                addrs.len() as int,
            ));
            assert(addrs.subrange(i as int, addrs.len() as int)[0] == addrs[i as int]);
            assert(addrs[i as int] == discovered@[i as int]@);
        }
        if !contains_address(&config.nodes, &discovered[i]) {
            let node = NodeConfig {
                name: None,
                address: discovered[i].clone(),
                api_key: None,
            };
            let ghost before = config@;
            config.nodes.push(node);
            proof {
                assert(config@ =~= before.push(discovered_node(addrs[i as int])));
            }
            updated = true;
        }
        i = i + 1;
    }
    proof {
        assert(addrs.subrange(addrs.len() as int, addrs.len() as int) =~= Seq::<
            Seq<char>,
        >::empty());
    }
    updated
}

/// The credential configured for `addr`: the `api_key` of the first node
/// whose address is exactly `addr`, if any.
pub open spec fn spec_api_key(nodes: Seq<NodeView>, addr: Seq<char>) -> Option<Seq<char>>
    decreases nodes.len(),
{
    if nodes.len() == 0 {
        None
    } else if nodes[0].address == addr {
        nodes[0].api_key
    } else {
        spec_api_key(nodes.drop_first(), addr)
    }
}

/// Look up the credential for a target string, by exact match on the node
/// address.
pub fn api_key_for(config: &Config, target: &String) -> (r: Option<String>)
    ensures
        match r {
            Some(k) => spec_api_key(config@, target@) == Some(k@),
            None => spec_api_key(config@, target@) == None::<Seq<char>>,
        },
{
    let ghost views = config@;
    proof {
        assert(views.subrange(0, views.len() as int) =~= views);
    }
    let mut i: usize = 0;
    while i < config.nodes.len()
        invariant
            i <= config.nodes@.len(),
            views == config@,
            spec_api_key(views.subrange(i as int, views.len() as int), target@) == spec_api_key(
                views,
                target@,
            ),
        decreases config.nodes@.len() - i,
    {
        proof {
            assert(views.subrange(i as int, views.len() as int).drop_first() =~= views.subrange(
                i + 1,
                views.len() as int,
            ));
            assert(views.subrange(i as int, views.len() as int)[0] == views[i as int]);
            assert(views[i as int] == config.nodes@[i as int]@);
        }
        if config.nodes[i].address.eq(target) {
            assert(views[i as int].address == target@);
            assert(spec_api_key(views, target@) == views[i as int].api_key);
            return match &config.nodes[i].api_key {
                Some(k) => Some(k.clone()),
                None => None,
            };
        }
        i = i + 1;
    }
    proof {
        assert(views.subrange(views.len() as int, views.len() as int) =~= Seq::<
            NodeView,
        >::empty());
    }
    None
}

} // verus!
