use dune::aggregate::Dune;
use dune::endpoint::Endpoint;
use dune::infra::{Phynode, Phynodes};
use dune::interface::Interface as Port;
use dune::mpf::{
    link_name, Config, Controller, Direction, ExplicitInterface, Global, Interface, Machine,
    Namespace, SimpleInterface,
};
use dune::node::Node;
use dune::strmap::StrMap;

fn port(name: &str, idx: usize, peer: Option<(&str, &str)>) -> Port {
    let mut p = Port::default();
    p.name = name.to_string();
    p.idx = idx;
    p.peer = peer.map(|(n, i)| Endpoint { node: n.to_string(), interface: i.to_string() });
    p
}

fn node(host: Option<&str>, ports: Vec<Port>) -> Node {
    let mut interfaces = StrMap::new();
    for p in ports {
        interfaces.insert(p.name.clone(), p);
    }
    Node { phynode: host.map(|h| h.to_string()), interfaces: Some(interfaces), ..Node::default() }
}

fn topology() -> Dune {
    let mut nodes = StrMap::new();
    nodes.insert(
        "r1".to_string(),
        node(Some("h0"), vec![port("eth1", 1, Some(("r0", "eth0"))), port("lo", 0, None)]),
    );
    nodes.insert("r0".to_string(), node(Some("h0"), vec![port("eth0", 0, Some(("r1", "eth1")))]));
    nodes.insert("r2".to_string(), node(Some("h1"), vec![]));
    nodes.insert("r3".to_string(), node(None, vec![port("eth0", 0, Some(("r1", "eth1")))]));
    let mut hosts = StrMap::new();
    for h in ["h0", "h1", "h2"] {
        hosts.insert(h.to_string(), Phynode { cores: vec![], binds: None, _additional_fields: None });
    }
    Dune { nodes, infra: Phynodes { nodes: hosts, _additional_fields: None }, allocated: true }
}

fn end(link: &str, direction: Direction, name: &str) -> Interface {
    Interface::ExplicitInterface(ExplicitInterface {
        link: link.to_string(),
        direction,
        name: name.to_string(),
    })
}

fn machine(user: &str) -> Machine {
    Machine {
        hostname: None,
        user: user.to_string(),
        role: "server".to_string(),
        interfaces: vec![Interface::SimpleInterface(SimpleInterface {
            name: "eno1".to_string(),
            ip: "192.0.2.1".to_string(),
        })],
        namespaces: None,
    }
}

fn config() -> Config {
    Config {
        global: Global { python_path: "/usr/bin/python3".to_string() },
        machines: None,
        controller: Controller {
            ports: "5000".to_string(),
            control_ip: None,
            hostname: "ctl".to_string(),
            user: "root".to_string(),
            role: "controller".to_string(),
            interfaces: vec![],
        },
    }
}

#[test]
fn a_link_is_named_after_its_two_ends() {
    let peer = Endpoint { node: "r1".to_string(), interface: "eth1".to_string() };
    assert_eq!(link_name("r0", "eth0", &peer), "r0:eth0-r1:eth1");
}

#[test]
fn a_host_has_the_namespaces_of_the_nodes_placed_on_it() {
    let dune = topology();
    assert_eq!(
        dune.namespaces_on("h0"),
        Some(vec![
            Namespace {
                role: "r0".to_string(),
                namespace: "r0".to_string(),
                interfaces: vec![end("r0:eth0-r1:eth1", Direction::Forward, "eth0")],
            },
            Namespace {
                role: "r1".to_string(),
                namespace: "r1".to_string(),
                interfaces: vec![end("r1:eth1-r0:eth0", Direction::Backward, "eth1")],
            },
        ])
    );
    assert_eq!(
        dune.namespaces_on("h1"),
        Some(vec![Namespace { role: "r2".to_string(), namespace: "r2".to_string(), interfaces: vec![] }])
    );
    assert_eq!(dune.namespaces_on("h2"), None);
}

#[test]
fn every_host_becomes_a_machine() {
    let dune = topology();
    let mut bases = StrMap::new();
    bases.insert("h0".to_string(), machine("alice"));
    bases.insert("h1".to_string(), machine("bob"));
    bases.insert("h2".to_string(), machine("carol"));
    let mut cfg = config();
    assert_eq!(cfg.place_machines(&bases, &dune), Ok(()));
    let machines = cfg.machines.as_ref().unwrap();
    let users: Vec<&str> = machines.iter().map(|m| m.user.as_str()).collect();
    assert_eq!(users, vec!["alice", "bob", "carol"]);
    assert_eq!(machines[0].hostname.as_deref(), Some("h0"));
    assert_eq!(machines[0].namespaces, dune.namespaces_on("h0"));
    assert_eq!(machines[0].interfaces, machine("alice").interfaces);
    assert_eq!(machines[2].namespaces, None);
    assert_eq!(cfg.global, config().global);
    assert_eq!(cfg.controller, config().controller);
}

#[test]
fn a_host_without_a_machine_fails_the_configuration() {
    let dune = topology();
    let mut bases = StrMap::new();
    bases.insert("h0".to_string(), machine("alice"));
    bases.insert("h2".to_string(), machine("carol"));
    let mut cfg = config();
    assert_eq!(cfg.place_machines(&bases, &dune), Err("h1".to_string()));
    assert_eq!(cfg, config());
}
