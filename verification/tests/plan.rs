use dune::aggregate::Dune;
use dune::endpoint::Endpoint;
use dune::infra::Phynodes;
use dune::interface::{Interface, IpNet, VethRequest};
use dune::node::Node;
use dune::pinned::Pinned;
use dune::plan::{launch_from, Launch};
use dune::strmap::StrMap;

fn words(list: &[&str]) -> Vec<String> {
    list.iter().map(|w| w.to_string()).collect()
}

fn eth0() -> Interface {
    let mut i = Interface::default();
    i.name = "eth0".to_string();
    i.peer = Some(Endpoint { node: "r1".to_string(), interface: "eth9".to_string() });
    i.mtu = Some(9000);
    i.mac = Some(vec![0x02, 0x0a, 0xff]);
    i.latency = Some("5ms".to_string());
    i.ifindex = 7;
    i
}

fn router() -> Node {
    let mut interfaces = StrMap::new();
    interfaces.insert("eth0".to_string(), eth0());
    let mut lo = Interface::default();
    lo.name = "lo".to_string();
    interfaces.insert("lo".to_string(), lo);
    let mut addrs = StrMap::new();
    addrs.insert("lo".to_string(), vec![IpNet { addr: "fc00::1".to_string(), plen: 128 }]);
    let mut sysctls = StrMap::new();
    sysctls.insert("net.ipv6.conf.all.forwarding".to_string(), "1".to_string());
    sysctls.insert("net.ipv4.ip_forward".to_string(), "1".to_string());
    let mut cores = StrMap::new();
    cores.insert("core_0".to_string(), Some(5));
    cores.insert("core_1".to_string(), Some(4));
    Node {
        name: Some("r0".to_string()),
        phynode: Some("h0".to_string()),
        interfaces: Some(interfaces),
        addrs: Some(addrs),
        sysctls: Some(sysctls),
        execs: Some(words(&["ip l", "true"])),
        pinned: Some(vec![
            Pinned::new("  bird  -f\t-c x ".to_string(), None, None, None, Some(words(&["echo up"]))),
            Pinned::new("   ".to_string(), None, None, None, None),
        ]),
        cores: Some(cores),
        ..Node::default()
    }
}

#[test]
fn an_interface_is_wired_addressed_and_brought_up() {
    let addrs = vec![
        IpNet { addr: "10.0.0.1".to_string(), plen: 24 },
        IpNet { addr: "fc00::1".to_string(), plen: 64 },
    ];
    let plan = eth0().setup("r0", Some(&addrs));
    assert_eq!(
        plan.veth,
        Some(VethRequest {
            name: "eth0".to_string(),
            peer_name: "eth9".to_string(),
            netns: "r0".to_string(),
            peer_netns: "r1".to_string(),
            mtu: Some(9000),
            mac: Some(vec![0x02, 0x0a, 0xff]),
            ifindex: 7,
        })
    );
    assert_eq!(
        plan.addresses,
        vec![
            words(&["ip", "-n", "r0", "a", "add", "10.0.0.1/24", "dev", "eth0"]),
            words(&["ip", "-n", "r0", "a", "add", "fc00::1/64", "dev", "eth0"]),
        ]
    );
    assert_eq!(
        plan.link,
        vec![
            words(&["ip", "-n", "r0", "l", "set", "dev", "eth0", "address", "2:a:ff"]),
            words(&["ip", "-n", "r0", "l", "set", "dev", "eth0", "up"]),
            words(&[
                "ip", "netns", "exec", "r0", "tc", "qdisc", "add", "dev", "eth0", "root", "netem",
                "delay", "5ms",
            ]),
        ]
    );
}

#[test]
fn a_bare_interface_is_only_brought_up() {
    let mut lo = Interface::default();
    lo.name = "lo".to_string();
    let plan = lo.setup("r0", None);
    assert_eq!(plan.veth, None);
    assert!(plan.addresses.is_empty());
    assert_eq!(plan.link, vec![words(&["ip", "-n", "r0", "l", "set", "dev", "lo", "up"])]);
}

#[test]
fn a_node_is_set_up_loopback_first() {
    let plan = router().setup();
    assert!(plan.files.is_empty());
    let ns = plan.namespace.unwrap();
    assert_eq!(ns.name, "r0");
    assert_eq!(ns.interfaces.len(), 2);
    assert_eq!(ns.interfaces[0].veth, None);
    assert_eq!(
        ns.interfaces[0].addresses,
        vec![words(&["ip", "-n", "r0", "a", "add", "fc00::1/128", "dev", "lo"])]
    );
    assert_eq!(ns.interfaces[1].veth.as_ref().unwrap().name, "eth0");
    assert!(ns.interfaces[1].addresses.is_empty());
    assert_eq!(
        ns.sysctls,
        vec![
            words(&["sysctl", "-w", "net.ipv4.ip_forward=1"]),
            words(&["sysctl", "-w", "net.ipv6.conf.all.forwarding=1"]),
        ]
    );
    assert_eq!(ns.execs, vec![words(&["bash", "-c", "ip l"]), words(&["bash", "-c", "true"])]);
    assert_eq!(ns.pinned.len(), 2);
    assert_eq!(ns.pinned[0].launch, Some(Launch { core: 5, argv: words(&["bird", "-f", "-c", "x"]) }));
    assert_eq!(ns.pinned[0].post_up, vec![words(&["bash", "-c", "echo up"])]);
    // a command line without a word is not launched
    assert_eq!(ns.pinned[1].launch, None);
    assert!(ns.pinned[1].post_up.is_empty());
}

#[test]
fn a_process_without_a_core_is_not_launched() {
    let mut node = router();
    let mut cores = StrMap::new();
    cores.insert("core_0".to_string(), None);
    node.cores = Some(cores);
    let ns = node.setup().namespace.unwrap();
    assert_eq!(ns.pinned[0].launch, None);
    assert_eq!(ns.pinned[0].post_up, vec![words(&["bash", "-c", "echo up"])]);
    // a node that asks for no core_0 starts nothing
    let mut cores = StrMap::new();
    cores.insert("core_1".to_string(), Some(1));
    node.cores = Some(cores);
    assert!(node.setup().namespace.unwrap().pinned.is_empty());
    node.cores = None;
    assert!(node.setup().namespace.unwrap().pinned.is_empty());
    node.name = None;
    assert_eq!(node.setup().namespace, None);
}

#[test]
fn a_host_sets_up_the_nodes_placed_on_it() {
    let mut nodes = StrMap::new();
    nodes.insert("r0".to_string(), router());
    let mut elsewhere = router();
    elsewhere.name = Some("r1".to_string());
    elsewhere.phynode = Some("h1".to_string());
    nodes.insert("r1".to_string(), elsewhere);
    let mut unplaced = router();
    unplaced.name = Some("r2".to_string());
    unplaced.phynode = None;
    nodes.insert("r2".to_string(), unplaced);
    let mut nameless = router();
    nameless.name = None;
    nodes.insert("a".to_string(), nameless);
    let dune = Dune {
        nodes,
        infra: Phynodes { nodes: StrMap::new(), _additional_fields: None },
        allocated: true,
    };
    let plan = dune.phynode_setup("h0");
    assert_eq!(plan.namespaces, vec!["r0".to_string()]);
    assert_eq!(plan.nodes.len(), 2);
    assert_eq!(plan.nodes[0].namespace, None);
    assert_eq!(plan.nodes[1].namespace.as_ref().unwrap().name, "r0");
    let plan = dune.phynode_setup("h1");
    assert_eq!(plan.namespaces, vec!["r1".to_string()]);
    assert_eq!(plan.nodes.len(), 1);
    let plan = dune.phynode_setup("h7");
    assert!(plan.namespaces.is_empty());
    assert!(plan.nodes.is_empty());
}

#[test]
fn a_launch_needs_a_core_and_a_word() {
    assert_eq!(launch_from(words(&["a", "b"]), Some(3)), Some(Launch { core: 3, argv: words(&["a", "b"]) }));
    assert_eq!(launch_from(words(&["a"]), None), None);
    assert_eq!(launch_from(vec![], Some(3)), None);
}
