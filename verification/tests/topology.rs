use dune::aggregate::Dune;
use dune::config::{Config, Topology};
use dune::datum::Datum;
use dune::defaults::{Defaults, NodesDefaults};
use dune::endpoint::Endpoint;
use dune::file::DuneFile;
use dune::infra::Phynodes;
use dune::interface::{Interface, IpNet};
use dune::link::{Link, LinksDefaults};
use dune::node::Node;
use dune::pinned::Pinned;
use dune::strmap::StrMap;

fn link(a: &str, b: &str, fields: Vec<(&str, Datum)>) -> Link {
    let mut map = StrMap::new();
    for (k, v) in fields {
        map.insert(k.to_string(), v);
    }
    Link {
        endpoints: [Endpoint::try_from(a).unwrap(), Endpoint::try_from(b).unwrap()],
        _additional_fields: map,
    }
}

fn link_defaults(mtu: Option<u32>) -> LinksDefaults {
    LinksDefaults { latency: None, metric: None, mtu, bw: None, _additional_fields: None }
}

fn table(fields: Vec<(&str, Datum)>) -> Datum {
    Datum::Table(fields.into_iter().map(|(k, v)| (k.to_string(), v)).collect())
}

fn text(s: &str) -> Datum {
    Datum::Text(s.to_string())
}

fn config(nodes: Vec<(&str, Node)>, links: Vec<Link>, defaults: Defaults) -> Config {
    let mut declared = StrMap::new();
    for (name, node) in nodes {
        declared.insert(name.to_string(), node);
    }
    Config {
        infrastructure: Phynodes { nodes: StrMap::new(), _additional_fields: None },
        topology: Topology { defaults, nodes: declared, links },
    }
}

fn iface<'a>(dune: &'a Dune, node: &str, name: &str) -> &'a Interface {
    dune.nodes.get(node).unwrap().interfaces.as_ref().unwrap().get(name).unwrap()
}

#[test]
fn both_ends_of_a_link_have_the_default_mtu() {
    let dune = Dune::new(config(
        vec![("r0", Node::default()), ("r1", Node::default())],
        vec![link("r0:eth0", "r1:eth0", vec![])],
        Defaults { links: Some(link_defaults(Some(1500))), nodes: None },
    ));
    let a = iface(&dune, "r0", "eth0");
    let b = iface(&dune, "r1", "eth0");
    assert_eq!(a.mtu, Some(1500));
    assert_eq!(b.mtu, Some(1500));
    assert_eq!(a.peer.as_ref().unwrap().to_text(), "r1:eth0");
    assert_eq!(b.peer.as_ref().unwrap().to_text(), "r0:eth0");
    assert_eq!((a.idx, b.idx), (0, 1));
    assert_eq!((a.ifindex, b.ifindex), (2, 2));
    assert_eq!(a.name, "eth0");
}

#[test]
fn an_override_for_one_end_cannot_set_the_mtu() {
    let dflt = Some(link_defaults(Some(1500)));
    let l = link(
        "r0:eth0",
        "r1:eth1",
        vec![
            ("r0:eth0", table(vec![("mtu", Datum::Int(9000)), ("latency", text("5ms"))])),
            ("r1:eth1", table(vec![("mtu", Datum::Int(1200))])),
        ],
    );
    let a = Interface::new(&dflt, &l, 0, 2);
    let b = Interface::new(&dflt, &l, 1, 2);
    assert_eq!(a.mtu, Some(1500));
    assert_eq!(b.mtu, Some(1500));
    assert_eq!(a.latency.as_deref(), Some("5ms"));
    assert_eq!(b.latency, None);
}

#[test]
fn a_link_sets_the_mtu_for_both_ends() {
    let dflt = Some(link_defaults(Some(1500)));
    let l = link("r0:eth0", "r1:eth1", vec![("mtu", Datum::Int(9000))]);
    assert_eq!(Interface::new(&dflt, &l, 0, 2).mtu, Some(9000));
    assert_eq!(Interface::new(&dflt, &l, 1, 2).mtu, Some(9000));
    let l = link("r0:eth0", "r1:eth1", vec![("mtu", text("9000"))]);
    assert_eq!(Interface::new(&dflt, &l, 0, 2).mtu, Some(1500));
    assert_eq!(Interface::new(&None, &l, 0, 2).mtu, None);
}

#[test]
fn an_override_for_one_end_has_the_last_word() {
    let dflt = Some(LinksDefaults {
        latency: Some("1ms".to_string()),
        metric: Some(10),
        mtu: None,
        bw: Some("1gbit".to_string()),
        _additional_fields: None,
    });
    let l = link(
        "r0:eth0",
        "r1:eth1",
        vec![
            ("latency", text("2ms")),
            ("metric", Datum::Int(20)),
            ("mac", text("02:00:00:00:00:0a")),
            ("r1:eth1", table(vec![("latency", text("3ms")), ("bw", text("10mbit"))])),
            ("unknown", text("ignored")),
        ],
    );
    let a = Interface::new(&dflt, &l, 0, 5);
    let b = Interface::new(&dflt, &l, 1, 6);
    assert_eq!(a.latency.as_deref(), Some("2ms"));
    assert_eq!(b.latency.as_deref(), Some("3ms"));
    assert_eq!(a.bandwidth.as_deref(), Some("1gbit"));
    assert_eq!(b.bandwidth.as_deref(), Some("10mbit"));
    assert_eq!((a.metric, b.metric), (Some(20), Some(20)));
    assert_eq!(a.mac, Some(vec![2, 0, 0, 0, 0, 10]));
    assert_eq!((a.ifindex, b.ifindex), (5, 6));
    assert_eq!(a.name, "eth0");
    assert_eq!(b.name, "eth1");
}

#[test]
fn an_override_names_an_interface_whatever_the_node() {
    let l = link("r0:eth0", "r1:eth0", vec![("r9:eth0", table(vec![("latency", text("7ms"))]))]);
    assert_eq!(Interface::new(&None, &l, 0, 2).latency.as_deref(), Some("7ms"));
    assert_eq!(Interface::new(&None, &l, 1, 2).latency.as_deref(), Some("7ms"));
}

#[test]
fn integers_are_cut_to_the_width_of_the_setting() {
    let l = link("a:x", "b:y", vec![("metric", Datum::Int(-1)), ("mtu", Datum::Int(4294967297))]);
    let i = Interface::new(&None, &l, 0, 2);
    assert_eq!(i.metric, Some(u64::MAX));
    assert_eq!(i.mtu, Some(1));
}

#[test]
fn hardware_addresses_are_read_digit_by_digit() {
    let mut i = Interface::default();
    i.set_from_field("mac", &text("DE:ad:be:EF:00:01"));
    assert_eq!(i.mac, Some(vec![0xde, 0xad, 0xbe, 0xef, 0x00, 0x01]));
    i.set_from_field("mac", &text("a:b"));
    assert_eq!(i.mac, Some(vec![0xab]));
    i.set_from_field("mac", &text("abc"));
    assert_eq!(i.mac, Some(vec![0xab, 0x0c]));
    i.set_from_field("mac", &text("zz"));
    assert_eq!(i.mac, Some(vec![]));
    i.set_from_field("mac", &Datum::Int(3));
    assert_eq!(i.mac, Some(vec![]));
}

#[test]
fn interfaces_are_numbered_as_they_come() {
    let mut lo_addrs = StrMap::new();
    lo_addrs.insert("lo".to_string(), vec![IpNet { addr: "10.0.0.1".to_string(), plen: 32 }]);
    lo_addrs.insert("eth1".to_string(), vec![IpNet { addr: "fc00::1".to_string(), plen: 64 }]);
    let r0 = Node { addrs: Some(lo_addrs), ..Node::default() };
    let dune = Dune::new(config(
        vec![("r0", r0), ("r1", Node::default())],
        vec![
            link("r0:eth0", "r1:eth0", vec![]),
            link("r1:eth1", "r0:eth1", vec![]),
            link("r0:eth0", "r2:eth0", vec![("latency", text("9ms"))]),
        ],
        Defaults { links: None, nodes: None },
    ));
    let lo = iface(&dune, "r0", "lo");
    assert_eq!(lo.ifindex, 0);
    assert_eq!(lo.peer.is_none(), true);
    assert_eq!(lo.addrs.as_ref().unwrap()[0].to_text(), "10.0.0.1/32");
    assert_eq!(iface(&dune, "r0", "eth0").ifindex, 3);
    assert_eq!(iface(&dune, "r0", "eth1").ifindex, 4);
    assert_eq!(iface(&dune, "r0", "eth1").idx, 1);
    assert_eq!(iface(&dune, "r0", "eth1").addrs.as_ref().unwrap()[0].to_text(), "fc00::1/64");
    assert_eq!(iface(&dune, "r1", "eth0").ifindex, 2);
    assert_eq!(iface(&dune, "r1", "eth1").ifindex, 3);
    // the first link to name r0:eth0 made the interface
    assert_eq!(iface(&dune, "r0", "eth0").latency, None);
    assert_eq!(iface(&dune, "r0", "eth0").peer.as_ref().unwrap().node, "r1");
    assert_eq!(dune.nodes.get("r0").unwrap().interfaces.as_ref().unwrap().len(), 3);
    assert!(dune.nodes.get("r2").is_none());
}

#[test]
fn a_node_is_laid_over_the_defaults() {
    let mut d_sysctls = StrMap::new();
    d_sysctls.insert("net.ipv4.ip_forward".to_string(), "0".to_string());
    d_sysctls.insert("net.ipv6.conf.all.forwarding".to_string(), "1".to_string());
    let dflt = Some(NodesDefaults {
        sysctls: Some(d_sysctls),
        binds: Some(vec![DuneFile::from(("a.src".to_string(), "a.dst".to_string()))]),
        templates: None,
        execs: Some(vec!["echo default".to_string()]),
        pinned: Some(vec![Pinned::new("d".to_string(), None, None, None, None)]),
        _additional_fields_: None,
    });
    let mut sysctls = StrMap::new();
    sysctls.insert("net.ipv4.ip_forward".to_string(), "1".to_string());
    let mut templates = StrMap::new();
    templates.insert("frr.conf.j2".to_string(), "/etc/frr/{{ node }}.conf".to_string());
    let mut extra = StrMap::new();
    extra.insert("role".to_string(), Datum::Text("router".to_string()));
    let config = Node {
        sysctls: Some(sysctls),
        templates: Some(templates),
        execs: Some(vec!["echo own".to_string()]),
        pinned: Some(vec![Pinned::new("own".to_string(), None, None, None, None)]),
        _additional_fields: Some(extra.clone()),
        ..Node::default()
    };
    let node = Node::new(&dflt, &config, &"r0".to_string());
    let s = node.sysctls.as_ref().unwrap();
    assert_eq!(s.len(), 2);
    assert_eq!(s.get("net.ipv4.ip_forward"), Some(&"1".to_string()));
    assert_eq!(s.get("net.ipv6.conf.all.forwarding"), Some(&"1".to_string()));
    assert_eq!(node.execs, Some(vec!["echo default".to_string(), "echo own".to_string()]));
    assert_eq!(node.binds.as_ref().unwrap().len(), 1);
    assert_eq!(node.templates.as_ref().unwrap().len(), 1);
    let cmds: Vec<&str> = node.pinned.as_ref().unwrap().iter().map(|p| p.cmd.as_str()).collect();
    assert_eq!(cmds, vec!["d", "own"]);
    assert!(node.pinned.as_ref().unwrap().iter().all(|p| p.cores.is_some()));
    assert_eq!(node.name.as_deref(), Some("r0"));
    assert_eq!(node.cores(), 1);
    assert_eq!(node._additional_fields, Some(extra));
    assert_eq!(node.phynode, None);
    assert!(node.interfaces.is_none());
    assert!(node.tmpls.is_none());
}

#[test]
fn laying_a_node_over_defaults_without_lists_twice_is_laying_it_once() {
    let mut d_sysctls = StrMap::new();
    d_sysctls.insert("a".to_string(), "0".to_string());
    d_sysctls.insert("b".to_string(), "1".to_string());
    let dflt = Some(NodesDefaults {
        sysctls: Some(d_sysctls),
        binds: None,
        templates: None,
        execs: Some(vec![]),
        pinned: None,
        _additional_fields_: None,
    });
    let mut sysctls = StrMap::new();
    sysctls.insert("b".to_string(), "2".to_string());
    sysctls.insert("c".to_string(), "3".to_string());
    let config = Node {
        sysctls: Some(sysctls),
        execs: Some(vec!["x".to_string()]),
        pinned: Some(vec![Pinned::new("p".to_string(), None, None, None, None)]),
        ..Node::default()
    };
    let name = "n".to_string();
    let once = Node::new(&dflt, &config, &name);
    let twice = Node::new(&dflt, &once, &name);
    assert_eq!(once.sysctls, twice.sysctls);
    assert_eq!(once.execs, twice.execs);
    assert_eq!(once.cores, twice.cores);
    assert_eq!(once.name, twice.name);
    assert_eq!(format!("{:?}", once), format!("{:?}", twice));
    let s = once.sysctls.as_ref().unwrap();
    assert_eq!((s.get("a").unwrap().as_str(), s.get("b").unwrap().as_str(), s.get("c").unwrap().as_str()), ("0", "2", "3"));
}

#[test]
fn default_lists_are_joined_each_time() {
    let dflt = Some(NodesDefaults {
        sysctls: None,
        binds: None,
        templates: None,
        execs: Some(vec!["a".to_string()]),
        pinned: None,
        _additional_fields_: None,
    });
    let name = "n".to_string();
    let once = Node::new(&dflt, &Node::default(), &name);
    let twice = Node::new(&dflt, &once, &name);
    assert_eq!(once.execs, Some(vec!["a".to_string()]));
    assert_eq!(twice.execs, Some(vec!["a".to_string(), "a".to_string()]));
}
