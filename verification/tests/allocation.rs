use dune::aggregate::{AllocError, Dune};
use dune::config::{Config, Topology};
use dune::defaults::Defaults;
use dune::infra::{Phynode, Phynodes};
use dune::node::Node;
use dune::pinned::Pinned;
use dune::placement::{place_nodes, Placement};
use dune::strmap::StrMap;

fn host(cores: Vec<Vec<u64>>) -> Phynode {
    Phynode { cores, binds: None, _additional_fields: None }
}

fn hosts(list: Vec<(&str, Vec<Vec<u64>>)>) -> Phynodes {
    let mut nodes = StrMap::new();
    for (name, cores) in list {
        nodes.insert(name.to_string(), host(cores));
    }
    Phynodes { nodes, _additional_fields: None }
}

fn process(values: Vec<&str>) -> Pinned {
    let mut env = StrMap::new();
    for (i, value) in values.iter().enumerate() {
        env.insert(format!("VAR{}", i), value.to_string());
    }
    Pinned::new("sleep 100".to_string(), Some(env), None, None, None)
}

fn node_with(pinned: Vec<Pinned>) -> Node {
    Node { pinned: Some(pinned), ..Node::default() }
}

fn topology(nodes: Vec<(&str, Node)>, infra: Phynodes) -> Dune {
    let mut declared = StrMap::new();
    for (name, node) in nodes {
        declared.insert(name.to_string(), node);
    }
    Dune::new(Config {
        infrastructure: infra,
        topology: Topology {
            defaults: Defaults { links: None, nodes: None },
            nodes: declared,
            links: Vec::new(),
        },
    })
}

fn cores_of(dune: &Dune, node: &str) -> Vec<(String, Option<u64>)> {
    let cores = dune.nodes.get(node).unwrap().cores.as_ref().unwrap();
    (0..cores.len()).map(|i| (cores.key_at(i).clone(), *cores.value_at(i))).collect()
}

#[test]
fn two_nodes_share_one_pool() {
    let mut dune = topology(
        vec![
            ("a", node_with(vec![process(vec!["{{ core_0 }}", "{{ core_1 }}"])])),
            ("b", node_with(vec![process(vec!["{{ core_0 }},{{ core_1 }}"])])),
        ],
        hosts(vec![("h0", vec![vec![0, 1, 2, 3]])]),
    );
    assert_eq!(cores_of(&dune, "a"), vec![("core_0".to_string(), None), ("core_1".to_string(), None)]);
    assert!(!dune.allocated);
    assert_eq!(dune.allocate(), Ok(()));
    assert!(dune.allocated);
    let a = cores_of(&dune, "a");
    let b = cores_of(&dune, "b");
    assert_eq!(a, vec![("core_0".to_string(), Some(3)), ("core_1".to_string(), Some(2))]);
    assert_eq!(b, vec![("core_0".to_string(), Some(1)), ("core_1".to_string(), Some(0))]);
    let mut all: Vec<u64> = a.iter().chain(b.iter()).map(|(_, c)| c.unwrap()).collect();
    all.sort();
    assert_eq!(all, vec![0, 1, 2, 3]);
    assert_eq!(dune.nodes.get("a").unwrap().phynode.as_deref(), Some("h0"));
    assert_eq!(dune.nodes.get("b").unwrap().phynode.as_deref(), Some("h0"));
    // the hosts keep their pools
    assert_eq!(dune.infra.nodes.get("h0").unwrap().cores, vec![vec![0, 1, 2, 3]]);
}

#[test]
fn more_cores_asked_for_than_there_are() {
    let mut dune = topology(
        vec![
            ("a", node_with(vec![process(vec!["{{ core_1 }}"])])),
            ("b", node_with(vec![process(vec![])])),
        ],
        hosts(vec![("h0", vec![vec![7, 8]])]),
    );
    let before = dune.clone();
    let r = dune.allocate();
    assert_eq!(r, Err(AllocError::Insufficient { requested: 3, available: 2 }));
    assert_eq!(r.unwrap_err().message(), "requested 3 cores, only 2 available");
    assert!(!dune.allocated);
    assert_eq!(dune.infra, before.infra);
    assert_eq!(dune.infra.nodes.get("h0").unwrap().cores, vec![vec![7, 8]]);
    assert_eq!(cores_of(&dune, "a"), vec![("core_0".to_string(), None), ("core_1".to_string(), None)]);
    assert_eq!(cores_of(&dune, "b"), vec![("core_0".to_string(), None)]);
    assert_eq!(dune.nodes.get("a").unwrap().phynode, None);
    assert_eq!(dune.nodes.get("b").unwrap().phynode, None);
}

#[test]
fn as_many_cores_asked_for_as_there_are() {
    let mut dune = topology(
        vec![("a", node_with(vec![process(vec!["{{ core_1 }}"])]))],
        hosts(vec![("h0", vec![vec![7, 8]])]),
    );
    assert_eq!(dune.allocate(), Ok(()));
    assert_eq!(cores_of(&dune, "a"), vec![("core_0".to_string(), Some(8)), ("core_1".to_string(), Some(7))]);
}

#[test]
fn no_pool_has_room_for_a_node() {
    let mut dune = topology(
        vec![("big", node_with(vec![process(vec!["{{ core_1 }} {{ core_2 }}"])]))],
        hosts(vec![("h0", vec![vec![0, 1], vec![2, 3]])]),
    );
    let r = dune.allocate();
    assert_eq!(r, Err(AllocError::Fragmented { node: "big".to_string(), requested: 3 }));
    assert_eq!(r.unwrap_err().message(), "no core pool has 3 free cores for node big");
    assert!(!dune.allocated);
    assert_eq!(dune.nodes.get("big").unwrap().phynode, None);
    assert_eq!(cores_of(&dune, "big")[0], ("core_0".to_string(), None));
}

#[test]
fn placing_twice_changes_nothing() {
    let mut dune = topology(
        vec![("a", node_with(vec![process(vec![])])), ("b", node_with(vec![process(vec![])]))],
        hosts(vec![("h0", vec![vec![10, 11, 12]])]),
    );
    assert_eq!(dune.allocate(), Ok(()));
    let a = cores_of(&dune, "a");
    let b = cores_of(&dune, "b");
    assert_eq!(a, vec![("core_0".to_string(), Some(12))]);
    assert_eq!(b, vec![("core_0".to_string(), Some(11))]);
    assert_eq!(dune.allocate(), Ok(()));
    assert_eq!(cores_of(&dune, "a"), a);
    assert_eq!(cores_of(&dune, "b"), b);
}

#[test]
fn the_nodes_that_ask_for_most_are_served_first() {
    let mut dune = topology(
        vec![
            ("a", node_with(vec![process(vec![])])),
            ("b", node_with(vec![process(vec!["{{ core_1 }} {{ core_2 }}"])])),
            ("c", node_with(vec![process(vec!["{{ core_1 }}"])])),
        ],
        hosts(vec![("h0", vec![vec![0, 1, 2]]), ("h1", vec![vec![3], vec![4, 5]])]),
    );
    assert_eq!(dune.allocate(), Ok(()));
    // b takes the whole first pool, c the first pool after it with two cores, a what is left
    assert_eq!(dune.nodes.get("b").unwrap().phynode.as_deref(), Some("h0"));
    assert_eq!(dune.nodes.get("c").unwrap().phynode.as_deref(), Some("h1"));
    assert_eq!(dune.nodes.get("a").unwrap().phynode.as_deref(), Some("h1"));
    assert_eq!(
        cores_of(&dune, "b"),
        vec![
            ("core_0".to_string(), Some(2)),
            ("core_1".to_string(), Some(1)),
            ("core_2".to_string(), Some(0)),
        ]
    );
    assert_eq!(cores_of(&dune, "c"), vec![("core_0".to_string(), Some(5)), ("core_1".to_string(), Some(4))]);
    assert_eq!(cores_of(&dune, "a"), vec![("core_0".to_string(), Some(3))]);
}

#[test]
fn a_node_without_processes_gets_a_host_and_no_core() {
    let mut dune = topology(
        vec![("quiet", Node::default())],
        hosts(vec![("h0", vec![vec![1]])]),
    );
    assert_eq!(dune.nodes.get("quiet").unwrap().cores(), 0);
    assert_eq!(dune.allocate(), Ok(()));
    let node = dune.nodes.get("quiet").unwrap();
    assert_eq!(node.phynode.as_deref(), Some("h0"));
    assert!(node.cores.is_none());
}

#[test]
fn place_nodes_reports_where_each_node_goes() {
    let placed = place_nodes(&vec![1, 2, 1], &vec![vec![2], vec![3]]).unwrap();
    assert_eq!(
        placed,
        vec![
            Placement { host: 1, group: 0, start: 2 },
            Placement { host: 0, group: 0, start: 0 },
            Placement { host: 1, group: 0, start: 1 },
        ]
    );
    assert_eq!(place_nodes(&vec![1, 3], &vec![vec![2], vec![2]]), Err(1));
    assert_eq!(place_nodes(&vec![], &vec![]), Ok(vec![]));
    assert_eq!(place_nodes(&vec![0], &vec![]), Err(0));
}

#[test]
fn a_topology_is_resolved_and_placed_in_one_go() {
    let mut declared = StrMap::new();
    declared.insert("a".to_string(), node_with(vec![process(vec![])]));
    let config = |infra: Phynodes| Config {
        infrastructure: infra,
        topology: Topology {
            defaults: Defaults { links: None, nodes: None },
            nodes: declared.clone(),
            links: Vec::new(),
        },
    };
    let dune = Dune::init(config(hosts(vec![("h0", vec![vec![9]])]))).unwrap();
    assert!(dune.allocated);
    assert_eq!(cores_of(&dune, "a"), vec![("core_0".to_string(), Some(9))]);
    let failed = Dune::init(config(hosts(vec![]))).unwrap_err();
    assert_eq!(failed, AllocError::Insufficient { requested: 1, available: 0 });
}

#[test]
fn hosts_count_their_cores() {
    let infra = hosts(vec![("h0", vec![vec![0, 1, 2], vec![3]]), ("h1", vec![vec![], vec![4, 5]])]);
    assert_eq!(infra.nodes.get("h0").unwrap().cores(), 4);
    assert_eq!(infra.nodes.get("h1").unwrap().cores(), 2);
    assert_eq!(infra.cores(), 6);
    assert_eq!(infra.count_cores(), Some(6));
    assert_eq!(hosts(vec![]).cores(), 0);
}

#[test]
fn hosts_know_whether_a_core_stands_in_two_places() {
    assert!(hosts(vec![]).has_unique_cores());
    assert!(hosts(vec![("h0", vec![vec![], vec![]])]).has_unique_cores());
    assert!(hosts(vec![("h0", vec![vec![0, 1], vec![2]]), ("h1", vec![vec![3]])]).has_unique_cores());
    assert!(!hosts(vec![("h0", vec![vec![0, 1, 0]])]).has_unique_cores());
    assert!(!hosts(vec![("h0", vec![vec![0, 1], vec![2, 1]])]).has_unique_cores());
    assert!(!hosts(vec![("h0", vec![vec![0, 1], vec![2]]), ("h1", vec![vec![], vec![2]])]).has_unique_cores());
}

#[test]
fn the_topology_lists_its_hosts_in_order() {
    let dune = topology(
        vec![("a", Node::default())],
        hosts(vec![("h1", vec![]), ("h0", vec![]), ("h10", vec![])]),
    );
    assert_eq!(dune.phynodes(), vec!["h0".to_string(), "h1".to_string(), "h10".to_string()]);
    assert_eq!(dune.stats(), (1, 3));
}
