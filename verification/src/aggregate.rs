//! The topology as a whole: the nodes, resolved from the configuration, and
//! the hosts they are placed on.

use vstd::prelude::*;
use crate::config::{Config, ConfigView};
use crate::defaults::NodesDefaultsView;
use crate::duplicate::Duplicate;
use crate::infra::{add_counts, core_at, cores_unique, counted, is_place, total_cores, PhynodeView,
    Phynodes, PhynodesView};
use crate::placement::{apart, has_room, lemma_placements_sound, place_nodes, placements, Placement,
    Spot};
use crate::text::{decimal, decimal_digits};
use vstd::string::StringExecFns;
use crate::link::{Link, LinkView, LinksDefaults, LinksDefaultsView};
use crate::node::{node_of, node_with_interface, Node, NodeView};
use crate::strmap::{deep_entries, index_of, keys_sorted, lemma_deep_keys, lemma_lookup_at,
    Entries, StrMap};

verus! {

/// A step of an experiment's setup.
pub enum SetupStep {
    Pre(Vec<String>),
    Nodes,
    Links,
    Post,
    Processes,
    PreDown,
    Down,
}

/// The commands of an experiment's setup, step by step.
pub struct ExperimentalSetup {
    pub pre: Vec<String>,
    pub nodes: Vec<String>,
    pub links: Vec<String>,
    pub post: Vec<String>,
    pub processes: Vec<String>,
    pub pre_down: Vec<String>,
    pub down: Vec<String>,
}

/// The topology: its nodes by name, the hosts, and whether the nodes have
/// been placed on the hosts.
#[derive(Debug, Clone)]
pub struct Dune {
    pub nodes: StrMap<Node>,
    pub infra: Phynodes,
    pub allocated: bool,
}

/// The mathematical form of a [`Dune`].
pub struct DuneView {
    pub nodes: Entries<NodeView>,
    pub infra: PhynodesView,
    pub allocated: bool,
}

impl DeepView for Dune {
    type V = DuneView;

    open spec fn deep_view(&self) -> DuneView {
        DuneView {
            nodes: self.nodes.deep_view(),
            infra: self.infra.deep_view(),
            allocated: self.allocated,
        }
    }
}

impl View for Dune {
    type V = DuneView;

    open spec fn view(&self) -> DuneView {
        self.deep_view()
    }
}

/// The nodes of a configuration, each laid over the defaults and named after
/// its key.
pub open spec fn declared_nodes(dflt: Option<NodesDefaultsView>, nodes: Entries<NodeView>)
    -> Entries<NodeView> {
    Seq::new(nodes.len(), |i: int| (nodes[i].0, node_of(dflt, nodes[i].1, nodes[i].0)))
}

/// The nodes once end `idx` of `link` is looked at: the node that the endpoint
/// names has its interface. An endpoint that names no node changes nothing.
pub open spec fn with_link_end(
    nodes: Entries<NodeView>,
    dflt: Option<LinksDefaultsView>,
    link: LinkView,
    idx: usize,
) -> Entries<NodeView> {
    match index_of(nodes, link.endpoints[idx as int].node) {
        Some(k) => nodes.update(k, (nodes[k].0, node_with_interface(nodes[k].1, dflt, link, idx))),
        None => nodes,
    }
}

/// The nodes once the links are looked at, in order, each link's first end
/// before its second.
pub open spec fn with_links(
    nodes: Entries<NodeView>,
    dflt: Option<LinksDefaultsView>,
    links: Seq<LinkView>,
) -> Entries<NodeView>
    decreases links.len(),
{
    if links.len() == 0 {
        nodes
    } else {
        let before = with_links(nodes, dflt, links.drop_last());
        with_link_end(with_link_end(before, dflt, links.last(), 0), dflt, links.last(), 1)
    }
}

/// The topology that a configuration describes, before any node is placed.
pub open spec fn topology_of(cfg: ConfigView) -> DuneView {
    DuneView {
        nodes: with_links(
            declared_nodes(cfg.topology.defaults.nodes, cfg.topology.nodes),
            cfg.topology.defaults.links,
            cfg.topology.links,
        ),
        infra: cfg.infrastructure,
        allocated: false,
    }
}

/// Gives the node that end `idx` of `link` names its interface for that end.
pub fn load_interface(
    nodes: &mut StrMap<Node>,
    dflt: &Option<LinksDefaults>,
    link: &Link,
    idx: usize,
)
    requires
        idx == 0 || idx == 1,
    ensures
        final(nodes).deep_view() == with_link_end(
            old(nodes).deep_view(),
            dflt.deep_view(),
            link@,
            idx,
        ),
{
    let ghost before = nodes@;
    assert(link@.endpoints[idx as int] == link.endpoints[idx as int]@);
    let (k, found) = nodes.locate(link.endpoints[idx].node.as_str());
    proof {
        lemma_deep_keys(before);
    }
    if found {
        proof {
            lemma_lookup_at(deep_entries(before), k as int);
        }
        let mut node = nodes.swap_value_at(k, Node::default());
        node.attach(dflt, link, idx);
        nodes.swap_value_at(k, node);
        assert(nodes.deep_view() =~= with_link_end(
            deep_entries(before),
            dflt.deep_view(),
            link@,
            idx,
        ));
    }
}

impl Dune {
    /// The topology that `cfg` describes: every node laid over the defaults,
    /// with an interface for each link end that names it. No node is placed
    /// yet.
    #[verifier::rlimit(30)]
    pub fn new(cfg: Config) -> (r: Dune)
        ensures
            r@ == topology_of(cfg@),
    {
        let mut nodes: StrMap<Node> = StrMap::new();
        let declared = &cfg.topology.nodes;
        let n = declared.len();
        let ghost all = declared_nodes(cfg@.topology.defaults.nodes, cfg@.topology.nodes);
        let mut i: usize = 0;
        while i < n
            invariant
                i <= n,
                n == declared@.len(),
                keys_sorted(declared@),
                all == declared_nodes(cfg@.topology.defaults.nodes, declared.deep_view()),
                nodes.deep_view() == all.take(i as int),
                nodes@.len() == i,
                forall|j: int| 0 <= j < i ==> (#[trigger] nodes@[j]).0 == declared@[j].0,
            decreases n - i,
        {
            let name = declared.key_at(i);
            let node = Node::new(&cfg.topology.defaults.nodes, declared.value_at(i), name);
            proof {
                if i > 0 {
                    assert(nodes@.last().0 == declared@[i - 1].0);
                }
            }
            let ghost before = nodes.deep_view();
            nodes.push_last(name.clone(), node);
            assert(nodes.deep_view() =~= before.push((name@, node@)));
            assert(nodes.deep_view() =~= all.take(i + 1));
            i += 1;
        }
        assert(all.take(i as int) =~= all);

        let links = &cfg.topology.links;
        let ghost wired = cfg@.topology.links;
        let mut l: usize = 0;
        assert(wired.take(0) =~= Seq::<LinkView>::empty());
        while l < links.len()
            invariant
                l <= links.len(),
                wired == links.deep_view(),
                nodes.deep_view() == with_links(
                    all,
                    cfg@.topology.defaults.links,
                    wired.take(l as int),
                ),
            decreases links.len() - l,
        {
            proof {
                let upto = wired.take(l + 1);
                assert(upto.drop_last() =~= wired.take(l as int));
                assert(upto.last() == links@[l as int]@);
            }
            load_interface(&mut nodes, &cfg.topology.defaults.links, &links[l], 0);
            load_interface(&mut nodes, &cfg.topology.defaults.links, &links[l], 1);
            l += 1;
        }
        assert(wired.take(l as int) =~= wired);
        Dune { nodes, infra: cfg.infrastructure, allocated: false }
    }

    /// The topology that `cfg` describes, with its nodes placed on the hosts.
    pub fn init(cfg: Config) -> (r: Result<Dune, AllocError>)
        ensures
            match r {
                Ok(dune) => allocation_of(topology_of(cfg@)) == Ok::<DuneView, AllocErrorView>(
                    dune@,
                ),
                Err(e) => allocation_of(topology_of(cfg@)) == Err::<DuneView, AllocErrorView>(e@),
            },
    {
        let mut dune = Dune::new(cfg);
        match dune.allocate() {
            Ok(_) => Ok(dune),
            Err(e) => Err(e),
        }
    }

    /// The number of nodes and the number of hosts.
    pub fn stats(&self) -> (r: (usize, usize))
        ensures
            r.0 == self@.nodes.len(),
            r.1 == self@.infra.nodes.len(),
    {
        (self.nodes.len(), self.infra.nodes.len())
    }

    /// The names of the hosts, in order.
    pub fn phynodes(&self) -> (r: Vec<String>)
        ensures
            r.deep_view() == Seq::new(self@.infra.nodes.len(), |i: int| self@.infra.nodes[i].0),
    {
        let mut names: Vec<String> = Vec::new();
        let n = self.infra.nodes.len();
        let mut i: usize = 0;
        while i < n
            invariant
                i <= n,
                n == self.infra.nodes@.len(),
                names@.len() == i,
                forall|j: int| 0 <= j < i ==> (#[trigger] names@[j])@ == self.infra.nodes@[j].0,
            decreases n - i,
        {
            names.push(self.infra.nodes.key_at(i).clone());
            i += 1;
        }
        assert(names.deep_view() =~= Seq::new(
            self@.infra.nodes.len(),
            |i: int| self@.infra.nodes[i].0,
        ));
        names
    }
}

/// Why the nodes could not be placed.
#[derive(Debug, Clone, PartialEq, Eq)]
pub enum AllocError {
    /// The cores asked for, or the cores there are, are more than the machine
    /// can count.
    Uncountable,
    /// The nodes ask for more cores than the hosts have.
    Insufficient { requested: usize, available: usize },
    /// The hosts have cores enough, but no pool has room for this node.
    Fragmented { node: String, requested: usize },
}

/// The mathematical form of an [`AllocError`].
pub enum AllocErrorView {
    Uncountable,
    Insufficient { requested: usize, available: usize },
    Fragmented { node: Seq<char>, requested: usize },
}

impl DeepView for AllocError {
    type V = AllocErrorView;

    open spec fn deep_view(&self) -> AllocErrorView {
        match self {
            AllocError::Uncountable => AllocErrorView::Uncountable,
            AllocError::Insufficient { requested, available } => AllocErrorView::Insufficient {
                requested: *requested,
                available: *available,
            },
            AllocError::Fragmented { node, requested } => AllocErrorView::Fragmented {
                node: node@,
                requested: *requested,
            },
        }
    }
}

impl View for AllocError {
    type V = AllocErrorView;

    open spec fn view(&self) -> AllocErrorView {
        self.deep_view()
    }
}

/// What an error says to the user.
pub open spec fn error_text(e: AllocErrorView) -> Seq<char> {
    match e {
        AllocErrorView::Uncountable => "more cores than can be counted"@,
        AllocErrorView::Insufficient { requested, available } => "requested "@ + decimal_digits(
            requested as nat,
        ) + " cores, only "@ + decimal_digits(available as nat) + " available"@,
        AllocErrorView::Fragmented { node, requested } => "no core pool has "@ + decimal_digits(
            requested as nat,
        ) + " free cores for node "@ + node,
    }
}

impl AllocError {
    /// What the error says to the user.
    pub fn message(&self) -> (r: String)
        ensures
            r@ == error_text(self@),
    {
        match self {
            AllocError::Uncountable => String::from_str("more cores than can be counted"),
            AllocError::Insufficient { requested, available } => {
                let mut out = String::from_str("requested ");
                out.append(decimal(*requested as u64).as_str());
                out.append(" cores, only ");
                out.append(decimal(*available as u64).as_str());
                out.append(" available");
                out
            },
            AllocError::Fragmented { node, requested } => {
                let mut out = String::from_str("no core pool has ");
                out.append(decimal(*requested as u64).as_str());
                out.append(" free cores for node ");
                out.append(node.as_str());
                out
            },
        }
    }
}

/// The number of cores that a node asks for.
pub open spec fn node_demand(node: NodeView) -> nat {
    match node.cores {
        Some(cores) => cores.len(),
        None => 0,
    }
}

/// What each node asks for, in the order of the nodes.
pub open spec fn demands_of(nodes: Entries<NodeView>) -> Seq<usize> {
    Seq::new(nodes.len(), |i: int| node_demand(nodes[i].1) as usize)
}

/// The number of cores that all nodes ask for.
pub open spec fn total_demand(nodes: Entries<NodeView>) -> nat
    decreases nodes.len(),
{
    if nodes.len() == 0 {
        0
    } else {
        total_demand(nodes.drop_last()) + node_demand(nodes.last().1)
    }
}

/// The size of each pool of each host, in the order of the hosts.
pub open spec fn capacity_of(hosts: Entries<PhynodeView>) -> Seq<Seq<usize>> {
    Seq::new(
        hosts.len(),
        |h: int| Seq::new(hosts[h].1.cores.len(), |g: int| hosts[h].1.cores[g].len() as usize),
    )
}

/// The cores asked for, each given a core of `pool`: the first the last of
/// the cores from `start` on, the second the one before, and so on.
pub open spec fn filled(slots: Entries<Option<u64>>, pool: Seq<u64>, start: int) -> Entries<
    Option<u64>,
> {
    Seq::new(slots.len(), |a: int| (slots[a].0, Some(pool[start + slots.len() - 1 - a])))
}

/// A node placed at `spot`: it is on that host, and its cores are of that
/// pool.
pub open spec fn placed_node(node: NodeView, hosts: Entries<PhynodeView>, spot: Spot) -> NodeView {
    NodeView {
        phynode: Some(hosts[spot.host].0),
        cores: match node.cores {
            Some(slots) => Some(filled(slots, hosts[spot.host].1.cores[spot.group], spot.start)),
            None => None,
        },
        ..node
    }
}

/// The nodes, each placed where `placed` says.
pub open spec fn placed_nodes(
    nodes: Entries<NodeView>,
    hosts: Entries<PhynodeView>,
    placed: Seq<Option<Spot>>,
) -> Entries<NodeView> {
    Seq::new(nodes.len(), |i: int| (nodes[i].0, placed_node(nodes[i].1, hosts, placed[i]->0)))
}

/// What placing the nodes of a topology gives.
///
/// A topology whose nodes are placed stays as it is. Else the nodes must not
/// ask for more cores than the hosts have, and each node must find a pool
/// with room for all its cores: the nodes are served as [`placements`] says,
/// the hosts and the pools of each host taken in order.
pub open spec fn allocation_of(d: DuneView) -> Result<DuneView, AllocErrorView> {
    let wanted = total_demand(d.nodes);
    let there = total_cores(d.infra.nodes);
    if d.allocated {
        Ok(d)
    } else if wanted > usize::MAX || there > usize::MAX {
        Err(AllocErrorView::Uncountable)
    } else if wanted > there {
        Err(AllocErrorView::Insufficient { requested: wanted as usize, available: there as usize })
    } else {
        match placements(demands_of(d.nodes), capacity_of(d.infra.nodes)) {
            Err(i) => Err(
                AllocErrorView::Fragmented {
                    node: d.nodes[i].0,
                    requested: demands_of(d.nodes)[i],
                },
            ),
            Ok(placed) => Ok(
                DuneView {
                    nodes: placed_nodes(d.nodes, d.infra.nodes, placed),
                    allocated: true,
                    ..d
                },
            ),
        }
    }
}

/// Gives the cores of `pool` from `start` on to the cores asked for.
pub fn fill_slots(slots: &StrMap<Option<u64>>, pool: &Vec<u64>, start: usize) -> (r: StrMap<
    Option<u64>,
>)
    requires
        start + slots@.len() <= pool@.len(),
    ensures
        r.deep_view() == filled(slots.deep_view(), pool@, start as int),
{
    let n = slots.len();
    let len = pool.len();
    let mut out: StrMap<Option<u64>> = StrMap::new();
    let mut a: usize = 0;
    while a < n
        invariant
            a <= n,
            n == slots@.len(),
            len == pool@.len(),
            start + n <= len,
            keys_sorted(slots@),
            out@.len() == a,
            forall|j: int| 0 <= j < a ==> (#[trigger] out@[j]).0 == slots@[j].0,
            forall|j: int| 0 <= j < a ==> (#[trigger] out@[j]).1 == Some(pool@[start + n - 1 - j]),
        decreases n - a,
    {
        proof {
            if a > 0 {
                assert(out@.last().0 == slots@[a - 1].0);
            }
        }
        out.push_last(slots.key_at(a).clone(), Some(pool[start + (n - 1 - a)]));
        a += 1;
    }
    assert(out.deep_view() =~= filled(slots.deep_view(), pool@, start as int));
    out
}

impl Dune {
    /// What each node asks for, and the sum, where the sum can be counted.
    pub fn demands(&self) -> (r: (Vec<usize>, Option<usize>))
        ensures
            r.0@ == demands_of(self@.nodes),
            r.1 == counted(total_demand(self@.nodes)),
    {
        let ghost nodes = self@.nodes;
        let n = self.nodes.len();
        let mut demands: Vec<usize> = Vec::new();
        let mut sum: Option<usize> = Some(0);
        let mut i: usize = 0;
        assert(nodes.take(0) =~= Seq::<(Seq<char>, NodeView)>::empty());
        while i < n
            invariant
                i <= n,
                n == self.nodes@.len(),
                nodes == self@.nodes,
                demands@ == demands_of(nodes).take(i as int),
                sum == counted(total_demand(nodes.take(i as int))),
            decreases n - i,
        {
            proof {
                let upto = nodes.take(i + 1);
                assert(upto.drop_last() =~= nodes.take(i as int));
                assert(upto.last().1 == self.nodes@[i as int].1@);
            }
            let d = self.nodes.value_at(i).cores();
            demands.push(d);
            assert(demands@ =~= demands_of(nodes).take(i + 1));
            sum = add_counts(sum, Some(d));
            i += 1;
        }
        assert(nodes.take(i as int) =~= nodes);
        assert(demands_of(nodes).take(i as int) =~= demands_of(nodes));
        (demands, sum)
    }

    /// The size of each pool of each host.
    pub fn capacity(&self) -> (r: Vec<Vec<usize>>)
        ensures
            r.deep_view() == capacity_of(self@.infra.nodes),
    {
        let hosts = &self.infra.nodes;
        let n = hosts.len();
        let mut out: Vec<Vec<usize>> = Vec::new();
        let mut h: usize = 0;
        while h < n
            invariant
                h <= n,
                n == hosts@.len(),
                out@.len() == h,
                forall|k: int|
                    0 <= k < h ==> (#[trigger] out@[k])@ == capacity_of(hosts.deep_view())[k],
            decreases n - h,
        {
            let pools = &hosts.value_at(h).cores;
            let ghost want = capacity_of(hosts.deep_view())[h as int];
            let mut row: Vec<usize> = Vec::new();
            let mut g: usize = 0;
            while g < pools.len()
                invariant
                    g <= pools.len(),
                    h < n,
                    n == hosts@.len(),
                    pools == &hosts@[h as int].1.cores,
                    want == capacity_of(hosts.deep_view())[h as int],
                    row@.len() == g,
                    forall|k: int| 0 <= k < g ==> #[trigger] row@[k] == want[k],
                decreases pools.len() - g,
            {
                row.push(pools[g].len());
                g += 1;
            }
            assert(row@ =~= want);
            out.push(row);
            h += 1;
        }
        assert(out.deep_view() =~= capacity_of(self@.infra.nodes)) by {
            assert forall|k: int| 0 <= k < out@.len() implies (#[trigger] out.deep_view()[k])
                =~= capacity_of(self@.infra.nodes)[k] by {
                assert(out@[k].deep_view() =~= out@[k]@);
            }
        }
        out
    }

    /// Places the nodes on the hosts: each node gets a host and, for each core
    /// it asks for, a core of one pool of that host, the same pool for all.
    /// Placing is done once: on a topology whose nodes are placed, nothing
    /// changes. Where it fails, nothing changes either.
    #[verifier::rlimit(30)]
    pub fn allocate(&mut self) -> (r: Result<(), AllocError>)
        ensures
            match r {
                Ok(_) => allocation_of(old(self)@) == Ok::<DuneView, AllocErrorView>(final(self)@),
                Err(e) => allocation_of(old(self)@) == Err::<DuneView, AllocErrorView>(e@)
                    && final(self)@ == old(self)@,
            },
    {
        if self.allocated {
            return Ok(());
        }
        let ghost before = self@;
        let (demands, wanted) = self.demands();
        let there = self.infra.count_cores();
        let (wanted, there) = match (wanted, there) {
            (Some(w), Some(t)) => (w, t),
            _ => {
                return Err(AllocError::Uncountable);
            },
        };
        if wanted > there {
            return Err(AllocError::Insufficient { requested: wanted, available: there });
        }
        let capacity = self.capacity();
        let placed = match place_nodes(&demands, &capacity) {
            Ok(placed) => placed,
            Err(i) => {
                assert(i < demands@.len()) by {
                    crate::placement::lemma_failure_is_a_node(demands@, capacity.deep_view());
                }
                return Err(
                    AllocError::Fragmented {
                        node: self.nodes.key_at(i).clone(),
                        requested: demands[i],
                    },
                );
            },
        };
        proof {
            lemma_placements_sound(demands@, capacity.deep_view());
        }
        let n = self.nodes.len();
        let ghost spots = crate::placement::all_placed(placed.deep_view());
        let ghost goal = placed_nodes(before.nodes, before.infra.nodes, spots);
        let mut i: usize = 0;
        while i < n
            invariant
                i <= n,
                n == before.nodes.len(),
                n == self.nodes@.len(),
                n == placed@.len(),
                spots == crate::placement::all_placed(placed.deep_view()),
                demands@ == demands_of(before.nodes),
                capacity.deep_view() == capacity_of(before.infra.nodes),
                self.infra@ == before.infra,
                self.allocated == before.allocated,
                goal == placed_nodes(before.nodes, before.infra.nodes, spots),
                forall|j: int| 0 <= j < n ==> has_room(demands@, capacity.deep_view(), j, #[trigger] spots[j]),
                forall|j: int| 0 <= j < i ==> (#[trigger] self.nodes.deep_view()[j]) == goal[j],
                forall|j: int|
                    i <= j < n ==> (#[trigger] self.nodes.deep_view()[j]) == before.nodes[j],
            decreases n - i,
        {
            assert(has_room(demands@, capacity.deep_view(), i as int, spots[i as int]));
            let spot = placed[i];
            let ghost was = self.nodes.deep_view();
            assert(was[i as int] == before.nodes[i as int]);
            let host = self.infra.nodes.key_at(spot.host).clone();
            let pool = &self.infra.nodes.value_at(spot.host).cores[spot.group];
            assert(pool@ == before.infra.nodes[spot.host as int].1.cores[spot.group as int]);
            let room = pool.len();
            let mut node = self.nodes.swap_value_at(i, Node::default());
            proof {
                assert(room == pool@.len());
                assert(node@ == before.nodes[i as int].1);
                assert(demands@[i as int] == node_demand(node@) as usize);
                assert(capacity.deep_view()[spot.host as int][spot.group as int] == pool@.len());
            }
            let cores = match &node.cores {
                Some(slots) => {
                    let count = slots.len();
                    proof {
                        assert(node@.cores == Some(slots.deep_view()));
                        assert(node_demand(node@) == count);
                        assert(spots[i as int] == Some(spot@));
                        assert(spot@.start + demands@[i as int] <= room);
                    }
                    Some(fill_slots(slots, pool, spot.start))
                },
                None => None,
            };
            node.cores = cores;
            node.phynode = Some(host);
            self.nodes.swap_value_at(i, node);
            proof {
                let now = self.nodes.deep_view();
                assert(now[i as int] == goal[i as int]);
                assert forall|j: int| 0 <= j < i + 1 implies (#[trigger] now[j]) == goal[j] by {
                    if j < i {
                        assert(was[j] == goal[j]);
                    }
                }
                assert forall|j: int| i + 1 <= j < n implies (#[trigger] now[j])
                    == before.nodes[j] by {
                    assert(was[j] == before.nodes[j]);
                }
            }
            i += 1;
        }
        self.allocated = true;
        assert(self.nodes.deep_view() =~= goal);
        Ok(())
    }
}

/// Where the nodes of `d` are placed, once [`allocation_of`] has placed them.
pub open spec fn spot_of(d: DuneView, i: int) -> Spot {
    placements(demands_of(d.nodes), capacity_of(d.infra.nodes))->Ok_0[i]->0
}

/// The place in its pool of the core given to the core `a` that node `i` asks
/// for.
pub open spec fn place_of(d: DuneView, i: int, a: int) -> int {
    spot_of(d, i).start + node_demand(d.nodes[i].1) - 1 - a
}

/// No node asks for more than all nodes together.
pub proof fn lemma_demand_part(nodes: Entries<NodeView>, i: int)
    requires
        0 <= i < nodes.len(),
    ensures
        node_demand(nodes[i].1) <= total_demand(nodes),
    decreases nodes.len(),
{
    if i < nodes.len() - 1 {
        assert(nodes.drop_last()[i] == nodes[i]);
        lemma_demand_part(nodes.drop_last(), i);
    }
}

/// No pool holds more than all pools of its host together.
pub proof fn lemma_pool_part(pools: Seq<Seq<u64>>, g: int)
    requires
        0 <= g < pools.len(),
    ensures
        pools[g].len() <= crate::infra::pool_total(pools),
    decreases pools.len(),
{
    if g < pools.len() - 1 {
        assert(pools.drop_last()[g] == pools[g]);
        lemma_pool_part(pools.drop_last(), g);
    }
}

/// No pool holds more than all hosts together.
pub proof fn lemma_host_part(hosts: Entries<PhynodeView>, h: int, g: int)
    requires
        0 <= h < hosts.len(),
        0 <= g < hosts[h].1.cores.len(),
    ensures
        hosts[h].1.cores[g].len() <= total_cores(hosts),
    decreases hosts.len(),
{
    if h < hosts.len() - 1 {
        assert(hosts.drop_last()[h] == hosts[h]);
        lemma_host_part(hosts.drop_last(), h, g);
    } else {
        lemma_pool_part(hosts[h].1.cores, g);
    }
}

/// Once the nodes are placed, every core that a node asks for has a core, the
/// one at its place in the node's pool: the node is on one host, and all its
/// cores are of one pool of that host.
pub proof fn lemma_allocation_local(d: DuneView, i: int, a: int)
    requires
        !d.allocated,
        allocation_of(d) is Ok,
        0 <= i < d.nodes.len(),
        d.nodes[i].1.cores matches Some(slots) && 0 <= a < slots.len(),
    ensures
        ({
            let after = allocation_of(d)->Ok_0.nodes[i].1;
            let spot = spot_of(d, i);
            &&& is_place(d.infra.nodes, spot.host, spot.group, place_of(d, i, a))
            &&& after.phynode == Some(d.infra.nodes[spot.host].0)
            &&& after.cores is Some
            &&& after.cores->0.len() == d.nodes[i].1.cores->0.len()
            &&& after.cores->0[a].0 == d.nodes[i].1.cores->0[a].0
            &&& after.cores->0[a].1 == Some(
                core_at(d.infra.nodes, spot.host, spot.group, place_of(d, i, a)),
            )
        }),
{
    let demands = demands_of(d.nodes);
    let capacity = capacity_of(d.infra.nodes);
    lemma_placements_sound(demands, capacity);
    let placed = placements(demands, capacity)->Ok_0;
    assert(has_room(demands, capacity, i, placed[i]));
    let spot = spot_of(d, i);
    let hosts = d.infra.nodes;
    let slots = d.nodes[i].1.cores->0;
    lemma_demand_part(d.nodes, i);
    lemma_host_part(hosts, spot.host, spot.group);
    assert(demands[i] == slots.len());
    assert(capacity[spot.host][spot.group] == hosts[spot.host].1.cores[spot.group].len());
    let after = allocation_of(d)->Ok_0.nodes[i].1;
    assert(after == placed_node(d.nodes[i].1, hosts, spot));
    let given = filled(slots, hosts[spot.host].1.cores[spot.group], spot.start);
    assert(after.cores == Some(given));
    assert(given[a] == (slots[a].0, Some(hosts[spot.host].1.cores[spot.group][place_of(d, i, a)])));
}

/// Once the nodes are placed, no core is given twice: two cores asked for, by
/// one node or by two, have different cores, provided that no core stands in
/// the pools twice.
pub proof fn lemma_allocation_distinct(d: DuneView, i: int, a: int, j: int, b: int)
    requires
        !d.allocated,
        allocation_of(d) is Ok,
        cores_unique(d.infra.nodes),
        0 <= i < d.nodes.len(),
        0 <= j < d.nodes.len(),
        d.nodes[i].1.cores matches Some(slots) && 0 <= a < slots.len(),
        d.nodes[j].1.cores matches Some(slots) && 0 <= b < slots.len(),
        i != j || a != b,
    ensures
        ({
            let after = allocation_of(d)->Ok_0;
            let one = after.nodes[i].1.cores->0[a].1;
            let other = after.nodes[j].1.cores->0[b].1;
            one is Some && other is Some && one != other
        }),
{
    let demands = demands_of(d.nodes);
    let capacity = capacity_of(d.infra.nodes);
    lemma_placements_sound(demands, capacity);
    lemma_allocation_local(d, i, a);
    lemma_allocation_local(d, j, b);
    let placed = placements(demands, capacity)->Ok_0;
    let p = spot_of(d, i);
    let q = spot_of(d, j);
    lemma_demand_part(d.nodes, i);
    lemma_demand_part(d.nodes, j);
    if i != j {
        assert(apart(demands, i, placed[i]->0, j, placed[j]->0));
    }
    assert(p.host != q.host || p.group != q.group || place_of(d, i, a) != place_of(d, j, b));
    assert(core_at(d.infra.nodes, p.host, p.group, place_of(d, i, a)) != core_at(
        d.infra.nodes,
        q.host,
        q.group,
        place_of(d, j, b),
    ));
}

/// Where the nodes ask for more cores than the hosts have, placing fails
/// with `Insufficient`; and only there.
pub proof fn lemma_allocation_insufficient(d: DuneView)
    requires
        !d.allocated,
        total_demand(d.nodes) <= usize::MAX,
        total_cores(d.infra.nodes) <= usize::MAX,
    ensures
        allocation_of(d) is Err && allocation_of(d)->Err_0 is Insufficient <==> total_demand(
            d.nodes,
        ) > total_cores(d.infra.nodes),
{
}

/// Placing is done once: placing the nodes of a topology whose nodes are
/// placed changes nothing.
pub proof fn lemma_allocation_once(d: DuneView)
    requires
        allocation_of(d) is Ok,
    ensures
        allocation_of(allocation_of(d)->Ok_0) == allocation_of(d),
{
}

} // verus!
