//! The configuration of the tool that runs experiments on the topology: the
//! hosts as its machines, each with the namespaces of the nodes placed on it.

use vstd::prelude::*;
use vstd::string::StringExecFns;
use crate::aggregate::{Dune, DuneView};
use crate::duplicate::Duplicate;
use crate::endpoint::{Endpoint, EndpointView};
use crate::interface::InterfaceView;
use crate::node::{Node, NodeView};
use crate::strmap::{lemma_deep_lookup, lookup, Entries, StrMap};

verus! {

/// Which way a link runs, seen from one of its interfaces.
#[derive(Clone, Copy, Debug, PartialEq, Eq, Structural)]
pub enum Direction {
    Forward,
    Backward,
}

/// An interface given by its name and its address.
#[derive(Debug, Clone, PartialEq, Eq)]
pub struct SimpleInterface {
    pub name: String,
    pub ip: String,
}

/// An interface given by the link that it is an end of.
#[derive(Debug, Clone, PartialEq, Eq)]
pub struct ExplicitInterface {
    pub link: String,
    pub direction: Direction,
    pub name: String,
}

/// An interface of a machine or of a namespace.
#[derive(Debug, Clone, PartialEq, Eq)]
pub enum Interface {
    SimpleInterface(SimpleInterface),
    ExplicitInterface(ExplicitInterface),
}

/// The mathematical form of an [`Interface`].
pub enum PortView {
    Simple { name: Seq<char>, ip: Seq<char> },
    Explicit { link: Seq<char>, direction: Direction, name: Seq<char> },
}

impl DeepView for Interface {
    type V = PortView;

    open spec fn deep_view(&self) -> PortView {
        match self {
            Interface::SimpleInterface(i) => PortView::Simple { name: i.name@, ip: i.ip@ },
            Interface::ExplicitInterface(i) => PortView::Explicit {
                link: i.link@,
                direction: i.direction,
                name: i.name@,
            },
        }
    }
}

impl Duplicate for Interface {
    fn duplicate(&self) -> (r: Self) {
        match self {
            Interface::SimpleInterface(i) => Interface::SimpleInterface(
                SimpleInterface { name: i.name.clone(), ip: i.ip.clone() },
            ),
            Interface::ExplicitInterface(i) => Interface::ExplicitInterface(
                ExplicitInterface {
                    link: i.link.clone(),
                    direction: i.direction,
                    name: i.name.clone(),
                },
            ),
        }
    }
}

/// The namespace of a node, with the node's ends of links.
#[derive(Debug, Clone, PartialEq, Eq)]
pub struct Namespace {
    pub role: String,
    pub namespace: String,
    pub interfaces: Vec<Interface>,
}

/// The mathematical form of a [`Namespace`].
pub struct NamespaceView {
    pub role: Seq<char>,
    pub namespace: Seq<char>,
    pub interfaces: Seq<PortView>,
}

impl DeepView for Namespace {
    type V = NamespaceView;

    open spec fn deep_view(&self) -> NamespaceView {
        NamespaceView {
            role: self.role@,
            namespace: self.namespace@,
            interfaces: self.interfaces.deep_view(),
        }
    }
}

impl Duplicate for Namespace {
    fn duplicate(&self) -> (r: Self) {
        Namespace {
            role: self.role.clone(),
            namespace: self.namespace.clone(),
            interfaces: self.interfaces.duplicate(),
        }
    }
}

/// A machine: a host that experiments run on.
#[derive(Debug, Clone, PartialEq, Eq)]
pub struct Machine {
    pub hostname: Option<String>,
    pub user: String,
    pub role: String,
    pub interfaces: Vec<Interface>,
    pub namespaces: Option<Vec<Namespace>>,
}

/// The mathematical form of a [`Machine`].
pub struct MachineView {
    pub hostname: Option<Seq<char>>,
    pub user: Seq<char>,
    pub role: Seq<char>,
    pub interfaces: Seq<PortView>,
    pub namespaces: Option<Seq<NamespaceView>>,
}

impl DeepView for Machine {
    type V = MachineView;

    open spec fn deep_view(&self) -> MachineView {
        MachineView {
            hostname: self.hostname.deep_view(),
            user: self.user@,
            role: self.role@,
            interfaces: self.interfaces.deep_view(),
            namespaces: self.namespaces.deep_view(),
        }
    }
}

/// What holds for all experiments.
#[derive(Debug, Clone, PartialEq, Eq)]
pub struct Global {
    pub python_path: String,
}

/// The machine that the experiments are run from.
#[derive(Debug, Clone, PartialEq, Eq)]
pub struct Controller {
    pub ports: String,
    pub control_ip: Option<String>,
    pub hostname: String,
    pub user: String,
    pub role: String,
    pub interfaces: Vec<Interface>,
}

/// The configuration of the tool that runs the experiments.
#[derive(Debug, Clone, PartialEq, Eq)]
pub struct Config {
    pub global: Global,
    pub machines: Option<Vec<Machine>>,
    pub controller: Controller,
}

/// The name of the link that an interface is an end of: the interface's
/// endpoint, a dash, the peer's endpoint.
pub open spec fn link_text(node: Seq<char>, interface: Seq<char>, peer: EndpointView) -> Seq<char> {
    node + seq![':'] + interface + seq!['-'] + peer.node + seq![':'] + peer.interface
}

/// The way a link runs seen from its end `idx`: forward from the first end,
/// backward from the other.
pub open spec fn direction_of(idx: usize) -> Direction {
    if idx == 0 {
        Direction::Forward
    } else {
        Direction::Backward
    }
}

/// The ends of links among the interfaces of the node `node`, in key order:
/// an interface without a peer is no end of a link.
pub open spec fn link_ends(node: Seq<char>, interfaces: Entries<InterfaceView>) -> Seq<PortView>
    decreases interfaces.len(),
{
    if interfaces.len() == 0 {
        Seq::empty()
    } else {
        let before = link_ends(node, interfaces.drop_last());
        let (name, iface) = interfaces.last();
        match iface.peer {
            Some(peer) => before.push(
                PortView::Explicit {
                    link: link_text(node, name, peer),
                    direction: direction_of(iface.idx),
                    name: name,
                },
            ),
            None => before,
        }
    }
}

/// The namespace of the node stored under `name`.
pub open spec fn namespace_of(name: Seq<char>, node: NodeView) -> NamespaceView {
    NamespaceView {
        role: name,
        namespace: name,
        interfaces: match node.interfaces {
            Some(interfaces) => link_ends(name, interfaces),
            None => Seq::empty(),
        },
    }
}

/// The namespaces of the nodes placed on `host`, in key order.
pub open spec fn namespaces_of(nodes: Entries<NodeView>, host: Seq<char>) -> Seq<NamespaceView>
    decreases nodes.len(),
{
    if nodes.len() == 0 {
        Seq::empty()
    } else if nodes.last().1.phynode == Some(host) {
        namespaces_of(nodes.drop_last(), host).push(namespace_of(nodes.last().0, nodes.last().1))
    } else {
        namespaces_of(nodes.drop_last(), host)
    }
}

/// The namespaces of a host: those of the nodes placed on it, or nothing
/// where no node is.
pub open spec fn host_namespaces(d: DuneView, host: Seq<char>) -> Option<Seq<NamespaceView>> {
    if namespaces_of(d.nodes, host).len() > 0 {
        Some(namespaces_of(d.nodes, host))
    } else {
        None
    }
}

/// The machine that the host `host` is: what `base` says of it, under the
/// host's name, with the namespaces of the host.
pub open spec fn machine_of(base: MachineView, host: Seq<char>, d: DuneView) -> MachineView {
    MachineView { hostname: Some(host), namespaces: host_namespaces(d, host), ..base }
}

/// The machines of the first `upto` hosts, or the first of these hosts that
/// `bases` says nothing of.
pub open spec fn machines_of(d: DuneView, bases: Entries<MachineView>, upto: int) -> Result<
    Seq<MachineView>,
    Seq<char>,
>
    decreases upto,
{
    if upto <= 0 {
        Ok(Seq::empty())
    } else {
        match machines_of(d, bases, upto - 1) {
            Err(host) => Err(host),
            Ok(before) => {
                let host = d.infra.nodes[upto - 1].0;
                match lookup(bases, host) {
                    Some(base) => Ok(before.push(machine_of(base, host, d))),
                    None => Err(host),
                }
            },
        }
    }
}

/// The name of the link that the interface `interface` of `node` is an end of.
pub fn link_name(node: &str, interface: &str, peer: &Endpoint) -> (r: String)
    ensures
        r@ == link_text(node@, interface@, peer@),
{
    proof {
        reveal_strlit(":");
        reveal_strlit("-");
    }
    let mut out = String::from_str(node);
    out.append(":");
    out.append(interface);
    out.append("-");
    out.append(peer.node.as_str());
    out.append(":");
    out.append(peer.interface.as_str());
    assert(out@ =~= link_text(node@, interface@, peer@));
    out
}

/// The namespace of the node `node`, stored under `name`.
pub fn node_namespace(name: &String, node: &Node) -> (r: Namespace)
    ensures
        r.deep_view() == namespace_of(name@, node@),
{
    let mut ends: Vec<Interface> = Vec::new();
    match &node.interfaces {
        Some(interfaces) => {
            let ghost all = interfaces.deep_view();
            let n = interfaces.len();
            let mut i: usize = 0;
            assert(all.take(0) =~= Seq::<(Seq<char>, InterfaceView)>::empty());
            assert(ends.deep_view() =~= Seq::<PortView>::empty());
            while i < n
                invariant
                    i <= n,
                    n == interfaces@.len(),
                    all == interfaces.deep_view(),
                    ends.deep_view() == link_ends(name@, all.take(i as int)),
                decreases n - i,
            {
                let ghost before = ends.deep_view();
                let ifname = interfaces.key_at(i);
                let iface = interfaces.value_at(i);
                proof {
                    let upto = all.take(i + 1);
                    assert(upto.drop_last() =~= all.take(i as int));
                    assert(upto.last() == (ifname@, iface@));
                }
                match &iface.peer {
                    Some(peer) => {
                        let end = Interface::ExplicitInterface(
                            ExplicitInterface {
                                link: link_name(name.as_str(), ifname.as_str(), peer),
                                direction: if iface.idx == 0 {
                                    Direction::Forward
                                } else {
                                    Direction::Backward
                                },
                                name: ifname.clone(),
                            },
                        );
                        ends.push(end);
                        assert(ends.deep_view() =~= before.push(end.deep_view()));
                    },
                    None => {},
                }
                i += 1;
            }
            assert(all.take(i as int) =~= all);
        },
        None => {
            assert(ends.deep_view() =~= Seq::<PortView>::empty());
        },
    }
    Namespace { role: name.clone(), namespace: name.clone(), interfaces: ends }
}

impl Dune {
    /// The namespaces of the host `host`: those of the nodes placed on it, in
    /// key order, or nothing where no node is.
    pub fn namespaces_on(&self, host: &str) -> (r: Option<Vec<Namespace>>)
        ensures
            r.deep_view() == host_namespaces(self@, host@),
    {
        let ghost all = self@.nodes;
        let n = self.nodes.len();
        let mut out: Vec<Namespace> = Vec::new();
        let mut i: usize = 0;
        assert(all.take(0) =~= Seq::<(Seq<char>, NodeView)>::empty());
        assert(out.deep_view() =~= Seq::<NamespaceView>::empty());
        while i < n
            invariant
                i <= n,
                n == self.nodes@.len(),
                all == self@.nodes,
                out.deep_view() == namespaces_of(all.take(i as int), host@),
            decreases n - i,
        {
            let ghost before = out.deep_view();
            let node = self.nodes.value_at(i);
            proof {
                let upto = all.take(i + 1);
                assert(upto.drop_last() =~= all.take(i as int));
                assert(upto.last() == (self.nodes@[i as int].0, node@));
            }
            if node.is_on(host) {
                let ns = node_namespace(self.nodes.key_at(i), node);
                out.push(ns);
                assert(out.deep_view() =~= before.push(ns.deep_view()));
            }
            i += 1;
        }
        assert(all.take(i as int) =~= all);
        if out.len() > 0 {
            Some(out)
        } else {
            None
        }
    }
}

impl Machine {
    /// The machine that the host `host` is: what `self` says of it, under the
    /// host's name, with the namespaces of the host.
    pub fn on_host(&self, host: &String, dune: &Dune) -> (r: Machine)
        ensures
            r.deep_view() == machine_of(self.deep_view(), host@, dune@),
    {
        Machine {
            hostname: Some(host.clone()),
            user: self.user.clone(),
            role: self.role.clone(),
            interfaces: self.interfaces.duplicate(),
            namespaces: dune.namespaces_on(host.as_str()),
        }
    }
}

impl Config {
    /// Gives the configuration its machines: one for each host of the
    /// topology, in key order, made from what `bases` says of the host. Fails
    /// with the first host that `bases` says nothing of, and then leaves the
    /// configuration as it is.
    pub fn place_machines(&mut self, bases: &StrMap<Machine>, dune: &Dune) -> (r: Result<
        (),
        String,
    >)
        ensures
            final(self).global == old(self).global,
            final(self).controller == old(self).controller,
            match r {
                Ok(_) => machines_of(
                    dune@,
                    bases.deep_view(),
                    dune@.infra.nodes.len() as int,
                ) == Ok::<Seq<MachineView>, Seq<char>>(final(self).machines.deep_view()->0)
                    && final(self).machines is Some,
                Err(host) => machines_of(
                    dune@,
                    bases.deep_view(),
                    dune@.infra.nodes.len() as int,
                ) == Err::<Seq<MachineView>, Seq<char>>(host@) && final(self).machines == old(
                    self,
                ).machines,
            },
    {
        let hosts = &dune.infra.nodes;
        let n = hosts.len();
        let mut machines: Vec<Machine> = Vec::new();
        let mut i: usize = 0;
        assert(machines.deep_view() =~= Seq::<MachineView>::empty());
        while i < n
            invariant
                i <= n,
                n == hosts@.len(),
                hosts.deep_view() == dune@.infra.nodes,
                machines_of(dune@, bases.deep_view(), i as int) == Ok::<
                    Seq<MachineView>,
                    Seq<char>,
                >(machines.deep_view()),
            decreases n - i,
        {
            let ghost before = machines.deep_view();
            let host = hosts.key_at(i);
            let base = bases.get(host.as_str());
            proof {
                lemma_deep_lookup(bases@, host@);
                assert(dune@.infra.nodes[i as int].0 == host@);
            }
            match base {
                Some(base) => {
                    let machine = base.on_host(host, dune);
                    machines.push(machine);
                    assert(machines.deep_view() =~= before.push(machine.deep_view()));
                },
                None => {
                    proof {
                        lemma_machines_fail(dune@, bases.deep_view(), i + 1, n as int);
                    }
                    return Err(host.clone());
                },
            }
            i += 1;
        }
        self.machines = Some(machines);
        Ok(())
    }
}

/// Once a host is found that `bases` says nothing of, the hosts after it
/// change nothing.
pub proof fn lemma_machines_fail(d: DuneView, bases: Entries<MachineView>, at: int, upto: int)
    requires
        0 <= at <= upto,
        machines_of(d, bases, at) is Err,
    ensures
        machines_of(d, bases, upto) == machines_of(d, bases, at),
    decreases upto - at,
{
    if at < upto {
        lemma_machines_fail(d, bases, at, upto - 1);
    }
}

} // verus!
