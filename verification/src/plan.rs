//! What it takes to bring the nodes of a host up: the files to write, the
//! namespaces to create, and what to set up and run in each of them.

use vstd::prelude::*;
use vstd::string::StringExecFns;
use crate::aggregate::{Dune, DuneView};
use crate::duplicate::Duplicate;
use crate::engine::{split_words, whitespace_words};
use crate::file::{DuneFile, FileView};
use crate::interface::{interface_plan, Interface, InterfacePlan, InterfacePlanView, InterfaceView,
    IpNet, IpNetView};
use crate::materialize::files_to_write;
use crate::node::{Node, NodeView, LOOPBACK};
use crate::pinned::{Pinned, PinnedView, FIRST_CORE};
use crate::strmap::{lemma_deep_lookup, lookup, Entries, StrMap};
use crate::text::str_eq;

verus! {

/// A pinned process to launch: the core to bind to before it is spawned, and
/// its command line, word by word.
#[derive(Debug, Clone, PartialEq, Eq)]
pub struct Launch {
    pub core: u64,
    pub argv: Vec<String>,
}

/// The mathematical form of a [`Launch`].
pub struct LaunchView {
    pub core: u64,
    pub argv: Seq<Seq<char>>,
}

impl DeepView for Launch {
    type V = LaunchView;

    open spec fn deep_view(&self) -> LaunchView {
        LaunchView { core: self.core, argv: self.argv.deep_view() }
    }
}

/// What to do for one pinned process: launch it, where it can be launched, and
/// then run its hooks, each on its own and without waiting for it.
#[derive(Debug, Clone, PartialEq, Eq)]
pub struct PinnedPlan {
    pub launch: Option<Launch>,
    pub post_up: Vec<Vec<String>>,
}

/// The mathematical form of a [`PinnedPlan`].
pub struct PinnedPlanView {
    pub launch: Option<LaunchView>,
    pub post_up: Seq<Seq<Seq<char>>>,
}

impl DeepView for PinnedPlan {
    type V = PinnedPlanView;

    open spec fn deep_view(&self) -> PinnedPlanView {
        PinnedPlanView { launch: self.launch.deep_view(), post_up: self.post_up.deep_view() }
    }
}

/// What to do in and around the namespace of a node: bring up its interfaces,
/// from outside; then, inside the namespace, apply the kernel settings, run
/// the commands, one after the other, and start the pinned processes.
#[derive(Debug, Clone, PartialEq, Eq)]
pub struct NamespacePlan {
    pub name: String,
    pub interfaces: Vec<InterfacePlan>,
    pub sysctls: Vec<Vec<String>>,
    pub execs: Vec<Vec<String>>,
    pub pinned: Vec<PinnedPlan>,
}

/// The mathematical form of a [`NamespacePlan`].
pub struct NamespacePlanView {
    pub name: Seq<char>,
    pub interfaces: Seq<InterfacePlanView>,
    pub sysctls: Seq<Seq<Seq<char>>>,
    pub execs: Seq<Seq<Seq<char>>>,
    pub pinned: Seq<PinnedPlanView>,
}

impl DeepView for NamespacePlan {
    type V = NamespacePlanView;

    open spec fn deep_view(&self) -> NamespacePlanView {
        NamespacePlanView {
            name: self.name@,
            interfaces: self.interfaces.deep_view(),
            sysctls: self.sysctls.deep_view(),
            execs: self.execs.deep_view(),
            pinned: self.pinned.deep_view(),
        }
    }
}

/// What to do to set a node up: write its files, then what its namespace
/// takes. A node without a name has no namespace.
#[derive(Debug, Clone, PartialEq, Eq)]
pub struct NodePlan {
    pub files: Vec<DuneFile>,
    pub namespace: Option<NamespacePlan>,
}

/// The mathematical form of a [`NodePlan`].
pub struct NodePlanView {
    pub files: Seq<FileView>,
    pub namespace: Option<NamespacePlanView>,
}

impl DeepView for NodePlan {
    type V = NodePlanView;

    open spec fn deep_view(&self) -> NodePlanView {
        NodePlanView { files: self.files.deep_view(), namespace: self.namespace.deep_view() }
    }
}

/// What to do on a host: create the namespaces, all of them first, then set
/// each node up.
#[derive(Debug, Clone, PartialEq, Eq)]
pub struct HostPlan {
    pub namespaces: Vec<String>,
    pub nodes: Vec<NodePlan>,
}

/// The mathematical form of a [`HostPlan`].
pub struct HostPlanView {
    pub namespaces: Seq<Seq<char>>,
    pub nodes: Seq<NodePlanView>,
}

impl DeepView for HostPlan {
    type V = HostPlanView;

    open spec fn deep_view(&self) -> HostPlanView {
        HostPlanView { namespaces: self.namespaces.deep_view(), nodes: self.nodes.deep_view() }
    }
}

/// The command that runs `cmd` in a shell.
pub open spec fn shell_command(cmd: Seq<char>) -> Seq<Seq<char>> {
    seq!["bash"@, "-c"@, cmd]
}

/// The command that applies a kernel setting.
pub open spec fn sysctl_command(key: Seq<char>, value: Seq<char>) -> Seq<Seq<char>> {
    seq!["sysctl"@, "-w"@, key + seq!['='] + value]
}

/// Each command of a list, to run in a shell.
pub open spec fn shell_commands(list: Option<Seq<Seq<char>>>) -> Seq<Seq<Seq<char>>> {
    match list {
        Some(l) => Seq::new(l.len(), |i: int| shell_command(l[i])),
        None => Seq::empty(),
    }
}

/// The commands that apply the kernel settings, in key order.
pub open spec fn sysctl_commands(sysctls: Option<Entries<Seq<char>>>) -> Seq<Seq<Seq<char>>> {
    match sysctls {
        Some(map) => Seq::new(map.len(), |i: int| sysctl_command(map[i].0, map[i].1)),
        None => Seq::empty(),
    }
}

/// The launch of a process with the command line `argv`: on the core `core`,
/// where there is one and the command line holds a word at least.
pub open spec fn launch_given(argv: Seq<Seq<char>>, core: Option<u64>) -> Option<LaunchView> {
    match core {
        Some(core) => if argv.len() > 0 {
            Some(LaunchView { core: core, argv: argv })
        } else {
            None
        },
        None => None,
    }
}

/// The launch of a process: that of [`launch_given`], for the words of its
/// command.
pub open spec fn launch_of(cmd: Seq<char>, core: Option<u64>) -> Option<LaunchView> {
    launch_given(whitespace_words(cmd), core)
}

/// What to do for one pinned process, bound to `core`.
pub open spec fn pinned_plan(p: PinnedView, core: Option<u64>) -> PinnedPlanView {
    PinnedPlanView { launch: launch_of(p.cmd, core), post_up: shell_commands(p.post_up) }
}

/// What to do for the pinned processes of a node: each is bound to the core
/// given to the node's `core_0`. A node that asks for no `core_0` starts none.
pub open spec fn pinned_plans(node: NodeView) -> Seq<PinnedPlanView> {
    match (node.pinned, node.cores) {
        (Some(list), Some(cores)) => match lookup(cores, FIRST_CORE@) {
            Some(core) => Seq::new(list.len(), |i: int| pinned_plan(list[i], core)),
            None => Seq::empty(),
        },
        _ => Seq::empty(),
    }
}

/// The addresses that a node holds for an interface.
pub open spec fn addrs_for(node: NodeView, name: Seq<char>) -> Option<Seq<IpNetView>> {
    match node.addrs {
        Some(addrs) => lookup(addrs, name),
        None => None,
    }
}

/// The plans of the interfaces but the loopback interface, in key order.
pub open spec fn link_plans(node: NodeView, interfaces: Entries<InterfaceView>, netns: Seq<char>)
    -> Seq<InterfacePlanView>
    decreases interfaces.len(),
{
    if interfaces.len() == 0 {
        Seq::empty()
    } else {
        let before = link_plans(node, interfaces.drop_last(), netns);
        let (name, iface) = interfaces.last();
        if name == LOOPBACK@ {
            before
        } else {
            before.push(interface_plan(iface, netns, addrs_for(node, name)))
        }
    }
}

/// The plans of the interfaces of a node: the loopback interface first, where
/// the node has one, then the others in key order.
pub open spec fn interface_plans(node: NodeView, netns: Seq<char>) -> Seq<InterfacePlanView> {
    match node.interfaces {
        Some(interfaces) => {
            let first = match lookup(interfaces, LOOPBACK@) {
                Some(lo) => seq![interface_plan(lo, netns, addrs_for(node, LOOPBACK@))],
                None => Seq::empty(),
            };
            first + link_plans(node, interfaces, netns)
        },
        None => Seq::empty(),
    }
}

/// What the namespace `name` of a node takes.
pub open spec fn namespace_plan(node: NodeView, name: Seq<char>) -> NamespacePlanView {
    NamespacePlanView {
        name: name,
        interfaces: interface_plans(node, name),
        sysctls: sysctl_commands(node.sysctls),
        execs: shell_commands(node.execs),
        pinned: pinned_plans(node),
    }
}

/// What to do to set a node up.
pub open spec fn node_plan(node: NodeView) -> NodePlanView {
    NodePlanView {
        files: files_to_write(node),
        namespace: match node.name {
            Some(name) => Some(namespace_plan(node, name)),
            None => None,
        },
    }
}

/// The nodes placed on the host `host`, in key order.
pub open spec fn hosted(nodes: Entries<NodeView>, host: Seq<char>) -> Seq<NodeView>
    decreases nodes.len(),
{
    if nodes.len() == 0 {
        Seq::empty()
    } else if nodes.last().1.phynode == Some(host) {
        hosted(nodes.drop_last(), host).push(nodes.last().1)
    } else {
        hosted(nodes.drop_last(), host)
    }
}

/// The names of the nodes that have one, in order.
pub open spec fn names_of(nodes: Seq<NodeView>) -> Seq<Seq<char>>
    decreases nodes.len(),
{
    if nodes.len() == 0 {
        Seq::empty()
    } else {
        match nodes.last().name {
            Some(name) => names_of(nodes.drop_last()).push(name),
            None => names_of(nodes.drop_last()),
        }
    }
}

/// What to do on the host `host`: a namespace for each node placed there that
/// has a name, and the plan of each node placed there.
pub open spec fn host_plan(d: DuneView, host: Seq<char>) -> HostPlanView {
    let placed = hosted(d.nodes, host);
    HostPlanView {
        namespaces: names_of(placed),
        nodes: Seq::new(placed.len(), |i: int| node_plan(placed[i])),
    }
}

/// The command that runs `cmd` in a shell.
pub fn shell(cmd: &String) -> (r: Vec<String>)
    ensures
        r.deep_view() == shell_command(cmd@),
{
    let mut out: Vec<String> = Vec::new();
    out.push(String::from_str("bash"));
    out.push(String::from_str("-c"));
    out.push(cmd.clone());
    assert(out.deep_view() =~= shell_command(cmd@));
    out
}

/// Each command of a list, to run in a shell.
pub fn shells(list: &Option<Vec<String>>) -> (r: Vec<Vec<String>>)
    ensures
        r.deep_view() == shell_commands(list.deep_view()),
{
    let mut out: Vec<Vec<String>> = Vec::new();
    match list {
        Some(l) => {
            let mut i: usize = 0;
            while i < l.len()
                invariant
                    i <= l.len(),
                    out@.len() == i,
                    forall|j: int|
                        0 <= j < i ==> (#[trigger] out@[j]).deep_view() == shell_command(l@[j]@),
                decreases l.len() - i,
            {
                out.push(shell(&l[i]));
                i += 1;
            }
        },
        None => {},
    }
    assert(out.deep_view() =~= shell_commands(list.deep_view()));
    out
}

/// The commands that apply the kernel settings.
pub fn sysctl_list(sysctls: &Option<StrMap<String>>) -> (r: Vec<Vec<String>>)
    ensures
        r.deep_view() == sysctl_commands(sysctls.deep_view()),
{
    let mut out: Vec<Vec<String>> = Vec::new();
    match sysctls {
        Some(map) => {
            let n = map.len();
            let mut i: usize = 0;
            while i < n
                invariant
                    i <= n,
                    n == map@.len(),
                    out@.len() == i,
                    forall|j: int|
                        0 <= j < i ==> (#[trigger] out@[j]).deep_view() == sysctl_command(
                            map@[j].0,
                            map@[j].1@,
                        ),
                decreases n - i,
            {
                proof {
                    reveal_strlit("=");
                }
                let mut setting = map.key_at(i).clone();
                setting.append("=");
                setting.append(map.value_at(i).as_str());
                assert(setting@ =~= map@[i as int].0 + seq!['='] + map@[i as int].1@);
                let mut cmd: Vec<String> = Vec::new();
                cmd.push(String::from_str("sysctl"));
                cmd.push(String::from_str("-w"));
                cmd.push(setting);
                assert(cmd.deep_view() =~= sysctl_command(map@[i as int].0, map@[i as int].1@));
                out.push(cmd);
                i += 1;
            }
        },
        None => {},
    }
    assert(out.deep_view() =~= sysctl_commands(sysctls.deep_view()));
    out
}

/// The launch of a process with the command line `argv`, on the core `core`.
pub fn launch_from(argv: Vec<String>, core: Option<u64>) -> (r: Option<Launch>)
    ensures
        r.deep_view() == launch_given(argv.deep_view(), core),
{
    match core {
        Some(core) => {
            if argv.len() > 0 {
                Some(Launch { core, argv })
            } else {
                None
            }
        },
        None => None,
    }
}

impl Pinned {
    /// What to do for the process, bound to `core`.
    pub fn plan(&self, core: Option<u64>) -> (r: PinnedPlan)
        ensures
            r.deep_view() == pinned_plan(self@, core),
    {
        PinnedPlan {
            launch: launch_from(split_words(self.cmd.as_str()), core),
            post_up: shells(&self.post_up),
        }
    }
}

impl Node {
    /// The addresses that the node holds for the interface `name`.
    pub fn addrs_of(&self, name: &str) -> (r: Option<&Vec<IpNet>>)
        ensures
            r.deep_view() == addrs_for(self@, name@),
    {
        match &self.addrs {
            Some(addrs) => {
                let found = addrs.get(name);
                proof {
                    lemma_deep_lookup(addrs@, name@);
                }
                found
            },
            None => None,
        }
    }

    /// What to do for the pinned processes of the node.
    pub fn pinned_plans(&self) -> (r: Vec<PinnedPlan>)
        ensures
            r.deep_view() == pinned_plans(self@),
    {
        let mut out: Vec<PinnedPlan> = Vec::new();
        match (&self.pinned, &self.cores) {
            (Some(list), Some(cores)) => {
                let first = cores.get(FIRST_CORE);
                proof {
                    lemma_deep_lookup(cores@, FIRST_CORE@);
                }
                match first {
                    Some(core) => {
                        let mut i: usize = 0;
                        while i < list.len()
                            invariant
                                i <= list.len(),
                                out@.len() == i,
                                forall|j: int|
                                    0 <= j < i ==> (#[trigger] out@[j]).deep_view() == pinned_plan(
                                        list@[j]@,
                                        *core,
                                    ),
                            decreases list.len() - i,
                        {
                            out.push(list[i].plan(*core));
                            i += 1;
                        }
                        assert(out.deep_view() =~= pinned_plans(self@));
                    },
                    None => {
                        assert(out.deep_view() =~= pinned_plans(self@));
                    },
                }
            },
            _ => {
                assert(out.deep_view() =~= pinned_plans(self@));
            },
        }
        out
    }

    /// The plans of the interfaces of the node, for the namespace `netns`.
    #[verifier::rlimit(30)]
    pub fn interface_plans(&self, netns: &str) -> (r: Vec<InterfacePlan>)
        ensures
            r.deep_view() == interface_plans(self@, netns@),
    {
        let mut out: Vec<InterfacePlan> = Vec::new();
        match &self.interfaces {
            Some(interfaces) => {
                let lo = interfaces.get(LOOPBACK);
                proof {
                    lemma_deep_lookup(interfaces@, LOOPBACK@);
                }
                match lo {
                    Some(lo) => {
                        out.push(lo.setup(netns, self.addrs_of(LOOPBACK)));
                    },
                    None => {},
                }
                let ghost first = out.deep_view();
                let ghost all = interfaces.deep_view();
                let n = interfaces.len();
                let mut i: usize = 0;
                assert(all.take(0) =~= Seq::<(Seq<char>, InterfaceView)>::empty());
                assert(out.deep_view() =~= first + link_plans(self@, all.take(0), netns@));
                while i < n
                    invariant
                        i <= n,
                        n == interfaces@.len(),
                        all == interfaces.deep_view(),
                        out.deep_view() == first + link_plans(self@, all.take(i as int), netns@),
                    decreases n - i,
                {
                    let ghost before = out.deep_view();
                    let name = interfaces.key_at(i);
                    proof {
                        let upto = all.take(i + 1);
                        assert(upto.drop_last() =~= all.take(i as int));
                        assert(upto.last() == (name@, interfaces@[i as int].1@));
                    }
                    if !str_eq(name.as_str(), LOOPBACK) {
                        let plan = interfaces.value_at(i).setup(netns, self.addrs_of(name.as_str()));
                        out.push(plan);
                        assert(out.deep_view() =~= before.push(plan.deep_view()));
                    }
                    assert(out.deep_view() =~= first + link_plans(self@, all.take(i + 1), netns@));
                    i += 1;
                }
                assert(all.take(i as int) =~= all);
            },
            None => {
                assert(out.deep_view() =~= interface_plans(self@, netns@));
            },
        }
        out
    }

    /// What to do to set the node up.
    pub fn setup(&self) -> (r: NodePlan)
        ensures
            r.deep_view() == node_plan(self@),
    {
        let namespace = match &self.name {
            Some(name) => Some(
                NamespacePlan {
                    name: name.clone(),
                    interfaces: self.interface_plans(name.as_str()),
                    sysctls: sysctl_list(&self.sysctls),
                    execs: shells(&self.execs),
                    pinned: self.pinned_plans(),
                },
            ),
            None => None,
        };
        NodePlan { files: self.dump_files(), namespace }
    }

    /// Whether the node is placed on the host `host`.
    pub fn is_on(&self, host: &str) -> (r: bool)
        ensures
            r == (self@.phynode == Some(host@)),
    {
        match &self.phynode {
            Some(placed) => str_eq(placed.as_str(), host),
            None => false,
        }
    }
}

impl Dune {
    /// What to do on the host `phynode`: the namespaces to create and the
    /// plan of each node placed there.
    #[verifier::rlimit(30)]
    pub fn phynode_setup(&self, phynode: &str) -> (r: HostPlan)
        ensures
            r.deep_view() == host_plan(self@, phynode@),
    {
        let ghost all = self@.nodes;
        let n = self.nodes.len();
        let mut namespaces: Vec<String> = Vec::new();
        let mut nodes: Vec<NodePlan> = Vec::new();
        let mut i: usize = 0;
        assert(all.take(0) =~= Seq::<(Seq<char>, NodeView)>::empty());
        assert(namespaces.deep_view() =~= Seq::<Seq<char>>::empty());
        while i < n
            invariant
                i <= n,
                n == self.nodes@.len(),
                all == self@.nodes,
                namespaces.deep_view() == names_of(hosted(all.take(i as int), phynode@)),
                nodes@.len() == hosted(all.take(i as int), phynode@).len(),
                forall|j: int|
                    0 <= j < nodes@.len() ==> (#[trigger] nodes@[j]).deep_view() == node_plan(
                        hosted(all.take(i as int), phynode@)[j],
                    ),
            decreases n - i,
        {
            let node = self.nodes.value_at(i);
            let ghost names = namespaces.deep_view();
            proof {
                let upto = all.take(i + 1);
                assert(upto.drop_last() =~= all.take(i as int));
                assert(upto.last().1 == node@);
            }
            if node.is_on(phynode) {
                proof {
                    let placed = hosted(all.take(i + 1), phynode@);
                    assert(placed.drop_last() =~= hosted(all.take(i as int), phynode@));
                }
                match node.init() {
                    Some(name) => {
                        namespaces.push(name);
                        assert(namespaces.deep_view() =~= names.push(name@));
                    },
                    None => {},
                }
                nodes.push(node.setup());
            }
            i += 1;
        }
        assert(all.take(i as int) =~= all);
        assert(nodes.deep_view() =~= host_plan(self@, phynode@).nodes);
        HostPlan { namespaces, nodes }
    }
}

} // verus!
