//! Virtual nodes: what a node is configured with, what it needs, and what it
//! takes to bring it up.

use vstd::prelude::*;
use vstd::string::StringExecFns;
use crate::datum::{Datum, Tree};
use crate::defaults::{NodesDefaults, NodesDefaultsView};
use crate::duplicate::Duplicate;
use crate::file::{DuneFile, FileView};
use crate::interface::{blank_interface, interface_of, Interface, InterfaceView, IpNet, IpNetView};
use crate::link::{Link, LinkView, LinksDefaults, LinksDefaultsView};
use crate::merge::{expand, expanded, lemma_expanded_list_idempotent,
    lemma_expanded_map_idempotent};
use crate::pinned::{resolved, Pinned, PinnedView};
use crate::strmap::{has_key, keys_sorted, lemma_deep_keys, lemma_deep_lookup, lemma_deep_put,
    lemma_put_lookup, lemma_put_places, lemma_put_sorted, lemma_sorted_ext, lookup,
    place_before_put, put, rank, Entries, StrMap};

verus! {

/// The name of the loopback interface.
pub const LOOPBACK: &'static str = "lo";

/// A virtual node.
#[derive(Debug, Clone)]
pub struct Node {
    /// Kernel settings to apply in the node's namespace.
    pub sysctls: Option<StrMap<String>>,
    /// Templates to render: the template's name, and where its output goes.
    pub templates: Option<StrMap<String>>,
    /// Files to copy into place.
    pub binds: Option<Vec<DuneFile>>,
    /// Shell commands to run in the node's namespace.
    pub execs: Option<Vec<String>>,
    /// Processes to run pinned to cores.
    pub pinned: Option<Vec<Pinned>>,
    /// The addresses of each interface, by the interface's name.
    pub addrs: Option<StrMap<Vec<IpNet>>>,
    /// The node's name.
    pub name: Option<String>,
    /// The cores asked for, by name, each with the physical core given to it.
    pub cores: Option<StrMap<Option<u64>>>,
    /// The physical host that the node is placed on.
    pub phynode: Option<String>,
    /// The node's interfaces, by name.
    pub interfaces: Option<StrMap<Interface>>,
    /// The rendered templates.
    pub tmpls: Option<Vec<DuneFile>>,
    /// Whatever else the configuration says of the node.
    pub _additional_fields: Option<StrMap<Datum>>,
}

/// The mathematical form of a [`Node`].
pub struct NodeView {
    pub sysctls: Option<Entries<Seq<char>>>,
    pub templates: Option<Entries<Seq<char>>>,
    pub binds: Option<Seq<FileView>>,
    pub execs: Option<Seq<Seq<char>>>,
    pub pinned: Option<Seq<PinnedView>>,
    pub addrs: Option<Entries<Seq<IpNetView>>>,
    pub name: Option<Seq<char>>,
    pub cores: Option<Entries<Option<u64>>>,
    pub phynode: Option<Seq<char>>,
    pub interfaces: Option<Entries<InterfaceView>>,
    pub tmpls: Option<Seq<FileView>>,
    pub _additional_fields: Option<Entries<Tree>>,
}

impl DeepView for Node {
    type V = NodeView;

    open spec fn deep_view(&self) -> NodeView {
        NodeView {
            sysctls: self.sysctls.deep_view(),
            templates: self.templates.deep_view(),
            binds: self.binds.deep_view(),
            execs: self.execs.deep_view(),
            pinned: self.pinned.deep_view(),
            addrs: self.addrs.deep_view(),
            name: self.name.deep_view(),
            cores: self.cores.deep_view(),
            phynode: self.phynode.deep_view(),
            interfaces: self.interfaces.deep_view(),
            tmpls: self.tmpls.deep_view(),
            _additional_fields: self._additional_fields.deep_view(),
        }
    }
}

impl View for Node {
    type V = NodeView;

    open spec fn view(&self) -> NodeView {
        self.deep_view()
    }
}

/// The node that sets nothing.
pub open spec fn blank_node() -> NodeView {
    NodeView {
        sysctls: None,
        templates: None,
        binds: None,
        execs: None,
        pinned: None,
        addrs: None,
        name: None,
        cores: None,
        phynode: None,
        interfaces: None,
        tmpls: None,
        _additional_fields: None,
    }
}

/// The node that the defaults of nodes describe.
pub open spec fn node_from_defaults(dflt: Option<NodesDefaultsView>) -> NodeView {
    match dflt {
        Some(d) => NodeView {
            pinned: d.pinned,
            binds: d.binds,
            sysctls: d.sysctls,
            execs: d.execs,
            templates: d.templates,
            ..blank_node()
        },
        None => blank_node(),
    }
}

/// The process `p` asks for a core under `name`.
pub open spec fn holds_core(p: PinnedView, name: Seq<char>) -> bool {
    match p.cores {
        Some(cores) => has_key(cores, name),
        None => false,
    }
}

/// One of the first `upto` processes asks for a core under `name`.
pub open spec fn asks_for(pinned: Seq<PinnedView>, upto: int, name: Seq<char>) -> bool {
    exists|i: int| 0 <= i < upto && i < pinned.len() && holds_core(#[trigger] pinned[i], name)
}

/// `slots` has one entry for each name under which a process asks for a core,
/// and no core is given to any of them yet.
pub open spec fn slots_of(pinned: Seq<PinnedView>, slots: Entries<Option<u64>>) -> bool {
    &&& keys_sorted(slots)
    &&& forall|name: Seq<char>| has_key(slots, name) == asks_for(pinned, pinned.len() as int, name)
    &&& forall|name: Seq<char>|
        lookup(slots, name) == (if asks_for(pinned, pinned.len() as int, name) {
            Some(None::<u64>)
        } else {
            None
        })
}

/// The cores that the processes ask for, none of them given yet.
pub open spec fn slots(pinned: Seq<PinnedView>) -> Entries<Option<u64>> {
    choose|slots: Entries<Option<u64>>| slots_of(pinned, slots)
}

/// There is one map only of the cores that the processes ask for.
pub proof fn lemma_slots_unique(pinned: Seq<PinnedView>, found: Entries<Option<u64>>)
    requires
        slots_of(pinned, found),
    ensures
        found == slots(pinned),
{
    let other = slots(pinned);
    assert(slots_of(pinned, other));
    lemma_sorted_ext(found, other);
}

/// The processes `after` are the processes `before` with their cores worked
/// out, and `slots` holds the cores that they ask for together: every process
/// whose cores were not set beforehand asks for `core_0`.
pub open spec fn well_resolved(
    before: Seq<PinnedView>,
    after: Seq<PinnedView>,
    slots: Entries<Option<u64>>,
) -> bool {
    &&& after == resolved_all(before)
    &&& slots_of(after, slots)
    &&& forall|i: int|
        0 <= i < before.len() && before[i].cores is None ==> holds_core(
            #[trigger] after[i],
            crate::pinned::FIRST_CORE@,
        )
}

/// A node asks for a core at least exactly if it has a process at least,
/// provided that each of its processes asks for `core_0`.
pub proof fn lemma_cores_iff_pinned(pinned: Seq<PinnedView>, slots: Entries<Option<u64>>)
    requires
        slots_of(pinned, slots),
        forall|i: int|
            0 <= i < pinned.len() ==> holds_core(#[trigger] pinned[i], crate::pinned::FIRST_CORE@),
    ensures
        slots.len() > 0 <==> pinned.len() > 0,
{
    if pinned.len() > 0 {
        assert(holds_core(pinned[0], crate::pinned::FIRST_CORE@));
        assert(asks_for(pinned, pinned.len() as int, crate::pinned::FIRST_CORE@));
        assert(has_key(slots, crate::pinned::FIRST_CORE@));
    }
    if slots.len() > 0 {
        assert(has_key(slots, slots[0].0));
        assert(asks_for(pinned, pinned.len() as int, slots[0].0));
    }
}

/// The processes, each with its cores worked out.
pub open spec fn resolved_all(pinned: Seq<PinnedView>) -> Seq<PinnedView> {
    Seq::new(pinned.len(), |i: int| resolved(pinned[i]))
}

/// The loopback interface with the addresses `addrs`.
pub open spec fn loopback_interface(addrs: Seq<IpNetView>) -> InterfaceView {
    InterfaceView { name: LOOPBACK@, addrs: Some(addrs), ..blank_interface() }
}

/// The interfaces of a node before any link is looked at: the loopback
/// interface, where the node has addresses for it.
pub open spec fn first_interfaces(addrs: Option<Entries<Seq<IpNetView>>>) -> Option<
    Entries<InterfaceView>,
> {
    match addrs {
        Some(a) => match lookup(a, LOOPBACK@) {
            Some(lo) => Some(seq![(LOOPBACK@, loopback_interface(lo))]),
            None => None,
        },
        None => None,
    }
}

/// The node named `name` that `config` describes over the defaults `dflt`.
///
/// Maps are merged key by key, the node's own entries over the defaults;
/// lists are joined, the defaults first. The addresses are the node's own.
/// Each process has its cores worked out, and the node asks for all of them.
pub open spec fn node_of(dflt: Option<NodesDefaultsView>, config: NodeView, name: Seq<char>)
    -> NodeView {
    let base = node_from_defaults(dflt);
    let pinned = match expanded::<Vec<Pinned>>(base.pinned, config.pinned) {
        Some(list) => Some(resolved_all(list)),
        None => None,
    };
    NodeView {
        sysctls: expanded::<StrMap<String>>(base.sysctls, config.sysctls),
        templates: expanded::<StrMap<String>>(base.templates, config.templates),
        binds: expanded::<Vec<DuneFile>>(base.binds, config.binds),
        execs: expanded::<Vec<String>>(base.execs, config.execs),
        pinned: pinned,
        addrs: config.addrs,
        name: Some(name),
        cores: match pinned {
            Some(list) => Some(slots(list)),
            None => None,
        },
        phynode: None,
        interfaces: first_interfaces(config.addrs),
        tmpls: None,
        _additional_fields: config._additional_fields,
    }
}

/// The index asked for on a new interface of a node that has `count`
/// interfaces already: the first two indexes are left alone. It is cut to 32
/// bits.
pub open spec fn next_ifindex(count: nat) -> u32 {
    (count + 2) as u32
}

/// The node `node` once end `idx` of the link `link` is looked at: the node
/// has an interface for that end, with the addresses that the node holds for
/// it. Where the node has an interface of that name already, it keeps it.
pub open spec fn node_with_interface(
    node: NodeView,
    dflt: Option<LinksDefaultsView>,
    link: LinkView,
    idx: usize,
) -> NodeView {
    let present = match node.interfaces {
        Some(interfaces) => interfaces,
        None => Seq::empty(),
    };
    let name = link.endpoints[idx as int].interface;
    let made = interface_of(dflt, link, idx, next_ifindex(present.len()));
    let found = match node.addrs {
        Some(addrs) => lookup(addrs, name),
        None => None,
    };
    let iface = match found {
        Some(list) => InterfaceView { addrs: Some(list), ..made },
        None => made,
    };
    NodeView {
        interfaces: Some(
            if has_key(present, name) {
                present
            } else {
                put(present, name, iface)
            },
        ),
        ..node
    }
}

impl Default for Node {
    fn default() -> (r: Node)
        ensures
            r@ == blank_node(),
    {
        Node {
            sysctls: None,
            templates: None,
            binds: None,
            execs: None,
            pinned: None,
            addrs: None,
            name: None,
            cores: None,
            phynode: None,
            interfaces: None,
            tmpls: None,
            _additional_fields: None,
        }
    }
}

impl From<&NodesDefaults> for Node {
    /// The node that the defaults describe.
    fn from(dflt: &NodesDefaults) -> (r: Self)
        ensures
            r@ == node_from_defaults(Some(dflt@)),
    {
        Node {
            sysctls: dflt.sysctls.duplicate(),
            templates: dflt.templates.duplicate(),
            binds: dflt.binds.duplicate(),
            execs: dflt.execs.duplicate(),
            pinned: dflt.pinned.duplicate(),
            addrs: None,
            name: None,
            cores: None,
            phynode: None,
            interfaces: None,
            tmpls: None,
            _additional_fields: None,
        }
    }
}

impl vstd::std_specs::convert::FromSpecImpl<&NodesDefaults> for Node {
    /// The conversion is stated by the `ensures` of `from`, over views.
    open spec fn obeys_from_spec() -> bool {
        false
    }

    open spec fn from_spec(dflt: &NodesDefaults) -> Self {
        arbitrary()
    }
}

/// Works out the cores of each process of `list`, and the cores that they ask
/// for together.
#[verifier::rlimit(30)]
pub fn resolve_pinned(list: &Vec<Pinned>) -> (r: (Vec<Pinned>, StrMap<Option<u64>>))
    ensures
        r.0.deep_view() == resolved_all(list.deep_view()),
        r.1.deep_view() == slots(resolved_all(list.deep_view())),
        well_resolved(list.deep_view(), r.0.deep_view(), r.1.deep_view()),
{
    let mut out: Vec<Pinned> = Vec::new();
    let mut wanted: StrMap<Option<u64>> = StrMap::new();
    let ghost all = resolved_all(list.deep_view());
    let mut i: usize = 0;
    assert(keys_sorted(wanted@));
    while i < list.len()
        invariant
            i <= list.len(),
            all == resolved_all(list.deep_view()),
            out@.len() == i,
            forall|j: int| 0 <= j < i ==> (#[trigger] out@[j])@ == all[j],
            forall|j: int|
                0 <= j < i && list@[j]@.cores is None ==> holds_core(
                    #[trigger] all[j],
                    crate::pinned::FIRST_CORE@,
                ),
            keys_sorted(wanted@),
            forall|name: Seq<char>| has_key(wanted@, name) == asks_for(all, i as int, name),
            forall|name: Seq<char>|
                lookup(wanted@, name) == (if asks_for(all, i as int, name) {
                    Some(None::<u64>)
                } else {
                    None
                }),
        decreases list.len() - i,
    {
        let mut p = list[i].duplicate();
        let cores = p.cores();
        assert(p@ == all[i as int]);
        assert(list@[i as int]@.cores is None ==> holds_core(
            all[i as int],
            crate::pinned::FIRST_CORE@,
        ));
        let ghost held = cores.deep_view();
        let n = cores.len();
        let mut j: usize = 0;
        proof {
            lemma_deep_keys(cores@);
        }
        while j < n
            invariant
                j <= n,
                n == cores@.len(),
                i < list.len(),
                held == cores.deep_view(),
                all[i as int].cores == Some(held),
                keys_sorted(wanted@),
                forall|name: Seq<char>|
                    has_key(wanted@, name) == (asks_for(all, i as int, name) || exists|k: int|
                        0 <= k < j && (#[trigger] held[k]).0 == name),
                forall|name: Seq<char>|
                    lookup(wanted@, name) == (if asks_for(all, i as int, name) || exists|k: int|
                        0 <= k < j && (#[trigger] held[k]).0 == name {
                        Some(None::<u64>)
                    } else {
                        None
                    }),
            decreases n - j,
        {
            let ghost before = wanted@;
            let key = cores.key_at(j).clone();
            assert(held[j as int].0 == key@);
            wanted.insert(key, None);
            proof {
                assert forall|name: Seq<char>|
                    has_key(wanted@, name) == (asks_for(all, i as int, name) || exists|k: int|
                        0 <= k < j + 1 && (#[trigger] held[k]).0 == name) by {
                    lemma_put_lookup(before, key@, None::<u64>, name);
                    if exists|k: int| 0 <= k < j + 1 && (#[trigger] held[k]).0 == name {
                        let k = choose|k: int| 0 <= k < j + 1 && (#[trigger] held[k]).0 == name;
                        if k < j {
                            assert(held[k].0 == name);
                        }
                    }
                }
                assert forall|name: Seq<char>|
                    lookup(wanted@, name) == (if asks_for(all, i as int, name) || exists|k: int|
                        0 <= k < j + 1 && (#[trigger] held[k]).0 == name {
                        Some(None::<u64>)
                    } else {
                        None
                    }) by {
                    lemma_put_lookup(before, key@, None::<u64>, name);
                    if exists|k: int| 0 <= k < j + 1 && (#[trigger] held[k]).0 == name {
                        let k = choose|k: int| 0 <= k < j + 1 && (#[trigger] held[k]).0 == name;
                        if k < j {
                            assert(held[k].0 == name);
                        }
                    }
                }
            }
            j += 1;
        }
        out.push(p);
        proof {
            assert forall|name: Seq<char>|
                asks_for(all, i + 1, name) == (asks_for(all, i as int, name) || exists|k: int|
                    0 <= k < n && (#[trigger] held[k]).0 == name) by {
                if asks_for(all, i + 1, name) {
                    let w = choose|w: int|
                        0 <= w < i + 1 && w < all.len() && holds_core(#[trigger] all[w], name);
                    if w < i {
                        assert(asks_for(all, i as int, name));
                    } else {
                        assert(has_key(held, name));
                        let k = crate::strmap::key_index(held, name);
                        assert(held[k].0 == name);
                    }
                }
                if asks_for(all, i as int, name) {
                    let w = choose|w: int|
                        0 <= w < i && w < all.len() && holds_core(#[trigger] all[w], name);
                    assert(holds_core(all[w], name));
                    assert(asks_for(all, i + 1, name));
                }
                if exists|k: int| 0 <= k < n && (#[trigger] held[k]).0 == name {
                    let k = choose|k: int| 0 <= k < n && (#[trigger] held[k]).0 == name;
                    assert(has_key(held, name));
                    assert(holds_core(all[i as int], name));
                    assert(asks_for(all, i + 1, name));
                }
            }
        }
        i += 1;
    }
    proof {
        assert(out.deep_view() =~= all);
        lemma_deep_keys(wanted@);
        let found = wanted.deep_view();
        assert(found =~= wanted@);
        lemma_slots_unique(all, found);
    }
    (out, wanted)
}

/// The interfaces that a node starts with: the loopback interface, where the
/// node has addresses for it.
pub fn loopback(addrs: &Option<StrMap<Vec<IpNet>>>) -> (r: Option<StrMap<Interface>>)
    ensures
        r.deep_view() == first_interfaces(addrs.deep_view()),
{
    match addrs {
        Some(by_name) => match by_name.get(LOOPBACK) {
            Some(list) => {
                proof {
                    lemma_deep_lookup(by_name@, LOOPBACK@);
                }
                let mut lo = Interface::default();
                lo.name = String::from_str(LOOPBACK);
                lo.addrs = Some(list.duplicate());
                let mut interfaces: StrMap<Interface> = StrMap::new();
                interfaces.insert(String::from_str(LOOPBACK), lo);
                assert(interfaces.deep_view() =~= seq![(LOOPBACK@, lo@)]);
                Some(interfaces)
            },
            None => {
                proof {
                    lemma_deep_lookup(by_name@, LOOPBACK@);
                }
                None
            },
        },
        None => None,
    }
}

impl Node {
    /// The node named `name` that `config` describes over the defaults `dflt`.
    pub fn new(dflt: &Option<NodesDefaults>, config: &Node, name: &String) -> (r: Node)
        ensures
            r@ == node_of(dflt.deep_view(), config@, name@),
            match expanded::<Vec<Pinned>>(
                node_from_defaults(dflt.deep_view()).pinned,
                config@.pinned,
            ) {
                Some(declared) => r@.pinned is Some && r@.cores is Some && well_resolved(
                    declared,
                    r@.pinned->0,
                    r@.cores->0,
                ),
                None => r@.pinned is None && r@.cores is None,
            },
    {
        let base = match dflt {
            Some(d) => Node::from(d),
            None => Node::default(),
        };
        let mut sysctls = base.sysctls;
        expand(&mut sysctls, &config.sysctls);
        let mut binds = base.binds;
        expand(&mut binds, &config.binds);
        let mut templates = base.templates;
        expand(&mut templates, &config.templates);
        let mut execs = base.execs;
        expand(&mut execs, &config.execs);
        let mut merged = base.pinned;
        expand(&mut merged, &config.pinned);
        let mut fields = base._additional_fields;
        expand(&mut fields, &config._additional_fields);

        // each process has its cores worked out; none is given yet
        let (pinned, cores) = match merged {
            Some(list) => {
                let pair = resolve_pinned(&list);
                (Some(pair.0), Some(pair.1))
            },
            None => (None, None),
        };
        Node {
            sysctls,
            templates,
            binds,
            execs,
            pinned,
            addrs: config.addrs.duplicate(),
            name: Some(name.clone()),
            cores,
            phynode: None,
            interfaces: loopback(&config.addrs),
            tmpls: None,
            _additional_fields: fields,
        }
    }

    /// Gives the node its interface for end `idx` of the link `link`.
    pub fn attach(&mut self, dflt: &Option<LinksDefaults>, link: &Link, idx: usize)
        requires
            idx == 0 || idx == 1,
        ensures
            final(self)@ == node_with_interface(old(self)@, dflt.deep_view(), link@, idx),
    {
        let mut held: Option<StrMap<Interface>> = None;
        core::mem::swap(&mut self.interfaces, &mut held);
        let mut present = match held {
            Some(interfaces) => interfaces,
            None => {
                let empty: StrMap<Interface> = StrMap::new();
                assert(empty.deep_view() =~= Seq::<(Seq<char>, InterfaceView)>::empty());
                empty
            },
        };
        let name = &link.endpoints[idx].interface;
        assert(link@.endpoints[idx as int] == link.endpoints[idx as int]@);
        let count = present.len();
        let ifindex = #[verifier::truncate] ((count as u128 + 2) as u32);
        let mut iface = Interface::new(dflt, link, idx, ifindex);
        match &self.addrs {
            Some(addrs) => {
                match addrs.get(name.as_str()) {
                    Some(list) => {
                        iface.addrs = Some(list.duplicate());
                    },
                    None => {},
                }
                proof {
                    lemma_deep_lookup(addrs@, name@);
                }
            },
            None => {},
        }
        proof {
            lemma_deep_keys(present@);
        }
        if !present.contains_key(name.as_str()) {
            let ghost before = present@;
            present.insert(name.clone(), iface);
            proof {
                lemma_deep_put(before, name@, iface);
            }
        }
        self.interfaces = Some(present);
    }

    /// The number of cores that the node asks for.
    pub fn cores(&self) -> (n: usize)
        ensures
            n == match self@.cores {
                Some(cores) => cores.len(),
                None => 0,
            },
    {
        match &self.cores {
            Some(cores) => cores.len(),
            None => 0,
        }
    }
}

/// An optional map has its keys sorted.
pub open spec fn sorted_if_any<V>(map: Option<Entries<V>>) -> bool {
    match map {
        Some(entries) => keys_sorted(entries),
        None => true,
    }
}

/// An optional list holds no entry.
pub open spec fn empty_if_any<T>(list: Option<Seq<T>>) -> bool {
    match list {
        Some(entries) => entries.len() == 0,
        None => true,
    }
}

/// The maps of the defaults and of the node are maps, and the defaults hold
/// no list entries: lists are joined, so that default entries would come
/// again each time the node is laid over the defaults.
pub open spec fn lays_once(dflt: Option<NodesDefaultsView>, config: NodeView) -> bool {
    &&& sorted_if_any(config.sysctls)
    &&& sorted_if_any(config.templates)
    &&& match dflt {
        Some(d) => {
            &&& sorted_if_any(d.sysctls)
            &&& sorted_if_any(d.templates)
            &&& empty_if_any(d.binds)
            &&& empty_if_any(d.execs)
            &&& empty_if_any(d.pinned)
        },
        None => true,
    }
}

/// Laying a node over the defaults and the result over the defaults again
/// gives what laying it over them once gives.
pub proof fn lemma_node_of_idempotent(
    dflt: Option<NodesDefaultsView>,
    config: NodeView,
    name: Seq<char>,
)
    requires
        lays_once(dflt, config),
    ensures
        node_of(dflt, node_of(dflt, config, name), name) == node_of(dflt, config, name),
{
    let base = node_from_defaults(dflt);
    let once = node_of(dflt, config, name);
    let twice = node_of(dflt, once, name);
    lemma_expanded_map_idempotent::<String>(base.sysctls, config.sysctls);
    lemma_expanded_map_idempotent::<String>(base.templates, config.templates);
    lemma_expanded_list_idempotent::<DuneFile>(base.binds, config.binds);
    lemma_expanded_list_idempotent::<String>(base.execs, config.execs);
    let declared = expanded::<Vec<Pinned>>(base.pinned, config.pinned);
    match declared {
        Some(list) => {
            let first = resolved_all(list);
            assert(expanded::<Vec<Pinned>>(base.pinned, Some(first)) == Some(first)) by {
                match base.pinned {
                    Some(d) => {
                        assert(d + first =~= first);
                    },
                    None => {},
                }
            }
            assert(resolved_all(first) =~= first);
        },
        None => {},
    }
}

/// A node that says what the defaults say is, laid over the defaults, what
/// the defaults say: its settings, templates, files and commands are theirs.
pub proof fn lemma_node_of_defaults(dflt: Option<NodesDefaultsView>, name: Seq<char>)
    requires
        lays_once(dflt, node_from_defaults(dflt)),
    ensures
        ({
            let said = node_from_defaults(dflt);
            let laid = node_of(dflt, said, name);
            &&& laid.sysctls == said.sysctls
            &&& laid.templates == said.templates
            &&& laid.binds == said.binds
            &&& laid.execs == said.execs
        }),
{
    let said = node_from_defaults(dflt);
    lemma_expanded_map_idempotent::<String>(said.sysctls, said.sysctls);
    lemma_expanded_map_idempotent::<String>(said.templates, said.templates);
    lemma_expanded_list_idempotent::<DuneFile>(said.binds, said.binds);
    lemma_expanded_list_idempotent::<String>(said.execs, said.execs);
}

/// The interfaces of a node are numbered apart: no two of them ask for the
/// same index, and every index is below the next one to give out.
pub open spec fn numbered_apart(interfaces: Option<Entries<InterfaceView>>) -> bool {
    match interfaces {
        Some(map) => {
            &&& keys_sorted(map)
            &&& forall|i: int| 0 <= i < map.len() ==> (#[trigger] map[i]).1.ifindex < map.len() + 2
            &&& forall|i: int, j: int|
                0 <= i < j < map.len() ==> (#[trigger] map[i]).1.ifindex != (
                #[trigger] map[j]).1.ifindex
        },
        None => true,
    }
}

/// A node starts out with its interfaces numbered apart.
pub proof fn lemma_first_interfaces_numbered(addrs: Option<Entries<Seq<IpNetView>>>)
    ensures
        numbered_apart(first_interfaces(addrs)),
{
}

/// An interface more leaves the interfaces of a node numbered apart, as long
/// as their number fits the 32 bits of an index.
pub proof fn lemma_attach_numbered(
    node: NodeView,
    dflt: Option<LinksDefaultsView>,
    link: LinkView,
    idx: usize,
)
    requires
        numbered_apart(node.interfaces),
        node.interfaces matches Some(map) ==> map.len() + 2 <= u32::MAX,
    ensures
        numbered_apart(node_with_interface(node, dflt, link, idx).interfaces),
{
    let present = match node.interfaces {
        Some(interfaces) => interfaces,
        None => Seq::empty(),
    };
    let name = link.endpoints[idx as int].interface;
    let after = node_with_interface(node, dflt, link, idx).interfaces->0;
    if !has_key(present, name) {
        let made = interface_of(dflt, link, idx, next_ifindex(present.len()));
        let found = match node.addrs {
            Some(addrs) => lookup(addrs, name),
            None => None,
        };
        let iface = match found {
            Some(list) => InterfaceView { addrs: Some(list), ..made },
            None => made,
        };
        assert(after == put(present, name, iface));
        assert(iface.ifindex == present.len() + 2);
        lemma_put_places(present, name, iface);
        lemma_put_sorted(present, name, iface);
        let r = rank(present, name);
        assert(after[r].1.ifindex == present.len() + 2);
        assert forall|i: int| 0 <= i < after.len() implies (#[trigger] after[i]).1.ifindex
            < after.len() + 2 by {
            if i != r {
                assert(present[place_before_put(present, name, i)] == after[i]);
            }
        }
        assert forall|i: int, j: int| 0 <= i < j < after.len() implies (
        #[trigger] after[i]).1.ifindex != (#[trigger] after[j]).1.ifindex by {
            if i != r {
                assert(present[place_before_put(present, name, i)] == after[i]);
            }
            if j != r {
                assert(present[place_before_put(present, name, j)] == after[j]);
            }
        }
    }
}

} // verus!
