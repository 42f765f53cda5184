//! The configuration as it is read: the hosts, and the topology to lay on
//! them.

use vstd::prelude::*;
use crate::defaults::{Defaults, DefaultsView};
use crate::infra::{Phynodes, PhynodesView};
use crate::link::{Link, LinkView};
use crate::node::{Node, NodeView};
use crate::strmap::{Entries, StrMap};

verus! {

/// The topology: its defaults, its nodes by name, and its links.
#[derive(Debug, Clone)]
pub struct Topology {
    pub defaults: Defaults,
    pub nodes: StrMap<Node>,
    pub links: Vec<Link>,
}

/// The mathematical form of a [`Topology`].
pub struct TopologyView {
    pub defaults: DefaultsView,
    pub nodes: Entries<NodeView>,
    pub links: Seq<LinkView>,
}

impl DeepView for Topology {
    type V = TopologyView;

    open spec fn deep_view(&self) -> TopologyView {
        TopologyView {
            defaults: self.defaults.deep_view(),
            nodes: self.nodes.deep_view(),
            links: self.links.deep_view(),
        }
    }
}

impl View for Topology {
    type V = TopologyView;

    open spec fn view(&self) -> TopologyView {
        self.deep_view()
    }
}

/// The whole configuration.
#[derive(Debug, Clone)]
pub struct Config {
    pub infrastructure: Phynodes,
    pub topology: Topology,
}

/// The mathematical form of a [`Config`].
pub struct ConfigView {
    pub infrastructure: PhynodesView,
    pub topology: TopologyView,
}

impl DeepView for Config {
    type V = ConfigView;

    open spec fn deep_view(&self) -> ConfigView {
        ConfigView {
            infrastructure: self.infrastructure.deep_view(),
            topology: self.topology.deep_view(),
        }
    }
}

impl View for Config {
    type V = ConfigView;

    open spec fn view(&self) -> ConfigView {
        self.deep_view()
    }
}

} // verus!
