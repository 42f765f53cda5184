//! The defaults that nodes and links share.

use vstd::prelude::*;
use crate::datum::{Datum, Tree};
use crate::file::{DuneFile, FileView};
use crate::link::{LinksDefaults, LinksDefaultsView};
use crate::pinned::{Pinned, PinnedView};
use crate::strmap::{Entries, StrMap};

verus! {

/// What every node has unless it says otherwise.
#[derive(Debug, Clone)]
pub struct NodesDefaults {
    pub sysctls: Option<StrMap<String>>,
    pub binds: Option<Vec<DuneFile>>,
    pub templates: Option<StrMap<String>>,
    pub execs: Option<Vec<String>>,
    pub pinned: Option<Vec<Pinned>>,
    pub _additional_fields_: Option<StrMap<Datum>>,
}

/// The mathematical form of a [`NodesDefaults`].
pub struct NodesDefaultsView {
    pub sysctls: Option<Entries<Seq<char>>>,
    pub binds: Option<Seq<FileView>>,
    pub templates: Option<Entries<Seq<char>>>,
    pub execs: Option<Seq<Seq<char>>>,
    pub pinned: Option<Seq<PinnedView>>,
    pub _additional_fields_: Option<Entries<Tree>>,
}

impl DeepView for NodesDefaults {
    type V = NodesDefaultsView;

    open spec fn deep_view(&self) -> NodesDefaultsView {
        NodesDefaultsView {
            sysctls: self.sysctls.deep_view(),
            binds: self.binds.deep_view(),
            templates: self.templates.deep_view(),
            execs: self.execs.deep_view(),
            pinned: self.pinned.deep_view(),
            _additional_fields_: self._additional_fields_.deep_view(),
        }
    }
}

impl View for NodesDefaults {
    type V = NodesDefaultsView;

    open spec fn view(&self) -> NodesDefaultsView {
        self.deep_view()
    }
}

/// The defaults of a topology: those of its links and those of its nodes.
#[derive(Debug, Clone)]
pub struct Defaults {
    pub links: Option<LinksDefaults>,
    pub nodes: Option<NodesDefaults>,
}

/// The mathematical form of a [`Defaults`].
pub struct DefaultsView {
    pub links: Option<LinksDefaultsView>,
    pub nodes: Option<NodesDefaultsView>,
}

impl DeepView for Defaults {
    type V = DefaultsView;

    open spec fn deep_view(&self) -> DefaultsView {
        DefaultsView { links: self.links.deep_view(), nodes: self.nodes.deep_view() }
    }
}

impl View for Defaults {
    type V = DefaultsView;

    open spec fn view(&self) -> DefaultsView {
        self.deep_view()
    }
}

} // verus!
