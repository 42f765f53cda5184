//! Links between two endpoints, and the defaults that links share.

use vstd::prelude::*;
use crate::datum::{Datum, Tree};
use crate::endpoint::{Endpoint, EndpointView};
use crate::strmap::{Entries, StrMap};

verus! {

/// What every link has unless it says otherwise.
#[derive(Debug, Clone)]
pub struct LinksDefaults {
    pub latency: Option<String>,
    pub metric: Option<u64>,
    pub mtu: Option<u32>,
    pub bw: Option<String>,
    pub _additional_fields: Option<StrMap<Datum>>,
}

/// The mathematical form of a [`LinksDefaults`].
pub struct LinksDefaultsView {
    pub latency: Option<Seq<char>>,
    pub metric: Option<u64>,
    pub mtu: Option<u32>,
    pub bw: Option<Seq<char>>,
    pub _additional_fields: Option<Entries<Tree>>,
}

impl DeepView for LinksDefaults {
    type V = LinksDefaultsView;

    open spec fn deep_view(&self) -> LinksDefaultsView {
        LinksDefaultsView {
            latency: self.latency.deep_view(),
            metric: self.metric,
            mtu: self.mtu,
            bw: self.bw.deep_view(),
            _additional_fields: self._additional_fields.deep_view(),
        }
    }
}

impl View for LinksDefaults {
    type V = LinksDefaultsView;

    open spec fn view(&self) -> LinksDefaultsView {
        self.deep_view()
    }
}

/// A link: its two endpoints, and the fields that override the defaults, for
/// both ends (keyed by the field's name) or for one (keyed by an endpoint).
#[derive(Debug, Clone)]
pub struct Link {
    pub endpoints: [Endpoint; 2],
    pub _additional_fields: StrMap<Datum>,
}

/// The mathematical form of a [`Link`].
pub struct LinkView {
    pub endpoints: Seq<EndpointView>,
    pub _additional_fields: Entries<Tree>,
}

impl DeepView for Link {
    type V = LinkView;

    open spec fn deep_view(&self) -> LinkView {
        LinkView {
            endpoints: self.endpoints.deep_view(),
            _additional_fields: self._additional_fields.deep_view(),
        }
    }
}

impl View for Link {
    type V = LinkView;

    open spec fn view(&self) -> LinkView {
        self.deep_view()
    }
}

} // verus!
