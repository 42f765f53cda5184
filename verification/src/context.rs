//! What a template sees of a node: its name, its interfaces and the free-form
//! fields of its configuration.

use vstd::prelude::*;
use vstd::string::StringExecFns;
use crate::datum::{lemma_tree_of_parts, list_of, table_of, tree_of, Datum, Tree};
use crate::duplicate::Duplicate;
use crate::endpoint::format_endpoint;
use crate::interface::{addr_of, ip_net_text, mac_text, mac_to_text, Addr, AddrView, Interface,
    InterfaceView, IpNet, IpNetView};
use crate::node::{Node, NodeView};
use crate::strmap::{Entries, StrMap};

verus! {

/// A text, or nothing.
pub open spec fn text_tree(t: Option<Seq<char>>) -> Tree {
    match t {
        Some(t) => Tree::Text(t),
        None => Tree::Null,
    }
}

/// A number, or nothing.
pub open spec fn uint_tree(n: Option<u64>) -> Tree {
    match n {
        Some(n) => Tree::Uint(n),
        None => Tree::Null,
    }
}

/// The bytes of a hardware address as a list of numbers, or nothing.
pub open spec fn bytes_tree(bytes: Option<Seq<u8>>) -> Tree {
    match bytes {
        Some(b) => Tree::List(Seq::new(b.len(), |i: int| Tree::Uint(b[i] as u64))),
        None => Tree::Null,
    }
}

/// Addresses as a list of texts, or nothing.
pub open spec fn nets_tree(nets: Option<Seq<IpNetView>>) -> Tree {
    match nets {
        Some(n) => Tree::List(Seq::new(n.len(), |i: int| Tree::Text(ip_net_text(n[i])))),
        None => Tree::Null,
    }
}

/// An address as templates see it: its two parts by name.
pub open spec fn addr_tree(a: AddrView) -> Tree {
    Tree::Table(seq![("prefix"@, Tree::Text(a.prefix)), ("plen"@, Tree::Uint(a.plen as u64))])
}

/// Addresses as a list of tables, or nothing.
pub open spec fn addrs_tree(addrs: Option<Seq<AddrView>>) -> Tree {
    match addrs {
        Some(a) => Tree::List(Seq::new(a.len(), |i: int| addr_tree(a[i]))),
        None => Tree::Null,
    }
}

/// An interface as templates see it: every setting by its name; a setting
/// that is not made is nothing, and the peer is the text of its endpoint.
pub open spec fn interface_tree(v: InterfaceView) -> Tree {
    Tree::Table(
        seq![
            ("name"@, Tree::Text(v.name)),
            ("latency"@, text_tree(v.latency)),
            ("metric"@, uint_tree(v.metric)),
            ("bandwidth"@, text_tree(v.bandwidth)),
            (
                "mtu"@,
                uint_tree(
                    match v.mtu {
                        Some(m) => Some(m as u64),
                        None => None,
                    },
                ),
            ),
            ("mac"@, bytes_tree(v.mac)),
            ("idx"@, Tree::Uint(v.idx as u64)),
            (
                "peer"@,
                text_tree(
                    match v.peer {
                        Some(p) => Some(format_endpoint(p)),
                        None => None,
                    },
                ),
            ),
            ("addrs"@, nets_tree(v.addrs)),
            ("ctx_addrs"@, addrs_tree(v.ctx_addrs)),
            ("ctx_mac"@, text_tree(v.ctx_mac)),
            ("ifindex"@, Tree::Uint(v.ifindex as u64)),
        ],
    )
}

/// The interfaces of a node as templates see them: a table by name; empty
/// where the node has none.
pub open spec fn interfaces_tree(interfaces: Option<Entries<InterfaceView>>) -> Tree {
    match interfaces {
        Some(map) => Tree::Table(Seq::new(map.len(), |i: int| (map[i].0, interface_tree(map[i].1)))),
        None => Tree::Table(Seq::empty()),
    }
}

/// Free-form fields as templates see them: a table, or nothing.
pub open spec fn fields_tree(fields: Option<Entries<Tree>>) -> Tree {
    match fields {
        Some(f) => Tree::Table(f),
        None => Tree::Null,
    }
}

/// What a template sees: `node`, the node's name; `ifaces`, its interfaces;
/// `ctx`, the free-form fields of its configuration.
pub open spec fn context_tree(
    name: Option<Seq<char>>,
    interfaces: Option<Entries<InterfaceView>>,
    fields: Option<Entries<Tree>>,
) -> Tree {
    Tree::Table(
        seq![
            ("node"@, text_tree(name)),
            ("ifaces"@, interfaces_tree(interfaces)),
            ("ctx"@, fields_tree(fields)),
        ],
    )
}

/// What a template sees of a node.
pub open spec fn node_context(node: NodeView) -> Tree {
    context_tree(node.name, node.interfaces, node._additional_fields)
}

/// What the template of a destination path sees: `node`, the node's name.
pub open spec fn name_context(name: Option<Seq<char>>) -> Tree {
    Tree::Table(seq![("node"@, text_tree(name))])
}

/// An interface with what templates need beside its settings: its addresses
/// in two parts each, and its hardware address as text.
pub open spec fn augmented(v: InterfaceView) -> InterfaceView {
    InterfaceView {
        ctx_addrs: match v.addrs {
            Some(a) => Some(Seq::new(a.len(), |i: int| addr_of(a[i]))),
            None => v.ctx_addrs,
        },
        ctx_mac: match v.mac {
            Some(m) => Some(mac_text(m)),
            None => v.ctx_mac,
        },
        ..v
    }
}

/// Interfaces, each augmented.
pub open spec fn augmented_all(interfaces: Option<Entries<InterfaceView>>) -> Option<
    Entries<InterfaceView>,
> {
    match interfaces {
        Some(map) => Some(Seq::new(map.len(), |i: int| (map[i].0, augmented(map[i].1)))),
        None => None,
    }
}

/// A text, or nothing.
pub fn text_datum(t: &Option<String>) -> (r: Datum)
    ensures
        r@ == text_tree(t.deep_view()),
{
    match t {
        Some(s) => Datum::Text(s.clone()),
        None => Datum::Null,
    }
}

/// A number, or nothing.
pub fn uint_datum(n: Option<u64>) -> (r: Datum)
    ensures
        r@ == uint_tree(n),
{
    match n {
        Some(n) => Datum::Uint(n),
        None => Datum::Null,
    }
}

/// A list of data.
pub fn list_datum(items: Vec<Datum>) -> (r: Datum)
    ensures
        r@ == Tree::List(list_of(items@)),
{
    let r = Datum::List(items);
    proof {
        lemma_tree_of_parts(r);
    }
    r
}

/// A table of data.
pub fn table_datum(fields: Vec<(String, Datum)>) -> (r: Datum)
    ensures
        r@ == Tree::Table(table_of(fields@)),
{
    let r = Datum::Table(fields);
    proof {
        lemma_tree_of_parts(r);
    }
    r
}

/// The bytes of a hardware address as a list of numbers, or nothing.
pub fn bytes_datum(bytes: &Option<Vec<u8>>) -> (r: Datum)
    ensures
        r@ == bytes_tree(bytes.deep_view()),
{
    match bytes {
        Some(b) => {
            let mut items: Vec<Datum> = Vec::new();
            let mut i: usize = 0;
            while i < b.len()
                invariant
                    i <= b.len(),
                    items@.len() == i,
                    forall|j: int| 0 <= j < i ==> tree_of(#[trigger] items@[j]) == Tree::Uint(b@[j] as u64),
                decreases b.len() - i,
            {
                items.push(Datum::Uint(b[i] as u64));
                i += 1;
            }
            let r = list_datum(items);
            assert(r@->List_0 =~= bytes_tree(bytes.deep_view())->List_0);
            r
        },
        None => Datum::Null,
    }
}

/// Addresses as a list of texts, or nothing.
pub fn nets_datum(nets: &Option<Vec<IpNet>>) -> (r: Datum)
    ensures
        r@ == nets_tree(nets.deep_view()),
{
    match nets {
        Some(n) => {
            let mut items: Vec<Datum> = Vec::new();
            let mut i: usize = 0;
            while i < n.len()
                invariant
                    i <= n.len(),
                    items@.len() == i,
                    forall|j: int|
                        0 <= j < i ==> tree_of(#[trigger] items@[j]) == Tree::Text(
                            ip_net_text(n@[j]@),
                        ),
                decreases n.len() - i,
            {
                items.push(Datum::Text(n[i].to_text()));
                i += 1;
            }
            let r = list_datum(items);
            assert(r@->List_0 =~= nets_tree(nets.deep_view())->List_0);
            r
        },
        None => Datum::Null,
    }
}

/// An address as templates see it.
pub fn addr_datum(a: &Addr) -> (r: Datum)
    ensures
        r@ == addr_tree(a@),
{
    let mut fields: Vec<(String, Datum)> = Vec::new();
    fields.push((String::from_str("prefix"), Datum::Text(a.prefix.clone())));
    fields.push((String::from_str("plen"), Datum::Uint(a.plen as u64)));
    let r = table_datum(fields);
    assert(r@->Table_0 =~= addr_tree(a@)->Table_0);
    r
}

/// Addresses as a list of tables, or nothing.
pub fn addrs_datum(addrs: &Option<Vec<Addr>>) -> (r: Datum)
    ensures
        r@ == addrs_tree(addrs.deep_view()),
{
    match addrs {
        Some(a) => {
            let mut items: Vec<Datum> = Vec::new();
            let mut i: usize = 0;
            while i < a.len()
                invariant
                    i <= a.len(),
                    items@.len() == i,
                    forall|j: int| 0 <= j < i ==> tree_of(#[trigger] items@[j]) == addr_tree(a@[j]@),
                decreases a.len() - i,
            {
                items.push(addr_datum(&a[i]));
                i += 1;
            }
            let r = list_datum(items);
            assert(r@->List_0 =~= addrs_tree(addrs.deep_view())->List_0);
            r
        },
        None => Datum::Null,
    }
}

impl Interface {
    /// The interface as templates see it.
    pub fn to_datum(&self) -> (r: Datum)
        ensures
            r@ == interface_tree(self@),
    {
        let peer = match &self.peer {
            Some(p) => Datum::Text(p.to_text()),
            None => Datum::Null,
        };
        let mtu = match self.mtu {
            Some(m) => Datum::Uint(m as u64),
            None => Datum::Null,
        };
        let mut fields: Vec<(String, Datum)> = Vec::new();
        fields.push((String::from_str("name"), Datum::Text(self.name.clone())));
        fields.push((String::from_str("latency"), text_datum(&self.latency)));
        fields.push((String::from_str("metric"), uint_datum(self.metric)));
        fields.push((String::from_str("bandwidth"), text_datum(&self.bandwidth)));
        fields.push((String::from_str("mtu"), mtu));
        fields.push((String::from_str("mac"), bytes_datum(&self.mac)));
        fields.push((String::from_str("idx"), Datum::Uint(self.idx as u64)));
        fields.push((String::from_str("peer"), peer));
        fields.push((String::from_str("addrs"), nets_datum(&self.addrs)));
        fields.push((String::from_str("ctx_addrs"), addrs_datum(&self.ctx_addrs)));
        fields.push((String::from_str("ctx_mac"), text_datum(&self.ctx_mac)));
        fields.push((String::from_str("ifindex"), Datum::Uint(self.ifindex as u64)));
        let r = table_datum(fields);
        assert(r@->Table_0 =~= interface_tree(self@)->Table_0);
        r
    }

    /// Works out what templates need beside the settings of the interface.
    pub fn augment(&mut self)
        ensures
            final(self)@ == augmented(old(self)@),
    {
        match &self.addrs {
            Some(addrs) => {
                let mut out: Vec<Addr> = Vec::new();
                let mut i: usize = 0;
                while i < addrs.len()
                    invariant
                        i <= addrs.len(),
                        out@.len() == i,
                        forall|j: int| 0 <= j < i ==> (#[trigger] out@[j])@ == addr_of(addrs@[j]@),
                    decreases addrs.len() - i,
                {
                    out.push(Addr { prefix: addrs[i].addr.clone(), plen: addrs[i].plen });
                    i += 1;
                }
                assert(out.deep_view() =~= Seq::new(
                    addrs@.len(),
                    |i: int| addr_of(addrs.deep_view()[i]),
                ));
                self.ctx_addrs = Some(out);
            },
            None => {},
        }
        match &self.mac {
            Some(mac) => {
                assert(mac.deep_view() =~= mac@);
                self.ctx_mac = Some(mac_to_text(mac));
            },
            None => {},
        }
    }
}

/// The interfaces of a node as templates see them.
pub fn interfaces_datum(interfaces: &Option<StrMap<Interface>>) -> (r: Datum)
    ensures
        r@ == interfaces_tree(interfaces.deep_view()),
{
    let mut fields: Vec<(String, Datum)> = Vec::new();
    match interfaces {
        Some(map) => {
            let n = map.len();
            let mut i: usize = 0;
            while i < n
                invariant
                    i <= n,
                    n == map@.len(),
                    fields@.len() == i,
                    forall|j: int|
                        0 <= j < i ==> (#[trigger] fields@[j]).0@ == map@[j].0 && tree_of(
                            fields@[j].1,
                        ) == interface_tree(map@[j].1@),
                decreases n - i,
            {
                fields.push((map.key_at(i).clone(), map.value_at(i).to_datum()));
                i += 1;
            }
        },
        None => {},
    }
    let r = table_datum(fields);
    assert(r@->Table_0 =~= interfaces_tree(interfaces.deep_view())->Table_0);
    r
}

/// Free-form fields as templates see them.
pub fn fields_datum(fields: &Option<StrMap<Datum>>) -> (r: Datum)
    ensures
        r@ == fields_tree(fields.deep_view()),
{
    match fields {
        Some(map) => {
            let mut out: Vec<(String, Datum)> = Vec::new();
            let n = map.len();
            let mut i: usize = 0;
            while i < n
                invariant
                    i <= n,
                    n == map@.len(),
                    out@.len() == i,
                    forall|j: int|
                        0 <= j < i ==> (#[trigger] out@[j]).0@ == map@[j].0 && tree_of(out@[j].1)
                            == map@[j].1@,
                decreases n - i,
            {
                out.push((map.key_at(i).clone(), map.value_at(i).duplicate()));
                i += 1;
            }
            let r = table_datum(out);
            assert(r@->Table_0 =~= fields_tree(fields.deep_view())->Table_0);
            r
        },
        None => Datum::Null,
    }
}

/// What the template of a destination path sees of a node named `name`.
pub fn name_datum(name: &Option<String>) -> (r: Datum)
    ensures
        r@ == name_context(name.deep_view()),
{
    let mut fields: Vec<(String, Datum)> = Vec::new();
    fields.push((String::from_str("node"), text_datum(name)));
    let r = table_datum(fields);
    assert(r@->Table_0 =~= name_context(name.deep_view())->Table_0);
    r
}

/// What a template sees of a node with this name, these interfaces and these
/// free-form fields.
pub fn context_datum(
    name: &Option<String>,
    interfaces: &Option<StrMap<Interface>>,
    fields: &Option<StrMap<Datum>>,
) -> (r: Datum)
    ensures
        r@ == context_tree(name.deep_view(), interfaces.deep_view(), fields.deep_view()),
{
    let mut table: Vec<(String, Datum)> = Vec::new();
    table.push((String::from_str("node"), text_datum(name)));
    table.push((String::from_str("ifaces"), interfaces_datum(interfaces)));
    table.push((String::from_str("ctx"), fields_datum(fields)));
    let r = table_datum(table);
    assert(r@->Table_0 =~= context_tree(
        name.deep_view(),
        interfaces.deep_view(),
        fields.deep_view(),
    )->Table_0);
    r
}

impl Node {
    /// What a template sees of the node.
    pub fn context(&self) -> (r: Datum)
        ensures
            r@ == node_context(self@),
    {
        context_datum(&self.name, &self.interfaces, &self._additional_fields)
    }
}

} // verus!
