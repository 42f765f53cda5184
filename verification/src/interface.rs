//! Interfaces: the two ends of each link as the nodes see them.

use vstd::prelude::*;
use vstd::string::StringExecFns;
use crate::datum::{lemma_tree_of_parts, table_of, tree_of, Datum, Tree};
use crate::duplicate::Duplicate;
use crate::endpoint::{parse_endpoint, Endpoint, EndpointView};
use crate::link::{Link, LinkView, LinksDefaults, LinksDefaultsView};
use crate::strmap::{deep_entries, Entries};
use crate::text::{chars_of, decimal, decimal_digits, hex_char, hex_digit, str_eq};

verus! {

/// An address with its prefix length: the address as text, as the system's
/// tools print and read it.
#[derive(Debug, Clone, PartialEq, Eq)]
pub struct IpNet {
    pub addr: String,
    pub plen: u8,
}

/// The mathematical form of an [`IpNet`].
pub struct IpNetView {
    pub addr: Seq<char>,
    pub plen: u8,
}

impl DeepView for IpNet {
    type V = IpNetView;

    open spec fn deep_view(&self) -> IpNetView {
        IpNetView { addr: self.addr@, plen: self.plen }
    }
}

impl View for IpNet {
    type V = IpNetView;

    open spec fn view(&self) -> IpNetView {
        self.deep_view()
    }
}

impl Duplicate for IpNet {
    fn duplicate(&self) -> (r: Self) {
        IpNet { addr: self.addr.clone(), plen: self.plen }
    }
}

/// The text of an address with its prefix length: `address/length`.
pub open spec fn ip_net_text(net: IpNetView) -> Seq<char> {
    net.addr + seq!['/'] + decimal_digits(net.plen as nat)
}

impl IpNet {
    /// The address in the form `address/length`.
    pub fn to_text(&self) -> (r: String)
        ensures
            r@ == ip_net_text(self@),
    {
        proof {
            reveal_strlit("/");
        }
        let mut out = self.addr.clone();
        out.append("/");
        out.append(decimal(self.plen as u64).as_str());
        assert(out@ =~= ip_net_text(self@));
        out
    }
}

/// An address as templates see it: the address and the prefix length apart.
#[derive(Debug, Clone, PartialEq, Eq)]
pub struct Addr {
    pub prefix: String,
    pub plen: u8,
}

/// The mathematical form of an [`Addr`].
pub struct AddrView {
    pub prefix: Seq<char>,
    pub plen: u8,
}

impl DeepView for Addr {
    type V = AddrView;

    open spec fn deep_view(&self) -> AddrView {
        AddrView { prefix: self.prefix@, plen: self.plen }
    }
}

impl View for Addr {
    type V = AddrView;

    open spec fn view(&self) -> AddrView {
        self.deep_view()
    }
}

impl Duplicate for Addr {
    fn duplicate(&self) -> (r: Self) {
        Addr { prefix: self.prefix.clone(), plen: self.plen }
    }
}

impl From<&IpNet> for Addr {
    fn from(value: &IpNet) -> (r: Self) {
        Addr { prefix: value.addr.clone(), plen: value.plen }
    }
}

impl vstd::std_specs::convert::FromSpecImpl<&IpNet> for Addr {
    open spec fn obeys_from_spec() -> bool {
        true
    }

    open spec fn from_spec(value: &IpNet) -> Self {
        Addr { prefix: value.addr, plen: value.plen }
    }
}

/// The address that templates see for `net`.
pub open spec fn addr_of(net: IpNetView) -> AddrView {
    AddrView { prefix: net.addr, plen: net.plen }
}

/// The value of a character as a digit in base 16, in either case.
pub open spec fn hex_value(c: char) -> Option<u8> {
    if '0' <= c && c <= '9' {
        Some((c as u32 - '0' as u32) as u8)
    } else if 'a' <= c && c <= 'f' {
        Some((c as u32 - 'a' as u32 + 10) as u8)
    } else if 'A' <= c && c <= 'F' {
        Some((c as u32 - 'A' as u32 + 10) as u8)
    } else {
        None
    }
}

/// The digits in base 16 that a text holds, in order; every other character
/// is passed over.
pub open spec fn nibbles(s: Seq<char>) -> Seq<u8>
    decreases s.len(),
{
    if s.len() == 0 {
        Seq::empty()
    } else {
        match hex_value(s.last()) {
            Some(d) => nibbles(s.drop_last()).push(d),
            None => nibbles(s.drop_last()),
        }
    }
}

/// Digits taken two by two as bytes, the first of each pair the higher half;
/// a digit left over at the end is a byte of its own.
pub open spec fn pack(digits: Seq<u8>) -> Seq<u8> {
    Seq::new(
        ((digits.len() + 1) / 2) as nat,
        |i: int|
            if 2 * i + 1 < digits.len() {
                (digits[2 * i] * 16 + digits[2 * i + 1]) as u8
            } else {
                digits[2 * i]
            },
    )
}

/// The hardware address that a text writes: its hexadecimal digits, two to a
/// byte. Colons, and whatever else is no digit, only separate.
pub open spec fn parse_mac(s: Seq<char>) -> Seq<u8> {
    pack(nibbles(s))
}

/// A byte in base 16, in lower case, without a leading zero.
pub open spec fn hex_of(b: u8) -> Seq<char> {
    if b < 16 {
        seq![hex_char(b as int)]
    } else {
        seq![hex_char(b as int / 16), hex_char(b as int % 16)]
    }
}

/// The text of a hardware address: its bytes in base 16, colons between them.
pub open spec fn mac_text(mac: Seq<u8>) -> Seq<char>
    decreases mac.len(),
{
    if mac.len() == 0 {
        Seq::empty()
    } else if mac.len() == 1 {
        hex_of(mac[0])
    } else {
        mac_text(mac.drop_last()) + seq![':'] + hex_of(mac.last())
    }
}

/// Reads a hardware address from its text.
pub fn mac_from_text(text: &str) -> (r: Vec<u8>)
    ensures
        r@ == parse_mac(text@),
{
    let chars = chars_of(text);
    let mut digits: Vec<u8> = Vec::new();
    let mut i: usize = 0;
    assert(chars@.take(0) =~= Seq::<char>::empty());
    while i < chars.len()
        invariant
            i <= chars.len(),
            digits@ == nibbles(chars@.take(i as int)),
            forall|j: int| 0 <= j < digits@.len() ==> #[trigger] digits@[j] < 16,
        decreases chars.len() - i,
    {
        let c = chars[i];
        proof {
            let upto = chars@.take(i + 1);
            assert(upto.drop_last() =~= chars@.take(i as int));
            assert(upto.last() == c);
        }
        if '0' <= c && c <= '9' {
            digits.push((c as u32 - '0' as u32) as u8);
        } else if 'a' <= c && c <= 'f' {
            digits.push((c as u32 - 'a' as u32 + 10) as u8);
        } else if 'A' <= c && c <= 'F' {
            digits.push((c as u32 - 'A' as u32 + 10) as u8);
        }
        i += 1;
    }
    assert(chars@.take(i as int) =~= chars@);
    let mut out: Vec<u8> = Vec::new();
    let len = digits.len();
    let n = len / 2 + len % 2;
    let mut k: usize = 0;
    while k < n
        invariant
            k <= n,
            len == digits@.len(),
            n == (len + 1) / 2,
            2 * n <= len + 1,
            out@.len() == k,
            forall|j: int| 0 <= j < digits@.len() ==> #[trigger] digits@[j] < 16,
            forall|j: int| 0 <= j < out@.len() ==> #[trigger] out@[j] == pack(digits@)[j],
        decreases n - k,
    {
        if 2 * k + 1 < len {
            out.push(digits[2 * k] * 16 + digits[2 * k + 1]);
        } else {
            out.push(digits[2 * k]);
        }
        k += 1;
    }
    assert(out@ =~= pack(digits@));
    out
}

/// Writes a byte in base 16.
pub fn hex_byte(b: u8) -> (r: String)
    ensures
        r@ == hex_of(b),
{
    let mut out = String::new();
    if b >= 16 {
        out.append(hex_digit(b / 16));
    }
    out.append(hex_digit(b % 16));
    assert(out@ =~= hex_of(b));
    out
}

/// Writes a hardware address as text.
pub fn mac_to_text(mac: &Vec<u8>) -> (r: String)
    ensures
        r@ == mac_text(mac@),
{
    proof {
        reveal_strlit(":");
    }
    let mut out = String::new();
    let mut i: usize = 0;
    assert(mac@.take(0) =~= Seq::<u8>::empty());
    while i < mac.len()
        invariant
            i <= mac.len(),
            out@ == mac_text(mac@.take(i as int)),
        decreases mac.len() - i,
    {
        proof {
            let upto = mac@.take(i + 1);
            assert(upto.drop_last() =~= mac@.take(i as int));
            assert(upto.last() == mac@[i as int]);
            if i == 0 {
                assert(upto[0] == mac@[0]);
            }
        }
        let ghost before = out@;
        proof {
            reveal_strlit(":");
        }
        if i > 0 {
            out.append(":");
        }
        out.append(hex_byte(mac[i]).as_str());
        proof {
            if i == 0 {
                assert(before =~= Seq::<char>::empty());
                assert(out@ =~= hex_of(mac@[0]));
            } else {
                assert(out@ =~= before + seq![':'] + hex_of(mac@[i as int]));
            }
        }
        i += 1;
    }
    assert(mac@.take(i as int) =~= mac@);
    out
}

/// One end of a link, as its node sees it.
#[derive(Debug, Clone)]
pub struct Interface {
    /// The name of the interface.
    pub name: String,
    /// The delay put on the link.
    pub latency: Option<String>,
    /// The routing metric of the interface.
    pub metric: Option<u64>,
    /// The bandwidth of the link.
    pub bandwidth: Option<String>,
    /// The largest packet the link carries; the same at both ends.
    pub mtu: Option<u32>,
    /// The hardware address of the interface.
    pub mac: Option<Vec<u8>>,
    /// Which of the link's two endpoints this is: 0 or 1.
    pub idx: usize,
    /// The other end of the link.
    pub peer: Option<Endpoint>,
    /// The addresses of the interface.
    pub addrs: Option<Vec<IpNet>>,
    /// The addresses, as templates see them.
    pub ctx_addrs: Option<Vec<Addr>>,
    /// The hardware address, as templates see it.
    pub ctx_mac: Option<String>,
    /// The index under which the system is asked to create the interface.
    pub ifindex: u32,
}

/// The mathematical form of an [`Interface`].
pub struct InterfaceView {
    pub name: Seq<char>,
    pub latency: Option<Seq<char>>,
    pub metric: Option<u64>,
    pub bandwidth: Option<Seq<char>>,
    pub mtu: Option<u32>,
    pub mac: Option<Seq<u8>>,
    pub idx: usize,
    pub peer: Option<EndpointView>,
    pub addrs: Option<Seq<IpNetView>>,
    pub ctx_addrs: Option<Seq<AddrView>>,
    pub ctx_mac: Option<Seq<char>>,
    pub ifindex: u32,
}

impl DeepView for Interface {
    type V = InterfaceView;

    open spec fn deep_view(&self) -> InterfaceView {
        InterfaceView {
            name: self.name@,
            latency: self.latency.deep_view(),
            metric: self.metric,
            bandwidth: self.bandwidth.deep_view(),
            mtu: self.mtu,
            mac: self.mac.deep_view(),
            idx: self.idx,
            peer: self.peer.deep_view(),
            addrs: self.addrs.deep_view(),
            ctx_addrs: self.ctx_addrs.deep_view(),
            ctx_mac: self.ctx_mac.deep_view(),
            ifindex: self.ifindex,
        }
    }
}

impl View for Interface {
    type V = InterfaceView;

    open spec fn view(&self) -> InterfaceView {
        self.deep_view()
    }
}

/// The interface that sets nothing: no name, no peer, index 0.
pub open spec fn blank_interface() -> InterfaceView {
    InterfaceView {
        name: Seq::empty(),
        latency: None,
        metric: None,
        bandwidth: None,
        mtu: None,
        mac: None,
        idx: 0,
        peer: None,
        addrs: None,
        ctx_addrs: None,
        ctx_mac: None,
        ifindex: 0,
    }
}

/// The interface that the defaults of links describe.
pub open spec fn interface_from_defaults(dflt: Option<LinksDefaultsView>) -> InterfaceView {
    match dflt {
        Some(d) => InterfaceView {
            latency: d.latency,
            bandwidth: d.bw,
            mtu: d.mtu,
            metric: d.metric,
            ..blank_interface()
        },
        None => blank_interface(),
    }
}

/// `iface` with the field `name` of a configuration set to `field`. A name
/// that is none of `latency`, `metric`, `mtu`, `bw` and `mac`, or a field of
/// the wrong kind, changes nothing. Integers are cut to the width of the
/// setting.
pub open spec fn with_field(iface: InterfaceView, name: Seq<char>, field: Tree) -> InterfaceView {
    if name == "latency"@ {
        match field {
            Tree::Text(t) => InterfaceView { latency: Some(t), ..iface },
            _ => iface,
        }
    } else if name == "metric"@ {
        match field {
            Tree::Int(n) => InterfaceView { metric: Some(n as u64), ..iface },
            _ => iface,
        }
    } else if name == "mtu"@ {
        match field {
            Tree::Int(n) => InterfaceView { mtu: Some(n as u32), ..iface },
            _ => iface,
        }
    } else if name == "bw"@ {
        match field {
            Tree::Text(t) => InterfaceView { bandwidth: Some(t), ..iface },
            _ => iface,
        }
    } else if name == "mac"@ {
        match field {
            Tree::Text(t) => InterfaceView { mac: Some(parse_mac(t)), ..iface },
            _ => iface,
        }
    } else {
        iface
    }
}

impl Default for Interface {
    fn default() -> (r: Interface)
        ensures
            r@ == blank_interface(),
    {
        let r = Interface {
            name: String::new(),
            latency: None,
            metric: None,
            bandwidth: None,
            mtu: None,
            mac: None,
            idx: 0,
            peer: None,
            addrs: None,
            ctx_addrs: None,
            ctx_mac: None,
            ifindex: 0,
        };
        assert(r@.name =~= Seq::<char>::empty());
        r
    }
}

impl From<&LinksDefaults> for Interface {
    /// The interface that the defaults describe.
    fn from(dflt: &LinksDefaults) -> (r: Self)
        ensures
            r@ == interface_from_defaults(Some(dflt@)),
    {
        let r = Interface {
            name: String::new(),
            latency: dflt.latency.duplicate(),
            metric: dflt.metric,
            bandwidth: dflt.bw.duplicate(),
            mtu: dflt.mtu,
            mac: None,
            idx: 0,
            peer: None,
            addrs: None,
            ctx_addrs: None,
            ctx_mac: None,
            ifindex: 0,
        };
        assert(r@.name =~= Seq::<char>::empty());
        r
    }
}

impl vstd::std_specs::convert::FromSpecImpl<&LinksDefaults> for Interface {
    /// The conversion is stated by the `ensures` of `from`, over views.
    open spec fn obeys_from_spec() -> bool {
        false
    }

    open spec fn from_spec(dflt: &LinksDefaults) -> Self {
        arbitrary()
    }
}

impl Interface {
    /// The interface that `dflt` describes.
    pub fn from_defaults(dflt: &Option<LinksDefaults>) -> (r: Interface)
        ensures
            r@ == interface_from_defaults(dflt.deep_view()),
    {
        match dflt {
            Some(d) => Interface::from(d),
            None => Interface::default(),
        }
    }

    /// Sets the field `name` of the interface from a field of a configuration.
    pub fn set_from_field(&mut self, name: &str, field: &Datum)
        ensures
            final(self)@ == with_field(old(self)@, name@, field@),
    {
        if str_eq(name, "latency") {
            match field.as_str() {
                Some(latency) => {
                    self.latency = Some(latency.clone());
                },
                None => {},
            }
        } else if str_eq(name, "metric") {
            match field.as_integer() {
                Some(metric) => {
                    self.metric = Some(#[verifier::truncate] (metric as u64));
                },
                None => {},
            }
        } else if str_eq(name, "mtu") {
            match field.as_integer() {
                Some(mtu) => {
                    self.mtu = Some(#[verifier::truncate] (mtu as u32));
                },
                None => {},
            }
        } else if str_eq(name, "bw") {
            match field.as_str() {
                Some(bw) => {
                    self.bandwidth = Some(bw.clone());
                },
                None => {},
            }
        } else if str_eq(name, "mac") {
            match field.as_str() {
                Some(mac) => {
                    let bytes = mac_from_text(mac.as_str());
                    assert(bytes.deep_view() =~= bytes@);
                    self.mac = Some(bytes);
                },
                None => {},
            }
        }
    }
}

/// The key of a field names an endpoint whose interface is `name`: the field
/// then holds overrides for that end of the link alone.
pub open spec fn is_directional(key: Seq<char>, name: Seq<char>) -> bool {
    parse_endpoint(key) matches Some(e) && e.interface == name
}

/// `iface` after the fields that hold for both ends of the link: each field of
/// `fields` that is not for one end alone, applied in key order.
pub open spec fn with_generic(iface: InterfaceView, fields: Entries<Tree>, name: Seq<char>)
    -> InterfaceView
    decreases fields.len(),
{
    if fields.len() == 0 {
        iface
    } else {
        let before = with_generic(iface, fields.drop_last(), name);
        if is_directional(fields.last().0, name) {
            before
        } else {
            with_field(before, fields.last().0, fields.last().1)
        }
    }
}

/// `iface` after the overrides of one table, in the table's order. The MTU
/// belongs to the link as a whole: a table for one end cannot set it.
pub open spec fn with_table(iface: InterfaceView, table: Seq<(Seq<char>, Tree)>) -> InterfaceView
    decreases table.len(),
{
    if table.len() == 0 {
        iface
    } else {
        let before = with_table(iface, table.drop_last());
        if table.last().0 == "mtu"@ {
            before
        } else {
            with_field(before, table.last().0, table.last().1)
        }
    }
}

/// `iface` after the overrides meant for the interface `name` alone: the
/// tables under the keys that name an endpoint with that interface, in key
/// order.
pub open spec fn with_directional(iface: InterfaceView, fields: Entries<Tree>, name: Seq<char>)
    -> InterfaceView
    decreases fields.len(),
{
    if fields.len() == 0 {
        iface
    } else {
        let before = with_directional(iface, fields.drop_last(), name);
        if is_directional(fields.last().0, name) {
            match fields.last().1 {
                Tree::Table(table) => with_table(before, table),
                _ => before,
            }
        } else {
            before
        }
    }
}

/// The interface at end `idx` of a link: the defaults, then the link's fields
/// for both ends, then the overrides for this end, which so have the last
/// word; named after its endpoint, with the other endpoint as its peer.
pub open spec fn interface_of(
    dflt: Option<LinksDefaultsView>,
    link: LinkView,
    idx: usize,
    ifindex: u32,
) -> InterfaceView {
    let name = link.endpoints[idx as int].interface;
    let fields = link._additional_fields;
    let settings = with_directional(
        with_generic(interface_from_defaults(dflt), fields, name),
        fields,
        name,
    );
    InterfaceView {
        name: name,
        peer: Some(link.endpoints[1 - idx]),
        idx: idx,
        ifindex: ifindex,
        ..settings
    }
}

/// The MTU that the fields of a link set for both of its ends: that of the
/// field `mtu` where it is an integer, else the default.
pub open spec fn link_mtu(fields: Entries<Tree>, default: Option<u32>) -> Option<u32>
    decreases fields.len(),
{
    if fields.len() == 0 {
        default
    } else {
        let before = link_mtu(fields.drop_last(), default);
        if fields.last().0 == "mtu"@ {
            match fields.last().1 {
                Tree::Int(n) => Some(n as u32),
                _ => before,
            }
        } else {
            before
        }
    }
}

/// A field under any other name leaves the MTU as it is.
pub proof fn lemma_with_field_keeps_mtu(iface: InterfaceView, name: Seq<char>, field: Tree)
    requires
        name != "mtu"@,
    ensures
        with_field(iface, name, field).mtu == iface.mtu,
{
}

/// The overrides of a table for one end leave the MTU as it is.
pub proof fn lemma_with_table_keeps_mtu(iface: InterfaceView, table: Seq<(Seq<char>, Tree)>)
    ensures
        with_table(iface, table).mtu == iface.mtu,
    decreases table.len(),
{
    if table.len() > 0 {
        lemma_with_table_keeps_mtu(iface, table.drop_last());
    }
}

/// The overrides for one end leave the MTU as it is.
pub proof fn lemma_with_directional_keeps_mtu(
    iface: InterfaceView,
    fields: Entries<Tree>,
    name: Seq<char>,
)
    ensures
        with_directional(iface, fields, name).mtu == iface.mtu,
    decreases fields.len(),
{
    if fields.len() > 0 {
        lemma_with_directional_keeps_mtu(iface, fields.drop_last(), name);
        match fields.last().1 {
            Tree::Table(table) => {
                lemma_with_table_keeps_mtu(
                    with_directional(iface, fields.drop_last(), name),
                    table,
                );
            },
            _ => {},
        }
    }
}

/// `mtu` names no endpoint.
pub proof fn lemma_mtu_is_no_endpoint()
    ensures
        parse_endpoint("mtu"@) is None,
{
    reveal_strlit("mtu");
    let s = "mtu"@;
    assert forall|i: int| !crate::endpoint::splits_at(s, i) by {}
}

/// The fields for both ends set the MTU as `link_mtu` says, whichever end is
/// looked at.
pub proof fn lemma_with_generic_mtu(iface: InterfaceView, fields: Entries<Tree>, name: Seq<char>)
    ensures
        with_generic(iface, fields, name).mtu == link_mtu(fields, iface.mtu),
    decreases fields.len(),
{
    if fields.len() > 0 {
        lemma_with_generic_mtu(iface, fields.drop_last(), name);
        lemma_mtu_is_no_endpoint();
        // `mtu` is none of the names that `with_field` looks for before it
        reveal_strlit("mtu");
        reveal_strlit("latency");
        reveal_strlit("metric");
        assert("mtu"@.len() == 3 && "latency"@.len() == 7 && "metric"@.len() == 6);
    }
}

/// The MTU of an interface is that of its link: the field `mtu` of the link,
/// or the default. What a link says for one end alone never changes it.
pub proof fn lemma_interface_mtu(
    dflt: Option<LinksDefaultsView>,
    link: LinkView,
    idx: usize,
    ifindex: u32,
)
    ensures
        interface_of(dflt, link, idx, ifindex).mtu == link_mtu(
            link._additional_fields,
            interface_from_defaults(dflt).mtu,
        ),
{
    let name = link.endpoints[idx as int].interface;
    let fields = link._additional_fields;
    lemma_with_generic_mtu(interface_from_defaults(dflt), fields, name);
    lemma_with_directional_keeps_mtu(
        with_generic(interface_from_defaults(dflt), fields, name),
        fields,
        name,
    );
}

/// Both ends of a link have the same MTU.
pub proof fn lemma_mtu_symmetric(
    dflt: Option<LinksDefaultsView>,
    link: LinkView,
    ifindex0: u32,
    ifindex1: u32,
)
    ensures
        interface_of(dflt, link, 0, ifindex0).mtu == interface_of(dflt, link, 1, ifindex1).mtu,
{
    lemma_interface_mtu(dflt, link, 0, ifindex0);
    lemma_interface_mtu(dflt, link, 1, ifindex1);
}

/// Whether `key` names an endpoint whose interface is `name`.
pub fn names_interface(key: &str, name: &str) -> (r: bool)
    ensures
        r == is_directional(key@, name@),
{
    match Endpoint::try_from(key) {
        Ok(e) => str_eq(e.interface.as_str(), name),
        Err(_) => false,
    }
}

impl Interface {
    /// Applies the overrides of a table meant for this end of the link.
    pub fn set_from_table(&mut self, table: &Vec<(String, Datum)>)
        ensures
            final(self)@ == with_table(old(self)@, table_of(table@)),
    {
        let ghost start = self@;
        let ghost all = table_of(table@);
        let mut i: usize = 0;
        assert(all.take(0) =~= Seq::<(Seq<char>, Tree)>::empty());
        while i < table.len()
            invariant
                i <= table.len(),
                all == table_of(table@),
                self@ == with_table(start, all.take(i as int)),
            decreases table.len() - i,
        {
            proof {
                let upto = all.take(i + 1);
                assert(upto.drop_last() =~= all.take(i as int));
                assert(upto.last() == (table@[i as int].0@, tree_of(table@[i as int].1)));
            }
            if !str_eq(table[i].0.as_str(), "mtu") {
                self.set_from_field(table[i].0.as_str(), &table[i].1);
            }
            i += 1;
        }
        assert(all.take(i as int) =~= all);
    }

    /// The interface at end `idx` of the link `config`.
    pub fn new(dflt: &Option<LinksDefaults>, config: &Link, idx: usize, ifindex: u32) -> (r:
        Interface)
        requires
            idx == 0 || idx == 1,
        ensures
            r@ == interface_of(dflt.deep_view(), config@, idx, ifindex),
    {
        let mut iface = Interface::from_defaults(dflt);
        let name = &config.endpoints[idx].interface;
        let fields = &config._additional_fields;
        let n = fields.len();
        let ghost start = iface@;
        let ghost all = fields.deep_view();
        assert(config@.endpoints[idx as int] == config.endpoints[idx as int]@);
        assert(config@.endpoints[1 - idx] == config.endpoints[1 - idx]@);

        // what the link says for both of its ends
        let mut i: usize = 0;
        assert(all.take(0) =~= Seq::<(Seq<char>, Tree)>::empty());
        while i < n
            invariant
                i <= n,
                n == fields@.len(),
                all == fields.deep_view(),
                iface@ == with_generic(start, all.take(i as int), name@),
            decreases n - i,
        {
            proof {
                let upto = all.take(i + 1);
                assert(upto.drop_last() =~= all.take(i as int));
                assert(upto.last() == (fields@[i as int].0, fields@[i as int].1@));
            }
            let key = fields.key_at(i);
            if !names_interface(key.as_str(), name.as_str()) {
                iface.set_from_field(key.as_str(), fields.value_at(i));
            }
            i += 1;
        }
        assert(all.take(i as int) =~= all);

        // what it says for this end alone
        let ghost middle = iface@;
        let mut i: usize = 0;
        while i < n
            invariant
                i <= n,
                n == fields@.len(),
                all == fields.deep_view(),
                iface@ == with_directional(middle, all.take(i as int), name@),
            decreases n - i,
        {
            proof {
                let upto = all.take(i + 1);
                assert(upto.drop_last() =~= all.take(i as int));
                assert(upto.last() == (fields@[i as int].0, fields@[i as int].1@));
            }
            let key = fields.key_at(i);
            if names_interface(key.as_str(), name.as_str()) {
                match fields.value_at(i).as_table() {
                    Some(table) => {
                        iface.set_from_table(table);
                    },
                    None => {},
                }
            }
            i += 1;
        }
        assert(all.take(i as int) =~= all);

        iface.name = name.clone();
        iface.peer = Some(config.endpoints[1 - idx].duplicate());
        iface.idx = idx;
        iface.ifindex = ifindex;
        iface
    }
}

impl Duplicate for Interface {
    fn duplicate(&self) -> (r: Self) {
        Interface {
            name: self.name.clone(),
            latency: self.latency.duplicate(),
            metric: self.metric,
            bandwidth: self.bandwidth.duplicate(),
            mtu: self.mtu,
            mac: self.mac.duplicate(),
            idx: self.idx,
            peer: self.peer.duplicate(),
            addrs: self.addrs.duplicate(),
            ctx_addrs: self.ctx_addrs.duplicate(),
            ctx_mac: self.ctx_mac.duplicate(),
            ifindex: self.ifindex,
        }
    }
}

/// The request to create a pair of virtual interfaces across two namespaces.
#[derive(Debug, Clone, PartialEq, Eq)]
pub struct VethRequest {
    /// The name of the end that goes to the peer's namespace.
    pub name: String,
    /// The name of the end that stays in the node's namespace.
    pub peer_name: String,
    /// The namespace of the node.
    pub netns: String,
    /// The namespace of the peer.
    pub peer_netns: String,
    /// The MTU to set on both ends, if any.
    pub mtu: Option<u32>,
    /// The hardware address to set on the node's end, if any.
    pub mac: Option<Vec<u8>>,
    /// The index to ask for on the node's end.
    pub ifindex: u32,
}

/// The mathematical form of a [`VethRequest`].
pub struct VethView {
    pub name: Seq<char>,
    pub peer_name: Seq<char>,
    pub netns: Seq<char>,
    pub peer_netns: Seq<char>,
    pub mtu: Option<u32>,
    pub mac: Option<Seq<u8>>,
    pub ifindex: u32,
}

impl DeepView for VethRequest {
    type V = VethView;

    open spec fn deep_view(&self) -> VethView {
        VethView {
            name: self.name@,
            peer_name: self.peer_name@,
            netns: self.netns@,
            peer_netns: self.peer_netns@,
            mtu: self.mtu,
            mac: self.mac.deep_view(),
            ifindex: self.ifindex,
        }
    }
}

/// What is to be done to bring an interface up in its node's namespace.
///
/// The caller opens the node's namespace. If that succeeds, it creates the
/// pair `veth`, provided there is one and the peer's namespace opens too, and
/// then runs the commands of `addresses`. Whether or not the namespace opened,
/// it runs the commands of `link` last. A command that fails is reported and
/// the rest go on.
#[derive(Debug, Clone, PartialEq, Eq)]
pub struct InterfacePlan {
    pub veth: Option<VethRequest>,
    pub addresses: Vec<Vec<String>>,
    pub link: Vec<Vec<String>>,
}

/// The mathematical form of an [`InterfacePlan`].
pub struct InterfacePlanView {
    pub veth: Option<VethView>,
    pub addresses: Seq<Seq<Seq<char>>>,
    pub link: Seq<Seq<Seq<char>>>,
}

impl DeepView for InterfacePlan {
    type V = InterfacePlanView;

    open spec fn deep_view(&self) -> InterfacePlanView {
        InterfacePlanView {
            veth: self.veth.deep_view(),
            addresses: self.addresses.deep_view(),
            link: self.link.deep_view(),
        }
    }
}

/// The command that adds an address to an interface of a namespace.
pub open spec fn address_command(node: Seq<char>, name: Seq<char>, addr: Seq<char>) -> Seq<
    Seq<char>,
> {
    seq!["ip"@, "-n"@, node, "a"@, "add"@, addr, "dev"@, name]
}

/// The command that sets the hardware address of an interface.
pub open spec fn mac_command(node: Seq<char>, name: Seq<char>, mac: Seq<u8>) -> Seq<Seq<char>> {
    seq!["ip"@, "-n"@, node, "l"@, "set"@, "dev"@, name, "address"@, mac_text(mac)]
}

/// The command that brings an interface up.
pub open spec fn up_command(node: Seq<char>, name: Seq<char>) -> Seq<Seq<char>> {
    seq!["ip"@, "-n"@, node, "l"@, "set"@, "dev"@, name, "up"@]
}

/// The command that delays the traffic leaving an interface.
pub open spec fn latency_command(node: Seq<char>, name: Seq<char>, latency: Seq<char>) -> Seq<
    Seq<char>,
> {
    seq![
        "ip"@,
        "netns"@,
        "exec"@,
        node,
        "tc"@,
        "qdisc"@,
        "add"@,
        "dev"@,
        name,
        "root"@,
        "netem"@,
        "delay"@,
        latency,
    ]
}

/// The pair to create for an interface: none without a peer.
pub open spec fn veth_of(iface: InterfaceView, node: Seq<char>) -> Option<VethView> {
    match iface.peer {
        Some(peer) => Some(
            VethView {
                name: iface.name,
                peer_name: peer.interface,
                netns: node,
                peer_netns: peer.node,
                mtu: iface.mtu,
                mac: iface.mac,
                ifindex: iface.ifindex,
            },
        ),
        None => None,
    }
}

/// The commands that add the addresses `addrs`, in order.
pub open spec fn address_commands(
    node: Seq<char>,
    name: Seq<char>,
    addrs: Option<Seq<IpNetView>>,
) -> Seq<Seq<Seq<char>>> {
    match addrs {
        Some(list) => Seq::new(
            list.len(),
            |i: int| address_command(node, name, ip_net_text(list[i])),
        ),
        None => Seq::empty(),
    }
}

/// The commands that finish an interface: its hardware address where it has
/// one, then up, then its delay where it has one.
pub open spec fn link_commands(iface: InterfaceView, node: Seq<char>) -> Seq<Seq<Seq<char>>> {
    let mac = match iface.mac {
        Some(mac) => seq![mac_command(node, iface.name, mac)],
        None => Seq::empty(),
    };
    let latency = match iface.latency {
        Some(latency) => seq![latency_command(node, iface.name, latency)],
        None => Seq::empty(),
    };
    mac + seq![up_command(node, iface.name)] + latency
}

/// The plan for an interface in the namespace `node`, with `addrs` to add.
pub open spec fn interface_plan(
    iface: InterfaceView,
    node: Seq<char>,
    addrs: Option<Seq<IpNetView>>,
) -> InterfacePlanView {
    InterfacePlanView {
        veth: veth_of(iface, node),
        addresses: address_commands(node, iface.name, addrs),
        link: link_commands(iface, node),
    }
}

/// A word of a command.
fn word(s: &'static str) -> (r: String)
    ensures
        r@ == s@,
{
    String::from_str(s)
}

impl Interface {
    /// The command that adds `addr` to this interface.
    fn address_command(&self, node: &str, addr: &IpNet) -> (r: Vec<String>)
        ensures
            r.deep_view() == address_command(node@, self.name@, ip_net_text(addr@)),
    {
        let mut cmd: Vec<String> = Vec::new();
        cmd.push(word("ip"));
        cmd.push(word("-n"));
        cmd.push(String::from_str(node));
        cmd.push(word("a"));
        cmd.push(word("add"));
        cmd.push(addr.to_text());
        cmd.push(word("dev"));
        cmd.push(self.name.clone());
        assert(cmd.deep_view() =~= address_command(node@, self.name@, ip_net_text(addr@)));
        cmd
    }

    /// The command that sets the hardware address `mac` on this interface.
    fn mac_command(&self, node: &str, mac: &Vec<u8>) -> (r: Vec<String>)
        ensures
            r.deep_view() == mac_command(node@, self.name@, mac@),
    {
        let mut cmd: Vec<String> = Vec::new();
        cmd.push(word("ip"));
        cmd.push(word("-n"));
        cmd.push(String::from_str(node));
        cmd.push(word("l"));
        cmd.push(word("set"));
        cmd.push(word("dev"));
        cmd.push(self.name.clone());
        cmd.push(word("address"));
        cmd.push(mac_to_text(mac));
        assert(cmd.deep_view() =~= mac_command(node@, self.name@, mac@));
        cmd
    }

    /// The command that brings this interface up.
    fn up_command(&self, node: &str) -> (r: Vec<String>)
        ensures
            r.deep_view() == up_command(node@, self.name@),
    {
        let mut cmd: Vec<String> = Vec::new();
        cmd.push(word("ip"));
        cmd.push(word("-n"));
        cmd.push(String::from_str(node));
        cmd.push(word("l"));
        cmd.push(word("set"));
        cmd.push(word("dev"));
        cmd.push(self.name.clone());
        cmd.push(word("up"));
        assert(cmd.deep_view() =~= up_command(node@, self.name@));
        cmd
    }

    /// The command that delays the traffic leaving this interface.
    fn latency_command(&self, node: &str, latency: &String) -> (r: Vec<String>)
        ensures
            r.deep_view() == latency_command(node@, self.name@, latency@),
    {
        let mut cmd: Vec<String> = Vec::new();
        cmd.push(word("ip"));
        cmd.push(word("netns"));
        cmd.push(word("exec"));
        cmd.push(String::from_str(node));
        cmd.push(word("tc"));
        cmd.push(word("qdisc"));
        cmd.push(word("add"));
        cmd.push(word("dev"));
        cmd.push(self.name.clone());
        cmd.push(word("root"));
        cmd.push(word("netem"));
        cmd.push(word("delay"));
        cmd.push(latency.clone());
        assert(cmd.deep_view() =~= latency_command(node@, self.name@, latency@));
        cmd
    }

    /// What is to be done to bring this interface up in the namespace `node`,
    /// with the addresses `addrs`.
    pub fn setup(&self, node: &str, addrs: Option<&Vec<IpNet>>) -> (r: InterfacePlan)
        ensures
            r.deep_view() == interface_plan(self@, node@, addrs.deep_view()),
    {
        let veth = match &self.peer {
            Some(peer) => Some(
                VethRequest {
                    name: self.name.clone(),
                    peer_name: peer.interface.clone(),
                    netns: String::from_str(node),
                    peer_netns: peer.node.clone(),
                    mtu: self.mtu,
                    mac: self.mac.duplicate(),
                    ifindex: self.ifindex,
                },
            ),
            None => None,
        };
        let mut addresses: Vec<Vec<String>> = Vec::new();
        match addrs {
            Some(list) => {
                let mut i: usize = 0;
                while i < list.len()
                    invariant
                        i <= list.len(),
                        addresses@.len() == i,
                        forall|j: int|
                            0 <= j < i ==> (#[trigger] addresses@[j]).deep_view()
                                == address_command(node@, self.name@, ip_net_text(list@[j]@)),
                    decreases list.len() - i,
                {
                    addresses.push(self.address_command(node, &list[i]));
                    i += 1;
                }
                assert(addresses.deep_view() =~= address_commands(
                    node@,
                    self.name@,
                    addrs.deep_view(),
                ));
            },
            None => {
                assert(addresses.deep_view() =~= address_commands(
                    node@,
                    self.name@,
                    addrs.deep_view(),
                ));
            },
        }
        let mut link: Vec<Vec<String>> = Vec::new();
        match &self.mac {
            Some(mac) => {
                assert(mac.deep_view() =~= mac@);
                link.push(self.mac_command(node, mac));
            },
            None => {},
        }
        link.push(self.up_command(node));
        match &self.latency {
            Some(latency) => {
                link.push(self.latency_command(node, latency));
            },
            None => {},
        }
        assert(link.deep_view() =~= link_commands(self@, node@));
        InterfacePlan { veth, addresses, link }
    }
}

} // verus!
