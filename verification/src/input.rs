//! What the detector evaluates: a protocol-independent snapshot of one
//! scope's traffic over one rate window.
//!
//! Rates are integers in canonical units: bits, packets and flows per
//! second. Times are nanoseconds: monotonic instants count from an
//! arbitrary origin, wall times from the Unix epoch (and may be
//! negative).

use vstd::prelude::*;

verus! {

use crate::net::IpAddress;
use crate::direction::Direction;
use crate::text::{chars_order, compare_strings, flipped, lemma_chars_order_flip, lemma_chars_order_same, KeyOrder};
use crate::render::{decimal, ip_text, push_decimal, push_ip, push_text, string_from_chars};

/// IP version of the traffic a snapshot describes.
#[derive(Debug, Clone, Copy, PartialEq, Eq, Hash, PartialOrd, Ord, Structural)]
pub enum AddressFamily {
    Ipv4,
    Ipv6,
}

pub open spec fn family_index(f: AddressFamily) -> int {
    match f {
        AddressFamily::Ipv4 => 0,
        AddressFamily::Ipv6 => 1,
    }
}

impl AddressFamily {
    /// The family of `addr`.
    pub fn of(addr: IpAddress) -> (r: AddressFamily)
        ensures
            r == (if addr is V4 { AddressFamily::Ipv4 } else { AddressFamily::Ipv6 }),
    {
        match addr {
            IpAddress::V4(_) => AddressFamily::Ipv4,
            IpAddress::V6(_) => AddressFamily::Ipv6,
        }
    }

    pub open spec fn name(self) -> Seq<char> {
        match self {
            AddressFamily::Ipv4 => "ipv4"@,
            AddressFamily::Ipv6 => "ipv6"@,
        }
    }

    pub fn as_str(&self) -> (r: &'static str)
        ensures
            r@ == self.name(),
    {
        match self {
            AddressFamily::Ipv4 => "ipv4",
            AddressFamily::Ipv6 => "ipv6",
        }
    }
}


/// The detector's own direction, mirroring the classifier's.
#[derive(Debug, Clone, Copy, PartialEq, Eq, Hash, PartialOrd, Ord, Structural)]
pub enum TrafficDirection {
    Incoming,
    Outgoing,
    Internal,
    Other,
    Unknown,
}

pub open spec fn direction_index(d: TrafficDirection) -> int {
    match d {
        TrafficDirection::Incoming => 0,
        TrafficDirection::Outgoing => 1,
        TrafficDirection::Internal => 2,
        TrafficDirection::Other => 3,
        TrafficDirection::Unknown => 4,
    }
}

/// The classifier's direction mapped one-for-one onto the detector's.
pub open spec fn direction_of(d: Direction) -> TrafficDirection {
    match d {
        Direction::Incoming => TrafficDirection::Incoming,
        Direction::Outgoing => TrafficDirection::Outgoing,
        Direction::Internal => TrafficDirection::Internal,
        Direction::Other => TrafficDirection::Other,
        Direction::Unknown => TrafficDirection::Unknown,
    }
}

impl From<Direction> for TrafficDirection {
    fn from(d: Direction) -> (r: TrafficDirection) {
        match d {
            Direction::Incoming => TrafficDirection::Incoming,
            Direction::Outgoing => TrafficDirection::Outgoing,
            Direction::Internal => TrafficDirection::Internal,
            Direction::Other => TrafficDirection::Other,
            Direction::Unknown => TrafficDirection::Unknown,
        }
    }
}

impl vstd::std_specs::convert::FromSpecImpl<Direction> for TrafficDirection {
    open spec fn obeys_from_spec() -> bool {
        true
    }

    open spec fn from_spec(d: Direction) -> TrafficDirection {
        direction_of(d)
    }
}

impl TrafficDirection {
    pub open spec fn name(self) -> Seq<char> {
        match self {
            TrafficDirection::Incoming => "incoming"@,
            TrafficDirection::Outgoing => "outgoing"@,
            TrafficDirection::Internal => "internal"@,
            TrafficDirection::Other => "other"@,
            TrafficDirection::Unknown => "unknown"@,
        }
    }

    pub fn as_str(&self) -> (r: &'static str)
        ensures
            r@ == self.name(),
    {
        match self {
            TrafficDirection::Incoming => "incoming",
            TrafficDirection::Outgoing => "outgoing",
            TrafficDirection::Internal => "internal",
            TrafficDirection::Other => "other",
            TrafficDirection::Unknown => "unknown",
        }
    }
}

/// Which kind of thing a policy targets.
#[derive(Debug, Clone, Copy, PartialEq, Eq, Hash, PartialOrd, Ord, Structural)]
pub enum ScopeType {
    /// A single address.
    Host,
    /// An explicitly configured prefix.
    Prefix,
    /// The implicit IPv4 /24 containing an address.
    Slash24,
    /// Every address belonging to one hostgroup, summed.
    HostgroupTotal,
}

pub open spec fn scope_type_index(t: ScopeType) -> int {
    match t {
        ScopeType::Host => 0,
        ScopeType::Prefix => 1,
        ScopeType::Slash24 => 2,
        ScopeType::HostgroupTotal => 3,
    }
}

impl ScopeType {
    pub open spec fn name(self) -> Seq<char> {
        match self {
            ScopeType::Host => "host"@,
            ScopeType::Prefix => "prefix"@,
            ScopeType::Slash24 => "slash24"@,
            ScopeType::HostgroupTotal => "hostgroupTotal"@,
        }
    }

    pub fn as_str(&self) -> (r: &'static str)
        ensures
            r@ == self.name(),
    {
        match self {
            ScopeType::Host => "host",
            ScopeType::Prefix => "prefix",
            ScopeType::Slash24 => "slash24",
            ScopeType::HostgroupTotal => "hostgroupTotal",
        }
    }

    /// How specific a scope type is, for precedence. Higher wins.
    pub open spec fn specificity_spec(self) -> u8 {
        match self {
            ScopeType::Host => 40,
            ScopeType::Prefix => 30,
            ScopeType::Slash24 => 20,
            ScopeType::HostgroupTotal => 10,
        }
    }

    pub fn specificity(&self) -> (r: u8)
        ensures
            r == self.specificity_spec(),
    {
        match self {
            ScopeType::Host => 40,
            ScopeType::Prefix => 30,
            ScopeType::Slash24 => 20,
            ScopeType::HostgroupTotal => 10,
        }
    }
}

/// Which particular host, network, or hostgroup a snapshot describes.
#[derive(Debug, Clone, PartialEq, Eq, Hash)]
pub enum ScopeId {
    Host { addr: IpAddress },
    Network { addr: IpAddress, prefix_len: u8 },
    Hostgroup { name: String },
}

/// A [`ScopeId`] with its name as characters.
pub enum ScopeIdView {
    Host(IpAddress),
    Network(IpAddress, u8),
    Hostgroup(Seq<char>),
}

impl View for ScopeId {
    type V = ScopeIdView;

    open spec fn view(&self) -> ScopeIdView {
        match self {
            ScopeId::Host { addr } => ScopeIdView::Host(*addr),
            ScopeId::Network { addr, prefix_len } => ScopeIdView::Network(*addr, *prefix_len),
            ScopeId::Hostgroup { name } => ScopeIdView::Hostgroup(name@),
        }
    }
}

/// The text of a scope id: the address, the network as
/// `address/length`, or the hostgroup's name.
pub open spec fn scope_id_text(id: ScopeIdView) -> Seq<char> {
    match id {
        ScopeIdView::Host(addr) => ip_text(addr),
        ScopeIdView::Network(addr, len) => ip_text(addr) + "/"@ + decimal(len as nat),
        ScopeIdView::Hostgroup(name) => name,
    }
}

impl ScopeId {
    /// The text of the scope id, as [`scope_id_text`] gives it.
    pub fn to_string(&self) -> (r: String)
        ensures
            r@ == scope_id_text(self@),
    {
        let mut out: Vec<char> = Vec::new();
        match self {
            ScopeId::Host { addr } => {
                push_ip(&mut out, *addr);
            },
            ScopeId::Network { addr, prefix_len } => {
                push_ip(&mut out, *addr);
                push_text(&mut out, "/");
                push_decimal(&mut out, *prefix_len as u128);
                proof {
                    reveal_strlit("/");
                }
            },
            ScopeId::Hostgroup { name } => {
                push_text(&mut out, name.as_str());
            },
        }
        proof {
            assert(out@ =~= scope_id_text(self@));
        }
        string_from_chars(out)
    }

    /// An identical copy.
    pub fn duplicate(&self) -> (r: ScopeId)
        ensures
            r@ == self@,
            r == *self,
    {
        match self {
            ScopeId::Host { addr } => ScopeId::Host { addr: *addr },
            ScopeId::Network { addr, prefix_len } => ScopeId::Network { addr: *addr, prefix_len: *prefix_len },
            ScopeId::Hostgroup { name } => ScopeId::Hostgroup { name: name.clone() },
        }
    }
}

/// Everything that identifies one evaluated series.
#[derive(Debug, Clone, PartialEq, Eq, Hash)]
pub struct ScopeKey {
    pub tenant: String,
    pub scope_type: ScopeType,
    pub scope_id: ScopeId,
    pub direction: TrafficDirection,
    pub address_family: AddressFamily,
}

/// A [`ScopeKey`] with its text as characters.
pub struct ScopeKeyView {
    pub tenant: Seq<char>,
    pub scope_type: ScopeType,
    pub scope_id: ScopeIdView,
    pub direction: TrafficDirection,
    pub address_family: AddressFamily,
}

impl View for ScopeKey {
    type V = ScopeKeyView;

    open spec fn view(&self) -> ScopeKeyView {
        ScopeKeyView {
            tenant: self.tenant@,
            scope_type: self.scope_type,
            scope_id: self.scope_id@,
            direction: self.direction,
            address_family: self.address_family,
        }
    }
}

/// Orders two integers.
pub open spec fn int_order(a: int, b: int) -> KeyOrder {
    if a < b {
        KeyOrder::Before
    } else if a > b {
        KeyOrder::After
    } else {
        KeyOrder::Same
    }
}

/// The first of two orders that is not `Same`.
pub open spec fn then_order(first: KeyOrder, second: KeyOrder) -> KeyOrder {
    if first == KeyOrder::Same {
        second
    } else {
        first
    }
}

/// Addresses order IPv4 before IPv6, then by value.
pub open spec fn addr_order(a: IpAddress, b: IpAddress) -> KeyOrder {
    match (a, b) {
        (IpAddress::V4(x), IpAddress::V4(y)) => int_order(x as int, y as int),
        (IpAddress::V6(x), IpAddress::V6(y)) => int_order(x as int, y as int),
        (IpAddress::V4(_), IpAddress::V6(_)) => KeyOrder::Before,
        (IpAddress::V6(_), IpAddress::V4(_)) => KeyOrder::After,
    }
}

/// Scope ids order host before network before hostgroup, then by their
/// fields in declaration order.
pub open spec fn scope_id_order(a: ScopeIdView, b: ScopeIdView) -> KeyOrder {
    match (a, b) {
        (ScopeIdView::Host(x), ScopeIdView::Host(y)) => addr_order(x, y),
        (ScopeIdView::Network(x, lx), ScopeIdView::Network(y, ly)) => then_order(
            addr_order(x, y),
            int_order(lx as int, ly as int),
        ),
        (ScopeIdView::Hostgroup(x), ScopeIdView::Hostgroup(y)) => chars_order(x, y),
        (ScopeIdView::Host(_), _) => KeyOrder::Before,
        (_, ScopeIdView::Host(_)) => KeyOrder::After,
        (ScopeIdView::Network(..), _) => KeyOrder::Before,
        (_, ScopeIdView::Network(..)) => KeyOrder::After,
    }
}

/// Scope keys order by tenant, scope type, scope id, direction and
/// address family, in that order of significance.
pub open spec fn key_order(a: ScopeKeyView, b: ScopeKeyView) -> KeyOrder {
    then_order(
        chars_order(a.tenant, b.tenant),
        then_order(
            int_order(scope_type_index(a.scope_type), scope_type_index(b.scope_type)),
            then_order(
                scope_id_order(a.scope_id, b.scope_id),
                then_order(
                    int_order(direction_index(a.direction), direction_index(b.direction)),
                    int_order(family_index(a.address_family), family_index(b.address_family)),
                ),
            ),
        ),
    )
}

fn order_u128(a: u128, b: u128) -> (r: KeyOrder)
    ensures
        r == int_order(a as int, b as int),
{
    if a < b {
        KeyOrder::Before
    } else if a > b {
        KeyOrder::After
    } else {
        KeyOrder::Same
    }
}

fn order_addr(a: &IpAddress, b: &IpAddress) -> (r: KeyOrder)
    ensures
        r == addr_order(*a, *b),
{
    match (a, b) {
        (IpAddress::V4(x), IpAddress::V4(y)) => order_u128(*x as u128, *y as u128),
        (IpAddress::V6(x), IpAddress::V6(y)) => order_u128(*x, *y),
        (IpAddress::V4(_), IpAddress::V6(_)) => KeyOrder::Before,
        (IpAddress::V6(_), IpAddress::V4(_)) => KeyOrder::After,
    }
}

fn then(first: KeyOrder, second: KeyOrder) -> (r: KeyOrder)
    ensures
        r == then_order(first, second),
{
    match first {
        KeyOrder::Same => second,
        _ => first,
    }
}

fn order_scope_id(a: &ScopeId, b: &ScopeId) -> (r: KeyOrder)
    ensures
        r == scope_id_order(a@, b@),
{
    match (a, b) {
        (ScopeId::Host { addr: x }, ScopeId::Host { addr: y }) => order_addr(x, y),
        (ScopeId::Network { addr: x, prefix_len: lx }, ScopeId::Network { addr: y, prefix_len: ly }) => {
            then(order_addr(x, y), order_u128(*lx as u128, *ly as u128))
        },
        (ScopeId::Hostgroup { name: x }, ScopeId::Hostgroup { name: y }) => compare_strings(x.as_str(), y.as_str()),
        (ScopeId::Host { .. }, _) => KeyOrder::Before,
        (_, ScopeId::Host { .. }) => KeyOrder::After,
        (ScopeId::Network { .. }, _) => KeyOrder::Before,
        (_, ScopeId::Network { .. }) => KeyOrder::After,
    }
}

impl ScopeKey {
    /// Compares two keys in the order [`key_order`] defines.
    pub fn compare(&self, other: &ScopeKey) -> (r: KeyOrder)
        ensures
            r == key_order(self@, other@),
    {
        let t = compare_strings(self.tenant.as_str(), other.tenant.as_str());
        let s = order_u128(scope_type_rank(self.scope_type), scope_type_rank(other.scope_type));
        let i = order_scope_id(&self.scope_id, &other.scope_id);
        let d = order_u128(direction_rank(self.direction), direction_rank(other.direction));
        let f = order_u128(family_rank(self.address_family), family_rank(other.address_family));
        then(t, then(s, then(i, then(d, f))))
    }

    /// Whether two keys are the same key.
    pub fn same_as(&self, other: &ScopeKey) -> (r: bool)
        ensures
            r == (self@ == other@),
    {
        let o = self.compare(other);
        proof {
            lemma_key_order_same(self@, other@);
        }
        o == KeyOrder::Same
    }

    /// An identical copy.
    pub fn duplicate(&self) -> (r: ScopeKey)
        ensures
            r@ == self@,
            r == *self,
    {
        ScopeKey {
            tenant: self.tenant.clone(),
            scope_type: self.scope_type,
            scope_id: self.scope_id.duplicate(),
            direction: self.direction,
            address_family: self.address_family,
        }
    }
}

fn scope_type_rank(t: ScopeType) -> (r: u128)
    ensures
        r == scope_type_index(t),
{
    match t {
        ScopeType::Host => 0,
        ScopeType::Prefix => 1,
        ScopeType::Slash24 => 2,
        ScopeType::HostgroupTotal => 3,
    }
}

fn direction_rank(d: TrafficDirection) -> (r: u128)
    ensures
        r == direction_index(d),
{
    match d {
        TrafficDirection::Incoming => 0,
        TrafficDirection::Outgoing => 1,
        TrafficDirection::Internal => 2,
        TrafficDirection::Other => 3,
        TrafficDirection::Unknown => 4,
    }
}

fn family_rank(f: AddressFamily) -> (r: u128)
    ensures
        r == family_index(f),
{
    match f {
        AddressFamily::Ipv4 => 0,
        AddressFamily::Ipv6 => 1,
    }
}

/// Two keys order as `Same` exactly when they are equal.
pub proof fn lemma_key_order_same(a: ScopeKeyView, b: ScopeKeyView)
    ensures
        (key_order(a, b) == KeyOrder::Same) <==> (a == b),
{
    lemma_chars_order_same(a.tenant, b.tenant);
    match (a.scope_id, b.scope_id) {
        (ScopeIdView::Hostgroup(x), ScopeIdView::Hostgroup(y)) => {
            lemma_chars_order_same(x, y);
        },
        _ => {},
    }
    if key_order(a, b) == KeyOrder::Same {
        assert(a.tenant == b.tenant);
        assert(a.scope_id == b.scope_id);
    }
}

/// The metrics a threshold can be written against.
#[derive(Debug, Clone, Copy, PartialEq, Eq, Hash, PartialOrd, Ord, Structural)]
pub enum MetricKind {
    Bps,
    Pps,
    Fps,
    TcpBps,
    TcpPps,
    UdpBps,
    UdpPps,
    IcmpBps,
    IcmpPps,
    TcpSynBps,
    TcpSynPps,
    FragmentedBps,
    FragmentedPps,
    DroppedBps,
    DroppedPps,
}

/// The unit a metric is measured in.
#[derive(Debug, Clone, Copy, PartialEq, Eq, Structural)]
pub enum MetricUnit {
    BitsPerSecond,
    PacketsPerSecond,
    FlowsPerSecond,
}

impl MetricUnit {
    pub open spec fn name(self) -> Seq<char> {
        match self {
            MetricUnit::BitsPerSecond => "bps"@,
            MetricUnit::PacketsPerSecond => "pps"@,
            MetricUnit::FlowsPerSecond => "fps"@,
        }
    }

    /// The short form an operator reads on an event or a graph axis.
    pub fn as_str(&self) -> (r: &'static str)
        ensures
            r@ == self.name(),
    {
        match self {
            MetricUnit::BitsPerSecond => "bps",
            MetricUnit::PacketsPerSecond => "pps",
            MetricUnit::FlowsPerSecond => "fps",
        }
    }
}

/// What tells a metric's name apart: its length, its first character
/// and its third character from the end.
pub open spec fn name_signature(name: Seq<char>) -> (nat, char, char) {
    (name.len(), name[0], name[name.len() - 3])
}

proof fn lemma_name_signatures(k: MetricKind)
    ensures
        k.name().len() >= 3,
        name_signature(k.name()) == match k {
            MetricKind::Bps => (3nat, 'b', 'b'),
            MetricKind::Pps => (3nat, 'p', 'p'),
            MetricKind::Fps => (3nat, 'f', 'f'),
            MetricKind::TcpBps => (6nat, 't', 'B'),
            MetricKind::TcpPps => (6nat, 't', 'P'),
            MetricKind::UdpBps => (6nat, 'u', 'B'),
            MetricKind::UdpPps => (6nat, 'u', 'P'),
            MetricKind::IcmpBps => (7nat, 'i', 'B'),
            MetricKind::IcmpPps => (7nat, 'i', 'P'),
            MetricKind::TcpSynBps => (9nat, 't', 'B'),
            MetricKind::TcpSynPps => (9nat, 't', 'P'),
            MetricKind::FragmentedBps => (13nat, 'f', 'B'),
            MetricKind::FragmentedPps => (13nat, 'f', 'P'),
            MetricKind::DroppedBps => (10nat, 'd', 'B'),
            MetricKind::DroppedPps => (10nat, 'd', 'P'),
        },
{
    match k {
        MetricKind::Bps => {
            reveal_strlit("bps");
        },
        MetricKind::Pps => {
            reveal_strlit("pps");
        },
        MetricKind::Fps => {
            reveal_strlit("fps");
        },
        MetricKind::TcpBps => {
            reveal_strlit("tcpBps");
        },
        MetricKind::TcpPps => {
            reveal_strlit("tcpPps");
        },
        MetricKind::UdpBps => {
            reveal_strlit("udpBps");
        },
        MetricKind::UdpPps => {
            reveal_strlit("udpPps");
        },
        MetricKind::IcmpBps => {
            reveal_strlit("icmpBps");
        },
        MetricKind::IcmpPps => {
            reveal_strlit("icmpPps");
        },
        MetricKind::TcpSynBps => {
            reveal_strlit("tcpSynBps");
        },
        MetricKind::TcpSynPps => {
            reveal_strlit("tcpSynPps");
        },
        MetricKind::FragmentedBps => {
            reveal_strlit("fragmentedBps");
        },
        MetricKind::FragmentedPps => {
            reveal_strlit("fragmentedPps");
        },
        MetricKind::DroppedBps => {
            reveal_strlit("droppedBps");
        },
        MetricKind::DroppedPps => {
            reveal_strlit("droppedPps");
        },
    }
}

/// Every metric kind has its own name: no two kinds share one.
pub proof fn law_metric_names_are_distinct(a: MetricKind, b: MetricKind)
    ensures
        a.name() == b.name() ==> a == b,
{
    lemma_name_signatures(a);
    lemma_name_signatures(b);
}

/// Every metric kind, in declaration order.
pub const ALL_METRIC_KINDS: [MetricKind; 15] = [
    MetricKind::Bps,
    MetricKind::Pps,
    MetricKind::Fps,
    MetricKind::TcpBps,
    MetricKind::TcpPps,
    MetricKind::UdpBps,
    MetricKind::UdpPps,
    MetricKind::IcmpBps,
    MetricKind::IcmpPps,
    MetricKind::TcpSynBps,
    MetricKind::TcpSynPps,
    MetricKind::FragmentedBps,
    MetricKind::FragmentedPps,
    MetricKind::DroppedBps,
    MetricKind::DroppedPps,
];

/// Position of a metric in declaration order; thresholds iterate in it.
pub open spec fn metric_index(k: MetricKind) -> int {
    match k {
        MetricKind::Bps => 0,
        MetricKind::Pps => 1,
        MetricKind::Fps => 2,
        MetricKind::TcpBps => 3,
        MetricKind::TcpPps => 4,
        MetricKind::UdpBps => 5,
        MetricKind::UdpPps => 6,
        MetricKind::IcmpBps => 7,
        MetricKind::IcmpPps => 8,
        MetricKind::TcpSynBps => 9,
        MetricKind::TcpSynPps => 10,
        MetricKind::FragmentedBps => 11,
        MetricKind::FragmentedPps => 12,
        MetricKind::DroppedBps => 13,
        MetricKind::DroppedPps => 14,
    }
}

/// Distinct metric kinds have distinct positions.
pub proof fn lemma_metric_index_injective(a: MetricKind, b: MetricKind)
    ensures
        (metric_index(a) == metric_index(b)) <==> (a == b),
        0 <= metric_index(a) < 15,
{
}

impl MetricKind {
    /// Position of this metric in declaration order.
    pub fn index(&self) -> (r: usize)
        ensures
            r == metric_index(*self),
    {
        match self {
            MetricKind::Bps => 0,
            MetricKind::Pps => 1,
            MetricKind::Fps => 2,
            MetricKind::TcpBps => 3,
            MetricKind::TcpPps => 4,
            MetricKind::UdpBps => 5,
            MetricKind::UdpPps => 6,
            MetricKind::IcmpBps => 7,
            MetricKind::IcmpPps => 8,
            MetricKind::TcpSynBps => 9,
            MetricKind::TcpSynPps => 10,
            MetricKind::FragmentedBps => 11,
            MetricKind::FragmentedPps => 12,
            MetricKind::DroppedBps => 13,
            MetricKind::DroppedPps => 14,
        }
    }

    pub open spec fn name(self) -> Seq<char> {
        match self {
            MetricKind::Bps => "bps"@,
            MetricKind::Pps => "pps"@,
            MetricKind::Fps => "fps"@,
            MetricKind::TcpBps => "tcpBps"@,
            MetricKind::TcpPps => "tcpPps"@,
            MetricKind::UdpBps => "udpBps"@,
            MetricKind::UdpPps => "udpPps"@,
            MetricKind::IcmpBps => "icmpBps"@,
            MetricKind::IcmpPps => "icmpPps"@,
            MetricKind::TcpSynBps => "tcpSynBps"@,
            MetricKind::TcpSynPps => "tcpSynPps"@,
            MetricKind::FragmentedBps => "fragmentedBps"@,
            MetricKind::FragmentedPps => "fragmentedPps"@,
            MetricKind::DroppedBps => "droppedBps"@,
            MetricKind::DroppedPps => "droppedPps"@,
        }
    }

    pub fn as_str(&self) -> (r: &'static str)
        ensures
            r@ == self.name(),
    {
        match self {
            MetricKind::Bps => "bps",
            MetricKind::Pps => "pps",
            MetricKind::Fps => "fps",
            MetricKind::TcpBps => "tcpBps",
            MetricKind::TcpPps => "tcpPps",
            MetricKind::UdpBps => "udpBps",
            MetricKind::UdpPps => "udpPps",
            MetricKind::IcmpBps => "icmpBps",
            MetricKind::IcmpPps => "icmpPps",
            MetricKind::TcpSynBps => "tcpSynBps",
            MetricKind::TcpSynPps => "tcpSynPps",
            MetricKind::FragmentedBps => "fragmentedBps",
            MetricKind::FragmentedPps => "fragmentedPps",
            MetricKind::DroppedBps => "droppedBps",
            MetricKind::DroppedPps => "droppedPps",
        }
    }

    pub open spec fn unit_spec(self) -> MetricUnit {
        match self {
            MetricKind::Bps | MetricKind::TcpBps | MetricKind::UdpBps | MetricKind::IcmpBps
            | MetricKind::TcpSynBps | MetricKind::FragmentedBps | MetricKind::DroppedBps => MetricUnit::BitsPerSecond,
            MetricKind::Fps => MetricUnit::FlowsPerSecond,
            _ => MetricUnit::PacketsPerSecond,
        }
    }

    pub fn unit(&self) -> (r: MetricUnit)
        ensures
            r == self.unit_spec(),
    {
        match self {
            MetricKind::Bps | MetricKind::TcpBps | MetricKind::UdpBps | MetricKind::IcmpBps
            | MetricKind::TcpSynBps | MetricKind::FragmentedBps | MetricKind::DroppedBps => MetricUnit::BitsPerSecond,
            MetricKind::Pps | MetricKind::TcpPps | MetricKind::UdpPps | MetricKind::IcmpPps
            | MetricKind::TcpSynPps | MetricKind::FragmentedPps | MetricKind::DroppedPps => MetricUnit::PacketsPerSecond,
            MetricKind::Fps => MetricUnit::FlowsPerSecond,
        }
    }

    /// Which completeness flag must be set for this metric to be
    /// meaningful; `None` means always meaningful.
    pub open spec fn required_completeness_spec(self) -> Option<CompletenessFlag> {
        match self {
            MetricKind::TcpSynBps | MetricKind::TcpSynPps => Some(CompletenessFlag::TcpFlags),
            MetricKind::FragmentedBps | MetricKind::FragmentedPps => Some(CompletenessFlag::Fragmentation),
            MetricKind::DroppedBps | MetricKind::DroppedPps => Some(CompletenessFlag::ForwardingStatus),
            MetricKind::Bps | MetricKind::Pps | MetricKind::Fps => None,
            _ => Some(CompletenessFlag::Protocol),
        }
    }

    pub fn required_completeness(&self) -> (r: Option<CompletenessFlag>)
        ensures
            r == self.required_completeness_spec(),
    {
        match self {
            MetricKind::TcpSynBps | MetricKind::TcpSynPps => Some(CompletenessFlag::TcpFlags),
            MetricKind::FragmentedBps | MetricKind::FragmentedPps => Some(CompletenessFlag::Fragmentation),
            MetricKind::DroppedBps | MetricKind::DroppedPps => Some(CompletenessFlag::ForwardingStatus),
            MetricKind::TcpBps | MetricKind::TcpPps | MetricKind::UdpBps | MetricKind::UdpPps
            | MetricKind::IcmpBps | MetricKind::IcmpPps => Some(CompletenessFlag::Protocol),
            MetricKind::Bps | MetricKind::Pps | MetricKind::Fps => None,
        }
    }
}

/// An optional field the upstream protocol may or may not have carried.
#[derive(Debug, Clone, Copy, PartialEq, Eq, Hash, Structural)]
pub enum CompletenessFlag {
    Protocol,
    TcpFlags,
    Fragmentation,
    ForwardingStatus,
}

/// Which optional fields were actually observed during a window.
#[derive(Debug, Clone, Copy, Default, PartialEq, Eq, Structural)]
pub struct DataCompleteness {
    pub protocol_seen: bool,
    pub tcp_flags_seen: bool,
    pub fragmentation_seen: bool,
    pub forwarding_status_seen: bool,
}

impl DataCompleteness {
    pub open spec fn has_spec(self, flag: CompletenessFlag) -> bool {
        match flag {
            CompletenessFlag::Protocol => self.protocol_seen,
            CompletenessFlag::TcpFlags => self.tcp_flags_seen,
            CompletenessFlag::Fragmentation => self.fragmentation_seen,
            CompletenessFlag::ForwardingStatus => self.forwarding_status_seen,
        }
    }

    pub fn has(&self, flag: CompletenessFlag) -> (r: bool)
        ensures
            r == self.has_spec(flag),
    {
        match flag {
            CompletenessFlag::Protocol => self.protocol_seen,
            CompletenessFlag::TcpFlags => self.tcp_flags_seen,
            CompletenessFlag::Fragmentation => self.fragmentation_seen,
            CompletenessFlag::ForwardingStatus => self.forwarding_status_seen,
        }
    }

    /// Field-wise logical or.
    pub open spec fn merged(self, other: DataCompleteness) -> DataCompleteness {
        DataCompleteness {
            protocol_seen: self.protocol_seen || other.protocol_seen,
            tcp_flags_seen: self.tcp_flags_seen || other.tcp_flags_seen,
            fragmentation_seen: self.fragmentation_seen || other.fragmentation_seen,
            forwarding_status_seen: self.forwarding_status_seen || other.forwarding_status_seen,
        }
    }

    pub fn merge(&mut self, other: DataCompleteness)
        ensures
            *final(self) == old(self).merged(other),
    {
        self.protocol_seen = self.protocol_seen || other.protocol_seen;
        self.tcp_flags_seen = self.tcp_flags_seen || other.tcp_flags_seen;
        self.fragmentation_seen = self.fragmentation_seen || other.fragmentation_seen;
        self.forwarding_status_seen = self.forwarding_status_seen || other.forwarding_status_seen;
    }
}

/// How much to trust the magnitude of a snapshot's rates.
#[derive(Debug, Clone, Copy, Default, PartialEq, Eq, Structural)]
pub struct SamplingStatus {
    /// Any contributing flow carried a sampling rate above 1.
    pub corrected: bool,
    /// Any contributing flow's rate came from the global default.
    pub used_global_default: bool,
    /// The largest sampling divisor seen.
    pub max_rate: u32,
}

impl SamplingStatus {
    /// The worst case of both: flags or-ed, the larger rate kept.
    pub open spec fn merged(self, other: SamplingStatus) -> SamplingStatus {
        SamplingStatus {
            corrected: self.corrected || other.corrected,
            used_global_default: self.used_global_default || other.used_global_default,
            max_rate: if self.max_rate >= other.max_rate { self.max_rate } else { other.max_rate },
        }
    }

    pub fn merge(&mut self, other: SamplingStatus)
        ensures
            *final(self) == old(self).merged(other),
    {
        self.corrected = self.corrected || other.corrected;
        self.used_global_default = self.used_global_default || other.used_global_default;
        if other.max_rate > self.max_rate {
            self.max_rate = other.max_rate;
        }
    }
}

/// Canonical-unit rates for one scope over one window.
#[derive(Debug, Clone, Copy, PartialEq, Eq, Structural)]
pub struct MetricRates {
    pub bps: u64,
    pub pps: u64,
    pub fps: u64,
    pub tcp_bps: u64,
    pub tcp_pps: u64,
    pub udp_bps: u64,
    pub udp_pps: u64,
    pub icmp_bps: u64,
    pub icmp_pps: u64,
    pub tcp_syn_bps: u64,
    pub tcp_syn_pps: u64,
    pub fragmented_bps: u64,
    pub fragmented_pps: u64,
    pub dropped_bps: u64,
    pub dropped_pps: u64,
}

impl Default for MetricRates {
    fn default() -> (r: MetricRates)
        ensures
            r == MetricRates::zero(),
    {
        MetricRates {
            bps: 0, pps: 0, fps: 0, tcp_bps: 0, tcp_pps: 0, udp_bps: 0, udp_pps: 0, icmp_bps: 0, icmp_pps: 0,
            tcp_syn_bps: 0, tcp_syn_pps: 0, fragmented_bps: 0, fragmented_pps: 0, dropped_bps: 0, dropped_pps: 0,
        }
    }
}

impl MetricRates {
    /// Every rate zero.
    pub open spec fn zero() -> MetricRates {
        MetricRates {
            bps: 0, pps: 0, fps: 0, tcp_bps: 0, tcp_pps: 0, udp_bps: 0, udp_pps: 0, icmp_bps: 0, icmp_pps: 0,
            tcp_syn_bps: 0, tcp_syn_pps: 0, fragmented_bps: 0, fragmented_pps: 0, dropped_bps: 0, dropped_pps: 0,
        }
    }

    /// The field named by `kind`.
    pub open spec fn get_spec(self, kind: MetricKind) -> u64 {
        match kind {
            MetricKind::Bps => self.bps,
            MetricKind::Pps => self.pps,
            MetricKind::Fps => self.fps,
            MetricKind::TcpBps => self.tcp_bps,
            MetricKind::TcpPps => self.tcp_pps,
            MetricKind::UdpBps => self.udp_bps,
            MetricKind::UdpPps => self.udp_pps,
            MetricKind::IcmpBps => self.icmp_bps,
            MetricKind::IcmpPps => self.icmp_pps,
            MetricKind::TcpSynBps => self.tcp_syn_bps,
            MetricKind::TcpSynPps => self.tcp_syn_pps,
            MetricKind::FragmentedBps => self.fragmented_bps,
            MetricKind::FragmentedPps => self.fragmented_pps,
            MetricKind::DroppedBps => self.dropped_bps,
            MetricKind::DroppedPps => self.dropped_pps,
        }
    }

    pub fn get(&self, kind: MetricKind) -> (r: u64)
        ensures
            r == self.get_spec(kind),
    {
        match kind {
            MetricKind::Bps => self.bps,
            MetricKind::Pps => self.pps,
            MetricKind::Fps => self.fps,
            MetricKind::TcpBps => self.tcp_bps,
            MetricKind::TcpPps => self.tcp_pps,
            MetricKind::UdpBps => self.udp_bps,
            MetricKind::UdpPps => self.udp_pps,
            MetricKind::IcmpBps => self.icmp_bps,
            MetricKind::IcmpPps => self.icmp_pps,
            MetricKind::TcpSynBps => self.tcp_syn_bps,
            MetricKind::TcpSynPps => self.tcp_syn_pps,
            MetricKind::FragmentedBps => self.fragmented_bps,
            MetricKind::FragmentedPps => self.fragmented_pps,
            MetricKind::DroppedBps => self.dropped_bps,
            MetricKind::DroppedPps => self.dropped_pps,
        }
    }
}

/// One scope's traffic over one finalized window.
#[derive(Debug, Clone, PartialEq, Eq)]
pub struct DetectionSnapshot {
    pub key: ScopeKey,
    /// Which rate window produced these figures, in nanoseconds.
    pub window: u128,
    /// Monotonic time at which the window closed, in nanoseconds.
    pub observed_at: u128,
    /// Wall time at which the window closed, nanoseconds since the Unix
    /// epoch; for event correlation only.
    pub observed_wall: i128,
    pub rates: MetricRates,
    pub completeness: DataCompleteness,
    pub sampling: SamplingStatus,
    /// How many flow records contributed.
    pub flows_observed: u64,
    /// How many distinct exporters contributed.
    pub exporters_observed: u32,
}

/// Swapping two keys flips their order.
pub proof fn lemma_key_order_flip(a: ScopeKeyView, b: ScopeKeyView)
    ensures
        key_order(b, a) == flipped(key_order(a, b)),
{
    lemma_chars_order_flip(a.tenant, b.tenant);
    match (a.scope_id, b.scope_id) {
        (ScopeIdView::Hostgroup(x), ScopeIdView::Hostgroup(y)) => {
            lemma_chars_order_flip(x, y);
        },
        _ => {},
    }
}

} // verus!
