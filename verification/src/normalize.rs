//! Turning a decoded IPFIX data record into a protocol-independent
//! flow, with sampling correction in the documented priority order.
//!
//! Only a well-known subset of IANA information elements is mapped;
//! other fields are ignored, as IPFIX intends. A record's fields are
//! read in order and a later field of the same element replaces an
//! earlier one. Fragmentation is not mapped: a flow from this path is
//! never marked fragmented.

use vstd::prelude::*;

verus! {

use crate::flow::{protocol_of, FlowError, NormalizedFlow, NormalizedFlowBuilder, Protocol};
use crate::net::IpAddress;
use crate::sampling::{resolve, resolved_spec, SamplingInputs, SamplingSource};

/// `octetDeltaCount`.
pub const IE_OCTET_DELTA_COUNT: u16 = 1;
/// `packetDeltaCount`.
pub const IE_PACKET_DELTA_COUNT: u16 = 2;
/// `protocolIdentifier`.
pub const IE_PROTOCOL_IDENTIFIER: u16 = 4;
/// `tcpControlBits`.
pub const IE_TCP_CONTROL_BITS: u16 = 6;
/// `sourceTransportPort`.
pub const IE_SOURCE_TRANSPORT_PORT: u16 = 7;
/// `sourceIPv4Address`.
pub const IE_SOURCE_IPV4_ADDRESS: u16 = 8;
/// `ingressInterface`.
pub const IE_INGRESS_INTERFACE: u16 = 10;
/// `destinationTransportPort`.
pub const IE_DESTINATION_TRANSPORT_PORT: u16 = 11;
/// `destinationIPv4Address`.
pub const IE_DESTINATION_IPV4_ADDRESS: u16 = 12;
/// `egressInterface`.
pub const IE_EGRESS_INTERFACE: u16 = 14;
/// `bgpSourceAsNumber`.
pub const IE_BGP_SOURCE_AS_NUMBER: u16 = 16;
/// `bgpDestinationAsNumber`.
pub const IE_BGP_DESTINATION_AS_NUMBER: u16 = 17;
/// `sourceIPv6Address`.
pub const IE_SOURCE_IPV6_ADDRESS: u16 = 27;
/// `destinationIPv6Address`.
pub const IE_DESTINATION_IPV6_ADDRESS: u16 = 28;
/// `samplingInterval`.
pub const IE_SAMPLING_INTERVAL: u16 = 34;
/// `forwardingStatus`.
pub const IE_FORWARDING_STATUS: u16 = 89;

/// The coarse `forwardingStatus` (its top two bits) meaning "dropped".
pub const FORWARDING_STATUS_DROPPED: u8 = 2;

/// One decoded field of a data record: its element and the readings of
/// its value that the record decoder gives (big-endian unsigned, an
/// IPv4 address, an IPv6 address), each `None` when the value has the
/// wrong size for it.
#[derive(Debug, Clone, Copy, PartialEq, Eq, Structural)]
pub struct RecordField {
    pub information_element_id: u16,
    pub as_u64_be: Option<u64>,
    pub as_ipv4: Option<u32>,
    pub as_ipv6: Option<u128>,
}

#[derive(Debug, Clone, Copy, PartialEq, Eq)]
pub enum NormalizeError {
    /// The record names no source and/or no destination address.
    MissingAddresses,
    Flow(FlowError),
}

/// Sampling context from outside the record: the exporter's configured
/// rate and the global default.
#[derive(Debug, Clone, Copy, Default, PartialEq, Eq, Structural)]
pub struct ExternalSamplingConfig {
    pub exporter_configured: Option<u32>,
    pub global_default: Option<u32>,
}

/// A normalized flow, and whether a declared zero sampling rate was
/// skipped on the way.
#[derive(Debug, Clone, PartialEq, Eq)]
pub struct NormalizeOutcome {
    pub flow: NormalizedFlow,
    pub zero_rate_skipped: bool,
}

/// What the mapped fields of a record have said so far.
#[derive(Debug, Clone, Copy, PartialEq, Eq, Structural)]
pub struct Scan {
    pub source_addr: Option<IpAddress>,
    pub destination_addr: Option<IpAddress>,
    pub source_port: Option<u16>,
    pub destination_port: Option<u16>,
    pub protocol: Option<Protocol>,
    pub tcp_flags: Option<u8>,
    pub raw_bytes: u64,
    pub raw_packets: u64,
    pub input_interface: Option<u32>,
    pub output_interface: Option<u32>,
    pub source_asn: Option<u32>,
    pub destination_asn: Option<u32>,
    pub record_sampling: Option<u32>,
    pub forwarding_status_known: bool,
    pub dropped: bool,
}

/// Nothing read yet.
pub open spec fn empty_scan() -> Scan {
    Scan {
        source_addr: None,
        destination_addr: None,
        source_port: None,
        destination_port: None,
        protocol: None,
        tcp_flags: None,
        raw_bytes: 0,
        raw_packets: 0,
        input_interface: None,
        output_interface: None,
        source_asn: None,
        destination_asn: None,
        record_sampling: None,
        forwarding_status_known: false,
        dropped: false,
    }
}

/// An optional IPv4 reading as an address.
pub open spec fn v4_of(o: Option<u32>) -> Option<IpAddress> {
    match o {
        Some(a) => Some(IpAddress::V4(a)),
        None => None,
    }
}

/// An optional IPv6 reading as an address.
pub open spec fn v6_of(o: Option<u128>) -> Option<IpAddress> {
    match o {
        Some(a) => Some(IpAddress::V6(a)),
        None => None,
    }
}

/// An unsigned reading truncated to 16 bits.
pub open spec fn u16_of(o: Option<u64>) -> Option<u16> {
    match o {
        Some(v) => Some(v as u16),
        None => None,
    }
}

/// An unsigned reading truncated to 8 bits.
pub open spec fn u8_of(o: Option<u64>) -> Option<u8> {
    match o {
        Some(v) => Some(v as u8),
        None => None,
    }
}

/// An unsigned reading truncated to 32 bits.
pub open spec fn u32_of(o: Option<u64>) -> Option<u32> {
    match o {
        Some(v) => Some(v as u32),
        None => None,
    }
}

/// The scan after one more field: the mapped element it carries takes
/// the field's reading (even a missing one), counters default to zero,
/// and a readable forwarding status marks the status known and the flow
/// dropped when its top two bits say so.
pub open spec fn scan_field(s: Scan, f: RecordField) -> Scan {
    let id = f.information_element_id;
    if id == IE_SOURCE_IPV4_ADDRESS {
        Scan { source_addr: v4_of(f.as_ipv4), ..s }
    } else if id == IE_DESTINATION_IPV4_ADDRESS {
        Scan { destination_addr: v4_of(f.as_ipv4), ..s }
    } else if id == IE_SOURCE_IPV6_ADDRESS {
        Scan { source_addr: v6_of(f.as_ipv6), ..s }
    } else if id == IE_DESTINATION_IPV6_ADDRESS {
        Scan { destination_addr: v6_of(f.as_ipv6), ..s }
    } else if id == IE_SOURCE_TRANSPORT_PORT {
        Scan { source_port: u16_of(f.as_u64_be), ..s }
    } else if id == IE_DESTINATION_TRANSPORT_PORT {
        Scan { destination_port: u16_of(f.as_u64_be), ..s }
    } else if id == IE_PROTOCOL_IDENTIFIER {
        Scan { protocol: match u8_of(f.as_u64_be) { Some(n) => Some(protocol_of(n)), None => None }, ..s }
    } else if id == IE_TCP_CONTROL_BITS {
        Scan { tcp_flags: u8_of(f.as_u64_be), ..s }
    } else if id == IE_OCTET_DELTA_COUNT {
        Scan { raw_bytes: match f.as_u64_be { Some(v) => v, None => 0 }, ..s }
    } else if id == IE_PACKET_DELTA_COUNT {
        Scan { raw_packets: match f.as_u64_be { Some(v) => v, None => 0 }, ..s }
    } else if id == IE_INGRESS_INTERFACE {
        Scan { input_interface: u32_of(f.as_u64_be), ..s }
    } else if id == IE_EGRESS_INTERFACE {
        Scan { output_interface: u32_of(f.as_u64_be), ..s }
    } else if id == IE_BGP_SOURCE_AS_NUMBER {
        Scan { source_asn: u32_of(f.as_u64_be), ..s }
    } else if id == IE_BGP_DESTINATION_AS_NUMBER {
        Scan { destination_asn: u32_of(f.as_u64_be), ..s }
    } else if id == IE_SAMPLING_INTERVAL {
        Scan { record_sampling: u32_of(f.as_u64_be), ..s }
    } else if id == IE_FORWARDING_STATUS {
        match f.as_u64_be {
            Some(v) => Scan { forwarding_status_known: true, dropped: ((v as u8) >> 6u8) == FORWARDING_STATUS_DROPPED, ..s },
            None => s,
        }
    } else {
        s
    }
}

/// What all the fields of a record say, read in order.
pub open spec fn scan_all(fields: Seq<RecordField>) -> Scan
    decreases fields.len(),
{
    if fields.len() == 0 {
        empty_scan()
    } else {
        scan_field(scan_all(fields.drop_last()), fields.last())
    }
}

fn read_field(s: Scan, f: &RecordField) -> (r: Scan)
    ensures
        r == scan_field(s, *f),
{
    let id = f.information_element_id;
    if id == IE_SOURCE_IPV4_ADDRESS {
        Scan { source_addr: match f.as_ipv4 { Some(a) => Some(IpAddress::V4(a)), None => None }, ..s }
    } else if id == IE_DESTINATION_IPV4_ADDRESS {
        Scan { destination_addr: match f.as_ipv4 { Some(a) => Some(IpAddress::V4(a)), None => None }, ..s }
    } else if id == IE_SOURCE_IPV6_ADDRESS {
        Scan { source_addr: match f.as_ipv6 { Some(a) => Some(IpAddress::V6(a)), None => None }, ..s }
    } else if id == IE_DESTINATION_IPV6_ADDRESS {
        Scan { destination_addr: match f.as_ipv6 { Some(a) => Some(IpAddress::V6(a)), None => None }, ..s }
    } else if id == IE_SOURCE_TRANSPORT_PORT {
        Scan { source_port: match f.as_u64_be { Some(v) => Some(v as u16), None => None }, ..s }
    } else if id == IE_DESTINATION_TRANSPORT_PORT {
        Scan { destination_port: match f.as_u64_be { Some(v) => Some(v as u16), None => None }, ..s }
    } else if id == IE_PROTOCOL_IDENTIFIER {
        Scan { protocol: match f.as_u64_be { Some(v) => Some(Protocol::from_ip_protocol_number(v as u8)), None => None }, ..s }
    } else if id == IE_TCP_CONTROL_BITS {
        Scan { tcp_flags: match f.as_u64_be { Some(v) => Some(v as u8), None => None }, ..s }
    } else if id == IE_OCTET_DELTA_COUNT {
        Scan { raw_bytes: match f.as_u64_be { Some(v) => v, None => 0 }, ..s }
    } else if id == IE_PACKET_DELTA_COUNT {
        Scan { raw_packets: match f.as_u64_be { Some(v) => v, None => 0 }, ..s }
    } else if id == IE_INGRESS_INTERFACE {
        Scan { input_interface: match f.as_u64_be { Some(v) => Some(v as u32), None => None }, ..s }
    } else if id == IE_EGRESS_INTERFACE {
        Scan { output_interface: match f.as_u64_be { Some(v) => Some(v as u32), None => None }, ..s }
    } else if id == IE_BGP_SOURCE_AS_NUMBER {
        Scan { source_asn: match f.as_u64_be { Some(v) => Some(v as u32), None => None }, ..s }
    } else if id == IE_BGP_DESTINATION_AS_NUMBER {
        Scan { destination_asn: match f.as_u64_be { Some(v) => Some(v as u32), None => None }, ..s }
    } else if id == IE_SAMPLING_INTERVAL {
        Scan { record_sampling: match f.as_u64_be { Some(v) => Some(v as u32), None => None }, ..s }
    } else if id == IE_FORWARDING_STATUS {
        match f.as_u64_be {
            Some(v) => Scan { forwarding_status_known: true, dropped: ((v as u8) >> 6u8) == FORWARDING_STATUS_DROPPED, ..s },
            None => s,
        }
    } else {
        s
    }
}

/// The flow, before sampling correction, that a record's scan describes
/// once it has both addresses.
pub open spec fn builder_of(s: Scan, exporter: IpAddress, observation_domain_id: u32) -> NormalizedFlowBuilder {
    NormalizedFlowBuilder {
        source_addr: s.source_addr.unwrap(),
        destination_addr: s.destination_addr.unwrap(),
        source_port: s.source_port,
        destination_port: s.destination_port,
        protocol: s.protocol,
        tcp_flags: s.tcp_flags,
        raw_bytes: s.raw_bytes,
        raw_packets: s.raw_packets,
        input_interface: s.input_interface,
        output_interface: s.output_interface,
        source_asn: s.source_asn,
        destination_asn: s.destination_asn,
        exporter,
        observation_domain_id,
        start_time: None,
        end_time: None,
        fragmented: false,
        dropped: s.dropped,
        forwarding_status_known: s.forwarding_status_known,
    }
}

/// The sampling tiers of a record: its own interval, the options
/// template's, then the exporter's and the global default.
pub open spec fn sampling_inputs_of(s: Scan, options_sampling_interval: Option<u32>, external: ExternalSamplingConfig) -> SamplingInputs {
    SamplingInputs {
        record_level: s.record_sampling,
        options_template: options_sampling_interval,
        exporter_configured: external.exporter_configured,
        global_default: external.global_default,
    }
}

/// `f` is the flow of builder `b` corrected by `rate` from `source`.
pub open spec fn corrected(f: NormalizedFlow, b: NormalizedFlowBuilder, rate: u32, source: SamplingSource) -> bool {
    &&& f.source_addr == b.source_addr
    &&& f.destination_addr == b.destination_addr
    &&& f.source_port == b.source_port
    &&& f.destination_port == b.destination_port
    &&& f.protocol == b.protocol
    &&& f.tcp_flags == b.tcp_flags
    &&& f.bytes == b.raw_bytes * rate
    &&& f.packets == b.raw_packets * rate
    &&& f.raw_bytes == b.raw_bytes
    &&& f.raw_packets == b.raw_packets
    &&& f.sampling_rate.value() == rate
    &&& f.sampling_source == source
    &&& f.input_interface == b.input_interface
    &&& f.output_interface == b.output_interface
    &&& f.source_asn == b.source_asn
    &&& f.destination_asn == b.destination_asn
    &&& f.exporter == b.exporter
    &&& f.observation_domain_id == b.observation_domain_id
    &&& f.start_time == b.start_time
    &&& f.end_time == b.end_time
    &&& f.fragmented == b.fragmented
    &&& f.dropped == b.dropped
    &&& f.forwarding_status_known == b.forwarding_status_known
}

/// The last field of `fields` that carries element `id`, if any.
pub open spec fn last_field(fields: Seq<RecordField>, id: u16) -> Option<RecordField>
    decreases fields.len(),
{
    if fields.len() == 0 {
        None
    } else if fields.last().information_element_id == id {
        Some(fields.last())
    } else {
        last_field(fields.drop_last(), id)
    }
}

/// The unsigned reading of the last field carrying element `id`; `None`
/// when there is no such field or its value has no such reading.
pub open spec fn last_reading(fields: Seq<RecordField>, id: u16) -> Option<u64> {
    match last_field(fields, id) {
        Some(f) => f.as_u64_be,
        None => None,
    }
}

/// The last reading of element `id`, truncated to 32 bits.
pub open spec fn last_u32(fields: Seq<RecordField>, id: u16) -> Option<u32> {
    match last_reading(fields, id) {
        Some(v) => Some(v as u32),
        None => None,
    }
}

/// The last reading of element `id`, truncated to 16 bits.
pub open spec fn last_u16(fields: Seq<RecordField>, id: u16) -> Option<u16> {
    match last_reading(fields, id) {
        Some(v) => Some(v as u16),
        None => None,
    }
}

/// The last reading of element `id`, truncated to 8 bits.
pub open spec fn last_u8(fields: Seq<RecordField>, id: u16) -> Option<u8> {
    match last_reading(fields, id) {
        Some(v) => Some(v as u8),
        None => None,
    }
}

/// The last reading of a counter element `id`; zero when absent.
pub open spec fn last_count(fields: Seq<RecordField>, id: u16) -> u64 {
    match last_reading(fields, id) {
        Some(v) => v,
        None => 0,
    }
}

/// The address given by the last field carrying either the IPv4 element
/// `v4` or the IPv6 element `v6`; `None` when there is none or its value
/// has no reading of that family.
pub open spec fn last_address(fields: Seq<RecordField>, v4: u16, v6: u16) -> Option<IpAddress>
    decreases fields.len(),
{
    if fields.len() == 0 {
        None
    } else if fields.last().information_element_id == v4 {
        match fields.last().as_ipv4 {
            Some(a) => Some(IpAddress::V4(a)),
            None => None,
        }
    } else if fields.last().information_element_id == v6 {
        match fields.last().as_ipv6 {
            Some(a) => Some(IpAddress::V6(a)),
            None => None,
        }
    } else {
        last_address(fields.drop_last(), v4, v6)
    }
}

/// The value of the last forwarding-status field that has a readable
/// one; a field without one leaves the status as it was.
pub open spec fn last_status(fields: Seq<RecordField>) -> Option<u64>
    decreases fields.len(),
{
    if fields.len() == 0 {
        None
    } else if fields.last().information_element_id == IE_FORWARDING_STATUS && fields.last().as_u64_be is Some {
        fields.last().as_u64_be
    } else {
        last_status(fields.drop_last())
    }
}

/// The protocol named by the last protocol field, by its IP number.
pub open spec fn last_protocol(fields: Seq<RecordField>) -> Option<Protocol> {
    match last_u8(fields, IE_PROTOCOL_IDENTIFIER) {
        Some(n) => Some(protocol_of(n)),
        None => None,
    }
}

/// Each mapped element of a record lands in its own slot of the flow:
/// the ingress interface (element 10) in `input_interface`, the egress
/// interface (14) in `output_interface`, the BGP source and destination
/// AS numbers (16, 17), the transport ports (7, 11), the TCP flags (6),
/// the protocol (4), the octet and packet counts (1, 2) before sampling
/// correction, and the source and destination addresses (8 or 27, 12 or
/// 28); the forwarding status (89) is known when some field gives a
/// readable one, and the flow is dropped when the last such value's top
/// two bits say so; when an element repeats, its last occurrence counts.
pub open spec fn fields_in_place(f: NormalizedFlow, fields: Seq<RecordField>) -> bool {
    &&& f.input_interface == last_u32(fields, IE_INGRESS_INTERFACE)
    &&& f.output_interface == last_u32(fields, IE_EGRESS_INTERFACE)
    &&& f.source_asn == last_u32(fields, IE_BGP_SOURCE_AS_NUMBER)
    &&& f.destination_asn == last_u32(fields, IE_BGP_DESTINATION_AS_NUMBER)
    &&& f.source_port == last_u16(fields, IE_SOURCE_TRANSPORT_PORT)
    &&& f.destination_port == last_u16(fields, IE_DESTINATION_TRANSPORT_PORT)
    &&& f.tcp_flags == last_u8(fields, IE_TCP_CONTROL_BITS)
    &&& f.raw_bytes == last_count(fields, IE_OCTET_DELTA_COUNT)
    &&& f.raw_packets == last_count(fields, IE_PACKET_DELTA_COUNT)
    &&& f.protocol == last_protocol(fields)
    &&& Some(f.source_addr) == last_address(fields, IE_SOURCE_IPV4_ADDRESS, IE_SOURCE_IPV6_ADDRESS)
    &&& Some(f.destination_addr) == last_address(fields, IE_DESTINATION_IPV4_ADDRESS, IE_DESTINATION_IPV6_ADDRESS)
    &&& f.forwarding_status_known == last_status(fields) is Some
    &&& f.dropped == match last_status(fields) {
        Some(v) => ((v as u8) >> 6u8) == FORWARDING_STATUS_DROPPED,
        None => false,
    }
}

proof fn lemma_scan_reads_last(fields: Seq<RecordField>)
    ensures
        scan_all(fields).input_interface == last_u32(fields, IE_INGRESS_INTERFACE),
        scan_all(fields).output_interface == last_u32(fields, IE_EGRESS_INTERFACE),
        scan_all(fields).source_asn == last_u32(fields, IE_BGP_SOURCE_AS_NUMBER),
        scan_all(fields).destination_asn == last_u32(fields, IE_BGP_DESTINATION_AS_NUMBER),
        scan_all(fields).source_port == last_u16(fields, IE_SOURCE_TRANSPORT_PORT),
        scan_all(fields).destination_port == last_u16(fields, IE_DESTINATION_TRANSPORT_PORT),
        scan_all(fields).tcp_flags == last_u8(fields, IE_TCP_CONTROL_BITS),
        scan_all(fields).raw_bytes == last_count(fields, IE_OCTET_DELTA_COUNT),
        scan_all(fields).raw_packets == last_count(fields, IE_PACKET_DELTA_COUNT),
        scan_all(fields).protocol == last_protocol(fields),
        scan_all(fields).source_addr == last_address(fields, IE_SOURCE_IPV4_ADDRESS, IE_SOURCE_IPV6_ADDRESS),
        scan_all(fields).destination_addr == last_address(fields, IE_DESTINATION_IPV4_ADDRESS, IE_DESTINATION_IPV6_ADDRESS),
        scan_all(fields).forwarding_status_known == last_status(fields) is Some,
        scan_all(fields).dropped == match last_status(fields) {
            Some(v) => ((v as u8) >> 6u8) == FORWARDING_STATUS_DROPPED,
            None => false,
        },
    decreases fields.len(),
{
    if fields.len() > 0 {
        lemma_scan_reads_last(fields.drop_last());
    }
}

/// A normalized flow carries each mapped element of its record in that
/// element's own slot (see [`fields_in_place`]): the ingress interface
/// is never reported as the egress one, the source port never as the
/// destination one, and so on, whatever else the record holds.
pub proof fn law_record_fields_land_in_their_own_slots(
    fields: Seq<RecordField>,
    exporter: IpAddress,
    observation_domain_id: u32,
    f: NormalizedFlow,
    rate: u32,
    source: SamplingSource,
)
    requires
        scan_all(fields).source_addr is Some,
        scan_all(fields).destination_addr is Some,
        corrected(f, builder_of(scan_all(fields), exporter, observation_domain_id), rate, source),
    ensures
        fields_in_place(f, fields),
{
    lemma_scan_reads_last(fields);
}

/// Normalizes one data record received from `exporter`.
///
/// Refused when the record lacks either address; otherwise the sampling
/// rate is resolved (record, options template, exporter, global default)
/// and applied exactly once, and the flow is refused as empty or as
/// overflowing just as [`NormalizedFlowBuilder::build`] refuses it.
pub fn normalize_record(
    fields: &Vec<RecordField>,
    exporter: IpAddress,
    observation_domain_id: u32,
    options_sampling_interval: Option<u32>,
    external: ExternalSamplingConfig,
) -> (r: Result<NormalizeOutcome, NormalizeError>)
    ensures
        ({
            let s = scan_all(fields@);
            let b = builder_of(s, exporter, observation_domain_id);
            let (rate, source, zero) = resolved_spec(sampling_inputs_of(s, options_sampling_interval, external));
            &&& (s.source_addr is None || s.destination_addr is None) ==> r == Err::<NormalizeOutcome, NormalizeError>(NormalizeError::MissingAddresses)
            &&& (s.source_addr is Some && s.destination_addr is Some) ==> {
                &&& (r is Ok <==> !(b.raw_bytes == 0 && b.raw_packets == 0) && b.raw_bytes * rate <= u64::MAX && b.raw_packets * rate <= u64::MAX)
                &&& !(r matches Err(NormalizeError::MissingAddresses))
                &&& (b.raw_bytes == 0 && b.raw_packets == 0 ==> r == Err::<NormalizeOutcome, NormalizeError>(NormalizeError::Flow(FlowError::Empty)))
                &&& (r matches Err(NormalizeError::Flow(FlowError::SamplingOverflow { field })) ==>
                    (field@ == "bytes"@ && b.raw_bytes * rate > u64::MAX) || (field@ == "packets"@ && b.raw_bytes * rate <= u64::MAX && b.raw_packets * rate > u64::MAX))
                &&& (r matches Ok(o) ==> o.zero_rate_skipped == zero && corrected(o.flow, b, rate, source))
            }
        }),
        r matches Ok(o) ==> fields_in_place(o.flow, fields@),
{
    let mut s = Scan {
        source_addr: None,
        destination_addr: None,
        source_port: None,
        destination_port: None,
        protocol: None,
        tcp_flags: None,
        raw_bytes: 0,
        raw_packets: 0,
        input_interface: None,
        output_interface: None,
        source_asn: None,
        destination_asn: None,
        record_sampling: None,
        forwarding_status_known: false,
        dropped: false,
    };
    let mut i: usize = 0;
    proof {
        assert(fields@.subrange(0, 0) =~= Seq::<RecordField>::empty());
    }
    while i < fields.len()
        invariant
            i <= fields@.len(),
            s == scan_all(fields@.subrange(0, i as int)),
        decreases fields@.len() - i,
    {
        proof {
            assert(fields@.subrange(0, i + 1).drop_last() =~= fields@.subrange(0, i as int));
        }
        s = read_field(s, &fields[i]);
        i = i + 1;
    }
    proof {
        assert(fields@.subrange(0, fields@.len() as int) =~= fields@);
    }
    let (source_addr, destination_addr) = match (s.source_addr, s.destination_addr) {
        (Some(a), Some(d)) => (a, d),
        _ => {
            return Err(NormalizeError::MissingAddresses);
        },
    };
    let inputs = SamplingInputs {
        record_level: s.record_sampling,
        options_template: options_sampling_interval,
        exporter_configured: external.exporter_configured,
        global_default: external.global_default,
    };
    let resolved = resolve(&inputs);
    let builder = NormalizedFlowBuilder {
        source_addr,
        destination_addr,
        source_port: s.source_port,
        destination_port: s.destination_port,
        protocol: s.protocol,
        tcp_flags: s.tcp_flags,
        raw_bytes: s.raw_bytes,
        raw_packets: s.raw_packets,
        input_interface: s.input_interface,
        output_interface: s.output_interface,
        source_asn: s.source_asn,
        destination_asn: s.destination_asn,
        exporter,
        observation_domain_id,
        start_time: None,
        end_time: None,
        fragmented: false,
        dropped: s.dropped,
        forwarding_status_known: s.forwarding_status_known,
    };
    match builder.build(resolved.rate, resolved.source) {
        Ok(flow) => {
            proof {
                lemma_scan_reads_last(fields@);
            }
            Ok(NormalizeOutcome { flow, zero_rate_skipped: resolved.zero_rate_skipped })
        },
        Err(e) => Err(NormalizeError::Flow(e)),
    }
}

} // verus!
