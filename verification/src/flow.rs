//! The protocol-independent flow record every collector produces.
//!
//! A [`NormalizedFlow`] is only ever made by [`NormalizedFlowBuilder::build`],
//! which applies the resolved sampling rate to the raw counters exactly
//! once: `bytes` and `packets` are always the corrected values, and the
//! raw ones are kept beside them for audit. Times are nanoseconds since
//! the Unix epoch.

use vstd::prelude::*;

verus! {

use crate::net::IpAddress;
use crate::sampling::{SamplingRate, SamplingSource};

/// IANA IP protocol numbers distinguished by name; anything else is kept
/// as `Other(n)`.
#[derive(Debug, Clone, Copy, PartialEq, Eq, Hash, Structural)]
pub enum Protocol {
    Icmp,
    Tcp,
    Udp,
    Icmpv6,
    Other(u8),
}

/// The protocol a number names.
pub open spec fn protocol_of(n: u8) -> Protocol {
    if n == 1 {
        Protocol::Icmp
    } else if n == 6 {
        Protocol::Tcp
    } else if n == 17 {
        Protocol::Udp
    } else if n == 58 {
        Protocol::Icmpv6
    } else {
        Protocol::Other(n)
    }
}

/// The number of a protocol.
pub open spec fn protocol_number(p: Protocol) -> u8 {
    match p {
        Protocol::Icmp => 1,
        Protocol::Tcp => 6,
        Protocol::Udp => 17,
        Protocol::Icmpv6 => 58,
        Protocol::Other(n) => n,
    }
}

impl Protocol {
    pub fn from_ip_protocol_number(n: u8) -> (r: Protocol)
        ensures
            r == protocol_of(n),
    {
        match n {
            1 => Protocol::Icmp,
            6 => Protocol::Tcp,
            17 => Protocol::Udp,
            58 => Protocol::Icmpv6,
            other => Protocol::Other(other),
        }
    }

    pub fn as_ip_protocol_number(&self) -> (r: u8)
        ensures
            r == protocol_number(*self),
    {
        match self {
            Protocol::Icmp => 1,
            Protocol::Tcp => 6,
            Protocol::Udp => 17,
            Protocol::Icmpv6 => 58,
            Protocol::Other(n) => *n,
        }
    }
}

/// Every protocol number survives a round trip through [`Protocol`].
pub proof fn law_protocol_numbers_round_trip(n: u8)
    ensures
        protocol_number(protocol_of(n)) == n,
{
}

/// The TCP SYN control bit (RFC 9293).
pub const TCP_FLAG_SYN: u8 = 2;

/// A fully normalized, sampling-corrected flow record.
#[derive(Debug, Clone, PartialEq, Eq)]
pub struct NormalizedFlow {
    pub source_addr: IpAddress,
    pub destination_addr: IpAddress,
    pub source_port: Option<u16>,
    pub destination_port: Option<u16>,
    pub protocol: Option<Protocol>,
    pub tcp_flags: Option<u8>,
    /// Sampling-corrected byte count.
    pub bytes: u64,
    /// Sampling-corrected packet count.
    pub packets: u64,
    pub raw_bytes: u64,
    pub raw_packets: u64,
    pub sampling_rate: SamplingRate,
    pub sampling_source: SamplingSource,
    pub input_interface: Option<u32>,
    pub output_interface: Option<u32>,
    /// Origin AS of the source, when the exporter declares it.
    pub source_asn: Option<u32>,
    /// Origin AS of the destination, when the exporter declares it.
    pub destination_asn: Option<u32>,
    /// The exporter's network address.
    pub exporter: IpAddress,
    pub observation_domain_id: u32,
    pub start_time: Option<i128>,
    pub end_time: Option<i128>,
    pub fragmented: bool,
    /// The exporter reported the packets as dropped.
    pub dropped: bool,
    pub forwarding_status_known: bool,
}

#[derive(Debug, Clone, Copy, PartialEq, Eq)]
pub enum FlowError {
    /// Zero bytes and zero packets: not a meaningful flow.
    Empty,
    /// Sampling correction overflowed `u64` while scaling `field`.
    SamplingOverflow { field: &'static str },
}

/// A flow as read, before sampling correction.
pub struct NormalizedFlowBuilder {
    pub source_addr: IpAddress,
    pub destination_addr: IpAddress,
    pub source_port: Option<u16>,
    pub destination_port: Option<u16>,
    pub protocol: Option<Protocol>,
    pub tcp_flags: Option<u8>,
    pub raw_bytes: u64,
    pub raw_packets: u64,
    pub input_interface: Option<u32>,
    pub output_interface: Option<u32>,
    pub source_asn: Option<u32>,
    pub destination_asn: Option<u32>,
    pub exporter: IpAddress,
    pub observation_domain_id: u32,
    pub start_time: Option<i128>,
    pub end_time: Option<i128>,
    pub fragmented: bool,
    pub dropped: bool,
    pub forwarding_status_known: bool,
}

impl NormalizedFlowBuilder {
    /// Applies `rate` to the raw counters exactly once. Refuses an empty
    /// record (zero bytes and zero packets), and a correction that
    /// overflows, bytes checked first.
    pub fn build(self, rate: SamplingRate, source: SamplingSource) -> (r: Result<NormalizedFlow, FlowError>)
        ensures
            self.raw_bytes == 0 && self.raw_packets == 0 ==> r matches Err(FlowError::Empty),
            !(self.raw_bytes == 0 && self.raw_packets == 0) && self.raw_bytes * rate.value() > u64::MAX
                ==> (r matches Err(FlowError::SamplingOverflow { field }) && field@ == "bytes"@),
            !(self.raw_bytes == 0 && self.raw_packets == 0) && self.raw_bytes * rate.value() <= u64::MAX
                && self.raw_packets * rate.value() > u64::MAX
                ==> (r matches Err(FlowError::SamplingOverflow { field }) && field@ == "packets"@),
            r is Ok <==> !(self.raw_bytes == 0 && self.raw_packets == 0) && self.raw_bytes * rate.value() <= u64::MAX
                && self.raw_packets * rate.value() <= u64::MAX,
            r matches Ok(f) ==> f == (NormalizedFlow {
                source_addr: self.source_addr,
                destination_addr: self.destination_addr,
                source_port: self.source_port,
                destination_port: self.destination_port,
                protocol: self.protocol,
                tcp_flags: self.tcp_flags,
                bytes: (self.raw_bytes * rate.value()) as u64,
                packets: (self.raw_packets * rate.value()) as u64,
                raw_bytes: self.raw_bytes,
                raw_packets: self.raw_packets,
                sampling_rate: rate,
                sampling_source: source,
                input_interface: self.input_interface,
                output_interface: self.output_interface,
                source_asn: self.source_asn,
                destination_asn: self.destination_asn,
                exporter: self.exporter,
                observation_domain_id: self.observation_domain_id,
                start_time: self.start_time,
                end_time: self.end_time,
                fragmented: self.fragmented,
                dropped: self.dropped,
                forwarding_status_known: self.forwarding_status_known,
            }),
    {
        if self.raw_bytes == 0 && self.raw_packets == 0 {
            return Err(FlowError::Empty);
        }
        let bytes = match rate.apply(self.raw_bytes) {
            Ok(v) => v,
            Err(_) => {
                proof {
                    reveal_strlit("bytes");
                }
                return Err(FlowError::SamplingOverflow { field: "bytes" });
            },
        };
        let packets = match rate.apply(self.raw_packets) {
            Ok(v) => v,
            Err(_) => {
                proof {
                    reveal_strlit("packets");
                }
                return Err(FlowError::SamplingOverflow { field: "packets" });
            },
        };
        Ok(NormalizedFlow {
            source_addr: self.source_addr,
            destination_addr: self.destination_addr,
            source_port: self.source_port,
            destination_port: self.destination_port,
            protocol: self.protocol,
            tcp_flags: self.tcp_flags,
            bytes,
            packets,
            raw_bytes: self.raw_bytes,
            raw_packets: self.raw_packets,
            sampling_rate: rate,
            sampling_source: source,
            input_interface: self.input_interface,
            output_interface: self.output_interface,
            source_asn: self.source_asn,
            destination_asn: self.destination_asn,
            exporter: self.exporter,
            observation_domain_id: self.observation_domain_id,
            start_time: self.start_time,
            end_time: self.end_time,
            fragmented: self.fragmented,
            dropped: self.dropped,
            forwarding_status_known: self.forwarding_status_known,
        })
    }
}

/// A TCP flow carrying the SYN bit.
pub open spec fn is_tcp_syn_spec(f: NormalizedFlow) -> bool {
    f.protocol == Some(Protocol::Tcp) && (f.tcp_flags matches Some(flags) && flags & TCP_FLAG_SYN != 0)
}

impl NormalizedFlow {
    pub fn is_tcp_syn(&self) -> (r: bool)
        ensures
            r == is_tcp_syn_spec(*self),
    {
        match (self.protocol, self.tcp_flags) {
            (Some(Protocol::Tcp), Some(flags)) => flags & TCP_FLAG_SYN != 0,
            _ => false,
        }
    }
}

} // verus!
