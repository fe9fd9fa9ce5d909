//! Remote WAN counter collection over SNMPv2c: OID construction, the
//! decoding rules for GET responses, an availability probe and a
//! bounded interface-index discovery scan.
//!
//! The network round trips go through small trusted wrappers around the
//! `snmp2` crate; everything a response decides is decided by verified
//! functions that take the decoded response as an argument.

use vstd::prelude::*;

use crate::text::{chars_of, contains_chars, spec_contains};
use crate::types::{InterfaceStats, InterfaceType};

verus! {

/// Per-request timeout, in seconds, of every SNMP session the monitor
/// opens.
pub const SNMP_TIMEOUT_SECS: u64 = 2;

/// The longest community string a session may be opened with.  An SNMP
/// request travels in one UDP datagram of at most 65,507 payload bytes,
/// and the session's request builder asserts that bound rather than
/// check it; 65,000 bytes of community leave room for the largest OID
/// admitted here beside the fixed message framing.
pub const SNMP_MAX_COMMUNITY_LEN: usize = 65000;

/// The most OID components a single GET may name; each component
/// encodes to at most ten bytes, so the whole identifier stays far
/// inside the datagram bound.  The monitor's own identifiers have
/// eleven.
pub const SNMP_MAX_OID_LEN: usize = 32;

/// The highest interface index the discovery scan probes; interfaces
/// beyond it are invisible to discovery.
pub const DISCOVERY_MAX_INDEX: u32 = 50;

/// The interface-table column holding interface descriptions.
pub const IF_DESCR_COLUMN: u64 = 2;

/// The interface-table column holding received-octet counters.
pub const IF_IN_OCTETS_COLUMN: u64 = 10;

/// The interface-table column holding transmitted-octet counters.
pub const IF_OUT_OCTETS_COLUMN: u64 = 16;

/// The interface-table object identifier `1.3.6.1.2.1.2.2.1.<column>.<index>`.
pub open spec fn spec_if_oid(column: u64, if_index: u32) -> Seq<u64> {
    seq![1u64, 3u64, 6u64, 1u64, 2u64, 1u64, 2u64, 2u64, 1u64, column, if_index as u64]
}

/// The system-description object identifier `1.3.6.1.2.1.1.1.0`.
pub open spec fn spec_sys_descr_oid() -> Seq<u64> {
    seq![1u64, 3u64, 6u64, 1u64, 2u64, 1u64, 1u64, 1u64, 0u64]
}

/// Builds the interface-table OID for one column and interface index.
pub fn if_oid(column: u64, if_index: u32) -> (o: Vec<u64>)
    ensures
        o@ == spec_if_oid(column, if_index),
{
    let mut o: Vec<u64> = Vec::new();
    o.push(1);
    o.push(3);
    o.push(6);
    o.push(1);
    o.push(2);
    o.push(1);
    o.push(2);
    o.push(2);
    o.push(1);
    o.push(column);
    o.push(if_index as u64);
    proof {
        assert(o@ =~= spec_if_oid(column, if_index));
    }
    o
}

/// Builds the system-description OID probed for availability.
pub fn sys_descr_oid() -> (o: Vec<u64>)
    ensures
        o@ == spec_sys_descr_oid(),
{
    let mut o: Vec<u64> = Vec::new();
    o.push(1);
    o.push(3);
    o.push(6);
    o.push(1);
    o.push(2);
    o.push(1);
    o.push(1);
    o.push(1);
    o.push(0);
    proof {
        assert(o@ =~= spec_sys_descr_oid());
    }
    o
}

/// One decoded SNMP GET response value, reduced to the shapes the
/// monitor reads; every other wire type is `Other`.
pub enum SnmpValue {
    Counter32(u32),
    Counter64(u64),
    OctetString(Vec<u8>),
    Other,
}

#[verifier::external_type_specification]
#[verifier::external_body]
pub struct ExSyncSession(snmp2::SyncSession);

/// Relies on snmp2::SyncSession::new_v2c: binds a UDP socket and opens
/// a short-lived SNMPv2c session towards `target`, authenticated by the
/// plaintext community string, with the given per-request timeout.
/// Nothing is promised of the outcome: it depends on the network.
///
/// The session buffers the community for every later request, and the
/// request builder (`pdu::Buf::push_chunk`) panics — an unchecked
/// subtraction and slice — once a message outgrows its one-datagram
/// send buffer of 65,507 bytes.  The bound on the community, together
/// with [`SNMP_MAX_OID_LEN`] on every GET, keeps each request the
/// library can build inside that buffer, so the panicking inputs are
/// left out here rather than reached there.
#[verifier::external_body]
fn snmp_open(target: &str, community: &[u8], timeout_secs: u64, starting_req_id: i32) -> (r:
    Option<snmp2::SyncSession>)
    requires
        community@.len() <= SNMP_MAX_COMMUNITY_LEN,
{
    let timeout = core::time::Duration::from_secs(timeout_secs);
    match snmp2::SyncSession::new_v2c(target, community, Some(timeout), starting_req_id) {
        Ok(s) => Some(s),
        Err(_) => None,
    }
}

/// Relies on snmp2::SyncSession::get, with snmp2::Oid::from encoding
/// `oid`: one single-value GET round trip; the value of the first
/// returned binding, if any, is handed back with counter and
/// octet-string payloads moved into plain values.  Nothing is promised
/// of the outcome: the value comes from the remote device.
///
/// The bound on `oid`, with the community bound that [`snmp_open`] —
/// the only session constructor here — enforces, keeps the encoded
/// request inside the session's one-datagram send buffer, whose
/// builder panics rather than fails when overrun.
#[verifier::external_body]
fn snmp_get_first(sess: &mut snmp2::SyncSession, oid: &Vec<u64>) -> (r: Option<SnmpValue>)
    requires
        oid@.len() <= SNMP_MAX_OID_LEN,
{
    let oid = match snmp2::Oid::from(oid.as_slice()) {
        Ok(o) => o,
        Err(_) => return None,
    };
    let pdu = match sess.get(&oid) {
        Ok(p) => p,
        Err(_) => return None,
    };
    match pdu.varbinds.into_iter().next() {
        Some((_, snmp2::Value::Counter32(v))) => Some(SnmpValue::Counter32(v)),
        Some((_, snmp2::Value::Counter64(v))) => Some(SnmpValue::Counter64(v)),
        Some((_, snmp2::Value::OctetString(b))) => Some(SnmpValue::OctetString(b.to_vec())),
        Some(_) => Some(SnmpValue::Other),
        None => None,
    }
}

/// The text that stands for a byte string in a description: a function
/// of the bytes alone.
pub uninterp spec fn lossy_utf8(bytes: Seq<u8>) -> Seq<char>;

/// Relies on String::from_utf8_lossy: the resulting text depends on
/// the bytes alone (invalid sequences become replacement characters).
#[verifier::external_body]
fn utf8_lossy(bytes: &Vec<u8>) -> (r: String)
    ensures
        r@ == lossy_utf8(bytes@),
{
    String::from_utf8_lossy(bytes.as_slice()).into_owned()
}

/// The counter a GET response denotes: 32-bit and 64-bit wire counters
/// are taken at their width; any other returned type, or no response at
/// all, resolves to zero rather than an error.
pub open spec fn spec_counter_value(v: Option<SnmpValue>) -> u64 {
    match v {
        Some(SnmpValue::Counter32(x)) => x as u64,
        Some(SnmpValue::Counter64(x)) => x,
        _ => 0,
    }
}

/// Decodes a counter GET response, resolving failures and foreign
/// types to zero.
pub fn counter_value(v: &Option<SnmpValue>) -> (r: u64)
    ensures
        r == spec_counter_value(*v),
{
    match v {
        Some(SnmpValue::Counter32(x)) => *x as u64,
        Some(SnmpValue::Counter64(x)) => *x,
        _ => 0,
    }
}

/// Whether a probe response makes the device count as reachable: any
/// successfully decoded value of any type does; no response does not.
pub fn snmp_response_available(v: &Option<SnmpValue>) -> (r: bool)
    ensures
        r == v.is_some(),
{
    match v {
        Some(_) => true,
        None => false,
    }
}

/// The description bytes carried by a GET response, if it carried any.
pub open spec fn spec_description_of(v: Option<SnmpValue>) -> Option<Seq<u8>> {
    match v {
        Some(SnmpValue::OctetString(b)) => Some(b@),
        _ => None,
    }
}

/// Decides one discovery probe: a response carrying a description whose
/// text contains `pattern` yields that text; any other response yields
/// nothing.
pub fn match_from_response(v: Option<SnmpValue>, pattern: &str) -> (r: Option<String>)
    ensures
        r is Some <==> (spec_description_of(v) is Some && spec_contains(
            lossy_utf8(spec_description_of(v).unwrap()),
            pattern@,
        )),
        r matches Some(d) ==> d@ == lossy_utf8(spec_description_of(v).unwrap()),
{
    match v {
        Some(SnmpValue::OctetString(b)) => {
            let d = utf8_lossy(&b);
            let dc = chars_of(d.as_str());
            let pc = chars_of(pattern);
            if contains_chars(&dc, &pc) {
                Some(d)
            } else {
                None
            }
        },
        _ => None,
    }
}

/// Fetches one raw WAN sample: two single-value GET round trips, one
/// per counter, against the receive and transmit octet OIDs derived
/// from `if_index`.  A session that cannot be opened, a failed request
/// or a foreign value type resolves to a zero counter, never an error.
pub fn fetch_wan_stats(target: &str, community: &[u8], if_index: u32, iface_name: &str) -> (r:
    InterfaceStats)
    requires
        community@.len() <= SNMP_MAX_COMMUNITY_LEN,
    ensures
        r@.interface == iface_name@,
        r@.kind == InterfaceType::Wan,
{
    let rx_oid = if_oid(IF_IN_OCTETS_COLUMN, if_index);
    let tx_oid = if_oid(IF_OUT_OCTETS_COLUMN, if_index);
    match snmp_open(target, community, SNMP_TIMEOUT_SECS, 0) {
        None => InterfaceStats {
            interface: iface_name.to_owned(),
            rx_bytes: 0,
            tx_bytes: 0,
            kind: InterfaceType::Wan,
        },
        Some(mut sess) => {
            let rxv = snmp_get_first(&mut sess, &rx_oid);
            let txv = snmp_get_first(&mut sess, &tx_oid);
            InterfaceStats {
                interface: iface_name.to_owned(),
                rx_bytes: counter_value(&rxv),
                tx_bytes: counter_value(&txv),
                kind: InterfaceType::Wan,
            }
        },
    }
}

/// Probes the device once for its system description: any successfully
/// parsed response of any value type counts as available; a session
/// that cannot be opened, a timeout or a decode failure counts as
/// unavailable.  Meant to run once before committing to WAN polling,
/// not on every tick.
///
/// This function carries no `ensures` because none would be true: the
/// result is wholly the probe's outcome, and both outcomes are possible
/// for every admitted input.  The decision rule itself — any value
/// means available — is the verified contract of
/// [`snmp_response_available`], which this function applies to whatever
/// came back.
pub fn is_snmp_available(target: &str, community: &[u8]) -> bool
    requires
        community@.len() <= SNMP_MAX_COMMUNITY_LEN,
{
    let oid = sys_descr_oid();
    match snmp_open(target, community, SNMP_TIMEOUT_SECS, 0) {
        None => false,
        Some(mut sess) => {
            let v = snmp_get_first(&mut sess, &oid);
            snmp_response_available(&v)
        },
    }
}

/// Probes description OIDs for indices 1 up to the discovery bound, in
/// ascending order, and returns the first index whose description
/// contains `name_pattern`, paired with that description; nothing if no
/// probed index matches or no session can be opened.
pub fn detect_interface_index(target: &str, community: &[u8], name_pattern: &str) -> (r: Option<
    (u32, String),
>)
    requires
        community@.len() <= SNMP_MAX_COMMUNITY_LEN,
    ensures
        r matches Some(p) ==> 1 <= p.0 <= DISCOVERY_MAX_INDEX && spec_contains(
            p.1@,
            name_pattern@,
        ),
{
    match snmp_open(target, community, SNMP_TIMEOUT_SECS, 0) {
        None => None,
        Some(mut sess) => {
            let mut i: u32 = 1;
            while i <= DISCOVERY_MAX_INDEX
                invariant
                    1 <= i <= DISCOVERY_MAX_INDEX + 1,
                decreases DISCOVERY_MAX_INDEX + 1 - i,
            {
                let oid = if_oid(IF_DESCR_COLUMN, i);
                let v = snmp_get_first(&mut sess, &oid);
                match match_from_response(v, name_pattern) {
                    Some(d) => {
                        return Some((i, d));
                    },
                    None => {},
                }
                i += 1;
            }
            None
        },
    }
}

/// The views of an indexed description table.
pub open spec fn desc_views(ds: Seq<(u32, String)>) -> Seq<(u32, Seq<char>)> {
    ds.map_values(|d: (u32, String)| (d.0, d.1@))
}

/// The first entry whose description contains `pattern`, in order.
pub open spec fn spec_first_match(descs: Seq<(u32, Seq<char>)>, pattern: Seq<char>) -> Option<
    (u32, Seq<char>),
>
    decreases descs.len(),
{
    if descs.len() == 0 {
        None
    } else if spec_contains(descs[0].1, pattern) {
        Some(descs[0])
    } else {
        spec_first_match(descs.drop_first(), pattern)
    }
}

/// `j` is the first matching entry, so it is the one found.
proof fn lemma_first_match_at(descs: Seq<(u32, Seq<char>)>, pattern: Seq<char>, j: int)
    requires
        0 <= j < descs.len(),
        spec_contains(descs[j].1, pattern),
        forall|l: int| 0 <= l < j ==> !spec_contains(descs[l].1, pattern),
    ensures
        spec_first_match(descs, pattern) == Some(descs[j]),
    decreases j,
{
    if j > 0 {
        let d = descs.drop_first();
        assert(forall|l: int| 0 <= l < d.len() ==> #[trigger] d[l] == descs[l + 1]);
        lemma_first_match_at(d, pattern, j - 1);
    }
}

/// No entry matches, so nothing is found.
proof fn lemma_first_match_none(descs: Seq<(u32, Seq<char>)>, pattern: Seq<char>)
    requires
        forall|l: int| 0 <= l < descs.len() ==> !spec_contains(descs[l].1, pattern),
    ensures
        spec_first_match(descs, pattern) is None,
    decreases descs.len(),
{
    if descs.len() > 0 {
        let d = descs.drop_first();
        assert(forall|l: int| 0 <= l < d.len() ==> #[trigger] d[l] == descs[l + 1]);
        lemma_first_match_none(d, pattern);
    }
}

/// The discovery rule over a known description table, as the scan sees
/// it in ascending index order: the first entry whose description
/// contains `pattern` wins.
pub fn first_matching_description(descs: &Vec<(u32, String)>, pattern: &str) -> (r: Option<
    (u32, String),
>)
    ensures
        match r {
            Some(p) => spec_first_match(desc_views(descs@), pattern@) == Some((p.0, p.1@)),
            None => spec_first_match(desc_views(descs@), pattern@) is None,
        },
{
    let pc = chars_of(pattern);
    let n = descs.len();
    let mut i: usize = 0;
    while i < n
        invariant
            0 <= i <= n,
            n == descs@.len(),
            pc@ == pattern@,
            forall|l: int| 0 <= l < i ==> !spec_contains(desc_views(descs@)[l].1, pattern@),
        decreases n - i,
    {
        let dc = chars_of(descs[i].1.as_str());
        if contains_chars(&dc, &pc) {
            proof {
                lemma_first_match_at(desc_views(descs@), pattern@, i as int);
            }
            return Some((descs[i].0, descs[i].1.clone()));
        }
        i += 1;
    }
    proof {
        lemma_first_match_none(desc_views(descs@), pattern@);
    }
    None
}

} // verus!
