//! The UDP sink's packet helpers: building network records, decoding and
//! filtering packets, and the retry rule of the send path.

use vstd::prelude::*;
use crate::config::{
    Level, Metadata, Record, RecordView, NetRecord, NetRecordView, NetworkConfig, opt_view, clone_opt,
};
use crate::codec::{
    CodecError, encode_net_record, decode_net_record, net_record_bytes, encodes_net_record, str_bytes,
    level_of_tag, parse_net_record,
};
use crate::text::{decimal, push_str, push_decimal, str_eq};

verus! {

/// Largest accepted number of send attempts.
pub const MAX_RETRY_COUNT: u32 = 10;

/// Configuration of a UDP sink.
#[derive(Debug, Clone)]
pub struct UdpConfig {
    pub network_config: NetworkConfig,
    /// Send attempts per packet, in `1..=10`.
    pub retry_count: u32,
}

/// Why a UDP configuration was refused.
#[derive(Debug, Clone, Copy, PartialEq, Eq, Structural)]
pub enum UdpConfigError {
    ZeroRetryCount,
    TooManyRetries,
}

impl UdpConfig {
    pub fn validate(&self) -> (r: Result<(), UdpConfigError>)
        ensures
            self.retry_count == 0 ==> r == Err::<(), _>(UdpConfigError::ZeroRetryCount),
            self.retry_count > MAX_RETRY_COUNT ==> r == Err::<(), _>(UdpConfigError::TooManyRetries),
            1 <= self.retry_count <= MAX_RETRY_COUNT ==> r is Ok,
    {
        if self.retry_count == 0 {
            return Err(UdpConfigError::ZeroRetryCount);
        }
        if self.retry_count > MAX_RETRY_COUNT {
            return Err(UdpConfigError::TooManyRetries);
        }
        Ok(())
    }
}

impl Default for UdpConfig {
    fn default() -> (r: UdpConfig)
        ensures
            r.retry_count == 3,
            r.network_config.server_port == 5140,
    {
        UdpConfig { network_config: NetworkConfig::default(), retry_count: 3 }
    }
}

/// `host:port`, the key of the connection pool.
pub open spec fn address_of(c: NetworkConfig) -> Seq<char> {
    c.server_addr@ + seq![':'] + decimal(c.server_port as nat)
}

/// The destination of a UDP sink as `host:port`.
pub fn server_address(c: &NetworkConfig) -> (r: String)
    ensures
        r@ == address_of(*c),
{
    let mut s = c.server_addr.clone();
    proof {
        reveal_strlit(":");
    }
    push_str(&mut s, ":");
    push_decimal(&mut s, c.server_port as u64);
    s
}

/// What the send path does after an attempt.
#[derive(Debug, Clone, Copy, PartialEq, Eq, Structural)]
pub enum SendDecision {
    /// The packet went out.
    Done,
    /// Wait the back-off delay, then try again.
    Retry,
    /// The last attempt failed: report and drop the packet.
    GiveUp,
}

/// Back-off between two send attempts, in milliseconds.
pub const SEND_BACKOFF_MS: u64 = 100;

/// The retry rule: after attempt `attempt` (counted from 0) of `retry_count`.
pub fn after_send_attempt(attempt: u32, retry_count: u32, sent: bool) -> (r: SendDecision)
    requires
        attempt < retry_count,
    ensures
        sent ==> r == SendDecision::Done,
        !sent && attempt + 1 < retry_count ==> r == SendDecision::Retry,
        !sent && attempt + 1 == retry_count ==> r == SendDecision::GiveUp,
{
    if sent {
        SendDecision::Done
    } else if attempt + 1 < retry_count {
        SendDecision::Retry
    } else {
        SendDecision::GiveUp
    }
}

/// The network record of a record, stamped `timestamp`, with the given credentials.
pub open spec fn net_view_of(r: RecordView, timestamp: u64, auth_token: Option<Seq<char>>, app_id: Option<Seq<char>>) -> NetRecordView {
    NetRecordView {
        level: r.level,
        target: r.target,
        message: r.message,
        module: r.module,
        file: r.file,
        line: r.line,
        timestamp,
        auth_token,
        app_id,
    }
}

/// Relies on `std::time::SystemTime::now` and `duration_since(UNIX_EPOCH)`:
/// the wall-clock time in whole seconds; a clock before the epoch reads 0.
#[verifier::external_body]
fn unix_now_secs() -> (r: u64) {
    std::time::SystemTime::now().duration_since(std::time::UNIX_EPOCH).map(|d| d.as_secs()).unwrap_or(0)
}

impl NetRecord {
    /// The network record of `record` stamped `timestamp`, keeping the record's credentials.
    pub fn from_record_at(record: &Record, timestamp: u64) -> (n: NetRecord)
        ensures
            n@ == net_view_of(record@, timestamp, record@.auth_token, record@.app_id),
    {
        NetRecord {
            level: record.metadata.level,
            target: record.metadata.target.clone(),
            message: record.args.clone(),
            module: clone_opt(&record.module),
            file: clone_opt(&record.file),
            line: record.line,
            timestamp,
            auth_token: clone_opt(&record.metadata.auth_token),
            app_id: clone_opt(&record.metadata.app_id),
        }
    }

    /// The network record of `record`, stamped with the current wall-clock time.
    pub fn from_record(record: &Record) -> (n: NetRecord)
        ensures
            exists|t: u64| n@ == net_view_of(record@, t, record@.auth_token, record@.app_id),
    {
        let t = unix_now_secs();
        NetRecord::from_record_at(record, t)
    }
}

/// Packet encoding and decoding.
pub struct UdpPacketHelper;

impl UdpPacketHelper {
    /// Encodes `record` as a packet stamped `timestamp`, with the sink's credentials.
    pub fn encode_record_at(
        record: &Record,
        auth_token: Option<String>,
        app_id: Option<String>,
        timestamp: u64,
    ) -> (r: Vec<u8>)
        ensures
            r@ == net_record_bytes(net_view_of(record@, timestamp, opt_view(auth_token), opt_view(app_id))),
    {
        let mut n = NetRecord::from_record_at(record, timestamp);
        n.auth_token = auth_token;
        n.app_id = app_id;
        encode_net_record(&n)
    }

    /// Encodes `record` as a packet stamped with the current time. Encoding
    /// does not fail.
    pub fn encode_record(record: &Record, auth_token: Option<String>, app_id: Option<String>) -> (r: Result<Vec<u8>, CodecError>)
        ensures
            exists|t: u64|
                r == Ok::<Vec<u8>, CodecError>(r.unwrap()) && r.unwrap()@ == net_record_bytes(
                    #[trigger] net_view_of(record@, t, opt_view(auth_token), opt_view(app_id)),
                ),
    {
        let t = unix_now_secs();
        Ok(UdpPacketHelper::encode_record_at(record, auth_token, app_id, t))
    }

    /// Decodes a packet.
    pub fn decode_packet(data: &[u8]) -> (r: Result<NetRecord, CodecError>)
        ensures
            r is Ok <==> parse_net_record(data@) is Some,
            r matches Ok(n) ==> n@ == parse_net_record(data@).unwrap(),
            forall|m: NetRecordView| #[trigger] encodes_net_record(data@, m) ==> (r matches Ok(n) && n@ == m),
            forall|t: Seq<char>, rest: Seq<u8>|
                data@ == #[trigger] str_bytes(t).add(rest) && level_of_tag(t) is None ==> r is Err,
    {
        decode_net_record(data)
    }

    /// The record carried by a network record; the timestamp is dropped.
    pub fn net_record_to_record(n: &NetRecord) -> (r: Record)
        ensures
            net_view_of(r@, n.timestamp, r@.auth_token, r@.app_id) == n@,
    {
        Record {
            metadata: std::sync::Arc::new(
                Metadata {
                    level: n.level,
                    target: n.target.clone(),
                    auth_token: clone_opt(&n.auth_token),
                    app_id: clone_opt(&n.app_id),
                },
            ),
            args: n.message.clone(),
            module: clone_opt(&n.module),
            file: clone_opt(&n.file),
            line: n.line,
        }
    }

    /// A packet encoder bound to a sink's credentials: it encodes a record
    /// stamped with the current time, with these credentials.
    pub fn create_encoder(auth_token: String, app_id: String) -> (f: impl Fn(&Record) -> Result<Vec<u8>, CodecError>)
        ensures
            forall|r: &Record| #[trigger] f.requires((r,)),
            forall|r: &Record, out: Result<Vec<u8>, CodecError>| #[trigger] f.ensures((r,), out) ==> exists|t: u64|
                #[trigger] encoded_as(r@, t, Some(auth_token@), Some(app_id@), out),
    {
        move |record: &Record| -> (out: Result<Vec<u8>, CodecError>)
            ensures
                exists|t: u64| #[trigger] encoded_as(record@, t, Some(auth_token@), Some(app_id@), out),
            {
                let a = auth_token.clone();
                let ap = app_id.clone();
                let out = UdpPacketHelper::encode_record(record, Some(a), Some(ap));
                proof {
                    let t = choose|t: u64| out == Ok::<Vec<u8>, CodecError>(out.unwrap()) && out.unwrap()@ == net_record_bytes(
                        #[trigger] net_view_of(record@, t, opt_view(Some(a)), opt_view(Some(ap))),
                    );
                    assert(encoded_as(record@, t, Some(auth_token@), Some(app_id@), out));
                }
                out
            }
    }

    /// A packet decoder that returns the carried record: the record of the
    /// network record the bytes hold, or an error when they hold none.
    pub fn create_decoder() -> (f: impl Fn(&[u8]) -> Result<Record, CodecError>)
        ensures
            forall|d: &[u8]| #[trigger] f.requires((d,)),
            forall|d: &[u8], out: Result<Record, CodecError>| #[trigger] f.ensures((d,), out) ==> decoded_as(d@, out),
    {
        |data: &[u8]| -> (out: Result<Record, CodecError>)
            ensures
                decoded_as(data@, out),
            {
                match decode_net_record(data) {
                    Ok(n) => Ok(UdpPacketHelper::net_record_to_record(&n)),
                    Err(e) => Err(e),
                }
            }
    }

    /// Whether a packet decodes.
    pub fn validate_packet(data: &[u8]) -> (r: bool)
        ensures
            r == parse_net_record(data@) is Some,
            forall|m: NetRecordView| #[trigger] encodes_net_record(data@, m) ==> r,
            forall|t: Seq<char>, rest: Seq<u8>|
                data@ == #[trigger] str_bytes(t).add(rest) && level_of_tag(t) is None ==> !r,
    {
        decode_net_record(data).is_ok()
    }

    /// The metadata of a packet, if it decodes.
    pub fn get_packet_metadata(data: &[u8]) -> (r: Option<PacketMetadata>)
        ensures
            r is Some <==> parse_net_record(data@) is Some,
            r matches Some(md) ==> md.describes(parse_net_record(data@).unwrap()),
            forall|m: NetRecordView| #[trigger] encodes_net_record(data@, m) ==> (r matches Some(md)
                && md.describes(m)),
            forall|t: Seq<char>, rest: Seq<u8>|
                data@ == #[trigger] str_bytes(t).add(rest) && level_of_tag(t) is None ==> r is None,
    {
        match decode_net_record(data) {
            Ok(n) => Some(PacketMetadata::of(&n)),
            Err(_) => None,
        }
    }
}

/// What a collector needs to route a packet.
#[derive(Debug, Clone)]
pub struct PacketMetadata {
    pub level: Level,
    pub target: String,
    pub app_id: Option<String>,
    pub timestamp: u64,
    /// Length of the message in bytes.
    pub message_length: usize,
}

impl PacketMetadata {
    /// This metadata is that of the network record `m`.
    pub open spec fn describes(&self, m: NetRecordView) -> bool {
        &&& self.level == m.level
        &&& self.target@ == m.target
        &&& opt_view(self.app_id) == m.app_id
        &&& self.timestamp == m.timestamp
        &&& self.message_length == vstd::utf8::encode_utf8(m.message).len() as usize
    }

    pub fn of(n: &NetRecord) -> (r: PacketMetadata)
        ensures
            r.describes(n@),
    {
        PacketMetadata {
            level: n.level,
            target: n.target.clone(),
            app_id: clone_opt(&n.app_id),
            timestamp: n.timestamp,
            message_length: n.message.as_str().len(),
        }
    }

    /// Whether the packet carries the application tag `app_id`.
    pub fn is_from_app(&self, app_id: &str) -> (r: bool)
        ensures
            r == (opt_view(self.app_id) == Some(app_id@)),
    {
        match &self.app_id {
            Some(a) => str_eq(a.as_str(), app_id),
            None => false,
        }
    }

    /// Seconds between the packet's timestamp and `now`; 0 for a timestamp in the future.
    pub fn age_at(&self, now: u64) -> (r: u64)
        ensures
            r == age(self.timestamp, now),
    {
        now.saturating_sub(self.timestamp)
    }

    /// Seconds since the packet's timestamp, by the wall clock.
    pub fn age_seconds(&self) -> (r: u64)
        ensures
            exists|now: u64| r == #[trigger] age(self.timestamp, now),
    {
        let now = unix_now_secs();
        self.age_at(now)
    }
}

/// Seconds from `timestamp` to `now`, 0 when `now` is earlier.
pub open spec fn age(timestamp: u64, now: u64) -> u64 {
    if now >= timestamp {
        (now - timestamp) as u64
    } else {
        0
    }
}

/// `out` is the packet of record `r` stamped `t` with these credentials.
pub open spec fn encoded_as(r: RecordView, t: u64, auth_token: Option<Seq<char>>, app_id: Option<Seq<char>>, out: Result<Vec<u8>, CodecError>) -> bool {
    out matches Ok(b) && b@ == net_record_bytes(net_view_of(r, t, auth_token, app_id))
}

/// `out` is what decoding `d` into a record gives.
pub open spec fn decoded_as(d: Seq<u8>, out: Result<Record, CodecError>) -> bool {
    &&& out is Ok <==> parse_net_record(d) is Some
    &&& out matches Ok(rec) ==> carries(rec@, parse_net_record(d).unwrap())
}

/// The network records of the packets that decode, in packet order.
pub open spec fn decoded_packets(ps: Seq<Vec<u8>>) -> Seq<NetRecordView>
    decreases ps.len(),
{
    if ps.len() == 0 {
        Seq::empty()
    } else {
        let prev = decoded_packets(ps.drop_last());
        match parse_net_record(ps.last()@) {
            Some(m) => prev.push(m),
            None => prev,
        }
    }
}

/// `rec` is the record carried by the network record `m`.
pub open spec fn carries(rec: RecordView, m: NetRecordView) -> bool {
    net_view_of(rec, m.timestamp, rec.auth_token, rec.app_id) == m
}

/// The packets kept by the choices `acc`, in order.
pub open spec fn select(ps: Seq<Vec<u8>>, acc: Seq<bool>) -> Seq<Seq<u8>>
    decreases ps.len(),
{
    if ps.len() == 0 {
        Seq::empty()
    } else {
        let prev = select(ps.drop_last(), acc.drop_last());
        if acc.last() {
            prev.push(ps.last()@)
        } else {
            prev
        }
    }
}

/// `b` is what `filter` answered for packet `p`: `false` for a packet that
/// does not decode, else the filter's answer on the packet's metadata.
pub open spec fn filter_choice<F: Fn(&PacketMetadata) -> bool>(filter: F, p: Seq<u8>, b: bool) -> bool {
    match parse_net_record(p) {
        None => !b,
        Some(m) => exists|md: PacketMetadata| md.describes(m) && #[trigger] filter.ensures((&md,), b),
    }
}

/// Decodes and filters packets in bulk.
pub struct UdpBatchProcessor {
    pub batch_size: usize,
    pub max_wait_time_ms: u64,
}

impl Default for UdpBatchProcessor {
    fn default() -> (r: UdpBatchProcessor)
        ensures
            r.batch_size == 100,
            r.max_wait_time_ms == 1000,
    {
        UdpBatchProcessor { batch_size: 100, max_wait_time_ms: 1000 }
    }
}

impl UdpBatchProcessor {
    pub fn new(batch_size: usize, max_wait_time_ms: u64) -> (r: UdpBatchProcessor)
        ensures
            r.batch_size == batch_size,
            r.max_wait_time_ms == max_wait_time_ms,
    {
        UdpBatchProcessor { batch_size, max_wait_time_ms }
    }

    /// The records of the packets that decode, in packet order.
    pub fn process_batch(&self, packets: &Vec<Vec<u8>>) -> (r: Vec<Record>)
        ensures
            r@.len() == decoded_packets(packets@).len(),
            forall|i: int| 0 <= i < r@.len() ==> #[trigger] carries(r@[i]@, decoded_packets(packets@)[i]),
    {
        let mut out: Vec<Record> = Vec::new();
        let mut i: usize = 0;
        while i < packets.len()
            invariant
                i <= packets@.len(),
                out@.len() == decoded_packets(packets@.subrange(0, i as int)).len(),
                forall|k: int| 0 <= k < out@.len() ==> #[trigger] carries(out@[k]@, decoded_packets(packets@.subrange(0, i as int))[k]),
            decreases packets@.len() - i,
        {
            let ghost prev = decoded_packets(packets@.subrange(0, i as int));
            proof {
                assert(packets@.subrange(0, i + 1).drop_last() =~= packets@.subrange(0, i as int));
            }
            let p = packets[i].as_slice();
            match decode_net_record(p) {
                Ok(n) => {
                    let rec = UdpPacketHelper::net_record_to_record(&n);
                    out.push(rec);
                    proof {
                        let cur = decoded_packets(packets@.subrange(0, i + 1));
                        assert(cur == prev.push(n@));
                        assert forall|k: int| 0 <= k < out@.len() implies #[trigger] carries(out@[k]@, cur[k]) by {
                            if k < prev.len() {

                            }
                        }
                    }
                },
                Err(_) => {},
            }
            i = i + 1;
        }
        proof {
            assert(packets@.subrange(0, packets@.len() as int) =~= packets@);
        }
        out
    }

    /// The packets that decode and whose metadata `filter` accepts, in order.
    /// `filter` is asked once per decodable packet, in order, and never about
    /// a packet that does not decode.
    pub fn filter_packets<F: Fn(&PacketMetadata) -> bool>(&self, packets: &Vec<Vec<u8>>, filter: F) -> (r: Vec<Vec<u8>>)
        requires
            forall|md: &PacketMetadata| #[trigger] filter.requires((md,)),
        ensures
            exists|acc: Seq<bool>|
                #[trigger] acc.len() == packets@.len() && r@.map_values(|v: Vec<u8>| v@) == select(packets@, acc)
                    && forall|i: int| 0 <= i < acc.len() ==> #[trigger] filter_choice(filter, packets@[i]@, acc[i]),
    {
        let mut out: Vec<Vec<u8>> = Vec::new();
        let mut i: usize = 0;
        let ghost mut acc: Seq<bool> = Seq::empty();
        while i < packets.len()
            invariant
                i <= packets@.len(),
                acc.len() == i,
                forall|md: &PacketMetadata| #[trigger] filter.requires((md,)),
                out@.map_values(|v: Vec<u8>| v@) == select(packets@.subrange(0, i as int), acc),
                forall|k: int| 0 <= k < acc.len() ==> #[trigger] filter_choice(filter, packets@[k]@, acc[k]),
            decreases packets@.len() - i,
        {
            proof {
                assert(packets@.subrange(0, i + 1).drop_last() =~= packets@.subrange(0, i as int));
            }
            let ghost before = out@.map_values(|v: Vec<u8>| v@);
            let p = packets[i].as_slice();
            let mut keep = false;
            match UdpPacketHelper::get_packet_metadata(p) {
                Some(md) => {
                    keep = filter(&md);
                    proof {
                        assert(filter_choice(filter, packets@[i as int]@, keep));
                    }
                    if keep {
                        let copy = packets[i].clone();
                        assert(copy@ =~= packets@[i as int]@);
                        out.push(copy);
                        assert(out@.map_values(|v: Vec<u8>| v@) =~= before.push(packets@[i as int]@));
                    }
                },
                None => {},
            }
            proof {
                let acc2 = acc.push(keep);
                assert(acc2.drop_last() =~= acc);
                assert forall|k: int| 0 <= k < acc2.len() implies #[trigger] filter_choice(filter, packets@[k]@, acc2[k]) by {
                    if k < acc.len() {
                        assert(acc2[k] == acc[k]);
                    }
                }
                acc = acc2;
            }
            i = i + 1;
        }
        proof {
            assert(packets@.subrange(0, packets@.len() as int) =~= packets@);
        }
        out
    }
}

} // verus!
