//! Watching a room: who sends what, what is lost, and captures of it.
use vstd::prelude::*;
use vstd::string::StringExecFns;

use crate::bytes::{
    copy_bytes, le32, le32_bytes, le64, le64_bytes, lemma_le32, lemma_le64, push_all, push_le32,
    push_le64, read_le32, read_le64,
};
use crate::call::{next16, seq_ahead};
use crate::proto::{opt_text, CodecId, MediaHeader};
use crate::text::{decimal, push_decimal, push_two_digits, two_digits};

verus! {

broadcast use vstd::string::group_string_axioms;

// ---------------------------------------------------------------------------
// Streams
// ---------------------------------------------------------------------------

/// What is known of one sender. Times are in nanoseconds of a running clock.
#[derive(Clone, Debug)]
pub struct ParticipantStats {
    pub stream_id: usize,
    pub alias: Option<String>,
    pub codec: CodecId,
    pub packets: u64,
    pub lost: u64,
    pub last_seq: u16,
    pub seq_initialized: bool,
    pub last_arrival: Option<u64>,
    pub codec_switches: u32,
    pub first_seen: u64,
    pub last_seen: u64,
}

/// Packets missing before packet `seq`, where the last one was `last`: none
/// where it is not a plausible loss.
pub open spec fn loss_before(last: u16, seq: u16) -> int {
    let gap = seq_ahead(seq, next16(last, 1));
    if gap < 100 {
        gap
    } else {
        0
    }
}

impl ParticipantStats {
    pub open spec fn wf(&self) -> bool {
        &&& self.first_seen <= self.last_seen
        &&& self.last_arrival matches Some(t) ==> t == self.last_seen
    }

    pub fn new(id: usize, codec: CodecId, now: u64) -> (r: Self)
        ensures
            r.wf(),
            r == (ParticipantStats {
                stream_id: id,
                alias: None,
                codec,
                packets: 0,
                lost: 0,
                last_seq: 0,
                seq_initialized: false,
                last_arrival: None,
                codec_switches: 0,
                first_seen: now,
                last_seen: now,
            }),
    {
        ParticipantStats {
            stream_id: id,
            alias: None,
            codec,
            packets: 0,
            lost: 0,
            last_seq: 0,
            seq_initialized: false,
            last_arrival: None,
            codec_switches: 0,
            first_seen: now,
            last_seen: now,
        }
    }

    /// The state after a packet.
    pub open spec fn after(self, header: MediaHeader, now: u64) -> ParticipantStats {
        ParticipantStats {
            packets: ((self.packets + 1) % 0x1_0000_0000_0000_0000) as u64,
            last_seen: now,
            codec: header.codec_id,
            codec_switches: if header.codec_id != self.codec {
                ((self.codec_switches + 1) % 0x1_0000_0000) as u32
            } else {
                self.codec_switches
            },
            lost: if self.seq_initialized {
                ((self.lost + loss_before(self.last_seq, header.seq)) % 0x1_0000_0000_0000_0000)
                    as u64
            } else {
                self.lost
            },
            last_seq: header.seq,
            seq_initialized: true,
            last_arrival: Some(now),
            ..self
        }
    }

    /// Takes in a packet; says how long after the one before it came.
    pub fn ingest(&mut self, header: &MediaHeader, now: u64) -> (r: Option<u64>)
        requires
            old(self).wf(),
            old(self).last_seen <= now,
        ensures
            final(self).wf(),
            *final(self) == old(self).after(*header, now),
            r == match old(self).last_arrival {
                Some(t) => Some((now - t) as u64),
                None => None,
            },
    {
        self.packets = self.packets.wrapping_add(1);
        self.last_seen = now;
        if header.codec_id != self.codec {
            self.codec_switches = self.codec_switches.wrapping_add(1);
            self.codec = header.codec_id;
        }
        if self.seq_initialized {
            let expected: u16 = self.last_seq.wrapping_add(1);
            let gap: u16 = header.seq.wrapping_sub(expected);
            assert(gap == seq_ahead(header.seq, expected));
            if gap < 100 {
                self.lost = self.lost.wrapping_add(gap as u64);
            }
        }
        self.last_seq = header.seq;
        self.seq_initialized = true;
        let interval: Option<u64> = match self.last_arrival {
            Some(t) => Some(now - t),
            None => None,
        };
        self.last_arrival = Some(now);
        interval
    }

    /// From the first packet to the last one.
    pub fn duration(&self) -> (r: u64)
        requires
            self.wf(),
        ensures
            r == self.last_seen - self.first_seen,
    {
        self.last_seen - self.first_seen
    }

    pub open spec fn name(self) -> Seq<char> {
        match self.alias {
            Some(a) => a@,
            None => "Stream "@ + decimal(self.stream_id as nat),
        }
    }

    pub fn display_name(&self) -> (r: String)
        ensures
            r@ == self.name(),
    {
        match &self.alias {
            Some(a) => a.clone(),
            None => {
                let mut m = String::from_str("Stream ");
                push_decimal(&mut m, self.stream_id as u64);
                m
            },
        }
    }

    /// Packets lost, of so many sent.
    pub fn loss_percent(&self) -> (r: (u64, u64))
        requires
            self.packets + self.lost <= u64::MAX,
        ensures
            r.0 == self.lost,
            r.1 == self.packets + self.lost,
    {
        (self.lost, self.packets + self.lost)
    }

    /// How a loss is marked: above five percent, above one percent, or
    /// neither.
    pub fn loss_level(&self) -> (r: LossLevel)
        ensures
            r == level_of(self.lost as int, self.packets + self.lost),
    {
        let lost: u128 = self.lost as u128;
        let total: u128 = self.packets as u128 + lost;
        if lost * 100 > total * 5 {
            LossLevel::High
        } else if lost * 100 > total {
            LossLevel::Medium
        } else {
            LossLevel::Low
        }
    }
}

#[derive(Clone, Copy, Debug, PartialEq, Eq, Structural)]
pub enum LossLevel {
    High,
    Medium,
    Low,
}

pub open spec fn level_of(lost: int, total: int) -> LossLevel {
    if lost * 100 > total * 5 {
        LossLevel::High
    } else if lost * 100 > total {
        LossLevel::Medium
    } else {
        LossLevel::Low
    }
}

/// Packets that were received and packets that were lost are all the packets
/// that were sent, as long as no more than ninety-nine are lost in a row: a
/// packet `k` places after the last one adds `k` to both together.
pub proof fn lemma_nothing_uncounted(p: ParticipantStats, header: MediaHeader, now: u64)
    requires
        p.seq_initialized,
        0 < seq_ahead(header.seq, p.last_seq) <= 100,
        p.packets + p.lost < 0x1_0000_0000_0000_0000 - 101,
    ensures
        p.after(header, now).packets + p.after(header, now).lost == p.packets + p.lost + seq_ahead(
            header.seq,
            p.last_seq,
        ),
{
    assert(seq_ahead(header.seq, next16(p.last_seq, 1)) == seq_ahead(header.seq, p.last_seq) - 1);
}

/// Nothing is lost where a packet comes again, comes late, or comes after a
/// jump of more than a hundred places.
pub proof fn lemma_no_plausible_loss(p: ParticipantStats, header: MediaHeader, now: u64)
    requires
        seq_ahead(header.seq, p.last_seq) == 0 || seq_ahead(header.seq, p.last_seq) > 100
            || !p.seq_initialized,
    ensures
        p.after(header, now).lost == p.lost,
{
}

/// Of every packet the stream keeps number, time and codec, and a change of
/// codec is counted; what it was seen first by stays.
pub proof fn lemma_packet_noted(p: ParticipantStats, header: MediaHeader, now: u64)
    ensures
        ({
            let q = p.after(header, now);
            &&& (q.packets - p.packets - 1) % 0x1_0000_0000_0000_0000 == 0
            &&& q.last_seq == header.seq && q.seq_initialized
            &&& q.last_seen == now && q.last_arrival == Some(now)
            &&& q.codec == header.codec_id
            &&& q.codec_switches == p.codec_switches <==> header.codec_id == p.codec
            &&& header.codec_id != p.codec ==> (q.codec_switches - p.codec_switches - 1)
                % 0x1_0000_0000 == 0
            &&& q.first_seen == p.first_seen && q.stream_id == p.stream_id && q.alias == p.alias
        }),
{
}

/// Of so many packets a larger part lost is never marked lower; above one in
/// twenty is high, above one in a hundred is not low, and no loss is low.
pub proof fn lemma_loss_levels(lost: int, more: int, total: int)
    requires
        0 <= lost <= more,
        0 <= total,
    ensures
        20 * lost > total <==> level_of(lost, total) is High,
        100 * lost <= total <==> level_of(lost, total) is Low,
        level_of(lost, total) is High ==> level_of(more, total) is High,
        level_of(more, total) is Low ==> level_of(lost, total) is Low,
        level_of(0, total) is Low,
{
}

/// A packet goes on from where a stream is: it is one to forty-nine places
/// after its last one.
pub open spec fn follows(p: ParticipantStats, seq: u16) -> bool {
    p.seq_initialized && 0 < seq_ahead(seq, p.last_seq) < 50
}

/// The first stream from `i` on that a packet goes on from.
pub open spec fn stream_from(ps: Seq<ParticipantStats>, i: int, seq: u16) -> Option<int>
    decreases ps.len() - i,
{
    if i >= ps.len() {
        None
    } else if follows(ps[i], seq) {
        Some(i)
    } else {
        stream_from(ps, i + 1, seq)
    }
}

/// Every stream is known by its place.
pub open spec fn streams_wf(ps: Seq<ParticipantStats>) -> bool {
    forall|i: int| 0 <= i < ps.len() ==> (#[trigger] ps[i]).wf() && ps[i].stream_id == i
}

/// The streams and the one that a packet belongs to, a new one where it goes
/// on from none.
pub open spec fn attributed(ps: Seq<ParticipantStats>, seq: u16, codec: CodecId, now: u64) -> (
    Seq<ParticipantStats>,
    int,
) {
    match stream_from(ps, 0, seq) {
        Some(i) => (ps, i),
        None => (
            ps.push(
                ParticipantStats {
                    stream_id: ps.len() as usize,
                    alias: None,
                    codec,
                    packets: 0,
                    lost: 0,
                    last_seq: 0,
                    seq_initialized: false,
                    last_arrival: None,
                    codec_switches: 0,
                    first_seen: now,
                    last_seen: now,
                },
            ),
            ps.len() as int,
        ),
    }
}

/// Finds the stream that a packet belongs to, or begins one.
pub fn find_or_create_participant(
    participants: &mut Vec<ParticipantStats>,
    seq: u16,
    codec: CodecId,
    now: u64,
) -> (r: usize)
    requires
        streams_wf(old(participants)@),
        old(participants)@.len() < usize::MAX,
    ensures
        streams_wf(final(participants)@),
        (final(participants)@, r as int) == attributed(old(participants)@, seq, codec, now),
        r < final(participants)@.len(),
{
    let mut i: usize = 0;
    while i < participants.len()
        invariant
            i <= participants@.len(),
            participants@ == old(participants)@,
            streams_wf(participants@),
            stream_from(participants@, 0, seq) == stream_from(participants@, i as int, seq),
        decreases participants.len() - i,
    {
        if participants[i].seq_initialized {
            let delta: u16 = seq.wrapping_sub(participants[i].last_seq);
            assert(delta == seq_ahead(seq, participants@[i as int].last_seq));
            if delta > 0 && delta < 50 {
                return i;
            }
        }
        i += 1;
    }
    let id: usize = participants.len();
    participants.push(ParticipantStats::new(id, codec, now));
    id
}

/// Takes in a packet of some stream; says which one, and how long after the
/// one before it came.
pub fn observe(participants: &mut Vec<ParticipantStats>, header: &MediaHeader, now: u64) -> (r: (
    usize,
    Option<u64>,
))
    requires
        streams_wf(old(participants)@),
        old(participants)@.len() < usize::MAX,
        forall|i: int|
            0 <= i < old(participants)@.len() ==> (#[trigger] old(participants)@[i]).last_seen
                <= now,
    ensures
        streams_wf(final(participants)@),
        ({
            let (ps, i) = attributed(old(participants)@, header.seq, header.codec_id, now);
            &&& r.0 == i
            &&& final(participants)@ == ps.update(i, ps[i].after(*header, now))
            &&& r.1 == match ps[i].last_arrival {
                Some(t) => Some((now - t) as u64),
                None => None,
            }
        }),
{
    let idx: usize = find_or_create_participant(participants, header.seq, header.codec_id, now);
    let ghost ps = participants@;
    let mut p = participants.remove(idx);
    assert(p == ps[idx as int]);
    let interval = p.ingest(header, now);
    participants.insert(idx, p);
    assert(participants@ =~= ps.update(idx as int, ps[idx as int].after(*header, now)));
    (idx, interval)
}

/// A packet belongs to the first stream that it is one to forty-nine places
/// ahead of; to a stream of its own only where there is none.
pub proof fn lemma_attribution(
    ps: Seq<ParticipantStats>,
    seq: u16,
    codec: CodecId,
    now: u64,
)
    ensures
        ({
            let (after, i) = attributed(ps, seq, codec, now);
            &&& i < ps.len() ==> {
                &&& after == ps
                &&& 0 <= i
                &&& ps[i].seq_initialized
                &&& 1 <= (seq - ps[i].last_seq) % 65536 <= 49
            }
            &&& forall|j: int|
                0 <= j < i && j < ps.len() ==> !((#[trigger] ps[j]).seq_initialized && 1 <= (seq
                    - ps[j].last_seq) % 65536 <= 49)
            &&& i >= ps.len() ==> {
                &&& i == ps.len()
                &&& after.len() == ps.len() + 1
                &&& after.drop_last() == ps
                &&& after.last().packets == 0 && after.last().lost == 0
                &&& after.last().codec == codec
                &&& after.last().first_seen == now
            }
        }),
{
    lemma_stream_from(ps, 0, seq);
    let after = attributed(ps, seq, codec, now).0;
    if stream_from(ps, 0, seq) is None {
        assert(after.drop_last() =~= ps);
    }
    assert forall|j: int|
        0 <= j < attributed(ps, seq, codec, now).1 && j < ps.len() implies !((
    #[trigger] ps[j]).seq_initialized && 1 <= (seq - ps[j].last_seq) % 65536 <= 49) by {
        assert(!follows(ps[j], seq));
    }
}

proof fn lemma_stream_from(ps: Seq<ParticipantStats>, from: int, seq: u16)
    requires
        0 <= from,
    ensures
        match stream_from(ps, from, seq) {
            Some(i) => from <= i < ps.len() && follows(ps[i], seq) && (forall|j: int|
                from <= j < i ==> !follows(#[trigger] ps[j], seq)),
            None => forall|j: int| from <= j < ps.len() ==> !follows(#[trigger] ps[j], seq),
        },
    decreases ps.len() - from,
{
    if from < ps.len() && !follows(ps[from], seq) {
        lemma_stream_from(ps, from + 1, seq);
    }
}

/// After a packet of a stream the next one in number is taken to follow it.
pub proof fn lemma_next_packet_follows(p: ParticipantStats, header: MediaHeader, now: u64)
    ensures
        follows(p.after(header, now), next16(header.seq, 1)),
{
}

// ---------------------------------------------------------------------------
// Captures
// ---------------------------------------------------------------------------

/// The first bytes of a capture.
pub open spec fn magic() -> Seq<u8> {
    seq![87u8, 90, 80, 1]
}

/// How a capture begins, with a header.
pub open spec fn capture_start(header: Seq<u8>) -> Seq<u8> {
    magic() + le32_bytes(header.len() as u32) + header
}

/// A packet of a capture, with the microseconds since its beginning.
pub open spec fn record_bytes(timestamp_us: u64, raw: Seq<u8>) -> Seq<u8> {
    le64_bytes(timestamp_us) + le32_bytes(raw.len() as u32) + raw
}

pub open spec fn records_bytes(records: Seq<(u64, Seq<u8>)>) -> Seq<u8>
    decreases records.len(),
{
    if records.len() == 0 {
        Seq::empty()
    } else {
        record_bytes(records[0].0, records[0].1) + records_bytes(records.skip(1))
    }
}

pub fn capture_header(header: &[u8]) -> (r: Vec<u8>)
    ensures
        r@ == capture_start(header@),
{
    let mut r: Vec<u8> = vec![87, 90, 80, 1];
    assert(r@ =~= magic());
    push_le32(&mut r, header.len() as u32);
    push_all(&mut r, header);
    r
}

pub fn write_packet(timestamp_us: u64, raw: &[u8]) -> (r: Vec<u8>)
    ensures
        r@ == record_bytes(timestamp_us, raw@),
{
    let mut r: Vec<u8> = Vec::new();
    push_le64(&mut r, timestamp_us);
    assert(r@ =~= le64_bytes(timestamp_us));
    push_le32(&mut r, raw.len() as u32);
    push_all(&mut r, raw);
    r
}

/// Why a capture cannot be read.
#[derive(Clone, Copy, Debug, PartialEq, Eq, Structural)]
pub enum CaptureError {
    /// It ends too early.
    Truncated,
    /// It is something else.
    NotACapture,
}

impl CaptureError {
    pub open spec fn message(self) -> Seq<char> {
        match self {
            CaptureError::Truncated => "failed to fill whole buffer"@,
            CaptureError::NotACapture => "not a WZP capture file"@,
        }
    }

    pub fn to_string(&self) -> (r: String)
        ensures
            r@ == self.message(),
    {
        match self {
            CaptureError::Truncated => String::from_str("failed to fill whole buffer"),
            CaptureError::NotACapture => String::from_str("not a WZP capture file"),
        }
    }
}

/// The number in the four bytes of `d` from `at` on.
pub open spec fn len_at(d: Seq<u8>, at: int) -> int {
    le32(d[at], d[at + 1], d[at + 2], d[at + 3]) as int
}

/// The header of a capture.
pub open spec fn header_of(d: Seq<u8>) -> Result<Seq<u8>, CaptureError> {
    if d.len() < 4 {
        Err(CaptureError::Truncated)
    } else if d.take(4) != magic() {
        Err(CaptureError::NotACapture)
    } else if d.len() < 8 || d.len() < 8 + len_at(d, 4) {
        Err(CaptureError::Truncated)
    } else {
        Ok(d.subrange(8, 8 + len_at(d, 4)))
    }
}

/// The packet of a capture at `at`, and the place after it; none at the end.
pub open spec fn record_at(d: Seq<u8>, at: int) -> Result<Option<(u64, Seq<u8>, int)>, CaptureError> {
    if d.len() < at + 8 {
        Ok(None)
    } else if d.len() < at + 12 || d.len() < at + 12 + len_at(d, at + 8) {
        Err(CaptureError::Truncated)
    } else {
        Ok(
            Some(
                (
                    le64(d, at),
                    d.subrange(at + 12, at + 12 + len_at(d, at + 8)),
                    at + 12 + len_at(d, at + 8),
                ),
            ),
        )
    }
}

/// All packets of a capture from `at` on.
pub open spec fn records_from(d: Seq<u8>, at: int) -> Result<Seq<(u64, Seq<u8>)>, CaptureError>
    decreases d.len() - at,
{
    match record_at(d, at) {
        Err(e) => Err(e),
        Ok(None) => Ok(Seq::empty()),
        Ok(Some((ts, raw, next))) => match records_from(d, next) {
            Err(e) => Err(e),
            Ok(rest) => Ok(seq![(ts, raw)] + rest),
        },
    }
}

/// Why `serde_json::from_slice` does not take some bytes for JSON, in the
/// words of its error; none where it does.
pub uninterp spec fn json_error(bytes: Seq<u8>) -> Option<Seq<char>>;

/// The text under a key of the object that some bytes are in JSON, as
/// `serde_json::Value::get` and `as_str` give it; none where there is no such
/// key, or no text under it.
pub uninterp spec fn json_text(bytes: Seq<u8>, key: Seq<char>) -> Option<Seq<char>>;

/// The bytes that `serde_json::to_vec` makes of an object with three texts
/// and a number.
pub uninterp spec fn json_object(
    key1: Seq<char>,
    text1: Seq<char>,
    key2: Seq<char>,
    text2: Seq<char>,
    key3: Seq<char>,
    text3: Seq<char>,
    key4: Seq<char>,
    number4: u64,
) -> Seq<u8>;

/// `serde_json::from_slice` to a `serde_json::Value`, and `Value::get` and
/// `as_str` on it. What these give depends on the bytes and the key alone and
/// has names here; the error is the one of `from_slice`, as text.
#[verifier::external_body]
fn json_text_of(bytes: &[u8], key: &str) -> (r: Result<Option<String>, String>)
    ensures
        match r {
            Ok(t) => json_error(bytes@) is None && json_text(bytes@, key@) == opt_text(t),
            Err(e) => json_error(bytes@) == Some(e@),
        },
{
    let value: serde_json::Value = serde_json::from_slice(bytes).map_err(|e| e.to_string())?;
    Ok(value.get(key).and_then(|v| v.as_str()).map(String::from))
}

/// `serde_json::to_vec` of an object that `serde_json::Map::insert` has put
/// together. Texts and a number under different keys are always written. What
/// is written is JSON, and gives the texts back under their keys.
#[verifier::external_body]
fn json_object_of(
    key1: &str,
    text1: &str,
    key2: &str,
    text2: &str,
    key3: &str,
    text3: &str,
    key4: &str,
    number4: u64,
) -> (r: Result<Vec<u8>, String>)
    requires
        key1@ != key2@,
        key1@ != key3@,
        key1@ != key4@,
        key2@ != key3@,
        key2@ != key4@,
        key3@ != key4@,
    ensures
        match r {
            Ok(b) => {
                &&& b@ == json_object(
                    key1@,
                    text1@,
                    key2@,
                    text2@,
                    key3@,
                    text3@,
                    key4@,
                    number4,
                )
                &&& json_error(b@) is None
                &&& json_text(b@, key1@) == Some(text1@)
                &&& json_text(b@, key2@) == Some(text2@)
                &&& json_text(b@, key3@) == Some(text3@)
                &&& json_text(b@, key4@) is None
            },
            Err(_) => false,
        },
{
    let mut object = serde_json::Map::new();
    object.insert(key1.to_string(), serde_json::Value::from(text1));
    object.insert(key2.to_string(), serde_json::Value::from(text2));
    object.insert(key3.to_string(), serde_json::Value::from(text3));
    object.insert(key4.to_string(), serde_json::Value::from(number4));
    serde_json::to_vec(&serde_json::Value::Object(object)).map_err(|e| e.to_string())
}

/// The time of day, as `chrono::Utc::now` tells it and `DateTime::to_rfc3339`
/// writes it. What it is depends on the clock, so nothing is said of it.
#[verifier::external_body]
fn utc_now_rfc3339() -> (r: String) {
    chrono::Utc::now().to_rfc3339()
}

/// The header of a capture: room, relay and time of its beginning.
pub open spec fn capture_names(room: Seq<char>, relay: Seq<char>, start: Seq<char>) -> Seq<u8> {
    json_object("room"@, room, "relay"@, relay, "start_time"@, start, "version"@, 1)
}

/// The beginning of a capture of a room that starts at a given time. Its
/// header can be read again, and gives back the names that it was made with.
pub fn new_capture_at(room: &str, relay: &str, start_time: &str) -> (r: Result<Vec<u8>, String>)
    ensures
        match r {
            Ok(b) => {
                let header = capture_names(room@, relay@, start_time@);
                &&& b@ == capture_start(header)
                &&& header.len() <= u32::MAX ==> header_of(b@) == Ok::<Seq<u8>, CaptureError>(
                    header,
                )
                &&& json_error(header) is None
                &&& json_text(header, "room"@) == Some(room@)
                &&& json_text(header, "relay"@) == Some(relay@)
                &&& json_text(header, "start_time"@) == Some(start_time@)
            },
            Err(_) => false,
        },
{
    proof {
        reveal_strlit("room");
        reveal_strlit("relay");
        reveal_strlit("start_time");
        reveal_strlit("version");
        assert("room"@.len() == 4 && "relay"@.len() == 5 && "start_time"@.len() == 10
            && "version"@.len() == 7);
    }
    let header = json_object_of(
        "room",
        room,
        "relay",
        relay,
        "start_time",
        start_time,
        "version",
        1,
    )?;
    let start = capture_header(header.as_slice());
    proof {
        if header@.len() <= u32::MAX {
            lemma_capture_round_trip(header@, Seq::empty());
            assert(start@ + records_bytes(Seq::empty()) =~= start@);
        }
    }
    Ok(start)
}

/// The beginning of a capture of a room that starts now.
pub fn new_capture(room: &str, relay: &str) -> (r: Result<Vec<u8>, String>)
    ensures
        match r {
            Ok(b) => exists|start: Seq<char>|
                b@ == capture_start(#[trigger] capture_names(room@, relay@, start)),
            Err(_) => false,
        },
{
    let start_time = utc_now_rfc3339();
    new_capture_at(room, relay, start_time.as_str())
}

/// Why a capture cannot be opened.
#[derive(Clone, Debug)]
pub enum OpenError {
    Capture(CaptureError),
    /// The header is not JSON.
    Header(String),
}

impl OpenError {
    pub open spec fn message(self) -> Seq<char> {
        match self {
            OpenError::Capture(e) => e.message(),
            OpenError::Header(e) => e@,
        }
    }

    pub fn to_string(&self) -> (r: String)
        ensures
            r@ == self.message(),
    {
        match self {
            OpenError::Capture(e) => e.to_string(),
            OpenError::Header(e) => e.clone(),
        }
    }
}

/// The bytes of a capture's header.
pub fn capture_header_of(data: &[u8]) -> (r: Result<Vec<u8>, CaptureError>)
    ensures
        match r {
            Ok(h) => header_of(data@) == Ok::<Seq<u8>, CaptureError>(h@),
            Err(e) => header_of(data@) == Err::<Seq<u8>, CaptureError>(e),
        },
{
    if data.len() < 4 {
        return Err(CaptureError::Truncated);
    }
    if data[0] != 87 || data[1] != 90 || data[2] != 80 || data[3] != 1 {
        assert(data@.take(4) != magic()) by {
            assert(data@.take(4)[0] == data@[0] && data@.take(4)[1] == data@[1]);
            assert(data@.take(4)[2] == data@[2] && data@.take(4)[3] == data@[3]);
        }
        return Err(CaptureError::NotACapture);
    }
    assert(data@.take(4) =~= magic());
    if data.len() < 8 {
        return Err(CaptureError::Truncated);
    }
    let n: usize = read_le32(data, 4) as usize;
    if data.len() - 8 < n {
        return Err(CaptureError::Truncated);
    }
    Ok(copy_bytes(data, 8, 8 + n))
}

/// Reads a capture, packet by packet.
pub struct CaptureReader {
    pub data: Vec<u8>,
    pub pos: usize,
    pub header: Vec<u8>,
    /// What the header says of the room and of the time of the beginning.
    pub room: Option<String>,
    pub start_time: Option<String>,
}

impl CaptureReader {
    pub open spec fn wf(&self) -> bool {
        self.pos <= self.data@.len()
    }

    /// Opens a capture whose header is given, with what it says under `room`
    /// and under `start_time`.
    pub fn opened(
        data: Vec<u8>,
        header: Vec<u8>,
        room: Result<Option<String>, String>,
        start_time: Result<Option<String>, String>,
    ) -> (r: Result<Self, OpenError>)
        requires
            header_of(data@) == Ok::<Seq<u8>, CaptureError>(header@),
        ensures
            match (room, start_time) {
                (Err(e), _) => r == Err::<Self, OpenError>(OpenError::Header(e)),
                (Ok(_), Err(e)) => r == Err::<Self, OpenError>(OpenError::Header(e)),
                (Ok(room), Ok(start_time)) => r matches Ok(c) && c.wf() && c == (CaptureReader {
                    data,
                    pos: c.pos,
                    header,
                    room,
                    start_time,
                }) && c.pos == 8 + header@.len(),
            },
    {
        match room {
            Err(e) => Err(OpenError::Header(e)),
            Ok(room) => match start_time {
                Err(e) => Err(OpenError::Header(e)),
                Ok(start_time) => {
                    assert(header@.len() + 8 <= data.len());
                    let pos: usize = 8 + header.len();
                    Ok(CaptureReader { data, pos, header, room, start_time })
                },
            },
        }
    }

    pub fn open(data: Vec<u8>) -> (r: Result<Self, OpenError>)
        ensures
            match header_of(data@) {
                Err(e) => r == Err::<Self, OpenError>(OpenError::Capture(e)),
                Ok(header) => match json_error(header) {
                    Some(e) => r matches Err(OpenError::Header(m)) && m@ == e,
                    None => {
                        &&& r matches Ok(c)
                        &&& c.wf()
                        &&& c.data == data
                        &&& c.header@ == header
                        &&& c.pos == 8 + header.len()
                        &&& opt_text(c.room) == json_text(header, "room"@)
                        &&& opt_text(c.start_time) == json_text(header, "start_time"@)
                    },
                },
            },
    {
        match capture_header_of(data.as_slice()) {
            Err(e) => Err(OpenError::Capture(e)),
            Ok(header) => {
                let room = json_text_of(header.as_slice(), "room");
                let start_time = json_text_of(header.as_slice(), "start_time");
                Self::opened(data, header, room, start_time)
            },
        }
    }

    /// The room, as it is shown while a capture is replayed.
    pub fn shown_room(&self) -> (r: String)
        ensures
            r@ == match self.room {
                Some(room) => room@,
                None => "?"@,
            },
    {
        match &self.room {
            Some(room) => room.clone(),
            None => String::from_str("?"),
        }
    }

    /// The room and the time of the beginning, for a report.
    pub fn report_names(&self) -> (r: (String, String))
        ensures
            r.0@ == match self.room {
                Some(room) => room@,
                None => "unknown"@,
            },
            r.1@ == match self.start_time {
                Some(start) => start@,
                None => "?"@,
            },
    {
        let room = match &self.room {
            Some(room) => room.clone(),
            None => String::from_str("unknown"),
        };
        let start_time = match &self.start_time {
            Some(start) => start.clone(),
            None => String::from_str("?"),
        };
        (room, start_time)
    }

    /// The next packet, with its time; none at the end.
    pub fn next_packet(&mut self) -> (r: Result<Option<(u64, Vec<u8>)>, CaptureError>)
        requires
            old(self).wf(),
        ensures
            final(self).wf(),
            *final(self) == (CaptureReader { pos: final(self).pos, ..*old(self) }),
            match record_at(old(self).data@, old(self).pos as int) {
                Ok(Some((ts, raw, next))) => {
                    &&& r matches Ok(Some(p)) && p.0 == ts && p.1@ == raw
                    &&& final(self).pos == next
                },
                Ok(None) => r matches Ok(None) && final(self).pos == old(self).pos,
                Err(e) => r == Err::<Option<(u64, Vec<u8>)>, CaptureError>(e) && final(self).pos
                    == old(self).pos,
            },
    {
        let left: usize = self.data.len() - self.pos;
        if left < 8 {
            return Ok(None);
        }
        if left < 12 {
            return Err(CaptureError::Truncated);
        }
        let ts: u64 = read_le64(self.data.as_slice(), self.pos);
        let n: usize = read_le32(self.data.as_slice(), self.pos + 8) as usize;
        if left - 12 < n {
            return Err(CaptureError::Truncated);
        }
        let start: usize = self.pos + 12;
        let raw: Vec<u8> = copy_bytes(self.data.as_slice(), start, start + n);
        self.pos = start + n;
        Ok(Some((ts, raw)))
    }
}

/// A capture gives back the header and the packets that were written to it.
pub proof fn lemma_capture_round_trip(header: Seq<u8>, records: Seq<(u64, Seq<u8>)>)
    requires
        header.len() <= u32::MAX,
        forall|i: int| 0 <= i < records.len() ==> (#[trigger] records[i]).1.len() <= u32::MAX,
    ensures
        ({
            let d = capture_start(header) + records_bytes(records);
            &&& header_of(d) == Ok::<Seq<u8>, CaptureError>(header)
            &&& records_from(d, 8 + header.len() as int) == Ok::<Seq<(u64, Seq<u8>)>, CaptureError>(
                records,
            )
        }),
{
    let d = capture_start(header) + records_bytes(records);
    let n = header.len() as u32;
    lemma_le32(n);
    assert(d.take(4) =~= magic());
    assert(d[4] == le32_bytes(n)[0] && d[5] == le32_bytes(n)[1]);
    assert(d[6] == le32_bytes(n)[2] && d[7] == le32_bytes(n)[3]);
    assert(d.subrange(8, 8 + n) =~= header);
    lemma_records_round_trip(capture_start(header), records);
}

/// A capture that ends within its header is told as such, however little is
/// missing, and one that begins otherwise is none.
pub proof fn lemma_cut_header(header: Seq<u8>, k: int, d: Seq<u8>)
    requires
        header.len() <= u32::MAX,
        0 <= k < capture_start(header).len(),
    ensures
        header_of(capture_start(header).take(k)) == Err::<Seq<u8>, CaptureError>(
            CaptureError::Truncated,
        ),
        d.len() >= 4 && !(d[0] == 87 && d[1] == 90 && d[2] == 80 && d[3] == 1) ==> header_of(d)
            == Err::<Seq<u8>, CaptureError>(CaptureError::NotACapture),
{
    let all = capture_start(header);
    let c = all.take(k);
    let n = le32_bytes(header.len() as u32);
    lemma_le32(header.len() as u32);
    if k >= 4 {
        assert(c.take(4) =~= magic());
    }
    if k >= 8 {
        assert(c[4] == n[0] && c[5] == n[1] && c[6] == n[2] && c[7] == n[3]);
    }
    if d.len() >= 4 && !(d[0] == 87 && d[1] == 90 && d[2] == 80 && d[3] == 1) {
        assert(d.take(4)[0] == d[0] && d.take(4)[1] == d[1] && d.take(4)[2] == d[2] && d.take(4)[3]
            == d[3]);
    }
}

/// A capture that ends within a packet is told as such, unless not even the
/// time of the packet is there: that is taken for its end.
pub proof fn lemma_cut_record(before: Seq<u8>, ts: u64, raw: Seq<u8>, k: int)
    requires
        raw.len() <= u32::MAX,
        0 <= k < record_bytes(ts, raw).len(),
    ensures
        record_at(before + record_bytes(ts, raw).take(k), before.len() as int) == if k < 8 {
            Ok::<Option<(u64, Seq<u8>, int)>, CaptureError>(None)
        } else {
            Err(CaptureError::Truncated)
        },
{
    let r = record_bytes(ts, raw);
    let d = before + r.take(k);
    let at = before.len() as int;
    let n = le32_bytes(raw.len() as u32);
    lemma_le32(raw.len() as u32);
    lemma_record_len(ts, raw);
    if k >= 12 {
        assert(r[8] == n[0] && r[9] == n[1] && r[10] == n[2] && r[11] == n[3]);
        assert(d[at + 8] == r[8] && d[at + 9] == r[9] && d[at + 10] == r[10] && d[at + 11] == r[11]);
    }
}

proof fn lemma_record_at(before: Seq<u8>, ts: u64, raw: Seq<u8>, after: Seq<u8>)
    requires
        raw.len() <= u32::MAX,
    ensures
        record_at(before + record_bytes(ts, raw) + after, before.len() as int) == Ok::<
            Option<(u64, Seq<u8>, int)>,
            CaptureError,
        >(Some((ts, raw, (before.len() + 12 + raw.len()) as int))),
{
    let rec = record_bytes(ts, raw);
    let d = before + rec + after;
    let at = before.len() as int;
    let n = raw.len() as u32;
    let tb = le64_bytes(ts);
    let nb = le32_bytes(n);
    assert(rec.len() == 12 + n);
    assert forall|k: int| 0 <= k < rec.len() implies d[at + k] == #[trigger] rec[k] by {}
    assert forall|k: int| 0 <= k < 8 implies rec[k] == #[trigger] tb[k] by {}
    assert forall|k: int| 0 <= k < 4 implies rec[8 + k] == #[trigger] nb[k] by {}
    assert(d[at + 0] == tb[0] && d[at + 1] == tb[1] && d[at + 2] == tb[2] && d[at + 3] == tb[3]);
    assert(d[at + 4] == tb[4] && d[at + 5] == tb[5] && d[at + 6] == tb[6] && d[at + 7] == tb[7]);
    assert(le64(d, at) == le64(tb, 0));
    lemma_le64(ts);
    assert(nb[0] == rec[8] && nb[1] == rec[9] && nb[2] == rec[10] && nb[3] == rec[11]);
    assert(d[at + 8] == nb[0] && d[at + 9] == nb[1] && d[at + 10] == nb[2] && d[at + 11] == nb[3]);
    lemma_le32(n);
    assert(len_at(d, at + 8) == n);
    assert(d.subrange(at + 12, at + 12 + n) =~= raw);
}

proof fn lemma_records_round_trip(before: Seq<u8>, records: Seq<(u64, Seq<u8>)>)
    requires
        forall|i: int| 0 <= i < records.len() ==> (#[trigger] records[i]).1.len() <= u32::MAX,
    ensures
        records_from(before + records_bytes(records), before.len() as int) == Ok::<
            Seq<(u64, Seq<u8>)>,
            CaptureError,
        >(records),
    decreases records.len(),
{
    if records.len() == 0 {
        assert(records =~= Seq::empty());
    } else {
        let rest = records.skip(1);
        let rec = record_bytes(records[0].0, records[0].1);
        assert forall|i: int| 0 <= i < rest.len() implies (#[trigger] rest[i]).1.len()
            <= u32::MAX by {
            assert(rest[i] == records[i + 1]);
        }
        lemma_records_round_trip(before + rec, rest);
        lemma_first_record(before, records[0], rest);
        assert(seq![records[0]] + rest =~= records);
    }
}

proof fn lemma_append_assoc(a: Seq<u8>, b: Seq<u8>, c: Seq<u8>)
    ensures
        a + (b + c) == a + b + c,
{
    assert(a + (b + c) =~= a + b + c);
}

/// Reading from a packet on gives that packet and then what follows it.
proof fn lemma_first_record(before: Seq<u8>, first: (u64, Seq<u8>), rest: Seq<(u64, Seq<u8>)>)
    requires
        first.1.len() <= u32::MAX,
        records_from(
            before + record_bytes(first.0, first.1) + records_bytes(rest),
            (before + record_bytes(first.0, first.1)).len() as int,
        ) == Ok::<Seq<(u64, Seq<u8>)>, CaptureError>(rest),
    ensures
        records_from(
            before + (record_bytes(first.0, first.1) + records_bytes(rest)),
            before.len() as int,
        ) == Ok::<Seq<(u64, Seq<u8>)>, CaptureError>(seq![first] + rest),
{
    let rec = record_bytes(first.0, first.1);
    let d = before + rec + records_bytes(rest);
    lemma_append_assoc(before, rec, records_bytes(rest));
    lemma_record_at(before, first.0, first.1, records_bytes(rest));
    lemma_record_len(first.0, first.1);
    lemma_step(d, before.len() as int, first, (before + rec).len() as int, rest);
}

proof fn lemma_record_len(ts: u64, raw: Seq<u8>)
    ensures
        record_bytes(ts, raw).len() == 12 + raw.len(),
{
}

proof fn lemma_step(
    d: Seq<u8>,
    at: int,
    first: (u64, Seq<u8>),
    next: int,
    rest: Seq<(u64, Seq<u8>)>,
)
    requires
        record_at(d, at) == Ok::<Option<(u64, Seq<u8>, int)>, CaptureError>(
            Some((first.0, first.1, next)),
        ),
        records_from(d, next) == Ok::<Seq<(u64, Seq<u8>)>, CaptureError>(rest),
    ensures
        records_from(d, at) == Ok::<Seq<(u64, Seq<u8>)>, CaptureError>(seq![first] + rest),
{
}

// ---------------------------------------------------------------------------
// Reports
// ---------------------------------------------------------------------------

/// One packet on the time line of a report.
#[derive(Clone, Copy, Debug, PartialEq, Eq, Structural)]
pub struct TimelineEntry {
    pub timestamp_us: u64,
    pub stream_id: usize,
}

/// The seconds that a report covers, by its last packet.
pub open spec fn seconds_covered(timeline: Seq<TimelineEntry>) -> int {
    if timeline.len() == 0 {
        1
    } else {
        timeline.last().timestamp_us / 1_000_000 + 1
    }
}

pub fn duration_secs(timeline: &[TimelineEntry]) -> (r: u64)
    ensures
        r == seconds_covered(timeline@),
{
    let n: usize = timeline.len();
    if n == 0 {
        1
    } else {
        timeline[n - 1].timestamp_us / 1_000_000 + 1
    }
}

/// The last packet of a stream in a second.
pub open spec fn last_in_second(timeline: Seq<TimelineEntry>, stream: int, sec: int) -> Option<
    usize,
>
    decreases timeline.len(),
{
    if timeline.len() == 0 {
        None
    } else {
        let e = timeline.last();
        if e.stream_id == stream && e.timestamp_us / 1_000_000 == sec {
            Some((timeline.len() - 1) as usize)
        } else {
            last_in_second(timeline.drop_last(), stream, sec)
        }
    }
}

/// For each second the packet whose numbers a chart shows, of one stream: the
/// last one in it.
pub fn chart_points(timeline: &[TimelineEntry], stream: usize, seconds: usize) -> (r: Vec<
    Option<usize>,
>)
    ensures
        r@ == Seq::new(
            seconds as nat,
            |sec: int| last_in_second(timeline@, stream as int, sec),
        ),
{
    let mut r: Vec<Option<usize>> = Vec::new();
    let mut s: usize = 0;
    while s < seconds
        invariant
            s <= seconds,
            r@.len() == s,
            forall|sec: int| 0 <= sec < s ==> #[trigger] r@[sec] == None::<usize>,
        decreases seconds - s,
    {
        r.push(None);
        s += 1;
    }
    let mut i: usize = 0;
    assert(timeline@.take(0) =~= Seq::empty());
    while i < timeline.len()
        invariant
            i <= timeline@.len(),
            r@.len() == seconds,
            forall|sec: int|
                0 <= sec < seconds ==> #[trigger] r@[sec] == last_in_second(
                    timeline@.take(i as int),
                    stream as int,
                    sec,
                ),
        decreases timeline.len() - i,
    {
        let e = timeline[i];
        let sec: u64 = e.timestamp_us / 1_000_000;
        assert(timeline@.take(i + 1).drop_last() =~= timeline@.take(i as int));
        assert(timeline@.take(i + 1).last() == e);
        if e.stream_id == stream && sec < seconds as u64 {
            r.set(sec as usize, Some(i));
        }
        i += 1;
    }
    assert(timeline@.take(i as int) =~= timeline@);
    assert(r@ =~= Seq::new(
        seconds as nat,
        |sec: int| last_in_second(timeline@, stream as int, sec),
    ));
    r
}

/// A chart has a place for every packet: each falls into one of the seconds
/// that the report covers, given that none is later than the last, and no
/// second fewer would do.
pub proof fn lemma_all_seconds_covered(timeline: Seq<TimelineEntry>, i: int)
    requires
        0 <= i < timeline.len(),
        timeline[i].timestamp_us <= timeline.last().timestamp_us,
    ensures
        timeline[i].timestamp_us < seconds_covered(timeline) * 1_000_000,
        timeline.last().timestamp_us >= (seconds_covered(timeline) - 1) * 1_000_000,
{
}

/// The packet that is shown for a second is one of the stream, in that
/// second, and no later one is; there is none only where the stream has no
/// packet in that second.
pub proof fn lemma_last_in_second(timeline: Seq<TimelineEntry>, stream: int, sec: int)
    requires
        timeline.len() <= usize::MAX,
    ensures
        match last_in_second(timeline, stream, sec) {
            Some(k) => {
                &&& k < timeline.len()
                &&& timeline[k as int].stream_id == stream
                &&& sec * 1_000_000 <= timeline[k as int].timestamp_us < (sec + 1) * 1_000_000
                &&& forall|j: int|
                    k < j < timeline.len() ==> !((#[trigger] timeline[j]).stream_id == stream && sec
                        * 1_000_000 <= timeline[j].timestamp_us < (sec + 1) * 1_000_000)
            },
            None => forall|j: int|
                0 <= j < timeline.len() ==> !((#[trigger] timeline[j]).stream_id == stream && sec
                    * 1_000_000 <= timeline[j].timestamp_us < (sec + 1) * 1_000_000),
        },
    decreases timeline.len(),
{
    if timeline.len() > 0 {
        let n = timeline.len() - 1;
        let e = timeline[n];
        assert(e == timeline.last());
        let shorter = timeline.drop_last();
        lemma_last_in_second(shorter, stream, sec);
        assert(e.timestamp_us as int / 1_000_000 == sec <==> sec * 1_000_000 <= e.timestamp_us < (
        sec + 1) * 1_000_000);
        let shown = last_in_second(timeline, stream, sec);
        if !(e.stream_id == stream && e.timestamp_us as int / 1_000_000 == sec) {
            assert(shown == last_in_second(shorter, stream, sec));
            let from = match shown {
                Some(k) => k + 1,
                None => 0,
            };
            assert forall|j: int| from <= j < timeline.len() implies !((
            #[trigger] timeline[j]).stream_id == stream && sec * 1_000_000
                <= timeline[j].timestamp_us < (sec + 1) * 1_000_000) by {
                if j < n {
                    assert(shorter[j] == timeline[j]);
                }
            }
            if let Some(k) = shown {
                assert(shorter[k as int] == timeline[k as int]);
            }
        } else {
            assert(shown == Some(n as usize));
        }
    }
}

/// The colour of a stream's line.
pub open spec fn color_of(i: usize) -> Seq<char> {
    match i % 6 {
        0 => "#e74c3c"@,
        1 => "#3498db"@,
        2 => "#2ecc71"@,
        3 => "#f39c12"@,
        4 => "#9b59b6"@,
        _ => "#1abc9c"@,
    }
}

pub fn stream_color(i: usize) -> (r: &'static str)
    ensures
        r@ == color_of(i),
{
    match i % 6 {
        0 => "#e74c3c",
        1 => "#3498db",
        2 => "#2ecc71",
        3 => "#f39c12",
        4 => "#9b59b6",
        _ => "#1abc9c",
    }
}

/// One line of a chart, with its values already written out.
pub open spec fn dataset_text(name: Seq<char>, values: Seq<char>, color: Seq<char>) -> Seq<char> {
    "{ label: '"@ + name + "', data: "@ + values + ", borderColor: '"@ + color
        + "', fill: false },\n"@
}

pub fn dataset(name: &str, values: &str, color: &str) -> (r: String)
    ensures
        r@ == dataset_text(name@, values@, color@),
{
    let mut m = String::from_str("{ label: '");
    m.append(name);
    m.append("', data: ");
    m.append(values);
    m.append(", borderColor: '");
    m.append(color);
    m.append("', fill: false },\n");
    m
}

/// The labels of the seconds below `n`, without brackets.
pub open spec fn labels_text(n: nat) -> Seq<char>
    decreases n,
{
    if n == 0 {
        Seq::empty()
    } else if n == 1 {
        "\"0s\""@
    } else {
        labels_text((n - 1) as nat) + ", \""@ + decimal((n - 1) as nat) + "s\""@
    }
}

/// The labels of the seconds below `n`.
pub fn second_labels(n: u64) -> (r: String)
    ensures
        r@ == "["@ + labels_text(n as nat) + "]"@,
{
    let mut m = String::from_str("[");
    let ghost start = m@;
    assert(start + labels_text(0) =~= start);
    let mut i: u64 = 0;
    while i < n
        invariant
            i <= n,
            m@ == start + labels_text(i as nat),
        decreases n - i,
    {
        if i == 0 {
            m.append("\"0s\"");
        } else {
            m.append(", \"");
            push_decimal(&mut m, i);
            m.append("s\"");
        }
        i += 1;
        assert(m@ =~= start + labels_text(i as nat));
    }
    m.append("]");
    m
}

/// A row of the summary, with codec, loss and jitter already written out.
pub open spec fn summary_row_text(
    p: ParticipantStats,
    codec: Seq<char>,
    loss: Seq<char>,
    jitter: Seq<char>,
) -> Seq<char> {
    "<tr><td>"@ + p.name() + "</td><td>"@ + codec + "</td><td>"@ + decimal(p.packets as nat)
        + "</td><td>"@ + loss + "%</td><td>"@ + jitter + "ms</td><td>"@ + decimal(
        p.codec_switches as nat,
    ) + "</td></tr>\n"@
}

pub fn summary_row(p: &ParticipantStats, codec: &str, loss: &str, jitter: &str) -> (r: String)
    ensures
        r@ == summary_row_text(*p, codec@, loss@, jitter@),
{
    let mut m = String::from_str("<tr><td>");
    let name = p.display_name();
    m.append(name.as_str());
    m.append("</td><td>");
    m.append(codec);
    m.append("</td><td>");
    push_decimal(&mut m, p.packets);
    m.append("</td><td>");
    m.append(loss);
    m.append("%</td><td>");
    m.append(jitter);
    m.append("ms</td><td>");
    push_decimal(&mut m, p.codec_switches as u64);
    m.append("</td></tr>\n");
    m
}

/// What goes into a report.
pub struct Report {
    pub room: String,
    pub start_time: String,
    pub total_packets: u64,
    pub duration_secs: u64,
    pub summary_rows: String,
    pub labels: String,
    pub loss_datasets: String,
    pub jitter_datasets: String,
}

impl Report {
    /// The report as a page.
    pub open spec fn page(self) -> Seq<char> {
        "<!DOCTYPE html>\n<html><head>\n<meta charset=\"utf-8\">\n<title>WZP Call Report — "@
            + self.room@
            + "</title>\n<script src=\"https://cdn.jsdelivr.net/npm/chart.js@4\"></script>\n<style>\n  body { font-family: -apple-system, sans-serif; max-width: 1200px; margin: 0 auto; padding: 20px; background: #1a1a2e; color: #e0e0e0; }\n  h1,h2 { color: #4a9eff; }\n  table { border-collapse: collapse; width: 100%; margin: 20px 0; }\n  th,td { border: 1px solid #333; padding: 8px 12px; text-align: left; }\n  th { background: #16213e; }\n  tr:nth-child(even) { background: #1a1a3e; }\n  .chart-container { background: #16213e; border-radius: 8px; padding: 16px; margin: 20px 0; }\n  canvas { max-height: 300px; }\n  .meta { color: #888; font-size: 0.9em; }\n</style>\n</head><body>\n<h1>WZP Call Quality Report</h1>\n<p class=\"meta\">Room: <b>"@
            + self.room@ + "</b> | Start: "@ + self.start_time@ + " | Packets: "@ + decimal(
            self.total_packets as nat,
        ) + " | Duration: "@ + decimal(self.duration_secs as nat)
            + "s</p>\n\n<h2>Participant Summary</h2>\n<table>\n<tr><th>Name</th><th>Codec</th><th>Packets</th><th>Loss</th><th>Jitter</th><th>Codec Switches</th></tr>\n"@
            + self.summary_rows@
            + "\n</table>\n\n<h2>Packet Loss Over Time</h2>\n<div class=\"chart-container\"><canvas id=\"lossChart\"></canvas></div>\n\n<h2>Jitter Over Time</h2>\n<div class=\"chart-container\"><canvas id=\"jitterChart\"></canvas></div>\n\n<script>\nconst labels = "@
            + self.labels@
            + ";\nnew Chart(document.getElementById('lossChart'), {\n  type: 'line',\n  data: { labels, datasets: ["@
            + self.loss_datasets@
            + "] },\n  options: { responsive: true, scales: { y: { beginAtZero: true, title: { display: true, text: 'Loss %' } } } }\n});\nnew Chart(document.getElementById('jitterChart'), {\n  type: 'line',\n  data: { labels, datasets: ["@
            + self.jitter_datasets@
            + "] },\n  options: { responsive: true, scales: { y: { beginAtZero: true, title: { display: true, text: 'Jitter (ms)' } } } }\n});\n</script>\n</body></html>"@
    }

    pub fn html(&self) -> (r: String)
        ensures
            r@ == self.page(),
    {
        let mut m = String::from_str(
            "<!DOCTYPE html>\n<html><head>\n<meta charset=\"utf-8\">\n<title>WZP Call Report — ",
        );
        m.append(self.room.as_str());
        m.append(
            "</title>\n<script src=\"https://cdn.jsdelivr.net/npm/chart.js@4\"></script>\n<style>\n  body { font-family: -apple-system, sans-serif; max-width: 1200px; margin: 0 auto; padding: 20px; background: #1a1a2e; color: #e0e0e0; }\n  h1,h2 { color: #4a9eff; }\n  table { border-collapse: collapse; width: 100%; margin: 20px 0; }\n  th,td { border: 1px solid #333; padding: 8px 12px; text-align: left; }\n  th { background: #16213e; }\n  tr:nth-child(even) { background: #1a1a3e; }\n  .chart-container { background: #16213e; border-radius: 8px; padding: 16px; margin: 20px 0; }\n  canvas { max-height: 300px; }\n  .meta { color: #888; font-size: 0.9em; }\n</style>\n</head><body>\n<h1>WZP Call Quality Report</h1>\n<p class=\"meta\">Room: <b>",
        );
        m.append(self.room.as_str());
        m.append("</b> | Start: ");
        m.append(self.start_time.as_str());
        m.append(" | Packets: ");
        push_decimal(&mut m, self.total_packets);
        m.append(" | Duration: ");
        push_decimal(&mut m, self.duration_secs);
        m.append(
            "s</p>\n\n<h2>Participant Summary</h2>\n<table>\n<tr><th>Name</th><th>Codec</th><th>Packets</th><th>Loss</th><th>Jitter</th><th>Codec Switches</th></tr>\n",
        );
        m.append(self.summary_rows.as_str());
        m.append(
            "\n</table>\n\n<h2>Packet Loss Over Time</h2>\n<div class=\"chart-container\"><canvas id=\"lossChart\"></canvas></div>\n\n<h2>Jitter Over Time</h2>\n<div class=\"chart-container\"><canvas id=\"jitterChart\"></canvas></div>\n\n<script>\nconst labels = ",
        );
        m.append(self.labels.as_str());
        m.append(
            ";\nnew Chart(document.getElementById('lossChart'), {\n  type: 'line',\n  data: { labels, datasets: [",
        );
        m.append(self.loss_datasets.as_str());
        m.append(
            "] },\n  options: { responsive: true, scales: { y: { beginAtZero: true, title: { display: true, text: 'Loss %' } } } }\n});\nnew Chart(document.getElementById('jitterChart'), {\n  type: 'line',\n  data: { labels, datasets: [",
        );
        m.append(self.jitter_datasets.as_str());
        m.append(
            "] },\n  options: { responsive: true, scales: { y: { beginAtZero: true, title: { display: true, text: 'Jitter (ms)' } } } }\n});\n</script>\n</body></html>",
        );
        m
    }
}

/// Hours, minutes and seconds.
pub open spec fn clock_text(secs: u64) -> Seq<char> {
    two_digits((secs / 3600) as nat) + ":"@ + two_digits((secs % 3600 / 60) as nat) + ":"@
        + two_digits((secs % 60) as nat)
}

/// The first line of the display.
pub open spec fn status_text(participants: int, packets: u64, secs: u64) -> Seq<char> {
    " WZP Analyzer | "@ + decimal(participants as nat) + " participants | "@ + decimal(
        packets as nat,
    ) + " packets | "@ + clock_text(secs)
}

pub fn status_line(participants: usize, packets: u64, secs: u64) -> (r: String)
    ensures
        r@ == status_text(participants as int, packets, secs),
{
    let mut m = String::from_str(" WZP Analyzer | ");
    push_decimal(&mut m, participants as u64);
    m.append(" participants | ");
    push_decimal(&mut m, packets);
    m.append(" packets | ");
    let ghost start = m@;
    push_two_digits(&mut m, secs / 3600);
    m.append(":");
    push_two_digits(&mut m, secs % 3600 / 60);
    m.append(":");
    push_two_digits(&mut m, secs % 60);
    assert(m@ =~= start + clock_text(secs));
    m
}

/// The time that is shown, put together again, is the time that passed.
pub proof fn lemma_clock(hours: u64, minutes: u64, seconds: u64)
    requires
        minutes < 60,
        seconds < 60,
        hours <= 1_000_000_000,
    ensures
        clock_text((hours * 3600 + minutes * 60 + seconds) as u64) == two_digits(hours as nat)
            + ":"@ + two_digits(minutes as nat) + ":"@ + two_digits(seconds as nat),
{
}

} // verus!
