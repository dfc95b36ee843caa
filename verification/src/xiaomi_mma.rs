//! Xiaomi / Redmi earbuds over RFCOMM: the serial frames the buds send and
//! the textual report of a probe.
//!
//! The earbuds answer on an RFCOMM channel of their serial-port service
//! with frames of the shape
//!
//!     03 <type> <len-hi> <len-lo> <payload...>
//!
//!   type 0x01: hello / version (3 payload bytes)
//!   type 0x02: a MAC-shaped 6-byte identifier
//!   type 0x03: battery: left, right, case (percentages; above 100 = n/a)
//!
//! and several frames may arrive back to back in one read.

use vstd::prelude::*;
use crate::text::{
    decimal, hex_lower, hex_digit_upper, right_aligned, push_decimal, push_hex2_upper,
    push_right_aligned, hex_encode,
};
use crate::vendors::{Components, ComponentsView, opt_view};
use crate::text::{ascii_fold, chars_of};

verus! {

/// Xiaomi's vendor-specific serial-port service UUID.
pub const XIAOMI_SPP_UUID: &'static str = "df21fe2c-2515-4fdb-8886-f12c4d67927c";

/// The magic bytes every frame of the Mi Media Air framing starts with.
pub const MMA_MAGIC: [u8; 3] = [0xFE, 0xDC, 0xBA];

/// First byte of every frame the earbuds send.
pub const FRAME_MAGIC: u8 = 0x03;

/// Frame type of a battery report.
pub const FRAME_TYPE_BATTERY: u8 = 0x03;

/// One frame received from the earbuds.
#[derive(Clone, Debug)]
pub struct XmFrame {
    pub kind: u8,
    pub payload: Vec<u8>,
}

impl View for XmFrame {
    type V = (u8, Seq<u8>);

    open spec fn view(&self) -> (u8, Seq<u8>) {
        (self.kind, self.payload@)
    }
}

/// The views of a sequence of frames.
pub open spec fn frames_view(frames: Seq<XmFrame>) -> Seq<(u8, Seq<u8>)> {
    frames.map_values(|f: XmFrame| f@)
}

/// Big-endian payload length announced by a frame header starting at `i`.
pub open spec fn spec_frame_len(data: Seq<u8>, i: int) -> nat {
    (data[i + 2] as nat) * 256 + (data[i + 3] as nat)
}

/// The frames found in `data` from offset `i` on. A byte that does not start
/// a frame is skipped; a frame whose payload runs past the end stops the
/// scan, leaving the tail for a later read.
pub open spec fn spec_frames_from(data: Seq<u8>, i: int) -> Seq<(u8, Seq<u8>)>
    decreases data.len() - i,
{
    if i < 0 || i + 4 > data.len() {
        Seq::empty()
    } else if data[i] != FRAME_MAGIC {
        spec_frames_from(data, i + 1)
    } else {
        let len = spec_frame_len(data, i);
        if i + 4 + len > data.len() {
            Seq::empty()
        } else {
            seq![(data[i + 1], data.subrange(i + 4, i + 4 + len))] + spec_frames_from(
                data,
                i + 4 + len,
            )
        }
    }
}

/// The frames found in a whole buffer.
pub open spec fn spec_parse_frames(data: Seq<u8>) -> Seq<(u8, Seq<u8>)> {
    spec_frames_from(data, 0)
}

/// Parses zero or more back-to-back frames out of a buffer. Bytes that do
/// not fit the framing are skipped, so a garbled start does not lose the
/// frames that follow.
pub fn parse_frames(data: &[u8]) -> (out: Vec<XmFrame>)
    ensures
        frames_view(out@) == spec_parse_frames(data@),
{
    let mut out: Vec<XmFrame> = Vec::new();
    let mut i: usize = 0;
    while i < data.len() && data.len() - i >= 4
        invariant
            i <= data@.len(),
            frames_view(out@) + spec_frames_from(data@, i as int) == spec_parse_frames(data@),
        ensures
            frames_view(out@) == spec_parse_frames(data@),
        decreases data@.len() - i,
    {
        if data[i] != FRAME_MAGIC {
            i += 1;
            continue;
        }
        let kind = data[i + 1];
        let len: usize = (data[i + 2] as usize) * 256 + (data[i + 3] as usize);
        if len > data.len() - i - 4 {
            assert(spec_frames_from(data@, i as int) =~= Seq::empty());
            assert(frames_view(out@) + Seq::empty() =~= frames_view(out@));
            break;
        }
        let payload = vstd::slice::slice_to_vec(vstd::slice::slice_subrange(data, i + 4, i + 4 + len));
        let ghost before = out@;
        out.push(XmFrame { kind, payload });
        proof {
            assert(frames_view(out@) == frames_view(before).push((kind, payload@)));
            assert(frames_view(out@) + spec_frames_from(data@, (i + 4 + len) as int)
                == frames_view(before) + spec_frames_from(data@, i as int));
        }
        i += 4 + len;
    }
    out
}

/// The bytes of one frame: magic, type, big-endian length, payload.
pub open spec fn spec_encode_frame(kind: u8, payload: Seq<u8>) -> Seq<u8> {
    seq![FRAME_MAGIC, kind, (payload.len() / 256) as u8, (payload.len() % 256) as u8] + payload
}

/// The bytes of several frames sent back to back.
pub open spec fn spec_encode_frames(frames: Seq<(u8, Seq<u8>)>) -> Seq<u8>
    decreases frames.len(),
{
    if frames.len() == 0 {
        Seq::empty()
    } else {
        spec_encode_frame(frames[0].0, frames[0].1) + spec_encode_frames(frames.drop_first())
    }
}

/// Scanning a buffer from inside its suffix is scanning the suffix.
proof fn lemma_frames_shift(a: Seq<u8>, b: Seq<u8>, j: int)
    requires
        0 <= j,
    ensures
        spec_frames_from(a + b, a.len() + j) == spec_frames_from(b, j),
    decreases b.len() - j,
{
    let d = a + b;
    let i = a.len() + j;
    if i + 4 > d.len() {
    } else {
        assert(d[i] == b[j]);
        assert(d[i + 1] == b[j + 1]);
        assert(spec_frame_len(d, i) == spec_frame_len(b, j));
        if d[i] != FRAME_MAGIC {
            lemma_frames_shift(a, b, j + 1);
        } else {
            let len = spec_frame_len(b, j);
            if i + 4 + len > d.len() {
            } else {
                assert(d.subrange(i + 4, i + 4 + len) =~= b.subrange(j + 4, j + 4 + len));
                lemma_frames_shift(a, b, j + 4 + len);
            }
        }
    }
}

/// Frames sent back to back, each with a payload of at most 65535 bytes,
/// are parsed back exactly, in order.
pub proof fn law_parse_encoded_frames(frames: Seq<(u8, Seq<u8>)>)
    requires
        forall|k: int| 0 <= k < frames.len() ==> (#[trigger] frames[k]).1.len() <= 0xFFFF,
    ensures
        spec_parse_frames(spec_encode_frames(frames)) == frames,
    decreases frames.len(),
{
    if frames.len() == 0 {
        assert(spec_encode_frames(frames) =~= Seq::<u8>::empty());
    } else {
        let f = frames[0];
        let rest = frames.drop_first();
        assert forall|k: int| 0 <= k < rest.len() implies (#[trigger] rest[k]).1.len() <= 0xFFFF by {
            assert(rest[k] == frames[k + 1]);
        }
        law_parse_encoded_frames(rest);
        let head = spec_encode_frame(f.0, f.1);
        let tail = spec_encode_frames(rest);
        let d = head + tail;
        assert(spec_encode_frames(frames) == d);
        assert(d[0] == FRAME_MAGIC);
        assert(d[1] == f.0);
        assert(spec_frame_len(d, 0) == f.1.len());
        assert(d.subrange(4, 4 + f.1.len() as int) =~= f.1);
        lemma_frames_shift(head, tail, 0);
        assert(spec_frames_from(tail, 0) == rest);
        assert(frames =~= seq![f] + rest);
    }
}

/// Complete frames at the front of a buffer are parsed whatever follows
/// them; in particular a truncated frame at the end is left for a later read
/// without disturbing the frames before it.
pub proof fn law_parse_frames_then_rest(frames: Seq<(u8, Seq<u8>)>, rest: Seq<u8>)
    requires
        forall|k: int| 0 <= k < frames.len() ==> (#[trigger] frames[k]).1.len() <= 0xFFFF,
    ensures
        spec_parse_frames(spec_encode_frames(frames) + rest) == frames + spec_parse_frames(rest),
    decreases frames.len(),
{
    if frames.len() == 0 {
        assert(spec_encode_frames(frames) + rest =~= rest);
        assert(frames + spec_parse_frames(rest) =~= spec_parse_frames(rest));
    } else {
        let f = frames[0];
        let tail_frames = frames.drop_first();
        assert forall|k: int| 0 <= k < tail_frames.len() implies (#[trigger] tail_frames[k]).1.len() <= 0xFFFF by {
            assert(tail_frames[k] == frames[k + 1]);
        }
        law_parse_frames_then_rest(tail_frames, rest);
        let head = spec_encode_frame(f.0, f.1);
        let tail = spec_encode_frames(tail_frames) + rest;
        let d = head + tail;
        assert(spec_encode_frames(frames) + rest =~= d);
        assert(d[0] == FRAME_MAGIC);
        assert(d[1] == f.0);
        assert(spec_frame_len(d, 0) == f.1.len());
        assert(d.subrange(4, 4 + f.1.len() as int) =~= f.1);
        lemma_frames_shift(head, tail, 0);
        assert(frames =~= seq![f] + tail_frames);
        assert(frames + spec_parse_frames(rest) =~= seq![f] + (tail_frames + spec_parse_frames(rest)));
    }
}

/// Bytes that cannot start a frame are skipped: junk without the frame
/// magic in front of a buffer does not change the frames parsed from it.
pub proof fn law_junk_prefix_skipped(junk: Seq<u8>, data: Seq<u8>)
    requires
        forall|k: int| 0 <= k < junk.len() ==> #[trigger] junk[k] != FRAME_MAGIC,
    ensures
        spec_parse_frames(junk + data) == spec_parse_frames(data),
{
    lemma_junk_from(junk, data, 0);
    lemma_frames_shift(junk, data, 0);
}

proof fn lemma_junk_from(junk: Seq<u8>, data: Seq<u8>, i: int)
    requires
        0 <= i <= junk.len(),
        forall|k: int| 0 <= k < junk.len() ==> #[trigger] junk[k] != FRAME_MAGIC,
    ensures
        spec_frames_from(junk + data, i) == spec_frames_from(junk + data, junk.len() as int),
    decreases junk.len() - i,
{
    let d = junk + data;
    if i < junk.len() {
        assert(d[i] == junk[i]);
        lemma_junk_from(junk, data, i + 1);
        if i + 4 > d.len() {
            let j = junk.len() as int;
            assert(j + 4 > d.len());
        }
    }
}

/// Reading of one battery byte: a percentage when at most 100.
pub open spec fn spec_battery_reading(b: u8) -> Option<u8> {
    if b <= 100 {
        Some(b)
    } else {
        None
    }
}

/// Left, right and case readings of a battery payload.
pub open spec fn spec_parse_battery(payload: Seq<u8>) -> Option<(Option<u8>, Option<u8>, Option<u8>)> {
    if payload.len() < 3 {
        None
    } else {
        Some(
            (
                spec_battery_reading(payload[0]),
                spec_battery_reading(payload[1]),
                spec_battery_reading(payload[2]),
            ),
        )
    }
}

fn battery_reading(b: u8) -> (r: Option<u8>)
    ensures
        r == spec_battery_reading(b),
{
    if b <= 100 {
        Some(b)
    } else {
        None
    }
}

/// Decodes a battery (type 0x03) payload into left, right and case
/// percentages. Values above 100 (typically 0x7F or 0xFF) mean the part is
/// not reporting, usually because the buds are out of the case.
pub fn parse_battery(payload: &[u8]) -> (r: Option<(Option<u8>, Option<u8>, Option<u8>)>)
    ensures
        r == spec_parse_battery(payload@),
{
    if payload.len() < 3 {
        return None;
    }
    Some((battery_reading(payload[0]), battery_reading(payload[1]), battery_reading(payload[2])))
}

/// The payload of the first battery frame, if any.
pub open spec fn spec_first_battery_payload(frames: Seq<(u8, Seq<u8>)>) -> Option<Seq<u8>>
    decreases frames.len(),
{
    if frames.len() == 0 {
        None
    } else if frames[0].0 == FRAME_TYPE_BATTERY {
        Some(frames[0].1)
    } else {
        spec_first_battery_payload(frames.drop_first())
    }
}

/// The components carried by the first battery frame of a response.
pub open spec fn spec_components_from_frames(frames: Seq<(u8, Seq<u8>)>) -> Option<ComponentsView> {
    match spec_first_battery_payload(frames) {
        None => None,
        Some(p) => match spec_parse_battery(p) {
            None => None,
            Some((l, r, c)) => Some(
                ComponentsView {
                    left_battery: l,
                    right_battery: r,
                    case_battery: c,
                    left_charging: None,
                    right_charging: None,
                    case_charging: None,
                    in_ear_left: None,
                    in_ear_right: None,
                    case_open: None,
                    source: "Redmi/Xiaomi TWS (SPP)"@,
                },
            ),
        },
    }
}

/// From a fully received probe response, extracts the earbud battery
/// components from the first battery frame.
pub fn components_from_frames(frames: &[XmFrame]) -> (r: Option<Components>)
    ensures
        opt_view(r) == spec_components_from_frames(frames_view(frames@)),
{
    let mut k: usize = 0;
    assert(frames_view(frames@).skip(0) == frames_view(frames@));
    while k < frames.len()
        invariant
            k <= frames@.len(),
            spec_first_battery_payload(frames_view(frames@)) == spec_first_battery_payload(
                frames_view(frames@).skip(k as int),
            ),
        ensures
            k <= frames@.len(),
            spec_first_battery_payload(frames_view(frames@)) == spec_first_battery_payload(
                frames_view(frames@).skip(k as int),
            ),
            k < frames@.len() ==> frames@[k as int].kind == FRAME_TYPE_BATTERY,
        decreases frames@.len() - k,
    {
        assert(frames_view(frames@).skip(k as int).drop_first() == frames_view(frames@).skip(k + 1));
        if frames[k].kind == FRAME_TYPE_BATTERY {
            break;
        }
        k += 1;
    }
    if k == frames.len() {
        assert(frames_view(frames@).skip(k as int).len() == 0);
        return None;
    }
    assert(frames_view(frames@).skip(k as int)[0] == frames[k as int]@);
    let (l, r, c) = match parse_battery(frames[k].payload.as_slice()) {
        Some(t) => t,
        None => return None,
    };
    Some(Components {
        left_battery: l,
        right_battery: r,
        case_battery: c,
        left_charging: None,
        right_charging: None,
        case_charging: None,
        in_ear_left: None,
        in_ear_right: None,
        case_open: None,
        source: "Redmi/Xiaomi TWS (SPP)",
    })
}

/// The "are you a Xiaomi earbud?" frame sent first: the magic followed by
/// `00 00 01 00 00`. The buds tend to ignore it and start talking as soon
/// as the session opens, so it mostly keeps the connection alive.
pub fn default_probe() -> (f: Vec<u8>)
    ensures
        f@ == seq![0xFEu8, 0xDC, 0xBA, 0x00, 0x00, 0x01, 0x00, 0x00],
{
    let mut f: Vec<u8> = Vec::with_capacity(8);
    f.push(MMA_MAGIC[0]);
    f.push(MMA_MAGIC[1]);
    f.push(MMA_MAGIC[2]);
    f.push(0x00);
    f.push(0x00);
    f.push(0x01);
    f.push(0x00);
    f.push(0x00);
    f
}

/// Result of one probe: the channel that accepted the connection, a trace
/// of the connection attempts, the bytes written, and every chunk read back
/// with the milliseconds elapsed since the write.
#[derive(Clone, Debug)]
pub struct ProbeResult {
    pub channel: u8,
    pub connect_trace: String,
    pub sent: Vec<u8>,
    pub received: Vec<(u128, Vec<u8>)>,
}

/// One line of the report for a chunk read back.
pub open spec fn spec_received_line(ms: u128, chunk: Seq<u8>) -> Seq<char> {
    "< +"@ + right_aligned(decimal(ms as nat), 4) + " ms \u{b7} "@ + decimal(chunk.len()) + " bytes \u{b7} "@
        + hex_lower(chunk) + "\n"@
}

/// The report lines of all chunks read back, in order.
pub open spec fn spec_received_lines(received: Seq<(u128, Vec<u8>)>) -> Seq<char>
    decreases received.len(),
{
    if received.len() == 0 {
        Seq::empty()
    } else {
        spec_received_lines(received.drop_last()) + spec_received_line(
            received.last().0,
            received.last().1@,
        )
    }
}

/// The textual report of a probe.
pub open spec fn spec_format_probe(r: ProbeResult) -> Seq<char> {
    r.connect_trace@ + "channel "@ + decimal(r.channel as nat) + " \u{b7} sent "@ + decimal(r.sent@.len())
        + " bytes\n> "@ + hex_lower(r.sent@) + "\n"@ + if r.received@.len() == 0 {
        "< (no bytes back within timeout)\n"@
    } else {
        spec_received_lines(r.received@)
    }
}

/// Formats a probe result for the debug log: the connection trace, what
/// was sent, then one line per chunk read back.
pub fn format_probe(r: &ProbeResult) -> (s: String)
    ensures
        s@ == spec_format_probe(*r),
{
    let mut s = String::new();
    s.append(r.connect_trace.as_str());
    s.append("channel ");
    push_decimal(&mut s, r.channel as u128);
    s.append(" \u{b7} sent ");
    push_decimal(&mut s, r.sent.len() as u128);
    s.append(" bytes\n> ");
    let h = hex_encode(r.sent.as_slice());
    s.append(h.as_str());
    s.append("\n");
    let ghost head = s@;
    if r.received.len() == 0 {
        s.append("< (no bytes back within timeout)\n");
    } else {
        let mut k: usize = 0;
        while k < r.received.len()
            invariant
                k <= r.received@.len(),
                s@ == head + spec_received_lines(r.received@.take(k as int)),
            decreases r.received@.len() - k,
        {
            let ghost before = s@;
            let (ms, chunk) = (r.received[k].0, &r.received[k].1);
            s.append("< +");
            let mut t = String::new();
            push_decimal(&mut t, ms);
            push_right_aligned(&mut s, t.as_str(), 4);
            s.append(" ms \u{b7} ");
            push_decimal(&mut s, chunk.len() as u128);
            s.append(" bytes \u{b7} ");
            let hc = hex_encode(chunk.as_slice());
            s.append(hc.as_str());
            s.append("\n");
            proof {
                let taken = r.received@.take(k + 1);
                assert(taken.drop_last() =~= r.received@.take(k as int));
                assert(s@ =~= before + spec_received_line(ms, chunk@));
            }
            k += 1;
        }
        assert(r.received@.take(r.received@.len() as int) =~= r.received@);
    }
    s
}

/// All bytes read back during a probe, chunk after chunk.
pub open spec fn spec_received_bytes(received: Seq<(u128, Vec<u8>)>) -> Seq<u8>
    decreases received.len(),
{
    if received.len() == 0 {
        Seq::empty()
    } else {
        spec_received_bytes(received.drop_last()) + received.last().1@
    }
}

/// Concatenates everything the earbud sent, so that frames split across
/// reads, or several frames in one read, are all parsed in one pass.
pub fn received_bytes(r: &ProbeResult) -> (buf: Vec<u8>)
    ensures
        buf@ == spec_received_bytes(r.received@),
{
    let mut buf: Vec<u8> = Vec::new();
    let mut k: usize = 0;
    while k < r.received.len()
        invariant
            k <= r.received@.len(),
            buf@ == spec_received_bytes(r.received@.take(k as int)),
        decreases r.received@.len() - k,
    {
        let chunk = &r.received[k].1;
        let mut j: usize = 0;
        let ghost before = buf@;
        while j < chunk.len()
            invariant
                j <= chunk@.len(),
                buf@ == before + chunk@.take(j as int),
            decreases chunk@.len() - j,
        {
            buf.push(chunk[j]);
            j += 1;
            assert(buf@ =~= before + chunk@.take(j as int));
        }
        proof {
            assert(r.received@.take(k + 1).drop_last() =~= r.received@.take(k as int));
            assert(chunk@.take(chunk@.len() as int) =~= chunk@);
        }
        k += 1;
    }
    assert(r.received@.take(r.received@.len() as int) =~= r.received@);
    buf
}

/// One line of the report for a parsed frame.
pub open spec fn spec_frame_line(f: (u8, Seq<u8>)) -> Seq<char> {
    "  \u{b7} type 0x"@ + seq![hex_digit_upper((f.0 / 16) as nat), hex_digit_upper((f.0 % 16) as nat)]
        + "  len "@ + decimal(f.1.len()) + "  payload "@ + hex_lower(f.1) + "\n"@
}

/// The report lines of parsed frames, in order.
pub open spec fn spec_frame_lines(frames: Seq<(u8, Seq<u8>)>) -> Seq<char>
    decreases frames.len(),
{
    if frames.len() == 0 {
        Seq::empty()
    } else {
        spec_frame_lines(frames.drop_last()) + spec_frame_line(frames.last())
    }
}

/// The full log of a probe: its report, then the frames parsed out of the
/// bytes read back, when there are any.
pub open spec fn spec_probe_log(r: ProbeResult) -> Seq<char> {
    let frames = spec_parse_frames(spec_received_bytes(r.received@));
    spec_format_probe(r) + if frames.len() == 0 {
        Seq::empty()
    } else {
        "\nparsed frames:\n"@ + spec_frame_lines(frames)
    }
}

/// What a finished probe yields: the log shown in the debug panel and, when
/// the buds sent a battery frame, the components it carries.
pub fn probe_report(r: &ProbeResult) -> (out: (String, Option<Components>))
    ensures
        out.0@ == spec_probe_log(*r),
        opt_view(out.1) == spec_components_from_frames(
            spec_parse_frames(spec_received_bytes(r.received@)),
        ),
{
    let buf = received_bytes(r);
    let frames = parse_frames(buf.as_slice());
    let mut msg = format_probe(r);
    let ghost head = msg@;
    if frames.len() > 0 {
        msg.append("\nparsed frames:\n");
        let ghost mid = msg@;
        let mut k: usize = 0;
        while k < frames.len()
            invariant
                k <= frames@.len(),
                msg@ == mid + spec_frame_lines(frames_view(frames@).take(k as int)),
            decreases frames@.len() - k,
        {
            let f = &frames[k];
            let ghost before = msg@;
            msg.append("  \u{b7} type 0x");
            push_hex2_upper(&mut msg, f.kind);
            msg.append("  len ");
            push_decimal(&mut msg, f.payload.len() as u128);
            msg.append("  payload ");
            let h = hex_encode(f.payload.as_slice());
            msg.append(h.as_str());
            msg.append("\n");
            proof {
                let fv = frames_view(frames@);
                assert(fv.take(k + 1).drop_last() =~= fv.take(k as int));
                assert(fv.take(k + 1).last() == f@);
                assert(msg@ =~= before + spec_frame_line(f@));
            }
            k += 1;
        }
        assert(frames_view(frames@).take(frames@.len() as int) =~= frames_view(frames@));
    } else {
        assert(msg@ =~= head + Seq::<char>::empty());
    }
    let components = components_from_frames(frames.as_slice());
    (msg, components)
}

/// Channels tried, in order, when the service discovery suggests none or
/// the suggested one refuses: SPP channel 1, which most of these earbuds
/// use, then channels seen on them in the wild.
pub const FALLBACK_CHANNELS: [u8; 11] = [1, 25, 22, 24, 26, 20, 21, 23, 30, 3, 5];

/// The fallback channels as a sequence.
pub open spec fn spec_fallback_channels() -> Seq<u8> {
    seq![1u8, 25, 22, 24, 26, 20, 21, 23, 30, 3, 5]
}

/// The RFCOMM channels to try, in order: the one the service discovery
/// suggested, if any, then the fallback list.
pub open spec fn spec_connect_candidates(suggested: Option<u8>) -> Seq<u8> {
    match suggested {
        Some(c) => seq![c] + spec_fallback_channels(),
        None => spec_fallback_channels(),
    }
}

/// The RFCOMM channels to try, in order: the one the service discovery
/// suggested, if any, then the fallback list.
pub fn connect_candidates(suggested: Option<u8>) -> (v: Vec<u8>)
    ensures
        v@ == spec_connect_candidates(suggested),
{
    let mut v: Vec<u8> = Vec::new();
    if let Some(c) = suggested {
        v.push(c);
    }
    let ghost head = v@;
    let mut k: usize = 0;
    while k < 11
        invariant
            k <= 11,
            v@ == head + spec_fallback_channels().take(k as int),
        decreases 11 - k,
    {
        v.push(FALLBACK_CHANNELS[k]);
        k += 1;
        assert(v@ =~= head + spec_fallback_channels().take(k as int));
    }
    assert(spec_fallback_channels().take(11) =~= spec_fallback_channels());
    assert(v@ =~= head + spec_fallback_channels());
    v
}

/// Trace line when the service discovery suggests a channel.
pub open spec fn spec_trace_suggested(channel: u8) -> Seq<char> {
    "sdptool suggests channel "@ + decimal(channel as nat) + "\n"@
}

/// Trace line when a channel accepted the connection.
pub open spec fn spec_trace_accepted(channel: u8) -> Seq<char> {
    "\u{2192} channel "@ + decimal(channel as nat) + " accepted\n"@
}

/// Trace line when a channel refused the connection with the given error.
pub open spec fn spec_trace_refused(channel: u8, error: Seq<char>) -> Seq<char> {
    "\u{2192} channel "@ + decimal(channel as nat) + " refused: "@ + error + "\n"@
}

/// Message of the error reported when no channel accepted.
pub open spec fn spec_no_channel_message(trace: Seq<char>) -> Seq<char> {
    "no RFCOMM channel accepted the connection\n"@ + trace
}

/// Trace line when the service discovery suggests a channel.
pub fn trace_suggested(channel: u8) -> (s: String)
    ensures
        s@ == spec_trace_suggested(channel),
{
    let mut s = String::from_str("sdptool suggests channel ");
    push_decimal(&mut s, channel as u128);
    s.append("\n");
    s
}

/// Trace line when the service discovery suggests no channel.
pub const TRACE_NO_SUGGESTION: &'static str = "sdptool: no SPP-style channel matched, using fallback list\n";

/// Trace line when a channel accepted the connection.
pub fn trace_accepted(channel: u8) -> (s: String)
    ensures
        s@ == spec_trace_accepted(channel),
{
    let mut s = String::from_str("\u{2192} channel ");
    push_decimal(&mut s, channel as u128);
    s.append(" accepted\n");
    s
}

/// Trace line when a channel refused the connection with the given error.
pub fn trace_refused(channel: u8, error: &str) -> (s: String)
    ensures
        s@ == spec_trace_refused(channel, error@),
{
    let mut s = String::from_str("\u{2192} channel ");
    push_decimal(&mut s, channel as u128);
    s.append(" refused: ");
    s.append(error);
    s.append("\n");
    s
}

/// Message of the error reported when no channel accepted, followed by the
/// trace of every attempt.
pub fn no_channel_message(trace: &str) -> (s: String)
    ensures
        s@ == spec_no_channel_message(trace@),
{
    let mut s = String::from_str("no RFCOMM channel accepted the connection\n");
    s.append(trace);
    s
}

/// How one connection attempt on a channel ended.
#[derive(Debug)]
pub enum AttemptOutcome {
    Accepted,
    /// The channel refused, with the error's text.
    Refused(String),
}

/// What to do next while looking for a channel that accepts.
#[derive(Debug)]
pub enum ConnectStep {
    /// Try to connect on this channel and report how it went.
    Try(u8),
    /// This channel accepted; the trace of every attempt comes with it.
    Connected(u8, String),
    /// Every channel refused: the error message, trace included.
    NoChannel(String),
}

/// The search for an RFCOMM channel that accepts a connection: the
/// channels to try in order, how many have been tried, and the trace of
/// the attempts so far.
pub struct ChannelSearch {
    candidates: Vec<u8>,
    tried: usize,
    trace: String,
}

/// Mathematical picture of a [`ChannelSearch`].
pub struct ChannelSearchView {
    pub candidates: Seq<u8>,
    pub tried: nat,
    pub trace: Seq<char>,
}

impl View for ChannelSearch {
    type V = ChannelSearchView;

    closed spec fn view(&self) -> ChannelSearchView {
        ChannelSearchView {
            candidates: self.candidates@,
            tried: self.tried as nat,
            trace: self.trace@,
        }
    }
}

/// The trace of a search once the outcome of its last attempt is noted:
/// an outcome counts only when a channel has been tried.
pub open spec fn trace_with_outcome(v: ChannelSearchView, outcome: Option<AttemptOutcome>) -> Seq<char> {
    if v.tried == 0 {
        v.trace
    } else {
        let c = v.candidates[v.tried - 1];
        match outcome {
            None => v.trace,
            Some(AttemptOutcome::Accepted) => v.trace + spec_trace_accepted(c),
            Some(AttemptOutcome::Refused(e)) => v.trace + spec_trace_refused(c, e@),
        }
    }
}

/// The last channel tried accepted.
pub open spec fn last_accepted(v: ChannelSearchView, outcome: Option<AttemptOutcome>) -> bool {
    v.tried > 0 && outcome matches Some(AttemptOutcome::Accepted)
}

impl ChannelSearch {
    #[verifier::type_invariant]
    spec fn tried_within(self) -> bool {
        self.tried <= self.candidates.len()
    }

    /// A search starting from the channel the service discovery suggested,
    /// if any: the suggested channel first, then the fallback channels;
    /// the trace opens with what the discovery found.
    pub fn new(suggested: Option<u8>) -> (s: ChannelSearch)
        ensures
            s@.candidates == spec_connect_candidates(suggested),
            s@.tried == 0,
            s@.trace == match suggested {
                Some(c) => spec_trace_suggested(c),
                None => TRACE_NO_SUGGESTION@,
            },
    {
        let trace = match suggested {
            Some(c) => trace_suggested(c),
            None => String::from_str(TRACE_NO_SUGGESTION),
        };
        ChannelSearch { candidates: connect_candidates(suggested), tried: 0, trace }
    }

    /// One step of the search, given how the last attempt ended (`None`
    /// before the first one). When the last channel tried accepted, the
    /// search ends connected to it. Otherwise the next channel is tried;
    /// when none is left the search ends with the no-channel error. The
    /// outcome is noted in the trace.
    pub fn step(&mut self, outcome: Option<AttemptOutcome>) -> (r: ConnectStep)
        ensures
            ({
                let v = old(self)@;
                let t = trace_with_outcome(v, outcome);
                &&& final(self)@.candidates == v.candidates
                &&& final(self)@.trace == t
                &&& last_accepted(v, outcome) ==> (final(self)@.tried == v.tried && (r matches ConnectStep::Connected(c, tr)
                    && c == v.candidates[v.tried - 1] && tr@ == t))
                &&& !last_accepted(v, outcome) && v.tried < v.candidates.len() ==> (final(self)@.tried
                    == v.tried + 1 && (r matches ConnectStep::Try(c) && c == v.candidates[v.tried as int]))
                &&& !last_accepted(v, outcome) && v.tried >= v.candidates.len() ==> (final(self)@.tried
                    == v.tried && (r matches ConnectStep::NoChannel(m) && m@ == spec_no_channel_message(t)))
            }),
    {
        proof {
            use_type_invariant(&*self);
        }
        let mut accepted = false;
        if self.tried > 0 {
            let c = self.candidates[self.tried - 1];
            let line = match outcome {
                None => String::new(),
                Some(AttemptOutcome::Accepted) => {
                    accepted = true;
                    trace_accepted(c)
                },
                Some(AttemptOutcome::Refused(e)) => trace_refused(c, e.as_str()),
            };
            let mut t = String::new();
            std::mem::swap(&mut t, &mut self.trace);
            t.append(line.as_str());
            self.trace = t;
        }
        if accepted {
            let c = self.candidates[self.tried - 1];
            return ConnectStep::Connected(c, self.trace.clone());
        }
        if self.tried < self.candidates.len() {
            let c = self.candidates[self.tried];
            self.tried = self.tried + 1;
            ConnectStep::Try(c)
        } else {
            ConnectStep::NoChannel(no_channel_message(self.trace.as_str()))
        }
    }
}

/// Two texts are equal once ASCII letters are folded to lowercase, as
/// `str::eq_ignore_ascii_case` compares them.
pub open spec fn eq_ignore_ascii_case(a: Seq<char>, b: Seq<char>) -> bool {
    a.len() == b.len() && forall|i: int| 0 <= i < a.len() ==> ascii_fold(#[trigger] a[i]) == ascii_fold(b[i])
}

fn fold_exec(c: char) -> (r: char)
    ensures
        r == ascii_fold(c),
{
    if 'A' <= c && c <= 'Z' {
        ((c as u32) + 32) as u8 as char
    } else {
        c
    }
}

fn eq_ignore_ascii_case_exec(a: &str, b: &str) -> (r: bool)
    ensures
        r == eq_ignore_ascii_case(a@, b@),
{
    let x = chars_of(a);
    let y = chars_of(b);
    if x.len() != y.len() {
        return false;
    }
    let mut i: usize = 0;
    while i < x.len()
        invariant
            x@ == a@,
            y@ == b@,
            x@.len() == y@.len(),
            i <= x@.len(),
            forall|j: int| 0 <= j < i ==> ascii_fold(#[trigger] x@[j]) == ascii_fold(y@[j]),
        decreases x@.len() - i,
    {
        if fold_exec(x[i]) != fold_exec(y[i]) {
            return false;
        }
        i += 1;
    }
    true
}

/// The device lists Xiaomi's serial-port service among its UUIDs (compared
/// without regard to ASCII case), so the serial probe applies to it.
pub fn advertises_xiaomi_spp(uuids: &[String]) -> (r: bool)
    ensures
        r == exists|i: int| 0 <= i < uuids@.len() && eq_ignore_ascii_case(#[trigger] uuids@[i]@, XIAOMI_SPP_UUID@),
{
    let mut k: usize = 0;
    while k < uuids.len()
        invariant
            k <= uuids@.len(),
            forall|i: int| 0 <= i < k ==> !eq_ignore_ascii_case(#[trigger] uuids@[i]@, XIAOMI_SPP_UUID@),
        decreases uuids@.len() - k,
    {
        if eq_ignore_ascii_case_exec(uuids[k].as_str(), XIAOMI_SPP_UUID) {
            return true;
        }
        k += 1;
    }
    false
}

} // verus!
