//! HID packet codec: parsing raw fixed-size packets into Init/Continuation
//! frames, and fragmenting an outbound message into such packets.
//!
//! Wire layout of a 64-byte packet: bytes 0..4 hold the channel id
//! (big-endian); byte 4 distinguishes the two variants by its top bit.  An
//! Init packet carries the command (with the marker bit set), a big-endian
//! 16-bit total payload length in bytes 5..7, and the first 57 payload
//! bytes.  A continuation packet carries a sequence number (top bit clear)
//! in byte 4 and the next 59 payload bytes.  Unused trailing bytes are zero.

use vstd::prelude::*;

verus! {

/// Fixed size of every packet on the wire.
pub const PACKET_SIZE: usize = 64;

/// Payload bytes carried by an Init packet.
pub const INIT_DATA_LEN: usize = 57;

/// Payload bytes carried by a continuation packet.
pub const CONT_DATA_LEN: usize = 59;

/// Largest supported payload: one Init fragment plus 128 continuation
/// fragments (sequence numbers 0..=127 fit in seven bits).
pub const MAX_PAYLOAD_LEN: usize = 7609;

/// Top bit of byte 4: set on Init packets, clear on continuations.
pub const INIT_MARKER: u8 = 0x80;

/// Command aborting the operation associated with a channel.
pub const COMMAND_CANCEL: u8 = 0x11;

/// Command of the liveness signal sent while a slow operation is pending.
pub const COMMAND_KEEPALIVE: u8 = 0x3b;

/// Command of a protocol-level error reply.
pub const COMMAND_ERROR: u8 = 0x3f;

/// Logical conversation identifier multiplexed over one physical transport.
pub type ChannelID = u32;

/// A reassembled logical unit, existing transiently between "last packet
/// received" and "handed to the authenticator core".
pub struct Message {
    pub cid: ChannelID,
    pub cmd: u8,
    pub payload: Vec<u8>,
}

impl Message {
    /// A message that the codec can put on the wire: the command fits in
    /// seven bits and the payload fits in the packets the sequence-number
    /// space allows.
    pub open spec fn valid(&self) -> bool {
        self.cmd < INIT_MARKER && self.payload@.len() <= MAX_PAYLOAD_LEN
    }
}

/// One parsed frame.
pub enum ProcessedPacket {
    InitPacket { cmd: u8, len: usize, data: Vec<u8> },
    ContinuationPacket { seq: u8, data: Vec<u8> },
}

/// The channel id held in bytes 0..4, big-endian.
pub open spec fn spec_channel(p: Seq<u8>) -> ChannelID
    recommends
        p.len() == PACKET_SIZE,
{
    ((((p[0] * 256 + p[1]) * 256) + p[2]) * 256 + p[3]) as u32
}

/// Whether byte 4 marks the packet as an Init packet.
pub open spec fn spec_is_init(p: Seq<u8>) -> bool
    recommends
        p.len() == PACKET_SIZE,
{
    p[4] >= INIT_MARKER
}

/// The command of an Init packet, marker bit removed.
pub open spec fn spec_init_cmd(p: Seq<u8>) -> u8
    recommends
        p.len() == PACKET_SIZE,
        spec_is_init(p),
{
    (p[4] - INIT_MARKER) as u8
}

/// The total payload length declared by an Init packet.
pub open spec fn spec_init_len(p: Seq<u8>) -> nat
    recommends
        p.len() == PACKET_SIZE,
        spec_is_init(p),
{
    (p[5] * 256 + p[6]) as nat
}

/// The payload fragment of an Init packet.
pub open spec fn spec_init_data(p: Seq<u8>) -> Seq<u8>
    recommends
        p.len() == PACKET_SIZE,
        spec_is_init(p),
{
    p.subrange(7, PACKET_SIZE as int)
}

/// The sequence number of a continuation packet.
pub open spec fn spec_cont_seq(p: Seq<u8>) -> u8
    recommends
        p.len() == PACKET_SIZE,
        !spec_is_init(p),
{
    p[4]
}

/// The payload fragment of a continuation packet.
pub open spec fn spec_cont_data(p: Seq<u8>) -> Seq<u8>
    recommends
        p.len() == PACKET_SIZE,
        !spec_is_init(p),
{
    p.subrange(5, PACKET_SIZE as int)
}

/// What `process_single_packet` returns for a raw packet.
pub open spec fn spec_frame_ok(p: Seq<u8>, cid: ChannelID, frame: ProcessedPacket) -> bool
    recommends
        p.len() == PACKET_SIZE,
{
    &&& cid == spec_channel(p)
    &&& if spec_is_init(p) {
        &&& frame matches ProcessedPacket::InitPacket { cmd, len, data }
        &&& cmd == spec_init_cmd(p)
        &&& len == spec_init_len(p)
        &&& data@ == spec_init_data(p)
    } else {
        &&& frame matches ProcessedPacket::ContinuationPacket { seq, data }
        &&& seq == spec_cont_seq(p)
        &&& data@ == spec_cont_data(p)
    }
}

/// How many continuation packets a payload of `len` bytes needs after the
/// Init packet has carried the first fragment.
pub open spec fn num_cont_packets(len: int) -> int {
    if len <= INIT_DATA_LEN {
        0
    } else {
        (len - INIT_DATA_LEN + (CONT_DATA_LEN - 1)) / (CONT_DATA_LEN as int)
    }
}

/// The four big-endian bytes of a channel id.
pub open spec fn spec_cid_bytes(cid: ChannelID) -> Seq<u8> {
    seq![
        (cid / 0x100_0000) as u8,
        ((cid / 0x1_0000) % 256) as u8,
        ((cid / 0x100) % 256) as u8,
        (cid % 256) as u8,
    ]
}

/// `s` extended with zero bytes to length `n`.
pub open spec fn spec_zero_pad(s: Seq<u8>, n: int) -> Seq<u8>
    recommends
        s.len() <= n,
{
    s + Seq::new((n - s.len()) as nat, |i: int| 0u8)
}

/// The payload bytes that packet number `i` of the fragment stream carries:
/// packet 0 is the Init packet, packet `i >= 1` the continuation with
/// sequence number `i - 1`.
pub open spec fn spec_fragment(payload: Seq<u8>, i: int) -> Seq<u8>
    recommends
        0 <= i <= num_cont_packets(payload.len() as int),
{
    let start = if i == 0 {
        0
    } else {
        INIT_DATA_LEN + (CONT_DATA_LEN as int) * (i - 1)
    };
    let cap = if i == 0 {
        INIT_DATA_LEN as int
    } else {
        CONT_DATA_LEN as int
    };
    let end = if payload.len() <= start + cap {
        payload.len() as int
    } else {
        start + cap
    };
    if start <= end {
        payload.subrange(start, end)
    } else {
        Seq::empty()
    }
}

/// The exact bytes of the Init packet of a fragment stream.
pub open spec fn spec_init_packet(cid: ChannelID, cmd: u8, payload: Seq<u8>) -> Seq<u8>
    recommends
        cmd < INIT_MARKER,
        payload.len() <= MAX_PAYLOAD_LEN,
{
    spec_cid_bytes(cid) + seq![
        (cmd + INIT_MARKER) as u8,
        (payload.len() / 256) as u8,
        (payload.len() % 256) as u8,
    ] + spec_zero_pad(spec_fragment(payload, 0), INIT_DATA_LEN as int)
}

/// The exact bytes of the continuation packet with sequence number `i`.
pub open spec fn spec_cont_packet(cid: ChannelID, payload: Seq<u8>, i: int) -> Seq<u8>
    recommends
        payload.len() <= MAX_PAYLOAD_LEN,
        0 <= i < num_cont_packets(payload.len() as int),
{
    spec_cid_bytes(cid) + seq![i as u8]
        + spec_zero_pad(spec_fragment(payload, i + 1), CONT_DATA_LEN as int)
}

/// The full fragment stream of a message: one Init packet, then exactly the
/// continuation packets the payload needs, sequence numbers from 0 with no
/// gaps.
pub open spec fn spec_encode(cid: ChannelID, cmd: u8, payload: Seq<u8>) -> Seq<Seq<u8>>
    recommends
        cmd < INIT_MARKER,
        payload.len() <= MAX_PAYLOAD_LEN,
{
    Seq::new(
        (1 + num_cont_packets(payload.len() as int)) as nat,
        |i: int|
            if i == 0 {
                spec_init_packet(cid, cmd, payload)
            } else {
                spec_cont_packet(cid, payload, i - 1)
            },
    )
}

/// Copies `packet[start..end]` into a fresh vector.
fn copy_range(packet: &Vec<u8>, start: usize, end: usize) -> (out: Vec<u8>)
    requires
        start <= end <= packet@.len(),
    ensures
        out@ == packet@.subrange(start as int, end as int),
{
    let mut out: Vec<u8> = Vec::new();
    let mut i: usize = start;
    while i < end
        invariant
            start <= i <= end <= packet@.len(),
            out@ == packet@.subrange(start as int, i as int),
        decreases end - i,
    {
        out.push(packet[i]);
        i = i + 1;
        assert(out@ =~= packet@.subrange(start as int, i as int));
    }
    out
}

/// Decodes one raw packet.  Total: every 64-byte input is one of the two
/// frame variants, distinguished by the marker bit of byte 4.
pub fn process_single_packet(packet: &Vec<u8>) -> (r: (ChannelID, ProcessedPacket))
    requires
        packet@.len() == PACKET_SIZE,
    ensures
        spec_frame_ok(packet@, r.0, r.1),
{
    let cid: u32 = ((packet[0] as u32) * 0x100_0000)
        + ((packet[1] as u32) * 0x1_0000)
        + ((packet[2] as u32) * 0x100)
        + (packet[3] as u32);
    let marker = packet[4];
    if marker >= INIT_MARKER {
        let len: usize = (packet[5] as usize) * 256 + (packet[6] as usize);
        let data = copy_range(packet, 7, PACKET_SIZE);
        (cid, ProcessedPacket::InitPacket { cmd: marker - INIT_MARKER, len, data })
    } else {
        let data = copy_range(packet, 5, PACKET_SIZE);
        (cid, ProcessedPacket::ContinuationPacket { seq: marker, data })
    }
}

/// Appends the four big-endian channel-id bytes.
fn push_cid(out: &mut Vec<u8>, cid: ChannelID)
    ensures
        final(out)@ == old(out)@ + spec_cid_bytes(cid),
{
    out.push((cid / 0x100_0000) as u8);
    out.push(((cid / 0x1_0000) % 256) as u8);
    out.push(((cid / 0x100) % 256) as u8);
    out.push((cid % 256) as u8);
    assert(out@ =~= old(out)@ + spec_cid_bytes(cid));
}

/// Appends the payload bytes of range `[start, start + cap)`, zero-padded to
/// exactly `cap` bytes.
fn push_fragment(out: &mut Vec<u8>, payload: &Vec<u8>, start: usize, cap: usize)
    requires
        start + cap <= usize::MAX,
    ensures
        final(out)@ == old(out)@ + spec_zero_pad(
            {
                let end = if payload@.len() <= start + cap { payload@.len() as int } else { start + cap };
                if start <= end { payload@.subrange(start as int, end) } else { Seq::<u8>::empty() }
            },
            cap as int,
        ),
{
    let ghost frag: Seq<u8> = {
        let end = if payload@.len() <= start + cap { payload@.len() as int } else { start + cap };
        if start <= end { payload@.subrange(start as int, end) } else { Seq::<u8>::empty() }
    };
    let mut k: usize = 0;
    while k < cap
        invariant
            k <= cap,
            start + cap <= usize::MAX,
            frag == ({
                let end = if payload@.len() <= start + cap { payload@.len() as int } else { start + cap };
                if start <= end { payload@.subrange(start as int, end) } else { Seq::<u8>::empty() }
            }),
            out@ == old(out)@ + spec_zero_pad(frag, cap as int).take(k as int),
        decreases cap - k,
    {
        let idx = start + k;
        if idx < payload.len() {
            out.push(payload[idx]);
        } else {
            out.push(0);
        }
        k = k + 1;
        assert(out@ =~= old(out)@ + spec_zero_pad(frag, cap as int).take(k as int));
    }
    assert(spec_zero_pad(frag, cap as int).take(cap as int) =~= spec_zero_pad(frag, cap as int));
}

/// Builds the Init packet of a fragment stream.
fn make_init_packet(cid: ChannelID, cmd: u8, payload: &Vec<u8>) -> (p: Vec<u8>)
    requires
        cmd < INIT_MARKER,
        payload@.len() <= MAX_PAYLOAD_LEN,
    ensures
        p@ == spec_init_packet(cid, cmd, payload@),
{
    let mut p: Vec<u8> = Vec::new();
    push_cid(&mut p, cid);
    p.push(cmd + INIT_MARKER);
    p.push((payload.len() / 256) as u8);
    p.push((payload.len() % 256) as u8);
    push_fragment(&mut p, payload, 0, INIT_DATA_LEN);
    assert(p@ =~= spec_init_packet(cid, cmd, payload@));
    p
}

/// Builds the continuation packet with sequence number `i`.
fn make_cont_packet(cid: ChannelID, payload: &Vec<u8>, i: usize) -> (p: Vec<u8>)
    requires
        payload@.len() <= MAX_PAYLOAD_LEN,
        i < num_cont_packets(payload@.len() as int),
    ensures
        p@ == spec_cont_packet(cid, payload@, i as int),
{
    assert(i < 128) by {
        assert(num_cont_packets(payload@.len() as int) <= 128);
    }
    let mut p: Vec<u8> = Vec::new();
    push_cid(&mut p, cid);
    p.push(i as u8);
    push_fragment(&mut p, payload, INIT_DATA_LEN + CONT_DATA_LEN * i, CONT_DATA_LEN);
    assert(p@ =~= spec_cont_packet(cid, payload@, i as int));
    p
}

/// Fragments a logical message into its packet stream: the Init packet,
/// then as many continuation packets as the remainder needs, sequence
/// numbers starting at 0 with no gaps.
pub fn encode(message: &Message) -> (packets: Vec<Vec<u8>>)
    requires
        message.valid(),
    ensures
        packets@.len() == spec_encode(message.cid, message.cmd, message.payload@).len(),
        forall|i: int| 0 <= i < packets@.len()
            ==> #[trigger] packets@[i]@ == spec_encode(message.cid, message.cmd, message.payload@)[i],
        forall|i: int| 0 <= i < packets@.len() ==> (#[trigger] packets@[i]@).len() == PACKET_SIZE,
{
    let ghost stream = spec_encode(message.cid, message.cmd, message.payload@);
    let mut packets: Vec<Vec<u8>> = Vec::new();
    packets.push(make_init_packet(message.cid, message.cmd, &message.payload));
    let n: usize = if message.payload.len() <= INIT_DATA_LEN {
        0
    } else {
        (message.payload.len() - INIT_DATA_LEN + (CONT_DATA_LEN - 1)) / CONT_DATA_LEN
    };
    assert(n == num_cont_packets(message.payload@.len() as int));
    let mut i: usize = 0;
    while i < n
        invariant
            i <= n,
            message.valid(),
            n == num_cont_packets(message.payload@.len() as int),
            stream == spec_encode(message.cid, message.cmd, message.payload@),
            packets@.len() == 1 + i,
            forall|j: int| 0 <= j < packets@.len() ==> #[trigger] packets@[j]@ == stream[j],
        decreases n - i,
    {
        packets.push(make_cont_packet(message.cid, &message.payload, i));
        i = i + 1;
    }
    proof {
        lemma_packet_lengths(message.cid, message.cmd, message.payload@);
    }
    packets
}

/// Consumes continuation packets after an Init packet has declared `total`
/// payload bytes and contributed `acc`: each packet must be a continuation
/// on the same channel with the expected sequence number, until the
/// accumulated bytes cover `total`; the result is the payload truncated to
/// the declared length, or `None` on any framing violation.
pub open spec fn spec_collect(
    packets: Seq<Seq<u8>>,
    cid: ChannelID,
    next: int,
    acc: Seq<u8>,
    total: int,
) -> Option<Seq<u8>>
    decreases packets.len(),
{
    if acc.len() >= total {
        if packets.len() == 0 {
            Some(acc.take(total))
        } else {
            None
        }
    } else if packets.len() == 0 {
        None
    } else {
        let p = packets.first();
        if p.len() == PACKET_SIZE && !spec_is_init(p) && spec_channel(p) == cid
            && spec_cont_seq(p) == next {
            spec_collect(packets.drop_first(), cid, next + 1, acc + spec_cont_data(p), total)
        } else {
            None
        }
    }
}

/// The message a complete fragment stream reassembles to: the first packet
/// must be an Init packet, the rest exactly the continuations its declared
/// length demands.
pub open spec fn spec_assemble(packets: Seq<Seq<u8>>) -> Option<(ChannelID, u8, Seq<u8>)> {
    if packets.len() == 0 {
        None
    } else {
        let p = packets.first();
        if p.len() == PACKET_SIZE && spec_is_init(p) {
            match spec_collect(
                packets.drop_first(),
                spec_channel(p),
                0,
                spec_init_data(p),
                spec_init_len(p) as int,
            ) {
                Some(payload) => Some((spec_channel(p), spec_init_cmd(p), payload)),
                None => None,
            }
        } else {
            None
        }
    }
}

/// The first `min(len, 57 + 59 k)` payload bytes, zero-padded to exactly
/// `57 + 59 k` bytes: what the Init packet and the first `k` continuation
/// packets of a fragment stream have accumulated.
spec fn spec_acc(payload: Seq<u8>, k: int) -> Seq<u8>
    recommends
        0 <= k,
{
    let limit = INIT_DATA_LEN + (CONT_DATA_LEN as int) * k;
    spec_zero_pad(
        if payload.len() <= limit {
            payload
        } else {
            payload.take(limit)
        },
        limit,
    )
}

/// Reading the big-endian channel-id bytes back gives the channel id.
proof fn lemma_cid_arith(cid: ChannelID)
    ensures
        (((cid / 0x100_0000) * 256 + (cid / 0x1_0000) % 256) * 256 + (cid / 0x100) % 256) * 256
            + cid % 256 == cid,
{
    assert((((cid / 0x100_0000) * 256 + (cid / 0x1_0000) % 256) * 256 + (cid / 0x100) % 256) * 256
        + cid % 256 == cid) by (nonlinear_arith);
}

/// The channel id of every packet of a fragment stream is the message's.
proof fn lemma_stream_channel(cid: ChannelID, p: Seq<u8>)
    requires
        p.len() >= 4,
        p[0] == spec_cid_bytes(cid)[0],
        p[1] == spec_cid_bytes(cid)[1],
        p[2] == spec_cid_bytes(cid)[2],
        p[3] == spec_cid_bytes(cid)[3],
    ensures
        spec_channel(p) == cid,
{
    lemma_cid_arith(cid);
    assert(cid / 0x100_0000 < 256);
}

/// Continuation packets `k, k + 1, ...` of a fragment stream, consumed in
/// order, extend what the first packets accumulated to the whole payload.
proof fn lemma_collect_encoded(cid: ChannelID, cmd: u8, payload: Seq<u8>, k: int)
    requires
        cmd < INIT_MARKER,
        payload.len() <= MAX_PAYLOAD_LEN,
        0 <= k <= num_cont_packets(payload.len() as int),
    ensures
        spec_collect(
            spec_encode(cid, cmd, payload).subrange(
                1 + k,
                spec_encode(cid, cmd, payload).len() as int,
            ),
            cid,
            k,
            spec_acc(payload, k),
            payload.len() as int,
        ) == Some(payload),
    decreases num_cont_packets(payload.len() as int) - k,
{
    let len = payload.len() as int;
    let cc = num_cont_packets(len);
    let stream = spec_encode(cid, cmd, payload);
    let packets = stream.subrange(1 + k, stream.len() as int);
    let acc = spec_acc(payload, k);
    let limit = INIT_DATA_LEN + (CONT_DATA_LEN as int) * k;
    assert(acc.len() == limit);
    if k == cc {
        assert(packets.len() == 0);
        assert(acc.len() >= len) by {
            if len > INIT_DATA_LEN {
                assert((CONT_DATA_LEN as int) * cc >= len - INIT_DATA_LEN);
            }
        }
        assert(acc.take(len) =~= payload);
    } else {
        assert(limit < len) by {
            assert((CONT_DATA_LEN as int) * (cc - 1) <= len + 1 - (CONT_DATA_LEN as int));
            assert((CONT_DATA_LEN as int) * k <= (CONT_DATA_LEN as int) * (cc - 1));
        }
        let p = packets.first();
        assert(p == spec_cont_packet(cid, payload, k));
        lemma_packet_lengths(cid, cmd, payload);
        assert(p.len() == PACKET_SIZE);
        assert(k < 128);
        assert(p[4] == (k as u8) && (k as u8) < INIT_MARKER);
        assert(!spec_is_init(p));
        lemma_stream_channel(cid, p);
        assert(spec_cont_seq(p) == k);
        assert(acc.len() < len);
        let frag = spec_fragment(payload, k + 1);
        assert(spec_cont_data(p) =~= spec_zero_pad(frag, CONT_DATA_LEN as int));
        assert(acc + spec_cont_data(p) =~= spec_acc(payload, k + 1));
        assert(packets.drop_first() =~= stream.subrange(1 + (k + 1), stream.len() as int));
        lemma_collect_encoded(cid, cmd, payload, k + 1);
    }
}

/// What decoding packet `i` of a fragment stream gives back: the message's
/// channel on every packet; the command, declared length and first fragment
/// on the Init packet; sequence number `i - 1` and the matching fragment on
/// each continuation.
pub proof fn lemma_stream_fields(cid: ChannelID, cmd: u8, payload: Seq<u8>, i: int)
    requires
        cmd < INIT_MARKER,
        payload.len() <= MAX_PAYLOAD_LEN,
        0 <= i < spec_encode(cid, cmd, payload).len(),
    ensures
        spec_encode(cid, cmd, payload)[i].len() == PACKET_SIZE,
        spec_channel(spec_encode(cid, cmd, payload)[i]) == cid,
        i == 0 ==> spec_is_init(spec_encode(cid, cmd, payload)[i])
            && spec_init_cmd(spec_encode(cid, cmd, payload)[i]) == cmd
            && spec_init_len(spec_encode(cid, cmd, payload)[i]) == payload.len()
            && spec_init_data(spec_encode(cid, cmd, payload)[i]) == spec_zero_pad(
            spec_fragment(payload, 0),
            INIT_DATA_LEN as int,
        ),
        i >= 1 ==> !spec_is_init(spec_encode(cid, cmd, payload)[i])
            && spec_cont_seq(spec_encode(cid, cmd, payload)[i]) == i - 1
            && spec_cont_data(spec_encode(cid, cmd, payload)[i]) == spec_zero_pad(
            spec_fragment(payload, i),
            CONT_DATA_LEN as int,
        ),
{
    let p = spec_encode(cid, cmd, payload)[i];
    lemma_packet_lengths(cid, cmd, payload);
    lemma_stream_channel(cid, p);
    let len = payload.len() as int;
    if i == 0 {
        assert(p == spec_init_packet(cid, cmd, payload));
        assert(p[4] == (cmd + INIT_MARKER) as u8);
        assert(p[5] == (len / 256) as u8 && p[6] == (len % 256) as u8);
        assert(spec_init_len(p) == len) by {
            assert(len / 256 < 256);
            assert((len / 256) * 256 + len % 256 == len);
        }
        assert(spec_init_data(p) =~= spec_zero_pad(spec_fragment(payload, 0), INIT_DATA_LEN as int));
    } else {
        assert(p == spec_cont_packet(cid, payload, i - 1));
        assert(i - 1 < 128) by {
            assert(num_cont_packets(len) <= 128);
        }
        assert(p[4] == ((i - 1) as u8) && ((i - 1) as u8) < INIT_MARKER);
        assert(spec_cont_data(p) =~= spec_zero_pad(spec_fragment(payload, i), CONT_DATA_LEN as int));
    }
}

/// Round trip: reassembling the fragment stream of any message reproduces
/// the exact original payload bytes, channel, and command, and the sequence
/// numbers in the stream are exactly `0 .. num_cont_packets`.
pub proof fn lemma_round_trip(cid: ChannelID, cmd: u8, payload: Seq<u8>)
    requires
        cmd < INIT_MARKER,
        payload.len() <= MAX_PAYLOAD_LEN,
    ensures
        spec_assemble(spec_encode(cid, cmd, payload)) == Some((cid, cmd, payload)),
        spec_encode(cid, cmd, payload).len() == 1 + num_cont_packets(payload.len() as int),
        forall|i: int| 1 <= i < spec_encode(cid, cmd, payload).len() ==> {
            let p = #[trigger] spec_encode(cid, cmd, payload)[i];
            !spec_is_init(p) && spec_cont_seq(p) == i - 1
        },
{
    let len = payload.len() as int;
    let stream = spec_encode(cid, cmd, payload);
    let p0 = stream.first();
    assert(p0 == spec_init_packet(cid, cmd, payload));
    lemma_packet_lengths(cid, cmd, payload);
    assert(p0.len() == PACKET_SIZE);
    assert(p0[4] == (cmd + INIT_MARKER) as u8);
    assert(spec_is_init(p0));
    lemma_stream_channel(cid, p0);
    assert(spec_init_cmd(p0) == cmd);
    assert(p0[5] == (len / 256) as u8 && p0[6] == (len % 256) as u8);
    assert(spec_init_len(p0) == len) by {
        assert(len / 256 < 256);
        assert((len / 256) * 256 + len % 256 == len);
    }
    assert(spec_init_data(p0) =~= spec_acc(payload, 0));
    assert(stream.drop_first() =~= stream.subrange(1, stream.len() as int));
    lemma_collect_encoded(cid, cmd, payload, 0);
    assert(spec_assemble(stream) == Some((cid, cmd, payload)));
    assert forall|i: int| 1 <= i < stream.len() implies {
        let p = #[trigger] stream[i];
        !spec_is_init(p) && spec_cont_seq(p) == i - 1
    } by {
        let p = stream[i];
        assert(p == spec_cont_packet(cid, payload, i - 1));
        assert(i - 1 < 128);
        assert(p[4] == ((i - 1) as u8) && ((i - 1) as u8) < INIT_MARKER);
    }
}

/// Every packet of a fragment stream is exactly `PACKET_SIZE` bytes.
pub proof fn lemma_packet_lengths(cid: ChannelID, cmd: u8, payload: Seq<u8>)
    requires
        cmd < INIT_MARKER,
        payload.len() <= MAX_PAYLOAD_LEN,
    ensures
        forall|i: int| 0 <= i < spec_encode(cid, cmd, payload).len()
            ==> (#[trigger] spec_encode(cid, cmd, payload)[i]).len() == PACKET_SIZE,
{
    let stream = spec_encode(cid, cmd, payload);
    assert forall|i: int| 0 <= i < stream.len() implies (#[trigger] stream[i]).len() == PACKET_SIZE by {
        if i == 0 {
            assert(spec_fragment(payload, 0).len() <= INIT_DATA_LEN);
        } else {
            assert(spec_fragment(payload, i).len() <= CONT_DATA_LEN);
        }
    }
}

} // verus!
