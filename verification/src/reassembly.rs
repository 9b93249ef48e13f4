//! Channel and reassembly state machine: tracks the one in-flight message
//! the general-purpose command path is receiving, validates framing,
//! recognises CANCEL, and produces complete inbound messages or per-channel
//! error verdicts.
//!
//! The physical transport serialises packet delivery, so one reassembly is
//! in progress at a time; packets bearing a different channel id never
//! disturb it.  A stray continuation packet with no reassembly in progress
//! is discarded.

use vstd::prelude::*;

use crate::codec::ChannelID;
use crate::codec::Message;
use crate::codec::ProcessedPacket;
use crate::codec::COMMAND_CANCEL;
use crate::codec::COMMAND_ERROR;
use crate::codec::CONT_DATA_LEN;
use crate::codec::INIT_DATA_LEN;
use crate::codec::INIT_MARKER;
use crate::codec::MAX_PAYLOAD_LEN;
use crate::codec::PACKET_SIZE;
use crate::codec::process_single_packet;
use crate::codec::spec_channel;
use crate::codec::spec_cont_data;
use crate::codec::spec_cont_seq;
use crate::codec::spec_init_cmd;
use crate::codec::spec_init_data;
use crate::codec::spec_init_len;
use crate::codec::spec_is_init;

verus! {

/// Framing violations, each answered with an error reply on the named
/// channel.
#[derive(Clone, Copy, PartialEq, Eq, Structural, Debug)]
pub enum RecvError {
    /// A new Init packet arrived on the channel being reassembled before
    /// its message was complete.
    UnexpectedInit,
    /// A continuation packet arrived out of order.
    UnexpectedSeq,
    /// The declared total length exceeds what the sequence-number space can
    /// carry.
    InvalidLength,
    /// An Init packet arrived on another channel while a reassembly is in
    /// progress.
    ChannelBusy,
}

/// The protocol-level status byte a framing violation is answered with.
pub open spec fn spec_error_code(error: RecvError) -> u8 {
    match error {
        RecvError::UnexpectedInit => 0x01,
        RecvError::UnexpectedSeq => 0x04,
        RecvError::InvalidLength => 0x03,
        RecvError::ChannelBusy => 0x06,
    }
}

/// Executable form of [`spec_error_code`].
pub fn error_code(error: RecvError) -> (code: u8)
    ensures
        code == spec_error_code(error),
{
    match error {
        RecvError::UnexpectedInit => 0x01,
        RecvError::UnexpectedSeq => 0x04,
        RecvError::InvalidLength => 0x03,
        RecvError::ChannelBusy => 0x06,
    }
}

/// The error reply queued on a channel after a framing violation: the ERROR
/// command carrying the one-byte code of the violation.
pub fn error_message(cid: ChannelID, error: RecvError) -> (m: Message)
    ensures
        m.cid == cid,
        m.cmd == COMMAND_ERROR,
        m.payload@ == seq![spec_error_code(error)],
        m.valid(),
{
    let mut payload: Vec<u8> = Vec::new();
    payload.push(error_code(error));
    assert(payload@ =~= seq![spec_error_code(error)]);
    Message { cid, cmd: COMMAND_ERROR, payload }
}

/// The reassembly state, as the contracts see it.
pub enum AssemblerView {
    Idle,
    Awaiting { cid: ChannelID, cmd: u8, total_len: int, payload: Seq<u8>, next_seq: int },
}

/// What one packet did to the assembler, as the contracts see it.
pub enum StepOutcome {
    /// Consumed or ignored; no message is complete yet.
    Pending,
    /// A message is complete.
    Done { cid: ChannelID, cmd: u8, payload: Seq<u8> },
    /// A CANCEL frame arrived, bearing this channel id.
    Cancelled { cid: ChannelID },
    /// A framing violation: discard and queue an error reply on `cid`.
    Reject { cid: ChannelID, error: RecvError },
}

/// What an Init packet that does not carry CANCEL does to an idle
/// assembler, given its channel, command, declared total length, and
/// payload fragment.
pub open spec fn spec_begin(ch: ChannelID, cmd: u8, total: int, data: Seq<u8>) -> (
    AssemblerView,
    StepOutcome,
)
    recommends
        data.len() == INIT_DATA_LEN,
{
    if total > MAX_PAYLOAD_LEN {
        (AssemblerView::Idle, StepOutcome::Reject { cid: ch, error: RecvError::InvalidLength })
    } else if total <= INIT_DATA_LEN {
        (
            AssemblerView::Idle,
            StepOutcome::Done { cid: ch, cmd, payload: data.take(total) },
        )
    } else {
        (
            AssemblerView::Awaiting { cid: ch, cmd, total_len: total, payload: data, next_seq: 0 },
            StepOutcome::Pending,
        )
    }
}

/// The transition relation of the state machine: one raw packet takes the
/// assembler from `s` to the returned state, with the returned outcome.
pub open spec fn spec_step(s: AssemblerView, p: Seq<u8>) -> (AssemblerView, StepOutcome)
    recommends
        p.len() == PACKET_SIZE,
{
    let ch = spec_channel(p);
    if spec_is_init(p) {
        if spec_init_cmd(p) == COMMAND_CANCEL {
            let s1 = match s {
                AssemblerView::Idle => AssemblerView::Idle,
                AssemblerView::Awaiting { cid, .. } => if cid == ch {
                    AssemblerView::Idle
                } else {
                    s
                },
            };
            (s1, StepOutcome::Cancelled { cid: ch })
        } else {
            match s {
                AssemblerView::Idle => spec_begin(
                    ch,
                    spec_init_cmd(p),
                    spec_init_len(p) as int,
                    spec_init_data(p),
                ),
                AssemblerView::Awaiting { cid, .. } => if cid == ch {
                    (
                        AssemblerView::Idle,
                        StepOutcome::Reject { cid: ch, error: RecvError::UnexpectedInit },
                    )
                } else {
                    (s, StepOutcome::Reject { cid: ch, error: RecvError::ChannelBusy })
                },
            }
        }
    } else {
        match s {
            AssemblerView::Idle => (AssemblerView::Idle, StepOutcome::Pending),
            AssemblerView::Awaiting { cid, cmd, total_len, payload, next_seq } => if ch != cid {
                (s, StepOutcome::Pending)
            } else if spec_cont_seq(p) != next_seq {
                (AssemblerView::Idle, StepOutcome::Reject { cid, error: RecvError::UnexpectedSeq })
            } else {
                let need = total_len - payload.len();
                let chunk = if need <= CONT_DATA_LEN {
                    spec_cont_data(p).take(need)
                } else {
                    spec_cont_data(p)
                };
                let acc = payload + chunk;
                if acc.len() >= total_len {
                    (AssemblerView::Idle, StepOutcome::Done { cid, cmd, payload: acc })
                } else {
                    (
                        AssemblerView::Awaiting {
                            cid,
                            cmd,
                            total_len,
                            payload: acc,
                            next_seq: next_seq + 1,
                        },
                        StepOutcome::Pending,
                    )
                }
            },
        }
    }
}

/// Runs the transition relation over a whole packet stream, reporting the
/// final state and the outcome of the last packet.
pub open spec fn spec_run(s: AssemblerView, packets: Seq<Seq<u8>>) -> (AssemblerView, StepOutcome)
    decreases packets.len(),
{
    if packets.len() == 0 {
        (s, StepOutcome::Pending)
    } else {
        let step = spec_step(s, packets.first());
        if packets.len() == 1 {
            step
        } else {
            spec_run(step.0, packets.drop_first())
        }
    }
}

/// The payload bytes the machine has accumulated after the Init packet and
/// `k` continuation packets of a fragment stream.
spec fn machine_acc(payload: Seq<u8>, k: int) -> Seq<u8> {
    payload.take(INIT_DATA_LEN + (CONT_DATA_LEN as int) * k)
}

/// Consuming continuation packets `k, k + 1, ...` of a fragment stream
/// takes the machine from the matching waiting state to Idle with the whole
/// message.
proof fn lemma_machine_collects(cid: ChannelID, cmd: u8, payload: Seq<u8>, k: int)
    requires
        cmd < INIT_MARKER,
        cmd != COMMAND_CANCEL,
        INIT_DATA_LEN < payload.len() <= MAX_PAYLOAD_LEN,
        0 <= k < crate::codec::num_cont_packets(payload.len() as int),
    ensures
        spec_run(
            AssemblerView::Awaiting {
                cid,
                cmd,
                total_len: payload.len() as int,
                payload: machine_acc(payload, k),
                next_seq: k,
            },
            crate::codec::spec_encode(cid, cmd, payload).subrange(
                1 + k,
                crate::codec::spec_encode(cid, cmd, payload).len() as int,
            ),
        ) == (AssemblerView::Idle, StepOutcome::Done { cid, cmd, payload }),
    decreases crate::codec::num_cont_packets(payload.len() as int) - k,
{
    let len = payload.len() as int;
    let cc = crate::codec::num_cont_packets(len);
    let stream = crate::codec::spec_encode(cid, cmd, payload);
    let packets = stream.subrange(1 + k, stream.len() as int);
    let p = packets.first();
    assert(p == stream[1 + k]);
    crate::codec::lemma_stream_fields(cid, cmd, payload, 1 + k);
    let limit = INIT_DATA_LEN + (CONT_DATA_LEN as int) * k;
    assert(limit < len) by {
        assert((CONT_DATA_LEN as int) * (cc - 1) <= len + 1 - (CONT_DATA_LEN as int));
        assert((CONT_DATA_LEN as int) * k <= (CONT_DATA_LEN as int) * (cc - 1));
    }
    let acc = machine_acc(payload, k);
    assert(acc.len() == limit);
    let need = len - limit;
    let frag = crate::codec::spec_fragment(payload, k + 1);
    let data = spec_cont_data(p);
    assert(!spec_is_init(p) && spec_channel(p) == cid && spec_cont_seq(p) == k);
    if need <= CONT_DATA_LEN {
        assert(k + 1 == cc) by {
            if k + 1 < cc {
                assert((CONT_DATA_LEN as int) * (cc - 1) <= len + 1 - (CONT_DATA_LEN as int));
                assert((CONT_DATA_LEN as int) * (k + 1) <= (CONT_DATA_LEN as int) * (cc - 1));
            }
        }
        assert(packets.len() == 1);
        assert(frag.len() == need);
        assert(data.take(need) =~= frag);
        assert(acc + data.take(need) =~= payload);
    } else {
        assert(frag.len() == CONT_DATA_LEN);
        assert(data =~= frag);
        assert(acc + data =~= machine_acc(payload, k + 1));
        assert(packets.len() >= 2);
        assert(packets.drop_first() =~= stream.subrange(1 + (k + 1), stream.len() as int));
        lemma_machine_collects(cid, cmd, payload, k + 1);
    }
}

/// The state machine reassembles a fragment stream: fed the packets of any
/// encoded message in order, starting idle, it ends idle again having
/// reported exactly the original channel, command and payload bytes.
pub proof fn lemma_machine_round_trip(cid: ChannelID, cmd: u8, payload: Seq<u8>)
    requires
        cmd < INIT_MARKER,
        cmd != COMMAND_CANCEL,
        payload.len() <= MAX_PAYLOAD_LEN,
    ensures
        spec_run(AssemblerView::Idle, crate::codec::spec_encode(cid, cmd, payload)) == (
            AssemblerView::Idle,
            StepOutcome::Done { cid, cmd, payload },
        ),
{
    let len = payload.len() as int;
    let stream = crate::codec::spec_encode(cid, cmd, payload);
    let p0 = stream.first();
    crate::codec::lemma_stream_fields(cid, cmd, payload, 0);
    if len <= INIT_DATA_LEN {
        assert(stream.len() == 1);
        assert(spec_init_data(p0).take(len) =~= payload);
    } else {
        assert(spec_init_data(p0) =~= machine_acc(payload, 0));
        assert(stream.drop_first() =~= stream.subrange(1, stream.len() as int));
        lemma_machine_collects(cid, cmd, payload, 0);
    }
}

/// The executable state behind [`AssemblerView`].
pub enum AssemblerState {
    Idle,
    Awaiting { cid: ChannelID, cmd: u8, total_len: usize, payload: Vec<u8>, next_seq: u8 },
}

impl View for AssemblerState {
    type V = AssemblerView;

    open spec fn view(&self) -> AssemblerView {
        match self {
            AssemblerState::Idle => AssemblerView::Idle,
            AssemblerState::Awaiting { cid, cmd, total_len, payload, next_seq } => {
                AssemblerView::Awaiting {
                    cid: *cid,
                    cmd: *cmd,
                    total_len: *total_len as int,
                    payload: payload@,
                    next_seq: *next_seq as int,
                }
            },
        }
    }
}

/// What `parse_packet` reports for one packet.
pub enum ParseOutcome {
    /// Consumed or ignored; no message is complete yet.
    Pending,
    /// A message is complete.
    Done(Message),
    /// A CANCEL frame arrived, bearing this channel id.
    Cancelled(ChannelID),
    /// A framing violation: the reply queue owes an error reply on `cid`.
    Reject { cid: ChannelID, error: RecvError },
}

impl ParseOutcome {
    /// The outcome as the transition relation states it.
    pub open spec fn view(&self) -> StepOutcome {
        match self {
            ParseOutcome::Pending => StepOutcome::Pending,
            ParseOutcome::Done(m) => StepOutcome::Done {
                cid: m.cid,
                cmd: m.cmd,
                payload: m.payload@,
            },
            ParseOutcome::Cancelled(cid) => StepOutcome::Cancelled { cid: *cid },
            ParseOutcome::Reject { cid, error } => StepOutcome::Reject {
                cid: *cid,
                error: *error,
            },
        }
    }
}

/// Per-channel message reassembly.
pub struct MessageAssembler {
    state: AssemblerState,
}

impl MessageAssembler {
    /// The reassembly state, as the contracts see it.
    pub closed spec fn view(&self) -> AssemblerView {
        self.state@
    }

    /// While a message is in flight, the accumulated payload is exactly the
    /// Init fragment plus `next_seq` full continuation fragments, and still
    /// short of the declared total.
    pub open spec fn wf(&self) -> bool {
        match self@ {
            AssemblerView::Idle => true,
            AssemblerView::Awaiting { cid, cmd, total_len, payload, next_seq } => {
                &&& cmd < INIT_MARKER
                &&& total_len <= MAX_PAYLOAD_LEN
                &&& 0 <= next_seq
                &&& payload.len() == INIT_DATA_LEN + (CONT_DATA_LEN as int) * next_seq
                &&& payload.len() < total_len
            },
        }
    }

    /// A fresh assembler with no message in flight.
    pub fn new() -> (a: Self)
        ensures
            a@ == AssemblerView::Idle,
            a.wf(),
    {
        MessageAssembler { state: AssemblerState::Idle }
    }

    /// Feeds one raw packet to the state machine.  The outcome and the new
    /// state follow the transition relation exactly; a packet bearing a
    /// channel id other than the one being reassembled never affects the
    /// reassembly's state.
    pub fn parse_packet(&mut self, packet: &Vec<u8>) -> (outcome: ParseOutcome)
        requires
            packet@.len() == PACKET_SIZE,
            old(self).wf(),
        ensures
            final(self).wf(),
            (final(self)@, outcome@) == spec_step(old(self)@, packet@),
            (old(self)@ matches AssemblerView::Awaiting { cid, .. } && spec_channel(packet@)
                != cid) ==> final(self)@ == old(self)@,
    {
        let (ch, frame) = process_single_packet(packet);
        let mut st = AssemblerState::Idle;
        core::mem::swap(&mut st, &mut self.state);
        match frame {
            ProcessedPacket::InitPacket { cmd, len, data } => {
                if cmd == COMMAND_CANCEL {
                    let keep = match st {
                        AssemblerState::Idle => AssemblerState::Idle,
                        AssemblerState::Awaiting { cid, cmd, total_len, payload, next_seq } => {
                            if cid == ch {
                                AssemblerState::Idle
                            } else {
                                AssemblerState::Awaiting { cid, cmd, total_len, payload, next_seq }
                            }
                        },
                    };
                    self.state = keep;
                    ParseOutcome::Cancelled(ch)
                } else {
                    match st {
                        AssemblerState::Idle => self.begin(ch, cmd, len, data),
                        AssemblerState::Awaiting { cid, cmd, total_len, payload, next_seq } => {
                            if cid == ch {
                                self.state = AssemblerState::Idle;
                                ParseOutcome::Reject { cid: ch, error: RecvError::UnexpectedInit }
                            } else {
                                self.state = AssemblerState::Awaiting {
                                    cid,
                                    cmd,
                                    total_len,
                                    payload,
                                    next_seq,
                                };
                                ParseOutcome::Reject { cid: ch, error: RecvError::ChannelBusy }
                            }
                        },
                    }
                }
            },
            ProcessedPacket::ContinuationPacket { seq, data } => {
                match st {
                    AssemblerState::Idle => {
                        self.state = AssemblerState::Idle;
                        ParseOutcome::Pending
                    },
                    AssemblerState::Awaiting { cid, cmd, total_len, mut payload, next_seq } => {
                        if ch != cid {
                            self.state = AssemblerState::Awaiting {
                                cid,
                                cmd,
                                total_len,
                                payload,
                                next_seq,
                            };
                            ParseOutcome::Pending
                        } else if seq != next_seq {
                            self.state = AssemblerState::Idle;
                            ParseOutcome::Reject { cid, error: RecvError::UnexpectedSeq }
                        } else {
                            let ghost old_payload = payload@;
                            let ghost need = total_len - payload@.len();
                            let mut k: usize = 0;
                            while k < CONT_DATA_LEN && payload.len() < total_len
                                invariant
                                    k <= CONT_DATA_LEN,
                                    data@.len() == CONT_DATA_LEN,
                                    old_payload.len() < total_len <= MAX_PAYLOAD_LEN,
                                    need == total_len - old_payload.len(),
                                    payload@ == old_payload + data@.take(
                                        if k <= need { k as int } else { need },
                                    ),
                                decreases CONT_DATA_LEN - k,
                            {
                                payload.push(data[k]);
                                k = k + 1;
                                assert(payload@ =~= old_payload + data@.take(
                                    if k <= need { k as int } else { need },
                                ));
                            }
                            proof {
                                let chunk = if need <= CONT_DATA_LEN {
                                    spec_cont_data(packet@).take(need)
                                } else {
                                    spec_cont_data(packet@)
                                };
                                assert(payload@ =~= old_payload + chunk);
                            }
                            if payload.len() >= total_len {
                                self.state = AssemblerState::Idle;
                                ParseOutcome::Done(Message { cid, cmd, payload })
                            } else {
                                self.state = AssemblerState::Awaiting {
                                    cid,
                                    cmd,
                                    total_len,
                                    payload,
                                    next_seq: next_seq + 1,
                                };
                                ParseOutcome::Pending
                            }
                        }
                    },
                }
            },
        }
    }

    /// Starts or completes a message from an Init packet on an idle
    /// assembler.
    fn begin(&mut self, ch: ChannelID, cmd: u8, len: usize, data: Vec<u8>) -> (outcome:
        ParseOutcome)
        requires
            old(self)@ == AssemblerView::Idle,
            cmd < INIT_MARKER,
            cmd != COMMAND_CANCEL,
            data@.len() == INIT_DATA_LEN,
        ensures
            final(self).wf(),
            (final(self)@, outcome@) == spec_begin(ch, cmd, len as int, data@),
    {
        if len > MAX_PAYLOAD_LEN {
            self.state = AssemblerState::Idle;
            ParseOutcome::Reject { cid: ch, error: RecvError::InvalidLength }
        } else if len <= INIT_DATA_LEN {
            let mut payload = data;
            payload.truncate(len);
            self.state = AssemblerState::Idle;
            ParseOutcome::Done(Message { cid: ch, cmd, payload })
        } else {
            self.state = AssemblerState::Awaiting {
                cid: ch,
                cmd,
                total_len: len,
                payload: data,
                next_seq: 0,
            };
            ParseOutcome::Pending
        }
    }
}

} // verus!
