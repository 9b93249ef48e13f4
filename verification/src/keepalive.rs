//! Keepalive and cancellation protocol: while a long-running operation is
//! pending, the owning channel periodically transmits a "user presence
//! needed" keepalive and watches the half-duplex transport for a CANCEL
//! frame.
//!
//! The transport is hardware; what the logic decides on is the outcome of
//! each packet-send attempt, handed in as a plain value.  A send that timed
//! out is best-effort and ignored; a transport failure is fatal; a packet
//! received instead of the send completing is decoded as a single frame,
//! and only an Init packet carrying CANCEL on the owning channel cancels
//! the operation — stray traffic for other channels, and any other command,
//! is discarded with no effect.

use vstd::prelude::*;

use crate::CtapError;
use crate::codec::ChannelID;
use crate::codec::Message;
use crate::codec::ProcessedPacket;
use crate::codec::COMMAND_CANCEL;
use crate::codec::COMMAND_KEEPALIVE;
use crate::codec::PACKET_SIZE;
use crate::codec::encode;
use crate::codec::process_single_packet;
use crate::codec::spec_channel;
use crate::codec::spec_encode;
use crate::codec::spec_init_cmd;
use crate::codec::spec_is_init;

verus! {

/// The reason a keepalive frame reports to the host.
#[derive(Clone, Copy, PartialEq, Eq, Structural, Debug)]
pub enum KeepaliveStatus {
    /// The authenticator is processing a command.
    Processing,
    /// The authenticator is waiting for user presence.
    UpNeeded,
}

/// The status byte a keepalive frame carries.
pub open spec fn spec_status_byte(status: KeepaliveStatus) -> u8 {
    match status {
        KeepaliveStatus::Processing => 1,
        KeepaliveStatus::UpNeeded => 2,
    }
}

/// Executable form of [`spec_status_byte`].
pub fn status_byte(status: KeepaliveStatus) -> (b: u8)
    ensures
        b == spec_status_byte(status),
{
    match status {
        KeepaliveStatus::Processing => 1,
        KeepaliveStatus::UpNeeded => 2,
    }
}

/// The keepalive message for a channel: the KEEPALIVE command with a single
/// status byte, which fragments into exactly one Init packet.
pub fn keepalive(cid: ChannelID, status: KeepaliveStatus) -> (packets: Vec<Vec<u8>>)
    ensures
        packets@.len() == 1,
        packets@[0]@ == spec_encode(cid, COMMAND_KEEPALIVE, seq![spec_status_byte(status)])[0],
        packets@[0]@.len() == PACKET_SIZE,
{
    let mut payload: Vec<u8> = Vec::new();
    payload.push(status_byte(status));
    assert(payload@ =~= seq![spec_status_byte(status)]);
    let message = Message { cid, cmd: COMMAND_KEEPALIVE, payload };
    encode(&message)
}

/// What the transport reported for one packet-send attempt.
pub enum SendOutcome {
    /// The packet went out.
    Sent,
    /// The send timed out; best-effort signalling, not fatal.
    TimedOut,
    /// The transport failed; the operation aborts.
    Error,
    /// The transport received this packet instead of completing the send.
    Received(Vec<u8>),
}

/// A received packet carried by an outcome is a whole fixed-size packet.
pub open spec fn outcome_wf(o: SendOutcome) -> bool {
    o matches SendOutcome::Received(p) ==> p@.len() == PACKET_SIZE
}

/// Every outcome of a sequence is well formed.
pub open spec fn outcomes_wf(s: Seq<SendOutcome>) -> bool {
    forall|i: int| 0 <= i < s.len() ==> outcome_wf(#[trigger] s[i])
}

/// What one send-attempt outcome means for the keepalive in progress.
#[derive(Clone, Copy, PartialEq, Eq, Structural, Debug)]
pub enum KeepaliveVerdict {
    /// Carry on with the next packet.
    Continue,
    /// A CANCEL frame for the owning channel arrived.
    Cancelled,
    /// The transport is broken.
    Fatal,
}

/// The verdict on one outcome: only an Init packet carrying CANCEL on the
/// owning channel cancels; stray packets for other channels and other
/// commands are discarded; a transport failure is fatal.
pub open spec fn spec_verdict(cid: ChannelID, o: SendOutcome) -> KeepaliveVerdict {
    match o {
        SendOutcome::Sent => KeepaliveVerdict::Continue,
        SendOutcome::TimedOut => KeepaliveVerdict::Continue,
        SendOutcome::Error => KeepaliveVerdict::Fatal,
        SendOutcome::Received(p) => {
            if spec_channel(p@) == cid && spec_is_init(p@) && spec_init_cmd(p@) == COMMAND_CANCEL {
                KeepaliveVerdict::Cancelled
            } else {
                KeepaliveVerdict::Continue
            }
        },
    }
}

/// The result of a keepalive transmission whose send attempts had these
/// outcomes, in order: the first decisive outcome wins.
pub open spec fn spec_keepalive_result(cid: ChannelID, outcomes: Seq<SendOutcome>) -> Result<
    (),
    CtapError,
>
    decreases outcomes.len(),
{
    if outcomes.len() == 0 {
        Ok(())
    } else {
        match spec_verdict(cid, outcomes.first()) {
            KeepaliveVerdict::Continue => spec_keepalive_result(cid, outcomes.drop_first()),
            KeepaliveVerdict::Cancelled => Err(CtapError::Cancelled),
            KeepaliveVerdict::Fatal => Err(CtapError::TransportError),
        }
    }
}

/// Judges one send-attempt outcome.
pub fn keepalive_step(cid: ChannelID, outcome: &SendOutcome) -> (v: KeepaliveVerdict)
    requires
        outcome_wf(*outcome),
    ensures
        v == spec_verdict(cid, *outcome),
{
    match outcome {
        SendOutcome::Sent => KeepaliveVerdict::Continue,
        SendOutcome::TimedOut => KeepaliveVerdict::Continue,
        SendOutcome::Error => KeepaliveVerdict::Fatal,
        SendOutcome::Received(p) => {
            let (ch, frame) = process_single_packet(p);
            if ch != cid {
                KeepaliveVerdict::Continue
            } else {
                match frame {
                    ProcessedPacket::InitPacket { cmd, .. } => {
                        if cmd == COMMAND_CANCEL {
                            KeepaliveVerdict::Cancelled
                        } else {
                            KeepaliveVerdict::Continue
                        }
                    },
                    ProcessedPacket::ContinuationPacket { .. } => KeepaliveVerdict::Continue,
                }
            }
        },
    }
}

/// What one send-attempt outcome means for an ordinary reply being sent by
/// the top-level loop.
#[derive(Clone, Copy, PartialEq, Eq, Structural, Debug)]
pub enum ReplyAction {
    /// Send the next packet of the reply.
    Continue,
    /// The send timed out: the rest of this reply is abandoned, the loop
    /// stays responsive for the next transaction.
    Abandon,
    /// The transport is broken.
    Fatal,
}

/// The verdict on one outcome while sending a reply: a timeout abandons the
/// reply, a transport failure is fatal, and a packet received mid-send is
/// discarded.
pub open spec fn spec_reply_action(o: SendOutcome) -> ReplyAction {
    match o {
        SendOutcome::Sent => ReplyAction::Continue,
        SendOutcome::TimedOut => ReplyAction::Abandon,
        SendOutcome::Error => ReplyAction::Fatal,
        SendOutcome::Received(stray) => ReplyAction::Continue,
    }
}

/// Judges one send-attempt outcome of a reply transmission.
pub fn reply_send_step(outcome: &SendOutcome) -> (a: ReplyAction)
    ensures
        a == spec_reply_action(*outcome),
{
    match outcome {
        SendOutcome::Sent => ReplyAction::Continue,
        SendOutcome::TimedOut => ReplyAction::Abandon,
        SendOutcome::Error => ReplyAction::Fatal,
        SendOutcome::Received(_) => ReplyAction::Continue,
    }
}

/// A run of non-decisive outcomes at the front does not change the result.
proof fn lemma_keepalive_prefix(cid: ChannelID, outcomes: Seq<SendOutcome>, i: int)
    requires
        0 <= i <= outcomes.len(),
        forall|j: int| 0 <= j < i ==> spec_verdict(cid, #[trigger] outcomes[j]) is Continue,
    ensures
        spec_keepalive_result(cid, outcomes) == spec_keepalive_result(
            cid,
            outcomes.subrange(i, outcomes.len() as int),
        ),
    decreases i,
{
    if i > 0 {
        assert(spec_verdict(cid, outcomes.first()) is Continue);
        lemma_keepalive_prefix(cid, outcomes.drop_first(), i - 1);
        assert(outcomes.drop_first().subrange(i - 1, outcomes.drop_first().len() as int)
            =~= outcomes.subrange(i, outcomes.len() as int));
    } else {
        assert(outcomes.subrange(0, outcomes.len() as int) =~= outcomes);
    }
}

/// Cancel precedence: if a CANCEL frame for the owning channel arrives at
/// any point of the transmission and nothing before it was decisive, the
/// whole keepalive ends Cancelled, however many packets had already been
/// sent.
pub proof fn lemma_cancel_precedence(cid: ChannelID, outcomes: Seq<SendOutcome>, i: int)
    requires
        0 <= i < outcomes.len(),
        spec_verdict(cid, outcomes[i]) is Cancelled,
        forall|j: int| 0 <= j < i ==> spec_verdict(cid, #[trigger] outcomes[j]) is Continue,
    ensures
        spec_keepalive_result(cid, outcomes) == Err::<(), CtapError>(CtapError::Cancelled),
{
    lemma_keepalive_prefix(cid, outcomes, i);
    let rest = outcomes.subrange(i, outcomes.len() as int);
    assert(rest.first() == outcomes[i]);
}

/// Transmits the "user presence needed" keepalive on `cid`: one send
/// attempt per packet of the keepalive message, judged in order by the
/// outcomes the transport reported.  Returns `Ok` when no attempt was
/// decisive; `Err(Cancelled)` when a CANCEL frame for `cid` arrived first;
/// `Err(TransportError)` when the transport failed first.  A timed-out send
/// is ignored and the transmission carries on.
pub fn send_keepalive_up_needed(cid: ChannelID, outcomes: &Vec<SendOutcome>) -> (r: Result<
    (),
    CtapError,
>)
    requires
        outcomes_wf(outcomes@),
        outcomes@.len() >= 1,
    ensures
        r == spec_keepalive_result(cid, outcomes@.take(1)),
{
    let packets = keepalive(cid, KeepaliveStatus::UpNeeded);
    let n = packets.len();
    let ghost judged = outcomes@.take(n as int);
    let mut i: usize = 0;
    while i < n
        invariant
            0 <= i <= n,
            n == 1,
            n <= outcomes@.len(),
            judged == outcomes@.take(n as int),
            outcomes_wf(outcomes@),
            forall|j: int| 0 <= j < i ==> spec_verdict(cid, #[trigger] judged[j]) is Continue,
        ensures
            i <= n,
            judged == outcomes@.take(n as int),
            forall|j: int| 0 <= j < i ==> spec_verdict(cid, #[trigger] judged[j]) is Continue,
            i < n ==> !(spec_verdict(cid, judged[i as int]) is Continue)
                && spec_keepalive_result(cid, judged) == (
            if spec_verdict(cid, judged[i as int]) is Cancelled {
                Err::<(), CtapError>(CtapError::Cancelled)
            } else {
                Err::<(), CtapError>(CtapError::TransportError)
            }),
        decreases n - i,
    {
        let verdict = keepalive_step(cid, &outcomes[i]);
        match verdict {
            KeepaliveVerdict::Continue => {
                i = i + 1;
            },
            KeepaliveVerdict::Cancelled => {
                proof {
                    lemma_cancel_precedence(cid, judged, i as int);
                }
                break;
            },
            KeepaliveVerdict::Fatal => {
                proof {
                    lemma_keepalive_prefix(cid, judged, i as int);
                    let rest = judged.subrange(i as int, judged.len() as int);
                    assert(rest.first() == judged[i as int]);
                }
                break;
            },
        }
    }
    if i == n {
        proof {
            lemma_keepalive_prefix(cid, judged, n as int);
            assert(judged.subrange(n as int, judged.len() as int) =~= Seq::<SendOutcome>::empty());
        }
        Ok(())
    } else {
        let verdict = keepalive_step(cid, &outcomes[i]);
        if matches!(verdict, KeepaliveVerdict::Cancelled) {
            Err(CtapError::Cancelled)
        } else {
            Err(CtapError::TransportError)
        }
    }
}

} // verus!
