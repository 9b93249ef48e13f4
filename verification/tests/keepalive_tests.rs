use ctaphid::codec::encode;
use ctaphid::codec::Message;
use ctaphid::codec::COMMAND_CANCEL;
use ctaphid::keepalive::keepalive;
use ctaphid::keepalive::reply_send_step;
use ctaphid::keepalive::ReplyAction;
use ctaphid::keepalive::send_keepalive_up_needed;
use ctaphid::keepalive::KeepaliveStatus;
use ctaphid::keepalive::SendOutcome;
use ctaphid::CtapError;

fn cancel_packet(cid: u32) -> Vec<u8> {
    let message = Message { cid, cmd: COMMAND_CANCEL, payload: Vec::new() };
    let mut packets = encode(&message);
    assert_eq!(packets.len(), 1);
    packets.pop().unwrap()
}

#[test]
fn keepalive_message_is_one_exact_packet() {
    let packets = keepalive(0x01020304, KeepaliveStatus::UpNeeded);
    assert_eq!(packets.len(), 1);
    let p = &packets[0];
    assert_eq!(p.len(), 64);
    assert_eq!(&p[0..4], &[0x01, 0x02, 0x03, 0x04]);
    assert_eq!(p[4], 0xBB); // KEEPALIVE command with the marker bit set
    assert_eq!(p[5], 0);
    assert_eq!(p[6], 1); // one payload byte
    assert_eq!(p[7], 2); // status "user presence needed"
    for k in 8..64 {
        assert_eq!(p[k], 0);
    }
    let processing = keepalive(0x01020304, KeepaliveStatus::Processing);
    assert_eq!(processing[0][7], 1);
}

#[test]
fn successful_send_returns_ok() {
    let outcomes = vec![SendOutcome::Sent];
    assert_eq!(send_keepalive_up_needed(7, &outcomes), Ok(()));
}

#[test]
fn timed_out_send_is_best_effort() {
    let outcomes = vec![SendOutcome::TimedOut];
    assert_eq!(send_keepalive_up_needed(7, &outcomes), Ok(()));
}

#[test]
fn transport_failure_is_fatal() {
    let outcomes = vec![SendOutcome::Error];
    assert_eq!(send_keepalive_up_needed(7, &outcomes), Err(CtapError::TransportError));
}

#[test]
fn cancel_on_own_channel_cancels() {
    let outcomes = vec![SendOutcome::Received(cancel_packet(7))];
    assert_eq!(send_keepalive_up_needed(7, &outcomes), Err(CtapError::Cancelled));
}

#[test]
fn cancel_on_other_channel_is_discarded() {
    let outcomes = vec![SendOutcome::Received(cancel_packet(8))];
    assert_eq!(send_keepalive_up_needed(7, &outcomes), Ok(()));
}

#[test]
fn other_command_on_own_channel_is_discarded() {
    let message = Message { cid: 7, cmd: 0x10, payload: vec![1, 2, 3] };
    let packet = encode(&message).pop().unwrap();
    let outcomes = vec![SendOutcome::Received(packet)];
    assert_eq!(send_keepalive_up_needed(7, &outcomes), Ok(()));
}

#[test]
fn continuation_packet_on_own_channel_is_discarded() {
    let mut raw = vec![0u8; 64];
    raw[3] = 7; // channel 7
    raw[4] = 0; // continuation, sequence number 0
    let outcomes = vec![SendOutcome::Received(raw)];
    assert_eq!(send_keepalive_up_needed(7, &outcomes), Ok(()));
}

#[test]
fn reply_sending_abandons_on_timeout_only() {
    assert_eq!(reply_send_step(&SendOutcome::Sent), ReplyAction::Continue);
    assert_eq!(reply_send_step(&SendOutcome::TimedOut), ReplyAction::Abandon);
    assert_eq!(reply_send_step(&SendOutcome::Error), ReplyAction::Fatal);
    assert_eq!(
        reply_send_step(&SendOutcome::Received(cancel_packet(7))),
        ReplyAction::Continue
    );
}
