use ctaphid::codec::encode;
use ctaphid::codec::process_single_packet;
use ctaphid::codec::Message;
use ctaphid::codec::ProcessedPacket;
use ctaphid::reassembly::MessageAssembler;
use ctaphid::reassembly::ParseOutcome;

fn payload_of_len(len: usize) -> Vec<u8> {
    let mut payload = Vec::new();
    for i in 0..len {
        payload.push((i % 251) as u8);
    }
    payload
}

fn reassemble(packets: &Vec<Vec<u8>>) -> Message {
    let mut assembler = MessageAssembler::new();
    for (k, packet) in packets.iter().enumerate() {
        match assembler.parse_packet(packet) {
            ParseOutcome::Pending => assert!(k + 1 < packets.len(), "ended while pending"),
            ParseOutcome::Done(m) => {
                assert_eq!(k + 1, packets.len(), "done before the last packet");
                return m;
            }
            ParseOutcome::Cancelled(_) => panic!("unexpected cancel"),
            ParseOutcome::Reject { .. } => panic!("unexpected reject"),
        }
    }
    panic!("stream ended while a message was still in flight");
}

#[test]
fn empty_payload_fits_one_packet() {
    let message = Message { cid: 0x01020304, cmd: 0x10, payload: Vec::new() };
    let packets = encode(&message);
    assert_eq!(packets.len(), 1);
    let p = &packets[0];
    assert_eq!(p.len(), 64);
    assert_eq!(&p[0..4], &[0x01, 0x02, 0x03, 0x04]);
    assert_eq!(p[4], 0x90); // command with the marker bit set
    assert_eq!(p[5], 0);
    assert_eq!(p[6], 0);
    for k in 7..64 {
        assert_eq!(p[k], 0);
    }
}

#[test]
fn payload_of_57_bytes_fits_one_packet() {
    let message = Message { cid: 5, cmd: 0x11, payload: payload_of_len(57) };
    let packets = encode(&message);
    assert_eq!(packets.len(), 1);
}

#[test]
fn payload_of_58_bytes_needs_one_continuation() {
    let message = Message { cid: 5, cmd: 0x10, payload: payload_of_len(58) };
    let packets = encode(&message);
    assert_eq!(packets.len(), 2);
    assert_eq!(packets[1][4], 0); // sequence number 0
    assert_eq!(packets[1][5], 57); // 58th payload byte: 57 % 251
    for k in 6..64 {
        assert_eq!(packets[1][k], 0);
    }
}

#[test]
fn fragment_stream_of_200_bytes_has_one_init_and_three_continuations() {
    let payload = payload_of_len(200);
    let message = Message { cid: 0xAABBCCDD, cmd: 0x10, payload: payload.clone() };
    let packets = encode(&message);
    assert_eq!(packets.len(), 4);
    for p in packets.iter() {
        assert_eq!(p.len(), 64);
        assert_eq!(&p[0..4], &[0xAA, 0xBB, 0xCC, 0xDD]);
    }
    assert_eq!(packets[0][4], 0x90);
    assert_eq!(packets[0][5], 0);
    assert_eq!(packets[0][6], 200);
    assert_eq!(packets[1][4], 0);
    assert_eq!(packets[2][4], 1);
    assert_eq!(packets[3][4], 2);

    let rebuilt = reassemble(&packets);
    assert_eq!(rebuilt.cid, 0xAABBCCDD);
    assert_eq!(rebuilt.cmd, 0x10);
    assert_eq!(rebuilt.payload, payload);
}

#[test]
fn round_trip_at_maximum_payload() {
    let payload = payload_of_len(7609);
    let message = Message { cid: 42, cmd: 0x7f, payload: payload.clone() };
    let packets = encode(&message);
    assert_eq!(packets.len(), 129); // 1 Init + 128 continuations
    assert_eq!(packets[128][4], 127); // last sequence number
    let rebuilt = reassemble(&packets);
    assert_eq!(rebuilt.cid, 42);
    assert_eq!(rebuilt.cmd, 0x7f);
    assert_eq!(rebuilt.payload, payload);
}

#[test]
fn round_trip_at_partial_final_fragment() {
    for len in [1usize, 56, 57, 58, 115, 116, 117, 200, 1000] {
        let payload = payload_of_len(len);
        let message = Message { cid: 7, cmd: 0x01, payload: payload.clone() };
        let packets = encode(&message);
        let rebuilt = reassemble(&packets);
        assert_eq!(rebuilt.payload, payload, "length {}", len);
    }
}

#[test]
fn decode_init_packet_fields() {
    let mut raw = vec![0u8; 64];
    raw[0] = 0xDE;
    raw[1] = 0xAD;
    raw[2] = 0xBE;
    raw[3] = 0xEF;
    raw[4] = 0x86; // Init, command 0x06
    raw[5] = 0x01;
    raw[6] = 0x40; // declared length 320
    raw[7] = 0x99;
    raw[63] = 0x77;
    let (cid, frame) = process_single_packet(&raw);
    assert_eq!(cid, 0xDEADBEEF);
    match frame {
        ProcessedPacket::InitPacket { cmd, len, data } => {
            assert_eq!(cmd, 0x06);
            assert_eq!(len, 320);
            assert_eq!(data.len(), 57);
            assert_eq!(data[0], 0x99);
            assert_eq!(data[56], 0x77);
        }
        ProcessedPacket::ContinuationPacket { .. } => panic!("decoded as continuation"),
    }
}

#[test]
fn decode_continuation_packet_fields() {
    let mut raw = vec![0u8; 64];
    raw[0] = 0x00;
    raw[1] = 0x00;
    raw[2] = 0x00;
    raw[3] = 0x2A;
    raw[4] = 0x05; // continuation, sequence number 5
    raw[5] = 0xAB;
    raw[63] = 0xCD;
    let (cid, frame) = process_single_packet(&raw);
    assert_eq!(cid, 42);
    match frame {
        ProcessedPacket::InitPacket { .. } => panic!("decoded as Init"),
        ProcessedPacket::ContinuationPacket { seq, data } => {
            assert_eq!(seq, 5);
            assert_eq!(data.len(), 59);
            assert_eq!(data[0], 0xAB);
            assert_eq!(data[58], 0xCD);
        }
    }
}
