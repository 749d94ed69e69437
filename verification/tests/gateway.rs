use rs_linkfusion::accel::{AccelBackend, PayloadAccelerator};
use rs_linkfusion::framed::read_frame;
use rs_linkfusion::packet::Ipv4Addr;
use rs_linkfusion::qos::{Qos, QosConfig, CLASSIFICATION_TTL};
use rs_linkfusion::relay::{relay_chunk, ChunkStep, GatewayAction, CHUNK_SIZE};
use rs_linkfusion::tun_gateway::{charge, packet_action, Direction, PacketAction};

const SERVICE: [u8; 4] = [45, 57, 3, 1];

fn packet(src: [u8; 4], dst: [u8; 4]) -> Vec<u8> {
    let mut bytes = vec![0x45, 0, 0, 0, 0, 0, 0, 0, 64, 6, 0, 0];
    bytes.extend_from_slice(&src);
    bytes.extend_from_slice(&dst);
    bytes
}

/// A DNS answer that gives `address` for `service.example`.
fn announcement(address: [u8; 4]) -> Vec<u8> {
    let mut bytes = packet([8, 8, 8, 8], [10, 66, 0, 2]);
    bytes[9] = 17;
    bytes.extend_from_slice(&[0, 53, 0x9C, 0x40, 0, 0, 0, 0]);
    bytes.extend_from_slice(&[0, 1, 0x81, 0x80, 0, 0, 0, 1, 0, 0, 0, 0]);
    bytes.extend_from_slice(b"\x07service\x07example\x00");
    bytes.extend_from_slice(&[0, 1, 0, 1, 0, 0, 0, 60, 0, 4]);
    bytes.extend_from_slice(&address);
    bytes
}

fn limits() -> Option<Qos> {
    let config = QosConfig {
        streaming_suffixes: vec!["example".to_string()],
        streaming_rate_bps: 8_000_000,
    };
    Some(Qos::new(config, 0))
}

#[test]
fn without_limits_everything_is_forwarded() {
    let mut none: Option<Qos> = None;
    let seen = announcement(SERVICE);
    assert_eq!(
        packet_action(&mut none, Direction::Incoming, &seen, 0),
        PacketAction::Forward
    );
    let out = packet([10, 66, 0, 2], SERVICE);
    assert_eq!(packet_action(&mut none, Direction::Outgoing, &out, 0), PacketAction::Forward);
    assert!(none.is_none());
}

#[test]
fn service_traffic_is_throttled_for_an_hour_in_both_directions() {
    let mut qos = limits();
    let out = packet([10, 66, 0, 2], SERVICE);
    let back = packet(SERVICE, [10, 66, 0, 2]);
    assert_eq!(packet_action(&mut qos, Direction::Outgoing, &out, 0), PacketAction::Forward);
    let seen = announcement(SERVICE);
    assert_eq!(packet_action(&mut qos, Direction::Incoming, &seen, 7), PacketAction::Forward);
    for now in [7, 8, 7 + CLASSIFICATION_TTL] {
        assert_eq!(
            packet_action(&mut qos, Direction::Outgoing, &out, now),
            PacketAction::Throttle
        );
        assert_eq!(
            packet_action(&mut qos, Direction::Incoming, &back, now),
            PacketAction::Throttle
        );
        // The other end of the packet does not decide.
        assert_eq!(
            packet_action(&mut qos, Direction::Incoming, &out, now),
            PacketAction::Forward
        );
        assert_eq!(
            packet_action(&mut qos, Direction::Outgoing, &back, now),
            PacketAction::Forward
        );
    }
    let late = 8 + CLASSIFICATION_TTL;
    assert_eq!(packet_action(&mut qos, Direction::Outgoing, &out, late), PacketAction::Forward);
}

#[test]
fn other_traffic_is_never_throttled() {
    let mut qos = limits();
    let seen = announcement(SERVICE);
    packet_action(&mut qos, Direction::Incoming, &seen, 0);
    for last in 0..=255u8 {
        if last != SERVICE[3] {
            let out = packet([10, 66, 0, 2], [45, 57, 3, last]);
            assert_eq!(
                packet_action(&mut qos, Direction::Outgoing, &out, 1),
                PacketAction::Forward
            );
        }
    }
    assert_eq!(
        packet_action(&mut qos, Direction::Outgoing, b"no packet", 1),
        PacketAction::Forward
    );
    assert_eq!(qos.unwrap().limiter.consume(1, 500_000), None);
}

#[test]
fn answer_that_announces_its_own_sender_is_throttled_itself() {
    let mut qos = limits();
    let seen = announcement([8, 8, 8, 8]);
    assert_eq!(packet_action(&mut qos, Direction::Incoming, &seen, 0), PacketAction::Throttle);
    assert!(qos.unwrap().classifier.is_classified(Ipv4Addr::new(8, 8, 8, 8), 0));
}

#[test]
fn chunks_come_out_on_the_other_side() {
    let accel = PayloadAccelerator::new(AccelBackend::Cpu, &[2u8; 32]);
    let data: Vec<u8> = (0..40_000u32).map(|i| (i * 31 % 251) as u8).collect();
    let mut tunnel = Vec::new();
    let mut buf = vec![0u8; CHUNK_SIZE];
    for chunk in data.chunks(CHUNK_SIZE) {
        buf[..chunk.len()].copy_from_slice(chunk);
        match relay_chunk(&accel, &buf, chunk.len()) {
            ChunkStep::Send(frame) => {
                tunnel.extend_from_slice(&frame.header);
                tunnel.extend_from_slice(&frame.body);
            }
            _ => panic!("a frame was expected"),
        }
    }
    let mut out = Vec::new();
    let mut at = 0;
    while let Some((payload, used)) = read_frame(&accel, &tunnel[at..]).unwrap() {
        out.extend(payload);
        at += used;
    }
    assert_eq!(out, data);
}

#[test]
fn no_bytes_end_the_relay() {
    let accel = PayloadAccelerator::new(AccelBackend::Cpu, &[2u8; 32]);
    assert!(matches!(relay_chunk(&accel, &[1, 2, 3], 0), ChunkStep::End));
    assert!(matches!(relay_chunk(&accel, &[1, 2, 3], 2), ChunkStep::Send(_)));
    assert_eq!(CHUNK_SIZE, 16 * 1024);
}

#[test]
fn client_connects_again_and_again() {
    assert_eq!(GatewayAction::first(), GatewayAction::Connect);
    assert_eq!(GatewayAction::Connect.after(true), GatewayAction::Relay);
    assert_eq!(GatewayAction::Connect.after(false), GatewayAction::Wait);
    for succeeded in [false, true] {
        assert_eq!(GatewayAction::Relay.after(succeeded), GatewayAction::Wait);
        assert_eq!(GatewayAction::Wait.after(succeeded), GatewayAction::Connect);
    }
    let mut attempts = 0;
    let mut action = GatewayAction::first();
    for step in 0..30u32 {
        if action == GatewayAction::Connect {
            attempts += 1;
        }
        action = action.after(step % 7 < 3);
    }
    assert!(attempts >= 10);
}

#[test]
fn throttled_packet_is_charged_its_own_length() {
    let mut qos = limits();
    let mut big = packet([10, 66, 0, 2], SERVICE);
    big.resize(400_000, 0);
    assert_eq!(charge(&mut qos, &big, 0), None);
    // 100,000 bytes are left, one byte comes in per microsecond.
    assert_eq!(charge(&mut qos, &big, 0), Some(300_000_000));
    assert_eq!(charge(&mut qos, &big, 300_000_000 - 1), Some(1));
    assert_eq!(charge(&mut qos, &big, 300_000_000), None);
    assert_eq!(qos.unwrap().limiter.consume(300_000_000, 1), Some(1_000));
    let mut none: Option<Qos> = None;
    assert_eq!(charge(&mut none, &big, 0), None);
    assert!(none.is_none());
}

#[test]
fn throttled_traffic_keeps_to_the_rate_while_other_traffic_flows() {
    let mut qos = limits();
    let mut out = packet([10, 66, 0, 2], SERVICE);
    out.resize(1_400, 0);
    let other = packet([10, 66, 0, 2], [1, 1, 1, 1]);
    packet_action(&mut qos, Direction::Incoming, &announcement(SERVICE), 0);
    let mut passed: u64 = 0;
    for step in 0..2_000u64 {
        let now = step * 1_000_000;
        assert_eq!(
            packet_action(&mut qos, Direction::Outgoing, &other, now),
            PacketAction::Forward
        );
        assert_eq!(
            packet_action(&mut qos, Direction::Outgoing, &out, now),
            PacketAction::Throttle
        );
        if charge(&mut qos, &out, now).is_none() {
            passed += 1_400;
        }
    }
    assert!(passed <= 500_000 + 1_999_000);
    assert!(passed >= 1_999_000);
}
