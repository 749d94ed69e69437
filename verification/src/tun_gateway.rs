//! What the gateway decides about the IP packets that it relays.
//!
//! Every packet is looked at for DNS answers. A packet to or from an address
//! that counts as a limited service is throttled, every other packet goes on
//! at once.
use crate::dns::dns_answers;
use crate::limiter::{
    after_all, burst, can_follow, cost, excess, passed_bytes, rate_is_capped, Bucket, Request,
};
use crate::packet::{
    carries_dns, dst_bits, ip_payload, is_ipv4, packet_dest_ipv4, packet_src_ipv4,
    payload_begins_where_the_first_octet_says, src_bits, udp_payload, version_and_length_decide,
};
use crate::qos::{answered, expiry_from, live, looked_up, observed, Qos, CLASSIFICATION_TTL};
use vstd::prelude::*;

verus! {

/// Which way a packet goes.
#[derive(Debug, Clone, Copy, PartialEq, Eq, Structural)]
pub enum Direction {
    /// From the local device into the tunnel.
    Outgoing,
    /// Out of the tunnel to the local device.
    Incoming,
}

/// What is to be done with a packet.
#[derive(Debug, Clone, Copy, PartialEq, Eq, Structural)]
pub enum PacketAction {
    /// Pass it on at once.
    Forward,
    /// Pass it on once the limiter lets its length through.
    Throttle,
}

/// The address that decides: where an outgoing packet goes to, where an
/// incoming packet comes from.
pub open spec fn deciding_address(direction: Direction, packet: Seq<u8>) -> u32 {
    match direction {
        Direction::Outgoing => dst_bits(packet) as u32,
        Direction::Incoming => src_bits(packet) as u32,
    }
}

/// A packet is throttled if its deciding address counts as classified once the
/// packet itself was looked at.
pub open spec fn throttled(
    suffixes: Seq<Seq<char>>,
    expiries: Map<u32, u64>,
    direction: Direction,
    packet: Seq<u8>,
    now: u64,
) -> bool {
    is_ipv4(packet) && live(
        observed(suffixes, expiries, packet, now),
        deciding_address(direction, packet),
        now,
    )
}

/// The expiry times after a packet was relayed.
pub open spec fn relayed(
    suffixes: Seq<Seq<char>>,
    expiries: Map<u32, u64>,
    direction: Direction,
    packet: Seq<u8>,
    now: u64,
) -> Map<u32, u64> {
    let seen = observed(suffixes, expiries, packet, now);
    if is_ipv4(packet) {
        looked_up(seen, deciding_address(direction, packet), now)
    } else {
        seen
    }
}

/// A packet that was relayed.
pub struct Relayed {
    pub direction: Direction,
    pub packet: Seq<u8>,
    pub now: u64,
}

/// What decides on packets where limits are in force.
pub struct Gate {
    pub suffixes: Seq<Seq<char>>,
    pub expiries: Map<u32, u64>,
    pub bucket: Bucket,
}

/// A step on the way of a packet.
pub enum GateStep {
    /// It arrives and is looked at.
    Looked(Relayed),
    /// It was to be throttled, and its length is asked of the limiter.
    Charged { packet: Seq<u8>, now: u64 },
}

impl Gate {
    /// The packet goes on at this step: at once where it is not throttled, else
    /// when the limiter lets its length through.
    pub open spec fn forwards(self, step: GateStep) -> bool {
        match step {
            GateStep::Looked(p) => !throttled(
                self.suffixes,
                self.expiries,
                p.direction,
                p.packet,
                p.now,
            ),
            GateStep::Charged { packet, now } => self.bucket.passes(
                now as int,
                packet.len() as int,
            ),
        }
    }

    /// How things stand after this step.
    pub open spec fn after(self, step: GateStep) -> Gate {
        match step {
            GateStep::Looked(p) => Gate {
                suffixes: self.suffixes,
                expiries: relayed(self.suffixes, self.expiries, p.direction, p.packet, p.now),
                bucket: self.bucket,
            },
            GateStep::Charged { packet, now } => Gate {
                suffixes: self.suffixes,
                expiries: self.expiries,
                bucket: self.bucket.after(now as int, packet.len() as int),
            },
        }
    }
}

/// What decides on packets under `qos`.
pub open spec fn gate_of(qos: Qos) -> Gate {
    Gate {
        suffixes: qos.classifier.suffixes(),
        expiries: qos.classifier.expiries(),
        bucket: qos.limiter@,
    }
}

/// Learns from a packet that is relayed at the time `now` and decides whether
/// it is throttled. Without limits nothing is.
pub fn packet_action(
    qos: &mut Option<Qos>,
    direction: Direction,
    packet: &[u8],
    now: u64,
) -> (action: PacketAction)
    ensures
        match *old(qos) {
            None => *final(qos) is None && action == PacketAction::Forward,
            Some(before) => {
                &&& *final(qos) matches Some(after)
                &&& after.classifier.suffixes() == before.classifier.suffixes()
                &&& after.classifier.expiries() == relayed(
                    before.classifier.suffixes(),
                    before.classifier.expiries(),
                    direction,
                    packet@,
                    now,
                )
                &&& after.limiter == before.limiter
                &&& action == (if throttled(
                    before.classifier.suffixes(),
                    before.classifier.expiries(),
                    direction,
                    packet@,
                    now,
                ) {
                    PacketAction::Throttle
                } else {
                    PacketAction::Forward
                })
                &&& gate_of(after) == gate_of(before).after(
                    GateStep::Looked(Relayed { direction, packet: packet@, now }),
                )
                &&& action == PacketAction::Forward <==> gate_of(before).forwards(
                    GateStep::Looked(Relayed { direction, packet: packet@, now }),
                )
            },
        },
{
    match qos {
        None => PacketAction::Forward,
        Some(qos) => {
            qos.classifier.observe_ipv4_packet(packet, now);
            let address = match direction {
                Direction::Outgoing => packet_dest_ipv4(packet),
                Direction::Incoming => packet_src_ipv4(packet),
            };
            match address {
                None => PacketAction::Forward,
                Some(address) => if qos.classifier.is_classified(address, now) {
                    PacketAction::Throttle
                } else {
                    PacketAction::Forward
                },
            }
        },
    }
}

/// Asks the limiter at the time `now` for the length of a packet that is
/// throttled. `None` lets it go on; `Some(wait)` holds it back, and the same may
/// be asked again `wait` nanoseconds later. Without limits it goes on.
pub fn charge(qos: &mut Option<Qos>, packet: &[u8], now: u64) -> (wait: Option<u128>)
    requires
        *old(qos) matches Some(q) ==> q.limiter@.rate > 0 || q.limiter@.passes(
            now as int,
            packet@.len() as int,
        ),
    ensures
        match *old(qos) {
            None => *final(qos) is None && wait is None,
            Some(before) => {
                &&& *final(qos) matches Some(after)
                &&& after.classifier == before.classifier
                &&& after.limiter@ == before.limiter@.after(now as int, packet@.len() as int)
                &&& match wait {
                    None => before.limiter@.passes(now as int, packet@.len() as int),
                    Some(w) => !before.limiter@.passes(now as int, packet@.len() as int) && w
                        == before.limiter@.wait(now as int, packet@.len() as int) && w > 0,
                }
                &&& gate_of(after) == gate_of(before).after(
                    GateStep::Charged { packet: packet@, now },
                )
                &&& wait is None <==> gate_of(before).forwards(
                    GateStep::Charged { packet: packet@, now },
                )
            },
        },
{
    match qos {
        None => None,
        Some(qos) => qos.limiter.consume(now, packet.len()),
    }
}

/// How things stand after a sequence of steps.
pub open spec fn gate_after(gate: Gate, steps: Seq<GateStep>) -> Gate
    decreases steps.len(),
{
    if steps.len() == 0 {
        gate
    } else {
        gate_after(gate, steps.drop_last()).after(steps.last())
    }
}

/// What is asked of the limiter in a sequence of steps.
pub open spec fn charges(steps: Seq<GateStep>) -> Seq<Request>
    decreases steps.len(),
{
    if steps.len() == 0 {
        seq![]
    } else {
        let earlier = charges(steps.drop_last());
        match steps.last() {
            GateStep::Looked(_) => earlier,
            GateStep::Charged { packet, now } => earlier.push(
                Request { now: now as int, bytes: packet.len() as int },
            ),
        }
    }
}

/// The bytes of throttled packets that go on in a sequence of steps.
pub open spec fn throttled_bytes(gate: Gate, steps: Seq<GateStep>) -> int
    decreases steps.len(),
{
    if steps.len() == 0 {
        0
    } else {
        let before = gate_after(gate, steps.drop_last());
        throttled_bytes(gate, steps.drop_last()) + match steps.last() {
            GateStep::Looked(_) => 0,
            GateStep::Charged { packet, .. } => if before.forwards(steps.last()) {
                packet.len() as int
            } else {
                0
            },
        }
    }
}

/// The limiter sees the charges and nothing else, and lets through just the
/// throttled packets that go on.
proof fn lemma_limiter_sees_charges(gate: Gate, steps: Seq<GateStep>)
    ensures
        gate_after(gate, steps).bucket == after_all(gate.bucket, charges(steps)),
        throttled_bytes(gate, steps) == passed_bytes(gate.bucket, charges(steps)),
    decreases steps.len(),
{
    if steps.len() > 0 {
        let earlier = steps.drop_last();
        lemma_limiter_sees_charges(gate, earlier);
        if let GateStep::Charged { packet, now } = steps.last() {
            assert(charges(steps).drop_last() =~= charges(earlier));
        }
    }
}

/// Traffic of limited services is held to the rate: whatever else is relayed
/// meanwhile, over any stretch in which the first and the last charge let their
/// packets go on, no more bytes of throttled packets go on than one burst, what
/// the rate allows from the first to the last charge, and what the last packet
/// exceeds a burst by.
pub proof fn throttled_traffic_is_capped(gate: Gate, steps: Seq<GateStep>)
    requires
        gate.bucket.wf(),
        can_follow(gate.bucket, charges(steps)),
        charges(steps).len() > 0,
        gate.bucket.passes(charges(steps)[0].now, charges(steps)[0].bytes),
        after_all(gate.bucket, charges(steps).drop_last()).passes(
            charges(steps).last().now,
            charges(steps).last().bytes,
        ),
    ensures
        cost(throttled_bytes(gate, steps)) <= burst(gate.bucket.rate) + (charges(steps).last().now
            - charges(steps)[0].now) * gate.bucket.rate + excess(
            charges(steps).last().bytes,
            gate.bucket.rate,
        ),
{
    lemma_limiter_sees_charges(gate, steps);
    rate_is_capped(gate.bucket, charges(steps));
}

/// The expiry times after a sequence of packets was relayed.
pub open spec fn relayed_all(
    suffixes: Seq<Seq<char>>,
    expiries: Map<u32, u64>,
    packets: Seq<Relayed>,
) -> Map<u32, u64>
    decreases packets.len(),
{
    if packets.len() == 0 {
        expiries
    } else {
        let p = packets.last();
        relayed(
            suffixes,
            relayed_all(suffixes, expiries, packets.drop_last()),
            p.direction,
            p.packet,
            p.now,
        )
    }
}

/// `packet` carries a DNS answer that gives `address` for a limited service.
pub open spec fn announces(suffixes: Seq<Seq<char>>, packet: Seq<u8>, address: u32) -> bool {
    carries_dns(packet) && (dns_answers(udp_payload(ip_payload(packet))) matches Some(answers)
        && answered(suffixes, answers, address))
}

/// Other traffic is never throttled: as long as no packet has announced an
/// address, no packet to or from it is held back.
pub proof fn unannounced_is_never_throttled(
    suffixes: Seq<Seq<char>>,
    packets: Seq<Relayed>,
    direction: Direction,
    packet: Seq<u8>,
    now: u64,
)
    requires
        forall|i: int|
            0 <= i < packets.len() ==> !#[trigger] announces(
                suffixes,
                packets[i].packet,
                deciding_address(direction, packet),
            ),
        !announces(suffixes, packet, deciding_address(direction, packet)),
    ensures
        !throttled(
            suffixes,
            relayed_all(suffixes, Map::empty(), packets),
            direction,
            packet,
            now,
        ),
{
    lemma_unannounced_is_unknown(suffixes, packets, deciding_address(direction, packet));
}

/// An address that no packet has announced is not known.
proof fn lemma_unannounced_is_unknown(
    suffixes: Seq<Seq<char>>,
    packets: Seq<Relayed>,
    address: u32,
)
    requires
        forall|i: int|
            0 <= i < packets.len() ==> !#[trigger] announces(suffixes, packets[i].packet, address),
    ensures
        !relayed_all(suffixes, Map::empty(), packets).contains_key(address),
    decreases packets.len(),
{
    if packets.len() > 0 {
        let earlier = packets.drop_last();
        assert forall|i: int| 0 <= i < earlier.len() implies !#[trigger] announces(
            suffixes,
            earlier[i].packet,
            address,
        ) by {
            assert(earlier[i] == packets[i]);
        }
        lemma_unannounced_is_unknown(suffixes, earlier, address);
        assert(!announces(suffixes, packets[packets.len() - 1].packet, address));
    }
}

/// Traffic of a limited service is throttled: once a packet has announced an
/// address, every packet to or from it is held to the limit for an hour,
/// whatever else is relayed meanwhile.
pub proof fn announced_is_throttled_for_an_hour(
    suffixes: Seq<Seq<char>>,
    expiries: Map<u32, u64>,
    announcement: Relayed,
    packets: Seq<Relayed>,
    direction: Direction,
    packet: Seq<u8>,
    now: u64,
)
    requires
        is_ipv4(packet),
        announces(suffixes, announcement.packet, deciding_address(direction, packet)),
        now <= announcement.now + CLASSIFICATION_TTL,
        announcement.now <= now,
        forall|i: int|
            0 <= i < packets.len() ==> announcement.now <= (#[trigger] packets[i]).now <= now,
    ensures
        throttled(
            suffixes,
            relayed_all(
                suffixes,
                relayed(
                    suffixes,
                    expiries,
                    announcement.direction,
                    announcement.packet,
                    announcement.now,
                ),
                packets,
            ),
            direction,
            packet,
            now,
        ),
{
    let address = deciding_address(direction, packet);
    let start = relayed(
        suffixes,
        expiries,
        announcement.direction,
        announcement.packet,
        announcement.now,
    );
    assert(start.contains_key(address) && start[address] >= expiry_from(announcement.now));
    lemma_entry_stays(suffixes, start, packets, address, announcement.now, now);
}

/// An entry that has not expired stays while packets are relayed.
proof fn lemma_entry_stays(
    suffixes: Seq<Seq<char>>,
    expiries: Map<u32, u64>,
    packets: Seq<Relayed>,
    address: u32,
    from: u64,
    now: u64,
)
    requires
        expiries.contains_key(address),
        expiries[address] >= expiry_from(from),
        now <= from + CLASSIFICATION_TTL,
        forall|i: int| 0 <= i < packets.len() ==> from <= (#[trigger] packets[i]).now <= now,
    ensures
        relayed_all(suffixes, expiries, packets).contains_key(address),
        relayed_all(suffixes, expiries, packets)[address] >= expiry_from(from),
    decreases packets.len(),
{
    if packets.len() > 0 {
        let earlier = packets.drop_last();
        assert forall|i: int| 0 <= i < earlier.len() implies from <= (#[trigger] earlier[i]).now
            <= now by {
            assert(earlier[i] == packets[i]);
        }
        lemma_entry_stays(suffixes, expiries, earlier, address, from, now);
        assert(from <= packets[packets.len() - 1].now <= now);
    }
}

/// What announces an address is an IPv4 packet with a datagram from or to the
/// DNS port, with an A record in it that gives the address for a matching name.
pub proof fn announcement_is_a_dns_answer(
    suffixes: Seq<Seq<char>>,
    packet: Seq<u8>,
    address: u32,
)
    requires
        announces(suffixes, packet, address),
    ensures
        packet.len() >= 20,
        64 <= packet[0] <= 79,
        packet[9] == 17,
        packet.len() >= 4 * (packet[0] - 64) + 8,
        ({
            let at = 4 * (packet[0] - 64);
            packet[at] * 256 + packet[at + 1] == 53 || packet[at + 2] * 256 + packet[at + 3] == 53
        }),
        dns_answers(packet.skip(4 * (packet[0] - 64) + 8)) matches Some(answers) && exists|i: int|
            0 <= i < answers.len() && (#[trigger] answers[i]).1 == Some(address) && crate::qos::matches(
                suffixes,
                answers[i].0,
            ),
{
    payload_begins_where_the_first_octet_says(packet);
    let at = 4 * (packet[0] - 64);
    assert(udp_payload(ip_payload(packet)) =~= packet.skip(at + 8));
    let answers = dns_answers(packet.skip(at + 8))->0;
    let i = choose|i: int|
        0 <= i < answers.len() && #[trigger] crate::qos::matches(suffixes, answers[i].0) && answers[i].1
            == Some(address);
    assert(answers[i].1 == Some(address));
}

/// The address that decides is the destination of an outgoing packet and the
/// source of an incoming one.
pub proof fn far_end_decides(packet: Seq<u8>)
    requires
        packet.len() >= 20,
    ensures
        deciding_address(Direction::Outgoing, packet) == packet[16] * 16777216 + packet[17] * 65536
            + packet[18] * 256 + packet[19],
        deciding_address(Direction::Incoming, packet) == packet[12] * 16777216 + packet[13] * 65536
            + packet[14] * 256 + packet[15],
{
}

/// A DNS answer for a limited service, and any IPv4 packet to or from the
/// answered address in the hour after it: the packet is throttled, whatever its
/// other octets hold and whatever else was relayed between the two.
pub proof fn service_packets_are_throttled(
    suffixes: Seq<Seq<char>>,
    expiries: Map<u32, u64>,
    announcement: Relayed,
    answers: Seq<(Seq<char>, Option<u32>)>,
    i: int,
    packets: Seq<Relayed>,
    direction: Direction,
    packet: Seq<u8>,
    now: u64,
)
    requires
        ({
            let reply = announcement.packet;
            let at = 4 * (reply[0] - 64);
            &&& reply.len() >= 20
            &&& 64 <= reply[0] <= 79
            &&& reply[9] == 17
            &&& reply.len() >= at + 8
            &&& reply[at] * 256 + reply[at + 1] == 53 || reply[at + 2] * 256 + reply[at + 3] == 53
            &&& dns_answers(reply.skip(at + 8)) == Some(answers)
        }),
        0 <= i < answers.len(),
        crate::qos::matches(suffixes, answers[i].0),
        answers[i].1 is Some,
        packet.len() >= 20,
        64 <= packet[0] <= 79,
        packet.len() >= 4 * (packet[0] - 64),
        answers[i].1->0 == (match direction {
            Direction::Outgoing => packet[16] * 16777216 + packet[17] * 65536 + packet[18] * 256
                + packet[19],
            Direction::Incoming => packet[12] * 16777216 + packet[13] * 65536 + packet[14] * 256
                + packet[15],
        }),
        announcement.now <= now <= announcement.now + 3_600_000_000_000,
        forall|k: int|
            0 <= k < packets.len() ==> announcement.now <= (#[trigger] packets[k]).now <= now,
    ensures
        throttled(
            suffixes,
            relayed_all(
                suffixes,
                relayed(
                    suffixes,
                    expiries,
                    announcement.direction,
                    announcement.packet,
                    announcement.now,
                ),
                packets,
            ),
            direction,
            packet,
            now,
        ),
{
    let reply = announcement.packet;
    let at = 4 * (reply[0] - 64);
    payload_begins_where_the_first_octet_says(reply);
    version_and_length_decide(reply);
    version_and_length_decide(packet);
    far_end_decides(packet);
    assert(udp_payload(ip_payload(reply)) =~= reply.skip(at + 8));
    assert(answered(suffixes, answers, answers[i].1->0));
    assert(announces(suffixes, reply, deciding_address(direction, packet)));
    announced_is_throttled_for_an_hour(
        suffixes,
        expiries,
        announcement,
        packets,
        direction,
        packet,
        now,
    );
}

/// Nothing else is throttled: a packet is only held back if its deciding address
/// was announced, by the packet itself or by one that was relayed no more than
/// an hour before.
pub proof fn throttled_only_after_an_announcement(
    suffixes: Seq<Seq<char>>,
    packets: Seq<Relayed>,
    direction: Direction,
    packet: Seq<u8>,
    now: u64,
)
    requires
        throttled(suffixes, relayed_all(suffixes, Map::empty(), packets), direction, packet, now),
    ensures
        packet.len() >= 20,
        64 <= packet[0] <= 79,
        announces(suffixes, packet, deciding_address(direction, packet)) || exists|i: int|
            0 <= i < packets.len() && now <= (#[trigger] packets[i]).now + 3_600_000_000_000
                && announces(suffixes, packets[i].packet, deciding_address(direction, packet)),
{
    let address = deciding_address(direction, packet);
    if !announces(suffixes, packet, address) {
        lemma_known_was_announced(suffixes, packets, address);
    }
}

/// An address that is known was announced an hour before its expiry.
proof fn lemma_known_was_announced(suffixes: Seq<Seq<char>>, packets: Seq<Relayed>, address: u32)
    requires
        relayed_all(suffixes, Map::empty(), packets).contains_key(address),
    ensures
        exists|i: int|
            0 <= i < packets.len() && relayed_all(suffixes, Map::empty(), packets)[address] <= (
            #[trigger] packets[i]).now + 3_600_000_000_000 && announces(
                suffixes,
                packets[i].packet,
                address,
            ),
    decreases packets.len(),
{
    if packets.len() > 0 {
        let earlier = packets.drop_last();
        let n = packets.len() - 1;
        assert(packets[n] == packets.last());
        if !announces(suffixes, packets[n].packet, address) {
            lemma_known_was_announced(suffixes, earlier, address);
            let known = relayed_all(suffixes, Map::empty(), earlier);
            let i = choose|i: int|
                0 <= i < earlier.len() && known[address] <= (#[trigger] earlier[i]).now
                    + 3_600_000_000_000 && announces(suffixes, earlier[i].packet, address);
            assert(earlier[i] == packets[i]);
        }
    }
}

/// Looking at a packet touches no tokens and lets it go on at once unless it is
/// throttled; asking the limiter touches no address and charges the packet's
/// length.
pub proof fn steps_keep_apart(gate: Gate, p: Relayed, packet: Seq<u8>, now: u64)
    ensures
        gate.after(GateStep::Looked(p)).bucket == gate.bucket,
        gate.after(GateStep::Looked(p)).suffixes == gate.suffixes,
        gate.forwards(GateStep::Looked(p)) <==> !throttled(
            gate.suffixes,
            gate.expiries,
            p.direction,
            p.packet,
            p.now,
        ),
        gate.after(GateStep::Charged { packet, now }).expiries == gate.expiries,
        gate.after(GateStep::Charged { packet, now }).suffixes == gate.suffixes,
        gate.after(GateStep::Charged { packet, now }).bucket == gate.bucket.after(
            now as int,
            packet.len() as int,
        ),
        gate.forwards(GateStep::Charged { packet, now }) <==> gate.bucket.passes(
            now as int,
            packet.len() as int,
        ),
{
}

/// Every throttled packet that goes on is counted with its length, and every
/// charge is asked of the limiter.
pub proof fn every_charge_counts(
    gate: Gate,
    steps: Seq<GateStep>,
    p: Relayed,
    packet: Seq<u8>,
    now: u64,
)
    ensures
        throttled_bytes(gate, steps.push(GateStep::Looked(p))) == throttled_bytes(gate, steps),
        charges(steps.push(GateStep::Looked(p))) == charges(steps),
        throttled_bytes(gate, steps.push(GateStep::Charged { packet, now })) - throttled_bytes(
            gate,
            steps,
        ) == (if gate_after(gate, steps).bucket.passes(now as int, packet.len() as int) {
            packet.len() as int
        } else {
            0
        }),
        charges(steps.push(GateStep::Charged { packet, now })) == charges(steps).push(
            Request { now: now as int, bytes: packet.len() as int },
        ),
{
    assert(steps.push(GateStep::Looked(p)).drop_last() =~= steps);
    assert(steps.push(GateStep::Charged { packet, now }).drop_last() =~= steps);
}

} // verus!
