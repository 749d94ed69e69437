use rs_linkfusion::dns::DnsAnswer;
use rs_linkfusion::packet::Ipv4Addr;
use rs_linkfusion::qos::{
    load_qos, matches_any, Classifier, Qos, QosConfig, QosPlan, CLASSIFICATION_TTL,
};

const SECOND: u64 = 1_000_000_000;

/// A DNS reply with the records `(name, type, data)`.
fn dns_reply(records: &[(&str, u16, &[u8])]) -> Vec<u8> {
    let mut bytes = vec![0x12, 0x34, 0x81, 0x80, 0, 0, 0, records.len() as u8, 0, 0, 0, 0];
    for (name, kind, data) in records {
        for label in name.split('.') {
            bytes.push(label.len() as u8);
            bytes.extend_from_slice(label.as_bytes());
        }
        bytes.push(0);
        bytes.extend_from_slice(&kind.to_be_bytes());
        bytes.extend_from_slice(&[0, 1, 0, 0, 0, 60]);
        bytes.extend_from_slice(&(data.len() as u16).to_be_bytes());
        bytes.extend_from_slice(data);
    }
    bytes
}

/// An IPv4 packet with a UDP datagram between the ports.
fn udp_packet(proto: u8, src_port: u16, dst_port: u16, data: &[u8]) -> Vec<u8> {
    let mut bytes = vec![0x45, 0, 0, 0, 0, 0, 0, 0, 64, proto, 0, 0, 8, 8, 8, 8, 10, 66, 0, 2];
    bytes.extend_from_slice(&src_port.to_be_bytes());
    bytes.extend_from_slice(&dst_port.to_be_bytes());
    bytes.extend_from_slice(&[0, 0, 0, 0]);
    bytes.extend_from_slice(data);
    bytes
}

fn netflix() -> Classifier {
    Classifier::new(vec!["netflix.com".to_string()])
}

#[test]
fn suffix_matching_is_exact_or_subdomain_only() {
    let c = Classifier::new(vec!["netflix.com".to_string()]);
    assert!(c.matches_suffix("netflix.com"));
    assert!(c.matches_suffix("www.netflix.com"));
    assert!(c.matches_suffix("ipv4-c001-nrt001.1.oca.nflxvideo.net.netflix.com"));
    assert!(!c.matches_suffix("notnetflix.com"));
    assert!(!c.matches_suffix("example.com"));
}

#[test]
fn classified_entries_expire() {
    let mut c = Classifier::new(vec!["example.com".to_string()]);
    let ip = Ipv4Addr::new(93, 184, 216, 34);
    let now = 10 * SECOND;
    c.classify(ip, now - SECOND);
    assert!(!c.is_classified(ip, now));
}

#[test]
fn case_and_final_dots_make_no_difference() {
    let c = Classifier::new(vec!["NetFlix.COM".to_string()]);
    assert!(c.matches_suffix("WWW.NETFLIX.com"));
    assert!(c.matches_suffix("netflix.com."));
    assert!(c.matches_suffix("netflix.com..."));
    assert!(!c.matches_suffix("netflix.com.example"));
    let umlaut = Classifier::new(vec!["BÜCHER.example".to_string()]);
    assert!(umlaut.matches_suffix("bücher.EXAMPLE"));
}

#[test]
fn names_below_a_matching_name_match() {
    let suffixes = vec!["qobuz.com".to_string()];
    assert!(matches_any("static.qobuz.com", &suffixes));
    assert!(matches_any("a.static.qobuz.com", &suffixes));
    assert!(!matches_any("com", &suffixes));
    assert!(!matches_any("qobuz.com.example", &suffixes));
    assert!(!matches_any("staticqobuz.com", &suffixes));
    assert!(!matches_any("qobuz.com", &vec![]));
}

#[test]
fn empty_suffix_matches_what_ends_in_a_dot() {
    let suffixes = vec![String::new()];
    assert!(matches_any("", &suffixes));
    assert!(matches_any("name.", &suffixes));
    assert!(!matches_any("name", &suffixes));
}

#[test]
fn answered_address_is_classified_for_one_hour() {
    let mut c = netflix();
    let now = 5 * SECOND;
    let ip = Ipv4Addr::new(45, 57, 3, 1);
    let reply = dns_reply(&[("www.netflix.com", 1, &[45, 57, 3, 1])]);
    c.observe_ipv4_packet(&udp_packet(17, 53, 40_000, &reply), now);
    assert!(c.is_classified(ip, now));
    assert!(c.is_classified(ip, now + CLASSIFICATION_TTL));
    assert!(!c.is_classified(ip, now + CLASSIFICATION_TTL + 1));
    // What has expired is forgotten.
    assert!(!c.is_classified(ip, now));
    assert_eq!(CLASSIFICATION_TTL, 3600 * SECOND);
}

#[test]
fn only_address_records_of_matching_names_count() {
    let mut c = netflix();
    let reply = dns_reply(&[
        ("example.com", 1, &[93, 184, 216, 34]),
        ("www.netflix.com", 28, &[0, 1, 2, 3, 4, 5, 6, 7, 8, 9, 10, 11, 12, 13, 14, 15]),
        ("api.netflix.com", 1, &[45, 57, 3, 2]),
        ("NETFLIX.com", 1, &[45, 57, 3, 3]),
    ]);
    c.observe_ipv4_packet(&udp_packet(17, 53, 40_000, &reply), 0);
    assert!(!c.is_classified(Ipv4Addr::new(93, 184, 216, 34), 0));
    assert!(!c.is_classified(Ipv4Addr::new(0, 1, 2, 3), 0));
    assert!(c.is_classified(Ipv4Addr::new(45, 57, 3, 2), 0));
    assert!(c.is_classified(Ipv4Addr::new(45, 57, 3, 3), 0));
}

#[test]
fn either_port_may_be_the_dns_port() {
    let reply = dns_reply(&[("netflix.com", 1, &[45, 57, 3, 1])]);
    let ip = Ipv4Addr::new(45, 57, 3, 1);
    for (proto, src, dst, learned) in [
        (17u8, 53u16, 40_000u16, true),
        (17, 40_000, 53, true),
        (17, 40_000, 5353, false),
        (6, 53, 40_000, false),
    ] {
        let mut c = netflix();
        c.observe_ipv4_packet(&udp_packet(proto, src, dst, &reply), 0);
        assert_eq!(c.is_classified(ip, 0), learned);
    }
}

#[test]
fn what_is_no_dns_message_is_ignored() {
    let mut c = netflix();
    let whole = udp_packet(17, 53, 40_000, &dns_reply(&[("netflix.com", 1, &[45, 57, 3, 1])]));
    c.observe_ipv4_packet(b"", 0);
    c.observe_ipv4_packet(&whole[..19], 0);
    c.observe_ipv4_packet(&whole[..27], 0);
    c.observe_ipv4_packet(&whole[..whole.len() - 1], 0);
    c.observe_ipv4_packet(&udp_packet(17, 53, 40_000, b"no message"), 0);
    let mut ipv6 = whole.clone();
    ipv6[0] = 0x65;
    c.observe_ipv4_packet(&ipv6, 0);
    assert!(!c.is_classified(Ipv4Addr::new(45, 57, 3, 1), 0));
}

#[test]
fn later_answers_prolong_the_classification() {
    let mut c = netflix();
    let ip = Ipv4Addr::new(45, 57, 3, 1);
    let answers = vec![
        DnsAnswer { name: "netflix.com.".to_string(), address: Some(ip.bits) },
        DnsAnswer { name: "netflix.com".to_string(), address: None },
    ];
    c.classify_answers(&answers, 0);
    c.classify_answers(&answers, 1_000 * SECOND);
    assert!(c.is_classified(ip, 1_000 * SECOND + CLASSIFICATION_TTL));
    assert!(!c.is_classified(Ipv4Addr::new(0, 0, 0, 0), 0));
}

#[test]
fn classification_lasts_to_the_end_of_the_clock() {
    let mut c = netflix();
    let ip = Ipv4Addr::new(45, 57, 3, 1);
    let reply = dns_reply(&[("netflix.com", 1, &[45, 57, 3, 1])]);
    c.observe_ipv4_packet(&udp_packet(17, 53, 40_000, &reply), u64::MAX - 1);
    assert!(c.is_classified(ip, u64::MAX));
}

#[test]
fn looking_up_one_address_leaves_the_others() {
    let mut c = netflix();
    let gone = Ipv4Addr::new(1, 1, 1, 1);
    let here = Ipv4Addr::new(2, 2, 2, 2);
    c.classify(gone, 5);
    c.classify(here, 20);
    assert!(!c.is_classified(gone, 10));
    assert!(c.is_classified(here, 10));
    assert!(c.is_classified(here, 20));
}

#[test]
fn preset_names_the_common_services() {
    let preset = QosConfig::default_streaming_preset();
    assert_eq!(preset.streaming_suffixes.len(), 23);
    assert_eq!(preset.streaming_suffixes[0], "netflix.com");
    assert_eq!(preset.streaming_suffixes[17], "qobuz.com");
    assert_eq!(preset.streaming_suffixes[22], "amazonmusic.com");
    assert_eq!(preset.streaming_rate_bps, 10_000_000);
}

#[test]
fn option_decides_on_the_limits() {
    assert!(matches!(load_qos(None, 0), QosPlan::Off));
    match load_qos(Some("default"), 0) {
        QosPlan::Ready(mut qos) => {
            assert!(qos.classifier.matches_suffix("play.spotify.com"));
            assert_eq!(qos.limiter.consume(0, 625_000), None);
            assert_eq!(qos.limiter.consume(0, 1), Some(800));
        }
        _ => panic!("the preset was expected"),
    }
    match load_qos(Some("Default"), 0) {
        QosPlan::ReadFile(path) => assert_eq!(path, "Default"),
        _ => panic!("a path was expected"),
    }
    match load_qos(Some("qos.toml"), 0) {
        QosPlan::ReadFile(path) => assert_eq!(path, "qos.toml"),
        _ => panic!("a path was expected"),
    }
}

#[test]
fn limits_follow_the_configuration() {
    let config = QosConfig {
        streaming_suffixes: vec!["Example.org".to_string()],
        streaming_rate_bps: 8_000,
    };
    let mut qos = Qos::new(config, 0);
    assert!(qos.classifier.matches_suffix("cdn.example.org"));
    assert!(!qos.classifier.matches_suffix("example.com"));
    assert_eq!(qos.limiter.consume(0, 500), None);
    assert_eq!(qos.limiter.consume(0, 1), Some(1_000_000));
}
