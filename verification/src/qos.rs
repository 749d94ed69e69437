//! Rate limiting of chosen services, which is off unless asked for.
//!
//! Traffic of the services whose names are configured is held to a rate, all
//! other traffic flows freely. An IP packet names no service, so the DNS
//! answers that pass by are read: an address that was answered for a
//! configured name counts as that service for an hour.
use crate::dns::{answers_view, dns_answers, parse_answers, DnsAnswer};
use crate::limiter::{burst, burst_is_half_a_second, Bucket, RateLimiter};
use crate::packet::{
    carries_dns, dns_message, dst_port, ip_payload, is_ipv4,
    payload_begins_where_the_first_octet_says, src_port, udp_payload, version_and_length_decide,
    Ipv4Addr, DNS_PORT, UDP,
};
use crate::text::{
    a_name_and_all_below_it_match, ascii_lower, at_or_below, chars_of, is_at_or_below,
    lemma_trimmed_is_prefix, lower, lowered, match_begins_at_a_label, nothing_else_matches,
    trim_end_dots, trimmed, trimming_commutes_with_lower_case,
};
use std::collections::HashMap;
use vstd::prelude::*;
use vstd::utf8::is_ascii_chars;

verus! {

broadcast use vstd::std_specs::hash::group_hash_axioms;

/// How long an address stays classified, in nanoseconds: one hour.
pub const CLASSIFICATION_TTL: u64 = 3_600_000_000_000;

/// The last time at which an address that is answered for at the time `now`
/// still counts: one hour later, or the end of the clock's range.
pub open spec fn expiry_from(now: u64) -> u64 {
    if now + CLASSIFICATION_TTL <= u64::MAX {
        (now + CLASSIFICATION_TTL) as u64
    } else {
        u64::MAX
    }
}

/// The views of a list of strings.
pub open spec fn strings_view(list: Seq<String>) -> Seq<Seq<char>> {
    list.map_values(|s: String| s@)
}

/// `name`, in lower case and without dots at its end, is one of the suffixes
/// or a name below one of them.
pub open spec fn matches(suffixes: Seq<Seq<char>>, name: Seq<char>) -> bool {
    matches_lowered(suffixes, lower(trimmed(name)))
}

/// `lowered` is one of the suffixes or a name below one of them.
pub open spec fn matches_lowered(suffixes: Seq<Seq<char>>, lowered: Seq<char>) -> bool {
    exists|i: int| 0 <= i < suffixes.len() && #[trigger] at_or_below(lowered, suffixes[i])
}

/// `address` was answered for a name that matches.
pub open spec fn answered(
    suffixes: Seq<Seq<char>>,
    answers: Seq<(Seq<char>, Option<u32>)>,
    address: u32,
) -> bool {
    exists|i: int|
        0 <= i < answers.len() && #[trigger] matches(suffixes, answers[i].0) && answers[i].1 == Some(
            address,
        )
}

/// The expiry times after the answers were seen at the time `now`.
pub open spec fn learned(
    suffixes: Seq<Seq<char>>,
    expiries: Map<u32, u64>,
    answers: Seq<(Seq<char>, Option<u32>)>,
    now: u64,
) -> Map<u32, u64> {
    expiries.union_prefer_right(
        Map::new(
            |address: u32| answered(suffixes, answers, address),
            |address: u32| expiry_from(now),
        ),
    )
}

/// The expiry times after `packet` was seen at the time `now`.
pub open spec fn observed(
    suffixes: Seq<Seq<char>>,
    expiries: Map<u32, u64>,
    packet: Seq<u8>,
    now: u64,
) -> Map<u32, u64> {
    if carries_dns(packet) {
        match dns_answers(udp_payload(ip_payload(packet))) {
            Some(answers) => learned(suffixes, expiries, answers, now),
            None => expiries,
        }
    } else {
        expiries
    }
}

/// `address` counts as classified at the time `now`.
pub open spec fn live(expiries: Map<u32, u64>, address: u32, now: u64) -> bool {
    expiries.contains_key(address) && expiries[address] >= now
}

/// The expiry times after `address` was looked up at the time `now`: an entry
/// that has expired is dropped.
pub open spec fn looked_up(expiries: Map<u32, u64>, address: u32, now: u64) -> Map<u32, u64> {
    if live(expiries, address, now) {
        expiries
    } else {
        expiries.remove(address)
    }
}

/// Whether `name`, which is in lower case and without dots at its end, is one
/// of the suffixes or a name below one of them.
pub fn matches_any(name: &str, suffixes: &Vec<String>) -> (res: bool)
    ensures
        res == matches_lowered(strings_view(suffixes@), name@),
{
    let name_chars = chars_of(name);
    let mut i: usize = 0;
    while i < suffixes.len()
        invariant
            i <= suffixes@.len(),
            name_chars@ == name@,
            forall|j: int|
                0 <= j < i ==> !#[trigger] at_or_below(name@, strings_view(suffixes@)[j]),
        decreases suffixes@.len() - i,
    {
        if is_at_or_below(&name_chars, &chars_of(suffixes[i].as_str())) {
            assert(at_or_below(name@, strings_view(suffixes@)[i as int]));
            return true;
        }
        i = i + 1;
    }
    false
}

/// Learns the addresses of configured services from DNS answers.
pub struct Classifier {
    suffixes: Vec<String>,
    classified: HashMap<u32, u64>,
}

impl Classifier {
    /// The configured suffixes in lower case.
    pub closed spec fn suffixes(&self) -> Seq<Seq<char>> {
        strings_view(self.suffixes@)
    }

    /// The addresses that were classified, each with the last time at which
    /// it still counts.
    pub closed spec fn expiries(&self) -> Map<u32, u64> {
        self.classified@
    }

    /// A classifier for the suffixes, which knows no address yet.
    pub fn new(suffixes: Vec<String>) -> (res: Self)
        ensures
            res.suffixes() == strings_view(suffixes@).map_values(|s: Seq<char>| lower(s)),
            res.expiries() == Map::<u32, u64>::empty(),
    {
        let mut lower_case: Vec<String> = Vec::new();
        let mut i: usize = 0;
        while i < suffixes.len()
            invariant
                i <= suffixes@.len(),
                lower_case@.len() == i,
                forall|j: int| 0 <= j < i ==> #[trigger] lower_case@[j]@ == lower(suffixes@[j]@),
            decreases suffixes@.len() - i,
        {
            lower_case.push(lowered(suffixes[i].as_str()));
            i = i + 1;
        }
        let res = Classifier { suffixes: lower_case, classified: HashMap::new() };
        assert(res.suffixes() =~= strings_view(suffixes@).map_values(
            |s: Seq<char>| lower(s),
        ));
        res
    }

    /// Whether `name` is one of the configured names or below one of them.
    pub fn matches_suffix(&self, name: &str) -> (res: bool)
        ensures
            res == matches(self.suffixes(), name@),
    {
        let lower_case = lowered(trim_end_dots(name));
        matches_any(lower_case.as_str(), &self.suffixes)
    }

    /// Classifies `address` up to the time `expiry`.
    pub fn classify(&mut self, address: Ipv4Addr, expiry: u64)
        ensures
            final(self).suffixes() == old(self).suffixes(),
            final(self).expiries() == old(self).expiries().insert(address.bits, expiry),
    {
        self.classified.insert(address.bits, expiry);
    }

    /// Classifies every address that was answered for a configured name, from
    /// the time `now` on.
    pub fn classify_answers(&mut self, answers: &Vec<DnsAnswer>, now: u64)
        ensures
            final(self).suffixes() == old(self).suffixes(),
            final(self).expiries() == learned(
                old(self).suffixes(),
                old(self).expiries(),
                answers_view(answers@),
                now,
            ),
    {
        let ghost suffixes = self.suffixes();
        let ghost before = self.expiries();
        let ghost all = answers_view(answers@);
        let expiry: u64 = if now <= u64::MAX - CLASSIFICATION_TTL {
            now + CLASSIFICATION_TTL
        } else {
            u64::MAX
        };
        let mut i: usize = 0;
        assert(self.expiries() =~= learned(suffixes, before, all.take(0), now));
        while i < answers.len()
            invariant
                i <= answers@.len(),
                expiry == expiry_from(now),
                all == answers_view(answers@),
                self.suffixes() == suffixes,
                self.expiries() == learned(suffixes, before, all.take(i as int), now),
            decreases answers@.len() - i,
        {
            let answer = &answers[i];
            let ghost seen = all.take(i as int);
            let ghost more = all.take(i + 1);
            let ghost known = self.expiries();
            assert(more.last() == answer@);
            if self.matches_suffix(answer.name.as_str()) {
                if let Some(bits) = answer.address {
                    self.classify(Ipv4Addr { bits }, expiry);
                }
            }
            proof {
                lemma_learned_step(suffixes, before, seen, answer@, now);
                assert(more =~= seen.push(answer@));
            }
            i = i + 1;
        }
        assert(all.take(i as int) =~= all);
    }

    /// Looks at a whole IPv4 packet and learns from the DNS answers in it.
    /// Anything else is ignored.
    pub fn observe_ipv4_packet(&mut self, packet: &[u8], now: u64)
        ensures
            final(self).suffixes() == old(self).suffixes(),
            final(self).expiries() == observed(
                old(self).suffixes(),
                old(self).expiries(),
                packet@,
                now,
            ),
    {
        if let Some(message) = dns_message(packet) {
            if let Some(answers) = parse_answers(message) {
                self.classify_answers(&answers, now);
            }
        }
    }

    /// Whether `address` is classified at the time `now`. An entry that has
    /// expired is dropped.
    pub fn is_classified(&mut self, address: Ipv4Addr, now: u64) -> (res: bool)
        ensures
            res == live(old(self).expiries(), address.bits, now),
            final(self).suffixes() == old(self).suffixes(),
            final(self).expiries() == looked_up(old(self).expiries(), address.bits, now),
    {
        let expiry: Option<u64> = match self.classified.get(&address.bits) {
            Some(expiry) => Some(*expiry),
            None => None,
        };
        match expiry {
            Some(expiry) => {
                if expiry >= now {
                    return true;
                }
                self.classified.remove(&address.bits);
                false
            },
            None => {
                assert(self.expiries() =~= self.expiries().remove(address.bits));
                false
            },
        }
    }
}

/// One more answer adds its address, if its name matches and it has one.
proof fn lemma_learned_step(
    suffixes: Seq<Seq<char>>,
    before: Map<u32, u64>,
    seen: Seq<(Seq<char>, Option<u32>)>,
    answer: (Seq<char>, Option<u32>),
    now: u64,
)
    ensures
        learned(suffixes, before, seen.push(answer), now) == (if matches(suffixes, answer.0)
            && answer.1 is Some {
            learned(suffixes, before, seen, now).insert(
                answer.1->0,
                expiry_from(now),
            )
        } else {
            learned(suffixes, before, seen, now)
        }),
{
    let more = seen.push(answer);
    assert forall|address: u32|
        answered(suffixes, more, address) == (answered(suffixes, seen, address) || (matches(
            suffixes,
            answer.0,
        ) && answer.1 == Some(address))) by {
        if answered(suffixes, seen, address) {
            let i = choose|i: int|
                0 <= i < seen.len() && #[trigger] matches(suffixes, seen[i].0) && seen[i].1 == Some(
                    address,
                );
            assert(more[i] == seen[i]);
            assert(matches(suffixes, more[i].0));
        }
        if matches(suffixes, answer.0) && answer.1 == Some(address) {
            assert(matches(suffixes, more[seen.len() as int].0));
        }
        if answered(suffixes, more, address) {
            let i = choose|i: int|
                0 <= i < more.len() && #[trigger] matches(suffixes, more[i].0) && more[i].1 == Some(
                    address,
                );
            if i < seen.len() {
                assert(matches(suffixes, seen[i].0));
            }
        }
    }
    let left = learned(suffixes, before, more, now);
    let right = if matches(suffixes, answer.0) && answer.1 is Some {
        learned(suffixes, before, seen, now).insert(
            answer.1->0,
            expiry_from(now),
        )
    } else {
        learned(suffixes, before, seen, now)
    };
    assert(left =~= right);
}

/// An address that was answered for a configured name counts as classified
/// for one hour, and no longer.
pub proof fn answered_address_lives_one_hour(
    suffixes: Seq<Seq<char>>,
    expiries: Map<u32, u64>,
    answers: Seq<(Seq<char>, Option<u32>)>,
    now: u64,
    address: u32,
    later: u64,
)
    requires
        answered(suffixes, answers, address),
    ensures
        live(learned(suffixes, expiries, answers, now), address, later) <==> later <= now
            + CLASSIFICATION_TTL,
{
}

/// An address that was not answered for a configured name is none the more,
/// and none the less, classified.
pub proof fn other_addresses_are_untouched(
    suffixes: Seq<Seq<char>>,
    expiries: Map<u32, u64>,
    answers: Seq<(Seq<char>, Option<u32>)>,
    now: u64,
    address: u32,
    later: u64,
)
    requires
        !answered(suffixes, answers, address),
    ensures
        live(learned(suffixes, expiries, answers, now), address, later) == live(
            expiries,
            address,
            later,
        ),
{
}

/// A packet teaches nothing unless it is an IPv4 packet with a UDP datagram
/// from or to the DNS port that holds a DNS message: every address is then
/// classified, at every time, as it was before.
pub proof fn other_packets_are_ignored(
    suffixes: Seq<Seq<char>>,
    expiries: Map<u32, u64>,
    packet: Seq<u8>,
    now: u64,
    address: u32,
    later: u64,
)
    requires
        ({
            ||| !is_ipv4(packet)
            ||| packet[9] != UDP
            ||| ip_payload(packet).len() < 8
            ||| src_port(ip_payload(packet)) != DNS_PORT && dst_port(ip_payload(packet)) != DNS_PORT
            ||| dns_answers(udp_payload(ip_payload(packet))) is None
        }),
    ensures
        observed(suffixes, expiries, packet, now) == expiries,
        live(observed(suffixes, expiries, packet, now), address, later) == live(
            expiries,
            address,
            later,
        ),
{
}

/// Dropping what has expired is never noticed: once the clock has reached
/// `now`, every later look-up gives what it would have given without it.
pub proof fn dropping_expired_is_unnoticed(
    expiries: Map<u32, u64>,
    looked_for: u32,
    now: u64,
    address: u32,
    later: u64,
)
    requires
        now <= later,
    ensures
        live(looked_up(expiries, looked_for, now), address, later) == live(
            expiries,
            address,
            later,
        ),
{
}

/// A dot at the end of a name makes no difference.
pub proof fn final_dot_is_ignored(suffixes: Seq<Seq<char>>, name: Seq<char>)
    ensures
        matches(suffixes, name.push('.')) == matches(suffixes, name),
{
    assert(name.push('.').drop_last() =~= name);
    assert(trimmed(name.push('.')) == trimmed(name));
    assert(matches(suffixes, name) ==> matches(suffixes, name.push('.')));
}

/// The case of the letters of an ASCII name makes no difference.
pub proof fn case_is_ignored(suffixes: Seq<Seq<char>>, name: Seq<char>, other: Seq<char>)
    requires
        is_ascii_chars(name),
        is_ascii_chars(other),
        ascii_lower(name) == ascii_lower(other),
    ensures
        matches(suffixes, name) == matches(suffixes, other),
{
    lemma_trimmed_is_prefix(name);
    lemma_trimmed_is_prefix(other);
    trimming_commutes_with_lower_case(name);
    trimming_commutes_with_lower_case(other);
}

/// What is to be held to which rate.
#[derive(Debug, Clone)]
pub struct QosConfig {
    /// Names whose traffic, with that of the names below them, is limited.
    pub streaming_suffixes: Vec<String>,
    /// The limit in bits per second.
    pub streaming_rate_bps: u64,
}

/// The names that the built-in preset limits.
pub open spec fn preset_suffixes() -> Seq<Seq<char>> {
    seq![
        "netflix.com"@,
        "nflxvideo.net"@,
        "nflximg.net"@,
        "unext.jp"@,
        "youtube.com"@,
        "googlevideo.com"@,
        "ytimg.com"@,
        "amazonvideo.com"@,
        "primevideo.com"@,
        "aiv-cdn.net"@,
        "hulu.com"@,
        "abema.tv"@,
        "dmm.com"@,
        "disneyplus.com"@,
        "dssott.com"@,
        "spotify.com"@,
        "scdn.co"@,
        "qobuz.com"@,
        "static.qobuz.com"@,
        "music.apple.com"@,
        "mzstatic.com"@,
        "tidal.com"@,
        "amazonmusic.com"@,
    ]
}

/// The rate of the built-in preset: ten megabits per second.
pub const PRESET_RATE_BPS: u64 = 10_000_000;

impl QosConfig {
    /// The common video and music services, at ten megabits per second.
    pub fn default_streaming_preset() -> (res: Self)
        ensures
            strings_view(res.streaming_suffixes@) == preset_suffixes(),
            res.streaming_rate_bps == PRESET_RATE_BPS,
    {
        let streaming_suffixes: Vec<String> = vec![
            // Video
            "netflix.com".to_string(),
            "nflxvideo.net".to_string(),
            "nflximg.net".to_string(),
            "unext.jp".to_string(),
            "youtube.com".to_string(),
            "googlevideo.com".to_string(),
            "ytimg.com".to_string(),
            "amazonvideo.com".to_string(),
            "primevideo.com".to_string(),
            "aiv-cdn.net".to_string(),
            "hulu.com".to_string(),
            "abema.tv".to_string(),
            "dmm.com".to_string(),
            "disneyplus.com".to_string(),
            "dssott.com".to_string(),
            // Music
            "spotify.com".to_string(),
            "scdn.co".to_string(),
            "qobuz.com".to_string(),
            "static.qobuz.com".to_string(),
            "music.apple.com".to_string(),
            "mzstatic.com".to_string(),
            "tidal.com".to_string(),
            "amazonmusic.com".to_string(),
        ];
        assert(strings_view(streaming_suffixes@) =~= preset_suffixes());
        QosConfig { streaming_suffixes, streaming_rate_bps: PRESET_RATE_BPS }
    }
}

/// The names of the preset are in lower case as they stand.
pub proof fn preset_is_in_lower_case()
    ensures
        preset_suffixes().map_values(|s: Seq<char>| lower(s)) == preset_suffixes(),
{
    reveal_strlit("netflix.com");
    reveal_strlit("nflxvideo.net");
    reveal_strlit("nflximg.net");
    reveal_strlit("unext.jp");
    reveal_strlit("youtube.com");
    reveal_strlit("googlevideo.com");
    reveal_strlit("ytimg.com");
    reveal_strlit("amazonvideo.com");
    reveal_strlit("primevideo.com");
    reveal_strlit("aiv-cdn.net");
    reveal_strlit("hulu.com");
    reveal_strlit("abema.tv");
    reveal_strlit("dmm.com");
    reveal_strlit("disneyplus.com");
    reveal_strlit("dssott.com");
    reveal_strlit("spotify.com");
    reveal_strlit("scdn.co");
    reveal_strlit("qobuz.com");
    reveal_strlit("static.qobuz.com");
    reveal_strlit("music.apple.com");
    reveal_strlit("mzstatic.com");
    reveal_strlit("tidal.com");
    reveal_strlit("amazonmusic.com");
    let preset = preset_suffixes();
    assert forall|i: int| 0 <= i < preset.len() implies lower(#[trigger] preset[i]) == preset[i] by {
        assert(is_ascii_chars(preset[i]));
        assert(ascii_lower(preset[i]) =~= preset[i]);
    }
    assert(preset.map_values(|s: Seq<char>| lower(s)) =~= preset);
}

/// A classifier and the limiter for what it classifies.
pub struct Qos {
    pub classifier: Classifier,
    pub limiter: RateLimiter,
}

/// `qos` is fresh at the time `now` for these suffixes and this rate.
pub open spec fn fresh_qos(qos: Qos, suffixes: Seq<Seq<char>>, rate: int, now: int) -> bool {
    &&& qos.classifier.suffixes() == suffixes.map_values(|s: Seq<char>| lower(s))
    &&& qos.classifier.expiries() == Map::<u32, u64>::empty()
    &&& qos.limiter@ == (Bucket { rate, tokens: burst(rate), last: now })
    &&& qos.limiter@.wf()
}

impl Qos {
    /// Limits what `config` names, from the time `now` on.
    pub fn new(config: QosConfig, now: u64) -> (res: Self)
        ensures
            fresh_qos(
                res,
                strings_view(config.streaming_suffixes@),
                config.streaming_rate_bps as int,
                now as int,
            ),
    {
        Qos {
            classifier: Classifier::new(config.streaming_suffixes),
            limiter: RateLimiter::new(config.streaming_rate_bps, now),
        }
    }
}

/// What an option for the limits comes to.
pub enum QosPlan {
    /// Nothing is limited.
    Off,
    /// This is in force.
    Ready(Qos),
    /// The configuration has to be read from this file.
    ReadFile(String),
}

/// Without an option nothing is limited, `default` stands for the built-in
/// preset, and anything else is the path of a configuration file.
pub fn load_qos(qos_config: Option<&str>, now: u64) -> (res: QosPlan)
    ensures
        match qos_config {
            None => res is Off,
            Some(option) => if option@ == "default"@ {
                res matches QosPlan::Ready(qos) && fresh_qos(
                    qos,
                    preset_suffixes(),
                    PRESET_RATE_BPS as int,
                    now as int,
                ) && qos.classifier.suffixes() == preset_suffixes()
            } else {
                res matches QosPlan::ReadFile(path) && path@ == option@
            },
        },
{
    match qos_config {
        None => QosPlan::Off,
        Some(option) => {
            let path = option.to_string();
            if path == "default".to_string() {
                proof {
                    preset_is_in_lower_case();
                }
                QosPlan::Ready(Qos::new(QosConfig::default_streaming_preset(), now))
            } else {
                QosPlan::ReadFile(path)
            }
        },
    }
}

/// A configured ASCII name that ends in no dot is matched by itself and by every
/// ASCII name below it, with or without a dot at the end.
pub proof fn configured_names_match(configured: Seq<Seq<char>>, i: int, label: Seq<char>)
    requires
        0 <= i < configured.len(),
        is_ascii_chars(configured[i]),
        is_ascii_chars(label),
        configured[i].len() > 0,
        configured[i].last() != '.',
    ensures
        matches(configured.map_values(|s: Seq<char>| lower(s)), configured[i]),
        matches(
            configured.map_values(|s: Seq<char>| lower(s)),
            label + seq!['.'] + configured[i],
        ),
        matches(
            configured.map_values(|s: Seq<char>| lower(s)),
            (label + seq!['.'] + configured[i]).push('.'),
        ),
{
    let suffixes = configured.map_values(|s: Seq<char>| lower(s));
    let suffix = configured[i];
    let name = label + seq!['.'] + suffix;
    assert(suffixes[i] == ascii_lower(suffix));
    assert(trimmed(suffix) == suffix);
    assert(name.last() == suffix.last());
    assert(trimmed(name) == name);
    assert(is_ascii_chars(name));
    a_name_and_all_below_it_match(ascii_lower(suffix), ascii_lower(label));
    assert(ascii_lower(name) =~= ascii_lower(label) + seq!['.'] + ascii_lower(suffix));
    assert(at_or_below(lower(trimmed(suffix)), suffixes[i]));
    assert(at_or_below(lower(trimmed(name)), suffixes[i]));
    final_dot_is_ignored(suffixes, name);
}

/// Nothing else matches: an ASCII name that matches is, in lower case and
/// without the dots at its end, one of the suffixes, or ends in a dot and one of
/// them.
pub proof fn only_configured_names_match(suffixes: Seq<Seq<char>>, name: Seq<char>)
    requires
        is_ascii_chars(name),
        matches(suffixes, name),
    ensures
        exists|i: int, label: Seq<char>|
            0 <= i < suffixes.len() && (ascii_lower(trimmed(name)) == suffixes[i] || ascii_lower(
                trimmed(name),
            ) == #[trigger] (label + seq!['.']) + #[trigger] suffixes[i]),
{
    lemma_trimmed_is_prefix(name);
    let lower_case = ascii_lower(trimmed(name));
    assert(lower(trimmed(name)) == lower_case);
    let i = choose|i: int|
        0 <= i < suffixes.len() && #[trigger] at_or_below(lower_case, suffixes[i]);
    nothing_else_matches(lower_case, suffixes[i]);
    if lower_case == suffixes[i] {
        let label: Seq<char> = seq![];
        assert((label + seq!['.']) + suffixes[i] == (label + seq!['.']) + suffixes[i]);
    } else {
        let label = choose|label: Seq<char>|
            lower_case == #[trigger] (label + seq!['.']) + suffixes[i];
        assert(lower_case == (label + seq!['.']) + suffixes[i]);
    }
}

/// An address that is classified up to a time counts up to that time and no
/// longer, and no other address is touched.
pub proof fn classified_up_to_its_expiry(
    expiries: Map<u32, u64>,
    address: u32,
    expiry: u64,
    other: u32,
    t: u64,
)
    ensures
        live(expiries.insert(address, expiry), address, t) <==> t <= expiry,
        other != address ==> live(expiries.insert(address, expiry), other, t) == live(
            expiries,
            other,
            t,
        ),
        !live(Map::empty(), address, t),
{
}

/// Every answer counts: the address of an A record whose name matches is
/// classified for one hour from the answer on, whichever record it is.
pub proof fn every_matching_answer_counts(
    suffixes: Seq<Seq<char>>,
    expiries: Map<u32, u64>,
    answers: Seq<(Seq<char>, Option<u32>)>,
    i: int,
    now: u64,
    t: u64,
)
    requires
        0 <= i < answers.len(),
        matches(suffixes, answers[i].0),
        answers[i].1 is Some,
    ensures
        live(learned(suffixes, expiries, answers, now), answers[i].1->0, t) <==> t <= now
            + 3_600_000_000_000,
{
    assert(answered(suffixes, answers, answers[i].1->0));
}

/// Only matching answers count: an address that no A record gives for a name
/// that matches stays as it was.
pub proof fn only_matching_answers_count(
    suffixes: Seq<Seq<char>>,
    expiries: Map<u32, u64>,
    answers: Seq<(Seq<char>, Option<u32>)>,
    address: u32,
    now: u64,
    t: u64,
)
    requires
        forall|i: int|
            0 <= i < answers.len() && (#[trigger] answers[i]).1 == Some(address) ==> !matches(
                suffixes,
                answers[i].0,
            ),
    ensures
        live(learned(suffixes, expiries, answers, now), address, t) == live(expiries, address, t),
{
    assert(!answered(suffixes, answers, address));
}

/// A DNS answer that passes by is learned from: of an IPv4 packet with a
/// datagram from or to the DNS port, every address that is answered for a
/// matching name counts for one hour, whatever else the headers hold.
pub proof fn passing_answers_are_learned(
    suffixes: Seq<Seq<char>>,
    expiries: Map<u32, u64>,
    packet: Seq<u8>,
    message: Seq<u8>,
    answers: Seq<(Seq<char>, Option<u32>)>,
    i: int,
    now: u64,
    t: u64,
)
    requires
        packet.len() >= 20,
        64 <= packet[0] <= 79,
        packet[9] == 17,
        packet.len() >= 4 * (packet[0] - 64) + 8,
        ({
            let at = 4 * (packet[0] - 64);
            &&& packet[at] * 256 + packet[at + 1] == 53 || packet[at + 2] * 256 + packet[at + 3]
                == 53
            &&& message == packet.skip(at + 8)
        }),
        dns_answers(message) == Some(answers),
        0 <= i < answers.len(),
        matches(suffixes, answers[i].0),
        answers[i].1 is Some,
    ensures
        live(observed(suffixes, expiries, packet, now), answers[i].1->0, t) <==> t <= now
            + 3_600_000_000_000,
{
    payload_begins_where_the_first_octet_says(packet);
    version_and_length_decide(packet);
    assert(udp_payload(ip_payload(packet)) =~= message);
    assert(carries_dns(packet));
    every_matching_answer_counts(suffixes, expiries, answers, i, now, t);
}

/// A look-up forgets only what no longer counts, of no other address but the
/// one that was looked for.
pub proof fn looking_up_forgets_only_the_expired(
    expiries: Map<u32, u64>,
    looked_for: u32,
    now: u64,
    other: u32,
    t: u64,
)
    ensures
        expiries.contains_key(looked_for) && expiries[looked_for] >= now ==> looked_up(
            expiries,
            looked_for,
            now,
        ) == expiries,
        other != looked_for ==> live(looked_up(expiries, looked_for, now), other, t) == live(
            expiries,
            other,
            t,
        ),
        !(expiries.contains_key(looked_for) && expiries[looked_for] >= now) ==> !live(
            looked_up(expiries, looked_for, now),
            looked_for,
            t,
        ),
{
}

/// Fresh limits know no address, have the configured names in lower case, and
/// let half a second of the rate pass at once and no more.
pub proof fn fresh_limits_are_as_configured(
    qos: Qos,
    suffixes: Seq<Seq<char>>,
    rate: int,
    now: int,
    address: u32,
    t: u64,
    i: int,
    bytes: int,
    more: int,
)
    requires
        fresh_qos(qos, suffixes, rate, now),
        0 <= bytes <= usize::MAX,
        0 <= more,
    ensures
        !live(qos.classifier.expiries(), address, t),
        qos.classifier.suffixes().len() == suffixes.len(),
        0 <= i < suffixes.len() ==> qos.classifier.suffixes()[i] == lower(suffixes[i]),
        qos.limiter@.rate == rate,
        qos.limiter@.passes(now, bytes),
        qos.limiter@.after(now, bytes).passes(now, more) <==> bytes == 0 || 16 * (bytes + more)
            <= rate,
{
    burst_is_half_a_second(rate, now, bytes, more);
}

/// Under the preset every ASCII name below one of the common services is
/// limited, and the rate is ten megabits per second.
pub proof fn preset_limits_the_common_services(label: Seq<char>)
    requires
        is_ascii_chars(label),
    ensures
        PRESET_RATE_BPS == 10_000_000,
        matches(preset_suffixes(), label + seq!['.'] + "netflix.com"@),
        matches(preset_suffixes(), label + seq!['.'] + "nflxvideo.net"@),
        matches(preset_suffixes(), label + seq!['.'] + "nflximg.net"@),
        matches(preset_suffixes(), label + seq!['.'] + "unext.jp"@),
        matches(preset_suffixes(), label + seq!['.'] + "youtube.com"@),
        matches(preset_suffixes(), label + seq!['.'] + "googlevideo.com"@),
        matches(preset_suffixes(), label + seq!['.'] + "ytimg.com"@),
        matches(preset_suffixes(), label + seq!['.'] + "amazonvideo.com"@),
        matches(preset_suffixes(), label + seq!['.'] + "primevideo.com"@),
        matches(preset_suffixes(), label + seq!['.'] + "aiv-cdn.net"@),
        matches(preset_suffixes(), label + seq!['.'] + "hulu.com"@),
        matches(preset_suffixes(), label + seq!['.'] + "abema.tv"@),
        matches(preset_suffixes(), label + seq!['.'] + "dmm.com"@),
        matches(preset_suffixes(), label + seq!['.'] + "disneyplus.com"@),
        matches(preset_suffixes(), label + seq!['.'] + "dssott.com"@),
        matches(preset_suffixes(), label + seq!['.'] + "spotify.com"@),
        matches(preset_suffixes(), label + seq!['.'] + "scdn.co"@),
        matches(preset_suffixes(), label + seq!['.'] + "qobuz.com"@),
        matches(preset_suffixes(), label + seq!['.'] + "static.qobuz.com"@),
        matches(preset_suffixes(), label + seq!['.'] + "music.apple.com"@),
        matches(preset_suffixes(), label + seq!['.'] + "mzstatic.com"@),
        matches(preset_suffixes(), label + seq!['.'] + "tidal.com"@),
        matches(preset_suffixes(), label + seq!['.'] + "amazonmusic.com"@),
{
    preset_is_in_lower_case();
    let preset = preset_suffixes();
    let suffixes = preset.map_values(|s: Seq<char>| lower(s));
    reveal_strlit("netflix.com");
    reveal_strlit("nflxvideo.net");
    reveal_strlit("nflximg.net");
    reveal_strlit("unext.jp");
    reveal_strlit("youtube.com");
    reveal_strlit("googlevideo.com");
    reveal_strlit("ytimg.com");
    reveal_strlit("amazonvideo.com");
    reveal_strlit("primevideo.com");
    reveal_strlit("aiv-cdn.net");
    reveal_strlit("hulu.com");
    reveal_strlit("abema.tv");
    reveal_strlit("dmm.com");
    reveal_strlit("disneyplus.com");
    reveal_strlit("dssott.com");
    reveal_strlit("spotify.com");
    reveal_strlit("scdn.co");
    reveal_strlit("qobuz.com");
    reveal_strlit("static.qobuz.com");
    reveal_strlit("music.apple.com");
    reveal_strlit("mzstatic.com");
    reveal_strlit("tidal.com");
    reveal_strlit("amazonmusic.com");
    assert forall|i: int| 0 <= i < preset.len() implies matches(
        preset,
        label + seq!['.'] + #[trigger] preset[i],
    ) by {
        configured_names_match(preset, i, label);
    }
    assert(matches(preset, label + seq!['.'] + preset[0]));
    assert(matches(preset, label + seq!['.'] + preset[1]));
    assert(matches(preset, label + seq!['.'] + preset[2]));
    assert(matches(preset, label + seq!['.'] + preset[3]));
    assert(matches(preset, label + seq!['.'] + preset[4]));
    assert(matches(preset, label + seq!['.'] + preset[5]));
    assert(matches(preset, label + seq!['.'] + preset[6]));
    assert(matches(preset, label + seq!['.'] + preset[7]));
    assert(matches(preset, label + seq!['.'] + preset[8]));
    assert(matches(preset, label + seq!['.'] + preset[9]));
    assert(matches(preset, label + seq!['.'] + preset[10]));
    assert(matches(preset, label + seq!['.'] + preset[11]));
    assert(matches(preset, label + seq!['.'] + preset[12]));
    assert(matches(preset, label + seq!['.'] + preset[13]));
    assert(matches(preset, label + seq!['.'] + preset[14]));
    assert(matches(preset, label + seq!['.'] + preset[15]));
    assert(matches(preset, label + seq!['.'] + preset[16]));
    assert(matches(preset, label + seq!['.'] + preset[17]));
    assert(matches(preset, label + seq!['.'] + preset[18]));
    assert(matches(preset, label + seq!['.'] + preset[19]));
    assert(matches(preset, label + seq!['.'] + preset[20]));
    assert(matches(preset, label + seq!['.'] + preset[21]));
    assert(matches(preset, label + seq!['.'] + preset[22]));
}

/// Under the preset nothing but the common services is limited: every name that
/// matches is one of them or a name below one of them.
pub proof fn preset_limits_nothing_else(name: Seq<char>)
    requires
        is_ascii_chars(name),
        matches(preset_suffixes(), name),
    ensures
        ({
            let host = ascii_lower(trimmed(name));
            ||| at_or_below(host, "netflix.com"@)
            ||| at_or_below(host, "nflxvideo.net"@)
            ||| at_or_below(host, "nflximg.net"@)
            ||| at_or_below(host, "unext.jp"@)
            ||| at_or_below(host, "youtube.com"@)
            ||| at_or_below(host, "googlevideo.com"@)
            ||| at_or_below(host, "ytimg.com"@)
            ||| at_or_below(host, "amazonvideo.com"@)
            ||| at_or_below(host, "primevideo.com"@)
            ||| at_or_below(host, "aiv-cdn.net"@)
            ||| at_or_below(host, "hulu.com"@)
            ||| at_or_below(host, "abema.tv"@)
            ||| at_or_below(host, "dmm.com"@)
            ||| at_or_below(host, "disneyplus.com"@)
            ||| at_or_below(host, "dssott.com"@)
            ||| at_or_below(host, "spotify.com"@)
            ||| at_or_below(host, "scdn.co"@)
            ||| at_or_below(host, "qobuz.com"@)
            ||| at_or_below(host, "static.qobuz.com"@)
            ||| at_or_below(host, "music.apple.com"@)
            ||| at_or_below(host, "mzstatic.com"@)
            ||| at_or_below(host, "tidal.com"@)
            ||| at_or_below(host, "amazonmusic.com"@)
        }),
{
    lemma_trimmed_is_prefix(name);
    let host = ascii_lower(trimmed(name));
    let i = choose|i: int|
        0 <= i < preset_suffixes().len() && #[trigger] at_or_below(host, preset_suffixes()[i]);
    assert(at_or_below(host, preset_suffixes()[i]));
}

/// Of any name, ASCII or not, its lower case without the dots at its end decides:
/// it matches if that is one of the suffixes, or ends in a dot and one of them.
pub proof fn lower_case_decides(
    suffixes: Seq<Seq<char>>,
    name: Seq<char>,
    i: int,
    label: Seq<char>,
)
    requires
        0 <= i < suffixes.len(),
        lower(trimmed(name)) == suffixes[i] || lower(trimmed(name)) == label + seq!['.']
            + suffixes[i],
    ensures
        matches(suffixes, name),
{
    a_name_and_all_below_it_match(suffixes[i], label);
    assert(at_or_below(lower(trimmed(name)), suffixes[i]));
}

/// A name that matches is, in lower case and without the dots at its end, one of
/// the suffixes, or ends in a dot and one of them.
pub proof fn what_matches_ends_in_a_suffix(suffixes: Seq<Seq<char>>, name: Seq<char>)
    requires
        matches(suffixes, name),
    ensures
        exists|i: int|
            0 <= i < suffixes.len() && (lower(trimmed(name)) == #[trigger] suffixes[i] || (lower(
                trimmed(name),
            ).len() > suffixes[i].len() && lower(trimmed(name)).skip(
                lower(trimmed(name)).len() - suffixes[i].len(),
            ) == suffixes[i] && lower(trimmed(name))[lower(trimmed(name)).len() - suffixes[i].len()
                - 1] == '.')),
{
    let host = lower(trimmed(name));
    let i = choose|i: int| 0 <= i < suffixes.len() && #[trigger] at_or_below(host, suffixes[i]);
    if host != suffixes[i] {
        match_begins_at_a_label(host, suffixes[i]);
    }
}

/// A DNS answer teaches nothing of an address that it does not give for a
/// matching name.
pub proof fn passing_answers_teach_nothing_else(
    suffixes: Seq<Seq<char>>,
    expiries: Map<u32, u64>,
    packet: Seq<u8>,
    answers: Seq<(Seq<char>, Option<u32>)>,
    address: u32,
    now: u64,
    t: u64,
)
    requires
        packet.len() >= 20,
        64 <= packet[0] <= 79,
        packet.len() >= 4 * (packet[0] - 64) + 8,
        dns_answers(packet.skip(4 * (packet[0] - 64) + 8)) == Some(answers),
        forall|i: int|
            0 <= i < answers.len() && (#[trigger] answers[i]).1 == Some(address) ==> !matches(
                suffixes,
                answers[i].0,
            ),
    ensures
        live(observed(suffixes, expiries, packet, now), address, t) == live(expiries, address, t),
{
    payload_begins_where_the_first_octet_says(packet);
    assert(udp_payload(ip_payload(packet)) =~= packet.skip(4 * (packet[0] - 64) + 8));
    only_matching_answers_count(suffixes, expiries, answers, address, now, t);
}

/// A packet that is not IPv4, not UDP or not of the DNS port teaches nothing.
pub proof fn other_octets_teach_nothing(
    suffixes: Seq<Seq<char>>,
    expiries: Map<u32, u64>,
    packet: Seq<u8>,
    now: u64,
)
    requires
        packet.len() < 20 || packet[0] < 64 || packet[0] > 79 || packet[9] != 17 || packet.len()
            < 4 * (packet[0] - 64) + 8 || ({
            let at = 4 * (packet[0] - 64);
            &&& packet[at] * 256 + packet[at + 1] != 53
            &&& packet[at + 2] * 256 + packet[at + 3] != 53
        }),
    ensures
        observed(suffixes, expiries, packet, now) == expiries,
{
}

/// The view of a list of strings has the characters of each.
pub proof fn every_string_is_seen(list: Seq<String>, i: int)
    requires
        0 <= i < list.len(),
    ensures
        strings_view(list).len() == list.len(),
        strings_view(list)[i] == list[i]@,
{
}

} // verus!
