//! The answers of DNS messages.
use vstd::prelude::*;

verus! {

/// One record of an answer section.
#[derive(Debug)]
pub struct DnsAnswer {
    /// The name that the record is for.
    pub name: String,
    /// The address, where the record is an A record.
    pub address: Option<u32>,
}

impl View for DnsAnswer {
    type V = (Seq<char>, Option<u32>);

    open spec fn view(&self) -> (Seq<char>, Option<u32>) {
        (self.name@, self.address)
    }
}

/// The names and addresses of a list of answers.
pub open spec fn answers_view(answers: Seq<DnsAnswer>) -> Seq<(Seq<char>, Option<u32>)> {
    answers.map_values(|a: DnsAnswer| a@)
}

/// The answer section that `simple_dns` reads from a DNS message: for each
/// record its name as text and, of an A record, its address.
pub uninterp spec fn dns_answers(message: Seq<u8>) -> Option<Seq<(Seq<char>, Option<u32>)>>;

/// Calls `simple_dns::Packet::parse` and hands out its answer section, each
/// record as its name's text and the address of an A record. `None` stands for
/// a message that does not parse. Claims that the outcome depends on the
/// message alone.
#[verifier::external_body]
pub(crate) fn parse_answers(message: &[u8]) -> (res: Option<Vec<DnsAnswer>>)
    ensures
        dns_answers(message@) == (match res {
            Some(answers) => Some(answers_view(answers@)),
            None => None,
        }),
{
    let dns = simple_dns::Packet::parse(message).ok()?;
    Some(dns.answers.iter().map(|answer| DnsAnswer {
        name: answer.name.to_string(),
        address: match &answer.rdata {
            simple_dns::rdata::RData::A(a) => Some(a.address),
            _ => None,
        },
    }).collect())
}

/// The view of a list of answers has the name and the address of each.
pub proof fn every_answer_is_seen(answers: Seq<DnsAnswer>, i: int)
    requires
        0 <= i < answers.len(),
    ensures
        answers_view(answers).len() == answers.len(),
        answers_view(answers)[i].0 == answers[i].name@,
        answers_view(answers)[i].1 == answers[i].address,
{
}

} // verus!
