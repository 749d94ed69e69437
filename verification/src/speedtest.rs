//! What the speed test commands tell the user, and the values they work with.
//!
//! Measured numbers arrive as text that is already rounded.
use crate::text::{decimal, push_decimal};
use vstd::prelude::*;
use vstd::string::*;

verus! {

/// Seconds in a minute.
pub const MINUTE: u64 = 60;

/// One measurement.
#[derive(Debug)]
pub struct SpeedTestRecord {
    /// When it was taken.
    pub recorded_at: String,
    /// Who measured.
    pub source: String,
    /// What the user calls it.
    pub label: String,
    /// Megabits per second down.
    pub download_mbps: String,
    /// Megabits per second up.
    pub upload_mbps: String,
}

/// The network interfaces of a machine.
#[derive(Debug)]
pub struct NetworkEnvironment {
    pub interface_count: usize,
    pub ethernet_count: usize,
    pub wifi_count: usize,
    pub other_count: usize,
    pub interface_names: Vec<String>,
}

impl SpeedTestRecord {
    /// When, by whom, under which label, and how fast.
    pub open spec fn line(&self) -> Seq<char> {
        "["@ + self.recorded_at@ + "] "@ + self.source@ + " / "@ + self.label@ + ": down "@
            + self.download_mbps@ + " Mbps, up "@ + self.upload_mbps@ + " Mbps"@
    }

    /// When, by whom, under which label, and how fast.
    pub fn summary(&self) -> (res: String)
        ensures
            res@ == self.line(),
    {
        let mut res = "[".to_string();
        res.append(self.recorded_at.as_str());
        res.append("] ");
        res.append(self.source.as_str());
        res.append(" / ");
        res.append(self.label.as_str());
        res.append(": down ");
        res.append(self.download_mbps.as_str());
        res.append(" Mbps, up ");
        res.append(self.upload_mbps.as_str());
        res.append(" Mbps");
        res
    }
}

/// Where the history is kept unless another file is named.
pub fn default_history_path() -> (path: String)
    ensures
        path@ == "speedtest-history.jsonl"@,
{
    "speedtest-history.jsonl".to_string()
}

/// The outcome of one measurement. Without a round trip time it is not
/// available.
pub fn run_line(
    download_mbps: &str,
    upload_mbps: &str,
    min_rtt_ms: Option<&str>,
) -> (res: String)
    ensures
        res@ == "download: "@ + download_mbps@ + " Mbps / upload: "@ + upload_mbps@
            + " Mbps / min RTT: "@ + match min_rtt_ms {
            Some(ms) => ms@ + " ms"@,
            None => "N/A"@,
        },
{
    let mut res = "download: ".to_string();
    res.append(download_mbps);
    res.append(" Mbps / upload: ");
    res.append(upload_mbps);
    res.append(" Mbps / min RTT: ");
    match min_rtt_ms {
        Some(ms) => {
            let ghost head = res@;
            res.append(ms);
            res.append(" ms");
            assert(res@ =~= head + (ms@ + " ms"@));
        },
        None => res.append("N/A"),
    }
    res
}

/// One line of the history: the measurement and the number of interfaces that
/// the machine had.
pub fn history_line(record: &SpeedTestRecord, interface_count: usize) -> (res: String)
    ensures
        res@ == record.line() + " (interfaces: "@ + decimal(interface_count as nat) + ")"@,
{
    let mut res = record.summary();
    res.append(" (interfaces: ");
    push_decimal(&mut res, interface_count);
    res.append(")");
    res
}

/// The heading above the sites that are read by hand.
pub fn links_heading() -> (res: String)
    ensures
        res@
            == "M-Lab(自動測定対応): `rs-linkfusion speedtest run` で実行できます。"@,
{
    "M-Lab(自動測定対応): `rs-linkfusion speedtest run` で実行できます。".to_string()
}

/// A site that is read by hand.
pub fn link_line(name: &str, url: &str) -> (res: String)
    ensures
        res@ == name@ + "(手動確認用): "@ + url@,
{
    let mut res = name.to_string();
    res.append("(手動確認用): ");
    res.append(url);
    res
}

/// The seconds between two measurements that are `minutes` minutes apart.
pub fn watch_interval_secs(minutes: u64) -> (secs: u64)
    requires
        minutes * MINUTE <= u64::MAX,
    ensures
        secs == minutes * MINUTE,
{
    minutes * MINUTE
}

/// Every field of a record stands in its line in full, in the order of time,
/// source, label, download and upload.
pub proof fn line_holds_every_field(r: SpeedTestRecord)
    ensures
        ({
            let at = 1int;
            let source = at + r.recorded_at@.len() + 2;
            let label = source + r.source@.len() + 3;
            let down = label + r.label@.len() + 7;
            let up = down + r.download_mbps@.len() + 10;
            &&& r.line().len() == up + r.upload_mbps@.len() + 5
            &&& r.line().subrange(at, at + r.recorded_at@.len()) == r.recorded_at@
            &&& r.line().subrange(source, source + r.source@.len()) == r.source@
            &&& r.line().subrange(label, label + r.label@.len()) == r.label@
            &&& r.line().subrange(down, down + r.download_mbps@.len()) == r.download_mbps@
            &&& r.line().subrange(up, up + r.upload_mbps@.len()) == r.upload_mbps@
            &&& r.line().subrange(0, at) == "["@
            &&& r.line().subrange(source - 2, source) == "] "@
            &&& r.line().subrange(label - 3, label) == " / "@
            &&& r.line().subrange(down - 7, down) == ": down "@
            &&& r.line().subrange(up - 10, up) == " Mbps, up "@
            &&& r.line().skip(up + r.upload_mbps@.len()) == " Mbps"@
        }),
{
    reveal_strlit("[");
    reveal_strlit("] ");
    reveal_strlit(" / ");
    reveal_strlit(": down ");
    reveal_strlit(" Mbps, up ");
    reveal_strlit(" Mbps");
    let at = 1int;
    let source = at + r.recorded_at@.len() + 2;
    let label = source + r.source@.len() + 3;
    let down = label + r.label@.len() + 7;
    let up = down + r.download_mbps@.len() + 10;
    assert(r.line().subrange(at, at + r.recorded_at@.len()) =~= r.recorded_at@);
    assert(r.line().subrange(source, source + r.source@.len()) =~= r.source@);
    assert(r.line().subrange(label, label + r.label@.len()) =~= r.label@);
    assert(r.line().subrange(down, down + r.download_mbps@.len()) =~= r.download_mbps@);
    assert(r.line().subrange(up, up + r.upload_mbps@.len()) =~= r.upload_mbps@);
    assert(r.line().subrange(0, at) =~= "["@);
    assert(r.line().subrange(source - 2, source) =~= "] "@);
    assert(r.line().subrange(label - 3, label) =~= " / "@);
    assert(r.line().subrange(down - 7, down) =~= ": down "@);
    assert(r.line().subrange(up - 10, up) =~= " Mbps, up "@);
    assert(r.line().skip(up + r.upload_mbps@.len()) =~= " Mbps"@);
}

/// A minute has sixty seconds.
pub proof fn minute_has_sixty_seconds(minutes: u64)
    ensures
        minutes * MINUTE == minutes * 60,
{
}

} // verus!
