use rs_linkfusion::speedtest::{
    default_history_path, history_line, link_line, links_heading, run_line, watch_interval_secs,
    SpeedTestRecord,
};
use rs_linkfusion::text::{chars_of, is_at_or_below, lowered, push_decimal, trim_end_dots};

#[test]
fn history_is_kept_in_a_file() {
    assert_eq!(default_history_path(), "speedtest-history.jsonl");
}

#[test]
fn run_is_reported_with_or_without_a_round_trip_time() {
    assert_eq!(
        run_line("94.2", "11.0", Some("8.3")),
        "download: 94.2 Mbps / upload: 11.0 Mbps / min RTT: 8.3 ms"
    );
    assert_eq!(
        run_line("94.2", "11.0", None),
        "download: 94.2 Mbps / upload: 11.0 Mbps / min RTT: N/A"
    );
}

#[test]
fn history_line_counts_the_interfaces() {
    let record = SpeedTestRecord {
        recorded_at: "2026-07-23T00:00:00Z".to_string(),
        source: "gate02".to_string(),
        label: "baseline".to_string(),
        download_mbps: "350.0".to_string(),
        upload_mbps: "120.0".to_string(),
    };
    assert_eq!(
        record.summary(),
        "[2026-07-23T00:00:00Z] gate02 / baseline: down 350.0 Mbps, up 120.0 Mbps"
    );
    assert_eq!(
        history_line(&record, 10),
        "[2026-07-23T00:00:00Z] gate02 / baseline: down 350.0 Mbps, up 120.0 Mbps (interfaces: 10)"
    );
}

#[test]
fn links_are_listed() {
    assert_eq!(
        links_heading(),
        "M-Lab(自動測定対応): `rs-linkfusion speedtest run` で実行できます。"
    );
    assert_eq!(
        link_line("gate02", "https://speedtest.gate02.ne.jp/"),
        "gate02(手動確認用): https://speedtest.gate02.ne.jp/"
    );
}

#[test]
fn interval_is_given_in_minutes() {
    assert_eq!(watch_interval_secs(60), 3600);
    assert_eq!(watch_interval_secs(0), 0);
}

#[test]
fn numbers_are_written_in_decimal() {
    for n in [0usize, 7, 9, 10, 42, 99, 100, 1_234_567, usize::MAX] {
        let mut text = "n=".to_string();
        push_decimal(&mut text, n);
        assert_eq!(text, format!("n={n}"));
    }
}

#[test]
fn dots_are_trimmed_at_the_end_only() {
    assert_eq!(trim_end_dots("a.b.."), "a.b");
    assert_eq!(trim_end_dots(".a"), ".a");
    assert_eq!(trim_end_dots("..."), "");
    assert_eq!(trim_end_dots(""), "");
    assert_eq!(trim_end_dots("日本."), "日本");
}

#[test]
fn suffixes_match_at_the_border_of_a_label() {
    let at = |name: &str, suffix: &str| is_at_or_below(&chars_of(name), &chars_of(suffix));
    assert!(at("b.c", "b.c"));
    assert!(at("a.b.c", "b.c"));
    assert!(!at("ab.c", "b.c"));
    assert!(!at(".c", "b.c"));
    assert!(at(".b.c", "b.c"));
}

#[test]
fn ascii_letters_are_lowered_one_by_one() {
    let all: String = (0u8..128).map(char::from).collect();
    assert_eq!(lowered(&all), all.to_ascii_lowercase());
    assert_eq!(lowered("WWW.Netflix.COM"), "www.netflix.com");
    assert_eq!(lowered("ÜBER.ΣΑΣ"), "über.σας");
}
