use query_external_ip::decoder::{Decoder, SourceError};
use query_external_ip::fetch::{decode_replies, successes};
use query_external_ip::registry::{build_sources, default_entries};
use query_external_ip::address::Address;
use query_external_ip::consensus::Consensus;

#[test]
fn malformed_url_is_left_out() {
    let entries = vec![
        ("https://a.example/".to_string(), Decoder::Plain),
        ("not a url".to_string(), Decoder::Plain),
        ("https://b.example/ip".to_string(), Decoder::Json("ip".to_string())),
        ("http://c.example/".to_string(), Decoder::Plain),
    ];
    let sources = build_sources(entries);
    assert_eq!(sources.len(), 3);
    assert_eq!(sources[0].text, "https://a.example/");
    assert_eq!(sources[1].text, "https://b.example/ip");
    assert!(matches!(&sources[1].decoder, Decoder::Json(f) if f == "ip"));
    assert_eq!(sources[2].endpoint.as_str(), "http://c.example/");
}

#[test]
fn default_roster_parses() {
    let sources = build_sources(default_entries());
    assert_eq!(sources.len(), 14);
    assert_eq!(sources[0].endpoint.as_str(), "https://icanhazip.com/");
}

#[test]
fn failures_do_not_stop_the_vote() {
    let sources = build_sources(vec![
        ("https://a.example/".to_string(), Decoder::Plain),
        ("https://b.example/".to_string(), Decoder::Plain),
        ("https://c.example/".to_string(), Decoder::Json("ip".to_string())),
        ("https://d.example/".to_string(), Decoder::Plain),
    ]);
    let replies = vec![
        None,
        Some(b"<html>rate limited</html>".to_vec()),
        Some(br#"{"ip": "2001:db8::5"}"#.to_vec()),
        Some(b"203.0.113.9\n".to_vec()),
    ];
    let res = decode_replies(&sources, &replies);
    assert!(matches!(res[0], Err(SourceError::RequestError)));
    assert!(matches!(res[1], Err(SourceError::RawIpMalformed)));
    let ips = successes(&res);
    assert_eq!(ips, vec![Address::V6(0x2001_0db8u128 << 96 | 5), Address::V4(0xcb00_7109)]);
    let c = Consensus::from_replies(&sources, &replies);
    assert_eq!(c.v4(), Some(0xcb00_7109));
    assert_eq!(c.v6(), Some(0x2001_0db8u128 << 96 | 5));
}

#[test]
fn nine_answers_five_timeouts() {
    let sources = build_sources(default_entries());
    assert_eq!(sources.len(), 14);
    let mut replies = Vec::new();
    for i in 0..14 {
        if i % 3 == 1 {
            replies.push(None);
        } else {
            replies.push(Some(b"8.8.8.8\n".to_vec()));
        }
    }
    assert_eq!(replies.iter().filter(|r| r.is_some()).count(), 9);
    let c = Consensus::from_replies(&sources, &replies);
    assert_eq!(c.v4(), Some(u32::from_be_bytes([8, 8, 8, 8])));
    assert_eq!(c.v6(), None);
}
