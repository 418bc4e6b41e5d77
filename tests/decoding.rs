use query_external_ip::address::{parse_address, parse_v4, parse_v6, trim, Address};
use query_external_ip::decoder::{decode_field, Decoder, JsonField, SourceError};

fn v4(a: u8, b: u8, c: u8, d: u8) -> Address {
    Address::V4(u32::from_be_bytes([a, b, c, d]))
}

#[test]
fn plain_strips_whitespace_and_quotes() {
    let r = Decoder::Plain.decode(b"  \"203.0.113.5\"\n");
    assert!(matches!(r, Ok(a) if a == v4(203, 0, 113, 5)));
}

#[test]
fn plain_rejects_non_address() {
    let r = Decoder::Plain.decode(b"<html>hello</html>");
    assert!(matches!(r, Err(SourceError::RawIpMalformed)));
    let r = Decoder::Plain.decode(b"");
    assert!(matches!(r, Err(SourceError::RawIpMalformed)));
}

#[test]
fn plain_reads_v6() {
    let r = Decoder::Plain.decode(b"2001:db8::1\n");
    assert!(matches!(r, Ok(Address::V6(x)) if x == 0x2001_0db8_0000_0000_0000_0000_0000_0001));
}

#[test]
fn json_field_found() {
    let d = Decoder::Json("ip".to_string());
    let r = d.decode(br#"{"ip": "198.51.100.7"}"#);
    assert!(matches!(r, Ok(a) if a == v4(198, 51, 100, 7)));
}

#[test]
fn json_field_missing() {
    let d = Decoder::Json("ip".to_string());
    let r = d.decode(br#"{"other": "x"}"#);
    assert!(matches!(r, Err(SourceError::JsonFieldMissing(f)) if f == "ip"));
}

#[test]
fn json_field_not_a_string() {
    let d = Decoder::Json("ip".to_string());
    let r = d.decode(br#"{"ip": 12345}"#);
    assert!(matches!(r, Err(SourceError::JsonFieldMalformed(f, raw)) if f == "ip" && raw == "12345"));
}

#[test]
fn json_not_json() {
    let d = Decoder::Json("ip".to_string());
    let r = d.decode(b"203.0.113.5 is your address");
    assert!(matches!(r, Err(SourceError::RequestError)));
}

#[test]
fn json_string_not_an_address() {
    let d = Decoder::Json("ip".to_string());
    let r = d.decode(br#"{"ip": "localhost"}"#);
    assert!(matches!(r, Err(SourceError::RawIpMalformed)));
}

#[test]
fn json_string_is_not_trimmed() {
    let d = Decoder::Json("ip".to_string());
    let r = d.decode(br#"{"ip": " 198.51.100.7"}"#);
    assert!(matches!(r, Err(SourceError::RawIpMalformed)));
}

#[test]
fn decode_field_each_case() {
    assert!(matches!(decode_field("ip", JsonField::Missing), Err(SourceError::JsonFieldMissing(f)) if f == "ip"));
    assert!(matches!(
        decode_field("ip", JsonField::NotText("[1]".to_string())),
        Err(SourceError::JsonFieldMalformed(f, raw)) if f == "ip" && raw == "[1]"
    ));
    assert!(matches!(decode_field("ip", JsonField::Text(b"10.0.0.1".to_vec())), Ok(a) if a == v4(10, 0, 0, 1)));
    assert!(matches!(decode_field("ip", JsonField::Text(b"10.0.0".to_vec())), Err(SourceError::RawIpMalformed)));
}

#[test]
fn v4_literals() {
    assert_eq!(parse_v4(b"0.0.0.0"), Some(0));
    assert_eq!(parse_v4(b"255.255.255.255"), Some(u32::MAX));
    assert_eq!(parse_v4(b"8.8.8.8"), Some(0x0808_0808));
    assert_eq!(parse_v4(b"256.1.1.1"), None);
    assert_eq!(parse_v4(b"01.2.3.4"), None);
    assert_eq!(parse_v4(b"1.2.3"), None);
    assert_eq!(parse_v4(b"1.2.3.4.5"), None);
    assert_eq!(parse_v4(b"1..3.4"), None);
    assert_eq!(parse_v4(b"1.2.3.4 "), None);
    assert_eq!(parse_v4(b"1000.2.3.4"), None);
}

#[test]
fn v6_literals() {
    assert_eq!(parse_v6(b"::"), Some(0));
    assert_eq!(parse_v6(b"::1"), Some(1));
    assert_eq!(parse_v6(b"1::"), Some(1u128 << 112));
    assert_eq!(parse_v6(b"1:2:3:4:5:6:7:8"), Some(0x0001_0002_0003_0004_0005_0006_0007_0008));
    assert_eq!(parse_v6(b"FFFF:ffff::"), Some(0xffff_ffffu128 << 96));
    assert_eq!(parse_v6(b"1:2:3:4:5:6:7::"), Some(0x0001_0002_0003_0004_0005_0006_0007_0000));
    assert_eq!(parse_v6(b"1::2::3"), None);
    assert_eq!(parse_v6(b"1:2:3:4:5:6:7:8:9"), None);
    assert_eq!(parse_v6(b"1:2:3:4:5:6:7:8::"), None);
    assert_eq!(parse_v6(b"1:2:3:4:5:6:7"), None);
    assert_eq!(parse_v6(b"12345::"), None);
    assert_eq!(parse_v6(b":1::"), None);
    assert_eq!(parse_v6(b"g::"), None);
    assert_eq!(parse_v6(b""), None);
}

#[test]
fn v6_with_dotted_quad() {
    assert_eq!(parse_v6(b"::ffff:192.0.2.1"), Some(0xffff_c000_0201));
    assert_eq!(parse_v6(b"::1.2.3.4"), Some(0x0102_0304));
    assert_eq!(parse_v6(b"1:2:3:4:5:6:1.2.3.4"), Some(0x0001_0002_0003_0004_0005_0006_0102_0304));
    assert_eq!(parse_v6(b"1:2:3:4:5:6:7:1.2.3.4"), None);
    assert_eq!(parse_v6(b"1.2.3.4::"), None);
    assert_eq!(parse_v6(b"::1.2.3.4:5"), None);
    assert_eq!(parse_v6(b"::1.2.3.256"), None);
}

#[test]
fn address_family_follows_syntax() {
    assert_eq!(parse_address(b"192.0.2.1"), Some(v4(192, 0, 2, 1)));
    assert_eq!(parse_address(b"fe80::2"), Some(Address::V6(0xfe80u128 << 112 | 2)));
    assert_eq!(parse_address(b"example.com"), None);
}

#[test]
fn trim_both_ends() {
    assert_eq!(trim(b" \t'\"x y\"'\r\n"), b"x y".to_vec());
    assert_eq!(trim(b"\"\"  "), Vec::<u8>::new());
    assert_eq!(trim(b"abc"), b"abc".to_vec());
}
