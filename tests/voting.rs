use query_external_ip::address::Address;
use query_external_ip::consensus::{plurality, sort_votes, tally, Consensus};

fn v4(a: u8, b: u8, c: u8, d: u8) -> Address {
    Address::V4(u32::from_be_bytes([a, b, c, d]))
}

#[test]
fn most_frequent_wins() {
    let a = v4(192, 0, 2, 1);
    let b = v4(192, 0, 2, 2);
    let c = v4(192, 0, 2, 3);
    let ips = vec![b, a, c, a, b, a];
    let r = Consensus::from_ips(&ips);
    assert_eq!(r.v4(), Some(u32::from_be_bytes([192, 0, 2, 1])));
    assert_eq!(r.v6(), None);
}

#[test]
fn no_candidates_no_consensus() {
    let r = Consensus::from_ips(&Vec::new());
    assert_eq!(r.v4(), None);
    assert_eq!(r.v6(), None);
}

#[test]
fn only_v4_leaves_v6_absent() {
    let ips = vec![v4(8, 8, 8, 8); 20];
    let r = Consensus::from_ips(&ips);
    assert_eq!(r.v4(), Some(0x0808_0808));
    assert_eq!(r.v6(), None);
}

#[test]
fn families_vote_apart() {
    let ips = vec![
        Address::V6(1),
        v4(1, 1, 1, 1),
        Address::V6(2),
        Address::V6(2),
        Address::V6(2),
        v4(1, 1, 1, 1),
        Address::V6(1),
    ];
    let r = Consensus::from_ips(&ips);
    assert_eq!(r.v4(), Some(0x0101_0101));
    assert_eq!(r.v6(), Some(2));
}

#[test]
fn tie_goes_to_greatest_address() {
    let a = v4(10, 0, 0, 1);
    let b = v4(10, 0, 0, 2);
    for _ in 0..5 {
        assert_eq!(Consensus::from_ips(&vec![a, b]).v4(), Some(0x0a00_0002));
        assert_eq!(Consensus::from_ips(&vec![b, a]).v4(), Some(0x0a00_0002));
    }
    let r = Consensus::from_ips(&vec![Address::V6(7), Address::V6(3), Address::V6(3), Address::V6(7)]);
    assert_eq!(r.v6(), Some(7));
}

#[test]
fn tally_counts_each_address_once() {
    let t = tally(&vec![5, 3, 5, 5, 9, 3]);
    let mut t = t;
    t.sort();
    assert_eq!(t, vec![(3, 2), (5, 3), (9, 1)]);
    assert_eq!(tally(&Vec::new()), Vec::new());
}

#[test]
fn sort_votes_picks_top() {
    assert_eq!(sort_votes(&vec![]), None);
    assert_eq!(sort_votes(&vec![(4, 1), (2, 5), (9, 3)]), Some(2));
    assert_eq!(sort_votes(&vec![(4, 5), (2, 5), (9, 3)]), Some(4));
    assert_eq!(plurality(&vec![1, 2, 2, 1, 3]), Some(2));
}
