use sp2p::address::{distinct_peers, ip_to_text, IpAddress, NetAddress};
use sp2p::text::{decimal_text, to_hex};

fn v4(a: u8, b: u8, c: u8, d: u8) -> IpAddress {
    IpAddress::V4(u32::from_be_bytes([a, b, c, d]))
}

fn v6(segs: [u16; 8]) -> IpAddress {
    let mut bits: u128 = 0;
    for s in segs {
        bits = (bits << 16) | s as u128;
    }
    IpAddress::V6(bits)
}

#[test]
fn decimal_text_of_numbers() {
    assert_eq!(decimal_text(0), "0");
    assert_eq!(decimal_text(7), "7");
    assert_eq!(decimal_text(18111), "18111");
    assert_eq!(decimal_text(u64::MAX), "18446744073709551615");
}

#[test]
fn hex_keeps_leading_zeros() {
    assert_eq!(to_hex(&[]), "");
    assert_eq!(to_hex(&[0x0a, 0xff]), "0aff");
    assert_eq!(to_hex(&[0x00, 0x01, 0x10, 0xab]), "000110ab");
}

#[test]
fn ipv4_dotted_decimal() {
    assert_eq!(ip_to_text(&v4(127, 0, 0, 1)), "127.0.0.1");
    assert_eq!(ip_to_text(&v4(255, 255, 255, 255)), "255.255.255.255");
    assert_eq!(ip_to_text(&v4(0, 0, 0, 0)), "0.0.0.0");
    assert_eq!(ip_to_text(&v4(10, 20, 30, 40)), "10.20.30.40");
}

#[test]
fn ipv6_compresses_longest_zero_run() {
    assert_eq!(ip_to_text(&v6([0x2001, 0xdb8, 0, 0, 0, 0, 0, 1])), "2001:db8::1");
    assert_eq!(ip_to_text(&v6([0, 0, 0, 0, 0, 0, 0, 0])), "::");
    assert_eq!(ip_to_text(&v6([0, 0, 0, 0, 0, 0, 0, 1])), "::1");
    assert_eq!(ip_to_text(&v6([1, 0, 0, 0, 0, 0, 0, 0])), "1::");
    // of two runs of equal length the first is compressed
    assert_eq!(ip_to_text(&v6([1, 0, 0, 2, 3, 0, 0, 4])), "1::2:3:0:0:4");
    // the longer run wins
    assert_eq!(ip_to_text(&v6([1, 0, 0, 2, 0, 0, 0, 4])), "1:0:0:2::4");
    // a single zero segment is not compressed
    assert_eq!(ip_to_text(&v6([1, 0, 2, 3, 4, 5, 6, 7])), "1:0:2:3:4:5:6:7");
    assert_eq!(
        ip_to_text(&v6([0xfe80, 0, 0, 0, 0x1ff, 0xfe23, 0x4567, 0x890a])),
        "fe80::1ff:fe23:4567:890a"
    );
}

#[test]
fn ipv6_mapped_written_with_dotted_tail() {
    assert_eq!(
        ip_to_text(&v6([0, 0, 0, 0, 0, 0xffff, 0xc000, 0x0280])),
        "::ffff:192.0.2.128"
    );
}

#[test]
fn ipv6_text_edge_cases() {
    assert_eq!(ip_to_text(&v6([0, 0xabcd, 0, 0, 0, 0xffff, 1, 0])), "0:abcd::ffff:1:0");
    // an IPv4-compatible address is written in hexadecimal
    assert_eq!(ip_to_text(&v6([0, 0, 0, 0, 0, 0, 0xc000, 0x0280])), "::c000:280");
    assert_eq!(
        ip_to_text(&v6([0xffff, 0xffff, 0xffff, 0xffff, 0xffff, 0xffff, 0xffff, 0xffff])),
        "ffff:ffff:ffff:ffff:ffff:ffff:ffff:ffff"
    );
    assert_eq!(ip_to_text(&v6([1, 2, 3, 4, 5, 6, 0, 0])), "1:2:3:4:5:6::");
}

#[test]
fn canonical_unmaps_ipv4_mapped() {
    let mapped = v6([0, 0, 0, 0, 0, 0xffff, 0x7f00, 0x0001]);
    assert_eq!(mapped.to_canonical(), v4(127, 0, 0, 1));
    let plain = v6([0x2001, 0xdb8, 0, 0, 0, 0, 0, 1]);
    assert_eq!(plain.to_canonical(), plain);
    // IPv4-compatible addresses are not IPv4-mapped
    let compatible = v6([0, 0, 0, 0, 0, 0, 0x7f00, 0x0001]);
    assert_eq!(compatible.to_canonical(), compatible);
    assert_eq!(v4(1, 2, 3, 4).to_canonical(), v4(1, 2, 3, 4));
}

#[test]
fn address_text_is_ip_colon_port() {
    let a = NetAddress { ip: v4(192, 168, 1, 2), port: 18111 };
    assert_eq!(a.to_text(), "192.168.1.2:18111");
    let b = NetAddress { ip: v6([0x2001, 0xdb8, 0, 0, 0, 0, 0, 1]), port: 80 };
    assert_eq!(b.to_text(), "2001:db8::1:80");
}

#[test]
fn distinct_peers_drops_repeats_and_unreadable() {
    let a = NetAddress { ip: v4(1, 2, 3, 4), port: 1 };
    let a_mapped = NetAddress { ip: v6([0, 0, 0, 0, 0, 0xffff, 0x0102, 0x0304]), port: 1 };
    let b = NetAddress { ip: v4(1, 2, 3, 4), port: 2 };
    let raw = vec![Some(a), None, Some(b), Some(a_mapped), Some(a)];
    let peers = distinct_peers(&raw);
    assert_eq!(peers, vec![a, b]);
    assert_eq!(distinct_peers(&vec![Some(b), Some(a), Some(b)]), vec![b, a]);
    assert_eq!(distinct_peers(&vec![None, None]), vec![]);
}

#[test]
fn different_peers_get_different_texts() {
    let peers = vec![
        NetAddress { ip: v4(1, 2, 3, 4), port: 5 },
        NetAddress { ip: v4(1, 2, 3, 45), port: 5 },
        NetAddress { ip: v4(1, 2, 34, 5), port: 5 },
        NetAddress { ip: v6([0, 0, 0, 0, 0, 0xffff, 0x0102, 0x0304]), port: 5 },
        NetAddress { ip: v6([0, 0, 0, 0, 0, 0, 0x0102, 0x0304]), port: 5 },
        NetAddress { ip: v6([0, 0, 0, 0, 0, 0, 0, 1]), port: 5 },
        NetAddress { ip: v6([0, 0, 0, 0, 0, 0, 0, 0x15]), port: 0 },
        NetAddress { ip: v6([1, 0, 0, 0, 0, 0, 0, 0]), port: 5 },
        NetAddress { ip: v6([1, 0, 0, 0, 0, 0, 0, 5]), port: 5 },
    ];
    let mut texts: Vec<String> = peers.iter().map(|p| p.to_text()).collect();
    texts.sort();
    texts.dedup();
    assert_eq!(texts.len(), peers.len());
}
