use portknock::address::IpAddress;
use portknock::knock_meta::{KnockMeta, Transport, TryFromSliceError};

fn ethernet(ethertype: u16, payload: &[u8]) -> Vec<u8> {
    let mut f = vec![0xaa; 12];
    f.extend_from_slice(&ethertype.to_be_bytes());
    f.extend_from_slice(payload);
    f
}

fn ipv4(ihl: u8, proto: u8, src: [u8; 4], dst: [u8; 4], rest: &[u8]) -> Vec<u8> {
    let mut p = vec![0x40 | ihl, 0, 0, 0, 0, 0, 0, 0, 64, proto, 0, 0];
    p.extend_from_slice(&src);
    p.extend_from_slice(&dst);
    p.resize(usize::max(20, ihl as usize * 4), 0);
    p.extend_from_slice(rest);
    p
}

fn ipv6(next: u8, src: u128, dst: u128, rest: &[u8]) -> Vec<u8> {
    let mut p = vec![0x60, 0, 0, 0, 0, 0, next, 64];
    p.extend_from_slice(&src.to_be_bytes());
    p.extend_from_slice(&dst.to_be_bytes());
    p.extend_from_slice(rest);
    p
}

fn tcp(src_port: u16, dst_port: u16, flags: u8) -> Vec<u8> {
    let mut t = vec![0u8; 20];
    t[0..2].copy_from_slice(&src_port.to_be_bytes());
    t[2..4].copy_from_slice(&dst_port.to_be_bytes());
    t[12] = 0x50;
    t[13] = flags;
    t
}

fn udp(src_port: u16, dst_port: u16) -> Vec<u8> {
    let mut t = vec![0u8; 8];
    t[0..2].copy_from_slice(&src_port.to_be_bytes());
    t[2..4].copy_from_slice(&dst_port.to_be_bytes());
    t
}

#[test]
fn ipv4_tcp_syn_is_a_knock() {
    let f = ethernet(0x0800, &ipv4(5, 6, [192, 168, 1, 9], [10, 0, 0, 1], &tcp(51000, 436, 0x02)));
    assert_eq!(
        KnockMeta::decode(&f),
        Ok(KnockMeta {
            proto: Transport::Tcp,
            src_addr: IpAddress::V4(0xc0a8_0109),
            dst_addr: IpAddress::V4(0x0a00_0001),
            src_port: 51000,
            dst_port: 436,
        })
    );
}

#[test]
fn syn_ack_still_counts() {
    let f = ethernet(0x0800, &ipv4(5, 6, [1, 2, 3, 4], [5, 6, 7, 8], &tcp(1, 2, 0x12)));
    assert!(KnockMeta::decode(&f).is_ok());
}

#[test]
fn tcp_without_syn_is_rejected() {
    let f = ethernet(0x0800, &ipv4(5, 6, [1, 2, 3, 4], [5, 6, 7, 8], &tcp(1, 2, 0x10)));
    assert_eq!(KnockMeta::decode(&f), Err(TryFromSliceError));
}

#[test]
fn ipv4_options_are_skipped() {
    let f = ethernet(0x0800, &ipv4(6, 17, [1, 2, 3, 4], [5, 6, 7, 8], &udp(9, 1928)));
    let m = KnockMeta::decode(&f).unwrap();
    assert_eq!(m.proto, Transport::Udp);
    assert_eq!(m.src_port, 9);
    assert_eq!(m.dst_port, 1928);
}

#[test]
fn ipv4_header_longer_than_frame_is_rejected() {
    let mut p = ipv4(5, 17, [1, 2, 3, 4], [5, 6, 7, 8], &udp(9, 1928));
    p[0] = 0x4f;
    assert_eq!(KnockMeta::decode(&ethernet(0x0800, &p)), Err(TryFromSliceError));
}

#[test]
fn ipv6_udp_is_a_knock() {
    let src = 0x2001_0db8_0000_0000_0000_0000_0000_0001u128;
    let dst = 0xfe80_0000_0000_0000_0000_0000_0000_0002u128;
    let f = ethernet(0x86dd, &ipv6(17, src, dst, &udp(5353, 29545)));
    assert_eq!(
        KnockMeta::decode(&f),
        Ok(KnockMeta {
            proto: Transport::Udp,
            src_addr: IpAddress::V6(src),
            dst_addr: IpAddress::V6(dst),
            src_port: 5353,
            dst_port: 29545,
        })
    );
}

#[test]
fn ipv6_tcp_syn_is_a_knock() {
    let f = ethernet(0x86dd, &ipv6(6, 1, 2, &tcp(7, 123, 0x02)));
    let m = KnockMeta::decode(&f).unwrap();
    assert_eq!(m.proto, Transport::Tcp);
    assert_eq!(m.src_addr, IpAddress::V6(1));
    assert_eq!(m.dst_port, 123);
}

#[test]
fn other_ethertypes_are_rejected() {
    let f = ethernet(0x0806, &ipv4(5, 17, [1, 2, 3, 4], [5, 6, 7, 8], &udp(1, 2)));
    assert_eq!(KnockMeta::decode(&f), Err(TryFromSliceError));
}

#[test]
fn other_transports_are_rejected() {
    let f = ethernet(0x0800, &ipv4(5, 1, [1, 2, 3, 4], [5, 6, 7, 8], &[8, 0, 0, 0, 0, 0, 0, 0]));
    assert_eq!(KnockMeta::decode(&f), Err(TryFromSliceError));
    let f = ethernet(0x86dd, &ipv6(58, 1, 2, &[0u8; 8]));
    assert_eq!(KnockMeta::decode(&f), Err(TryFromSliceError));
}

#[test]
fn truncated_headers_are_rejected() {
    assert_eq!(KnockMeta::decode(&[0u8; 13]), Err(TryFromSliceError));
    assert_eq!(KnockMeta::decode(&ethernet(0x0800, &[0x45; 19])), Err(TryFromSliceError));
    assert_eq!(KnockMeta::decode(&ethernet(0x86dd, &[0x60; 39])), Err(TryFromSliceError));
    let short_tcp = &tcp(1, 2, 0x02)[..19];
    let f = ethernet(0x0800, &ipv4(5, 6, [1, 2, 3, 4], [5, 6, 7, 8], short_tcp));
    assert_eq!(KnockMeta::decode(&f), Err(TryFromSliceError));
    let f = ethernet(0x0800, &ipv4(5, 17, [1, 2, 3, 4], [5, 6, 7, 8], &[0u8; 7]));
    assert_eq!(KnockMeta::decode(&f), Err(TryFromSliceError));
}

#[test]
fn try_from_matches_decode() {
    let f = ethernet(0x0800, &ipv4(5, 17, [1, 2, 3, 4], [5, 6, 7, 8], &udp(1, 2)));
    assert_eq!(KnockMeta::try_from(&f[..]), KnockMeta::decode(&f));
    assert_eq!(KnockMeta::try_from(&f[..5]), Err(TryFromSliceError));
}

#[test]
fn ipv4_header_shorter_than_fixed_part_is_rejected() {
    for ihl in 0u8..5 {
        let mut p = ipv4(5, 17, [1, 2, 3, 4], [5, 6, 7, 8], &udp(9, 1928));
        p[0] = 0x40 | ihl;
        assert_eq!(KnockMeta::decode(&ethernet(0x0800, &p)), Err(TryFromSliceError));
    }
    let mut p = vec![0x40, 0, 0, 0, 0, 0, 0, 0, 64, 17, 0, 0];
    p.resize(20, 0);
    assert_eq!(KnockMeta::try_from(&ethernet(0x0800, &p)[..]), Err(TryFromSliceError));
}
