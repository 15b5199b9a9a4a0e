use bytes::BytesMut;
use localdrop::device::discovery::DeviceDiscovery;
use localdrop::file::merger::FileMerger;
use localdrop::file::splitter::FileSplitter;
use localdrop::protocol::codec::{buffered_bytes, buffered_len, is_decode_unreadable};
use localdrop::utils::hash::{calculate_crc32, format_eta};
use std::collections::HashSet;

fn listener() -> DeviceDiscovery {
    DeviceDiscovery::new(50000, 50001, "me".to_string(), "Mine".to_string(), "unknown".to_string())
}

#[test]
fn datagram_with_all_fields_is_recorded() {
    let mut d = listener();
    let data = br#"{"device_id":"a","device_name":"Laptop","device_type":"macos","tcp_port":50001,"extra":1}"#;
    let r = d.record_datagram(data, "10.0.0.2".to_string(), 100);
    assert_eq!(r, Some(("a".to_string(), "Laptop".to_string(), "macos".to_string(), 50001)));
    assert_eq!(d.devices().len(), 1);
    let dev = &d.devices()[0];
    assert_eq!(dev.device_id, "a");
    assert_eq!(dev.device_name, "Laptop");
    assert_eq!(dev.device_type, "macos");
    assert_eq!(dev.ip_address, "10.0.0.2");
    assert_eq!(dev.tcp_port, 50001);
    assert!(dev.online);
    assert_eq!(dev.last_seen, 100);
}

#[test]
fn datagram_port_is_cut_to_sixteen_bits() {
    let mut d = listener();
    let data = br#"{"device_id":"b","device_name":"B","device_type":"ios","tcp_port":70000}"#;
    let r = d.record_datagram(data, "ip".to_string(), 7);
    assert_eq!(r.map(|x| x.3), Some(70000));
    assert_eq!(d.devices()[0].tcp_port, 4464);
}

#[test]
fn datagram_again_updates_the_same_device() {
    let mut d = listener();
    let first = br#"{"device_id":"a","device_name":"A","device_type":"t","tcp_port":1}"#;
    let second = br#"{"device_id":"a","device_name":"A2","device_type":"t","tcp_port":2}"#;
    d.record_datagram(first, "ip1".to_string(), 1);
    d.record_datagram(second, "ip2".to_string(), 2);
    assert_eq!(d.devices().len(), 1);
    assert_eq!(d.devices()[0].device_name, "A2");
    assert_eq!(d.devices()[0].ip_address, "ip2");
    assert_eq!(d.devices()[0].tcp_port, 2);
}

#[test]
fn datagrams_without_the_fields_change_nothing() {
    let mut d = listener();
    d.start();
    let cases: Vec<&[u8]> = vec![
        b"not json",
        b"",
        br#"{"device_name":"A","device_type":"t","tcp_port":1}"#,
        br#"{"device_id":"a","device_type":"t","tcp_port":1}"#,
        br#"{"device_id":"a","device_name":"A","tcp_port":1}"#,
        br#"{"device_id":"a","device_name":"A","device_type":"t"}"#,
        br#"{"device_id":1,"device_name":"A","device_type":"t","tcp_port":1}"#,
        br#"{"device_id":"a","device_name":"A","device_type":"t","tcp_port":-1}"#,
        br#"{"device_id":"a","device_name":"A","device_type":"t","tcp_port":"1"}"#,
        br#"["device_id"]"#,
    ];
    for data in cases {
        assert_eq!(d.record_datagram(data, "ip".to_string(), 5), None);
        assert!(d.devices().is_empty());
    }
    assert!(d.is_running());
    assert_eq!(d.device_name(), "Mine");
}

#[test]
fn buffer_accessors() {
    let b = BytesMut::from(&[b'L', b'O', b'C', b'A', 1, 0, 0, 0, 0][..]);
    assert_eq!(buffered_len(&b), 9);
    assert_eq!(buffered_bytes(&b), vec![b'L', b'O', b'C', b'A', 1, 0, 0, 0, 0]);
    assert!(is_decode_unreadable(&b));
    let longer = BytesMut::from(&[b'L', b'O', b'C', b'A', 1, 0, 0, 0, 0, 0][..]);
    assert!(!is_decode_unreadable(&longer));
    let other_magic = BytesMut::from(&[b'L', b'O', b'C', b'B', 1, 0, 0, 0, 0][..]);
    assert!(!is_decode_unreadable(&other_magic));
    let other_version = BytesMut::from(&[b'L', b'O', b'C', b'A', 2, 0, 0, 0, 0][..]);
    assert!(!is_decode_unreadable(&other_version));
    let empty = BytesMut::new();
    assert_eq!(buffered_len(&empty), 0);
    assert!(buffered_bytes(&empty).is_empty());
}

#[test]
fn corrupt_chunk_is_refused_whatever_its_index() {
    let m = FileMerger::new(10, 4);
    let data = [1u8, 2, 3];
    let wrong = calculate_crc32(&data) ^ 0xffff_ffff;
    assert_eq!(m.write_chunk_offset(i64::MAX, &data, wrong), Ok(None));
    assert_eq!(m.write_chunk_offset(-1, &data, wrong), Ok(None));
    assert_eq!(m.write_chunk_offset(100, &data, wrong), Ok(None));
}

#[test]
fn remaining_times_render_distinctly() {
    let mut seen = HashSet::new();
    let mut count = 0;
    for s in (0..20000u64).chain([86399, 86400, 360000, 3599999, u64::MAX / 2, u64::MAX]) {
        assert!(seen.insert(format_eta(s)), "{} renders like an earlier time", s);
        count += 1;
    }
    assert_eq!(seen.len(), count);
    assert_eq!(format_eta(0), "--");
    assert_eq!(format_eta(3600), "1:00:00");
}

fn content(n: usize) -> Vec<u8> {
    (0..n).map(|i| (i * 7 % 251) as u8).collect()
}

#[test]
fn chunks_in_index_order_join_to_the_content() {
    for (n, cs) in [(0usize, 4usize), (1, 1), (10, 3), (12, 4), (100, 7), (1000, 1000), (999, 1000)] {
        let c = content(n);
        let s = FileSplitter::new(n as u64, cs);
        let total = s.total_chunks();
        let mut joined = Vec::new();
        for i in 0..total {
            let (off, len) = s.chunk_span(i).unwrap();
            if i + 1 < total {
                assert_eq!(len, cs);
            } else {
                assert!(len >= 1 && len <= cs);
            }
            joined.extend_from_slice(&c[off as usize..off as usize + len]);
        }
        assert_eq!(joined, c);
    }
}

#[test]
fn chunks_in_any_order_rebuild_the_content() {
    let (n, cs) = (100usize, 7usize);
    let c = content(n);
    let s = FileSplitter::new(n as u64, cs);
    let m = FileMerger::new(n as u64, cs);
    let total = s.total_chunks();
    let mut order: Vec<i64> = (0..total).rev().collect();
    order.extend([3, 0, 14, 3]);
    let mut file = vec![0xaau8; n];
    for i in order {
        let (off, len) = s.chunk_span(i).unwrap();
        let data = &c[off as usize..off as usize + len];
        let placed = m.write_chunk_offset(i, data, calculate_crc32(data));
        assert_eq!(placed, Ok(Some(off)));
        file[off as usize..off as usize + len].copy_from_slice(data);
    }
    assert_eq!(file, c);
}

#[test]
fn resuming_keeps_done_chunks_and_fills_the_rest() {
    let (n, cs) = (50usize, 6usize);
    let c = content(n);
    let s = FileSplitter::new(n as u64, cs);
    let m = FileMerger::new(n as u64, cs);
    let total = s.total_chunks();
    let done: Vec<i64> = vec![0, 2, 5, 8];
    let mut file = vec![0u8; n];
    for &i in &done {
        let (off, len) = s.chunk_span(i).unwrap();
        file[off as usize..off as usize + len].copy_from_slice(&c[off as usize..off as usize + len]);
    }
    let mut order: Vec<i64> = (0..total).filter(|i| !done.contains(i)).rev().collect();
    order.push(3);
    for i in order {
        let (off, len) = s.chunk_span(i).unwrap();
        let data = &c[off as usize..off as usize + len];
        assert_eq!(m.write_chunk_offset(i, data, calculate_crc32(data)), Ok(Some(off)));
        file[off as usize..off as usize + len].copy_from_slice(data);
    }
    assert_eq!(file, c);
}
