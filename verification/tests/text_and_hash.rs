use localdrop::utils::hash::{bytes_to_hex, calculate_crc32, Sha256Stream};
use localdrop::utils::text::{parse_hex_u32, u32_to_hex};

#[test]
fn hex_of_u32() {
    assert_eq!(u32_to_hex(0), "0");
    assert_eq!(u32_to_hex(15), "f");
    assert_eq!(u32_to_hex(16), "10");
    assert_eq!(u32_to_hex(0xcbf43926), "cbf43926");
    assert_eq!(u32_to_hex(u32::MAX), "ffffffff");
    for n in [1u32, 9, 10, 255, 256, 4095, 65536, 0x0fff_ffff, 0x1234_5678] {
        assert_eq!(u32_to_hex(n), format!("{:x}", n));
    }
}

#[test]
fn parse_matches_from_str_radix() {
    let cases = [
        "", "+", "-", "0", "00000000000000000000ff", "ff", "FF", "Ff", "+1a", "-1a", "1g", " 1", "ffffffff",
        "100000000", "fffffffff", "+ffffffff", "cbf43926", "é", "1é", "++1", "0x10",
    ];
    for c in cases {
        assert_eq!(parse_hex_u32(c), u32::from_str_radix(c, 16).ok(), "case {:?}", c);
    }
}

#[test]
fn hex_roundtrip() {
    let mut x: u32 = 0x1234_5678;
    for _ in 0..2000 {
        x = x.wrapping_mul(1_664_525).wrapping_add(1_013_904_223);
        assert_eq!(parse_hex_u32(&u32_to_hex(x)), Some(x));
    }
}

#[test]
fn crc32_check_value() {
    assert_eq!(calculate_crc32(b"123456789"), 0xCBF4_3926);
    assert_eq!(calculate_crc32(b""), 0);
}

#[test]
fn sha256_known_digests() {
    let mut st = Sha256Stream::new();
    st.update(b"abc");
    assert_eq!(st.finish_hex(), "ba7816bf8f01cfea414140de5dae2223b00361a396177a9cb410ff61f20015ad");
    let empty = Sha256Stream::new();
    assert_eq!(empty.finish_hex(), "e3b0c44298fc1c149afbf4c8996fb92427ae41e4649b934ca495991b7852b855");
}

#[test]
fn sha256_in_pieces_equals_whole() {
    let data: Vec<u8> = (0..10_000u32).map(|i| (i * 7 % 256) as u8).collect();
    let mut whole = Sha256Stream::new();
    whole.update(&data);
    let mut pieces = Sha256Stream::new();
    for chunk in data.chunks(777) {
        pieces.update(chunk);
    }
    assert_eq!(whole.finish_hex(), pieces.finish_hex());
}

#[test]
fn hex_of_bytes() {
    assert_eq!(bytes_to_hex(&[0x0a, 0x14, 0x1e]), "0a141e");
    assert_eq!(bytes_to_hex(&[]), "");
    assert_eq!(bytes_to_hex(&[0xff, 0x00]), "ff00");
}
