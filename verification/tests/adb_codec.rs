use miassistant_core::adb::decode_header;
use miassistant_core::adb::encode_header;
use miassistant_core::adb::AdbPacket;
use miassistant_core::adb::ADB_MAX_DATA;
use miassistant_core::adb::ADB_OKAY;
use miassistant_core::adb::ADB_OPEN;
use miassistant_core::adb::ADB_WRTE;
use miassistant_core::errors::Error;

#[test]
fn encode_decode_roundtrip() {
    let pkt = AdbPacket::new(ADB_OPEN, 12, 34, 56);
    let hdr = encode_header(&pkt);
    let out = decode_header(&hdr).unwrap();
    let (c, a0, a1, l, m) = (out.cmd, out.arg0, out.arg1, out.len, out.magic);
    let (pc, pa0, pa1, pl, pm) = (pkt.cmd, pkt.arg0, pkt.arg1, pkt.len, pkt.magic);
    assert_eq!(pc, c);
    assert_eq!(pa0, a0);
    assert_eq!(pa1, a1);
    assert_eq!(pl, l);
    assert_eq!(pm, m);
}

#[test]
fn bad_magic_rejected() {
    let pkt = AdbPacket::new(ADB_OKAY, 0, 0, 0);
    let mut hdr = encode_header(&pkt);
    // corrupt magic
    hdr[20] ^= 0xFF;
    let err = decode_header(&hdr).unwrap_err();
    match err {
        Error::Protocol(m) => assert!(m.contains("magic")),
        _ => panic!("unexpected error"),
    }
}

#[test]
fn oversize_payload_rejected() {
    let pkt = AdbPacket::new(ADB_WRTE, 0, 0, ADB_MAX_DATA + 1);
    // encode manually to bypass size check
    let mut hdr = vec![0u8; 24];
    hdr[0..4].copy_from_slice(&pkt.cmd.to_le_bytes());
    hdr[4..8].copy_from_slice(&pkt.arg0.to_le_bytes());
    hdr[8..12].copy_from_slice(&pkt.arg1.to_le_bytes());
    hdr[12..16].copy_from_slice(&(ADB_MAX_DATA + 1).to_le_bytes());
    hdr[16..20].copy_from_slice(&pkt.checksum.to_le_bytes());
    hdr[20..24].copy_from_slice(&pkt.magic.to_le_bytes());
    let err = decode_header(&hdr).unwrap_err();
    match err {
        Error::Protocol(m) => assert!(m.contains("payload")),
        _ => panic!("unexpected error"),
    }
}

#[test]
fn decoder_total_on_arbitrary_headers() {
    // Any 24-byte input decodes to a frame or a typed error, never a crash.
    let mut seed: u64 = 0x2545F4914F6CDD1D;
    for _ in 0..2000 {
        let mut hdr = vec![0u8; 24];
        for b in hdr.iter_mut() {
            seed = seed.wrapping_mul(6364136223846793005).wrapping_add(1442695040888963407);
            *b = (seed >> 33) as u8;
        }
        let _ = decode_header(&hdr);
    }
    // and a couple of fixed patterns
    let _ = decode_header(&vec![0u8; 24]);
    let _ = decode_header(&vec![0xffu8; 24]);
}

#[test]
fn new_fills_magic_and_zero_checksum() {
    let pkt = AdbPacket::new(ADB_WRTE, 7, 9, 11);
    let (c, m, k) = (pkt.cmd, pkt.magic, pkt.checksum);
    assert_eq!(m, c ^ 0xffffffff);
    assert_eq!(k, 0);
}
