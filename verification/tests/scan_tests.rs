//! The scan engine end to end: a synthetic sector holding a real encrypted
//! header is found; pre-filtered sectors are counted but never derived;
//! the batch bookkeeping honours its cap.

use tcfinder::aes::encrypt_block;
use tcfinder::gf2n::gfmul_simd;
use tcfinder::tcfinder::{
    arr_as_hex_str, count_total_sectors, derive_header_keys, scan_buffer, scan_image,
    verify_sector, ScanState,
};
use tcfinder::xts::{arr_size_to_16b, xor_bytes_16};

fn encrypt_equivalent(key1: &[u8], key2: &[u8], plain: &[u8]) -> Vec<u8> {
    let e = encrypt_block(&[0u8; 16], key2).unwrap();
    let e16 = arr_size_to_16b(e);
    let g_bytes = 1u128.to_be_bytes();
    let tweak = gfmul_simd(&e16, &g_bytes);
    let xored = xor_bytes_16(&tweak, plain);
    let enc = encrypt_block(&xored, key1).unwrap();
    let enc16 = arr_size_to_16b(enc);
    xor_bytes_16(&tweak, &enc16)
}

fn fixed_salt() -> [u8; 64] {
    let mut salt = [0u8; 64];
    let mut x = 91u8;
    for b in salt.iter_mut() {
        x = x.wrapping_mul(53).wrapping_add(7);
        *b = x | 1;
    }
    salt
}

/// A 512-byte sector whose first 64 bytes are the salt and whose bytes
/// 64..80 hold the XTS-encrypted magic-prefixed header block.
fn build_matching_sector(password: &[u8], salt: &[u8; 64]) -> [u8; 512] {
    let (key1, key2) = derive_header_keys(password, salt);
    let mut plain = [0xA5u8; 16];
    plain[..4].copy_from_slice(&[0x54, 0x52, 0x55, 0x45]);
    let cipher = encrypt_equivalent(&key1, &key2, &plain);
    let mut sector = [0u8; 512];
    sector[..64].copy_from_slice(salt);
    sector[64..80].copy_from_slice(&cipher);
    sector
}

#[test]
fn end_to_end_scenario() {
    let password = b"a0k5lg03mvh2laoqwxcbmtbdksloew58";
    let salt = fixed_salt();
    let sector = build_matching_sector(password, &salt);

    let mut st = ScanState::new();
    scan_buffer(&mut st, &sector, 7, 7, password);
    assert_eq!(st.found, vec![7]);
    assert_eq!(st.progress, 1);
    assert_eq!(st.derived, 1);
    assert_eq!(st.in_flight, 0);
}

#[test]
fn wrong_password_finds_nothing() {
    let salt = fixed_salt();
    let sector = build_matching_sector(b"a0k5lg03mvh2laoqwxcbmtbdksloew58", &salt);

    let mut st = ScanState::new();
    scan_buffer(&mut st, &sector, 7, 7, b"not the password");
    assert!(st.found.is_empty());
    assert_eq!(st.progress, 1);
    assert_eq!(st.derived, 1);
}

#[test]
fn zero_prefix_sector_counts_without_derivation() {
    let sector = [0u8; 512];
    let mut st = ScanState::new();
    scan_buffer(&mut st, &sector, 0, 0, b"pw");
    assert_eq!(st.derived, 0);
    assert_eq!(st.progress, 1);
    assert!(st.found.is_empty());
}

#[test]
fn multi_sector_buffer_reports_match_position() {
    let password = b"a0k5lg03mvh2laoqwxcbmtbdksloew58";
    let salt = fixed_salt();
    let matching = build_matching_sector(password, &salt);

    // Three sectors: all-zero (pre-filtered), garbage, then the match.
    let mut buf = vec![0u8; 1536];
    for (i, b) in buf[512..1024].iter_mut().enumerate() {
        *b = (i as u8) | 1;
    }
    buf[1024..1536].copy_from_slice(&matching);

    let mut st = ScanState::new();
    scan_buffer(&mut st, &buf, 100, 102, password);
    assert_eq!(st.found, vec![102]);
    assert_eq!(st.progress, 3);
    assert_eq!(st.derived, 2);
}

#[test]
fn range_end_stops_before_buffer_end() {
    // Two sectors in the buffer, but the range asks only for the first.
    let buf = vec![1u8; 1024];
    let mut st = ScanState::new();
    scan_buffer(&mut st, &buf, 40, 40, b"pw");
    assert_eq!(st.progress, 1);
    assert_eq!(st.derived, 1);
}

#[test]
fn verify_sector_prefilters_and_checks() {
    let password = b"a0k5lg03mvh2laoqwxcbmtbdksloew58";
    let salt = fixed_salt();
    let matching = build_matching_sector(password, &salt);
    let dec = verify_sector(&matching, password).unwrap();
    assert_eq!(&dec[..4], &[0x54, 0x52, 0x55, 0x45]);
    assert_eq!(&dec[4..], &[0xA5u8; 12]);

    let zeros = [0u8; 512];
    assert!(verify_sector(&zeros, password).is_none());
}

#[test]
fn whole_image_scan_over_ranges() {
    let password = b"a0k5lg03mvh2laoqwxcbmtbdksloew58";
    let salt = fixed_salt();
    let matching = build_matching_sector(password, &salt);

    // An image of six sectors; sectors 1 and 4 hold headers, but only
    // sector 4 lies inside the scanned ranges.
    let mut image = vec![0u8; 6 * 512];
    image[512..1024].copy_from_slice(&matching);
    image[4 * 512..5 * 512].copy_from_slice(&matching);
    for (i, b) in image[2 * 512..3 * 512].iter_mut().enumerate() {
        *b = (i as u8) | 3;
    }

    let st = scan_image(&image, &[(2, 2), (3, 5)], password);
    assert_eq!(st.found, vec![4]);
    assert_eq!(st.progress, 4);
    // Sector 2 is garbage, sectors 3 and 5 are all-zero (pre-filtered),
    // sector 4 is the header: two derivations in all.
    assert_eq!(st.derived, 2);
    assert_eq!(st.in_flight, 0);
}

#[test]
fn backpressure_cap_is_honoured() {
    let mut st = ScanState::new();
    for _ in 0..32 {
        assert!(!st.must_drain());
        st.note_dispatch();
        assert!(st.in_flight <= 32);
    }
    assert!(st.must_drain());
    for _ in 0..32 {
        st.record_result(None);
    }
    assert_eq!(st.in_flight, 0);
    assert_eq!(st.progress, 32);
    assert!(st.found.is_empty());

    // A drained match appends its sector index.
    st.note_dispatch();
    st.record_result(Some((512, 9, String::from("54 52 55 45 "))));
    assert_eq!(st.found, vec![9]);
    assert_eq!(st.progress, 33);
}

#[test]
fn hex_dump_format() {
    let s = arr_as_hex_str(&[0x0B, 0xA0, 0xFF, 0x00]);
    assert_eq!(s, "0B A0 FF 00 ");
}

#[test]
fn total_sector_count() {
    assert_eq!(count_total_sectors(&[(0, 9), (100, 100)]), 11);
    assert_eq!(count_total_sectors(&[(5, 5)]), 1);
    assert_eq!(count_total_sectors(&[]), 0);
}
