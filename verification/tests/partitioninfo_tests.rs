//! Parsing the fixed-offset NTFS metadata out of a synthetic boot sector.

use tcfinder::partitioninfo::read_info_ntfs;

fn ntfs_boot_sector() -> [u8; 512] {
    let mut s = [0u8; 512];
    s[0x03..0x0B].copy_from_slice(b"NTFS    ");
    // 512 bytes per sector, little-endian.
    s[0x0B] = 0x00;
    s[0x0C] = 0x02;
    s[0x0D] = 8;
    // 0x0000_0001_0000_0200 total sectors.
    s[0x28] = 0x00;
    s[0x29] = 0x02;
    s[0x2C] = 0x01;
    // Cluster 0x C000_0000 holding the MFT.
    s[0x33] = 0xC0;
    s
}

#[test]
fn parses_ntfs_metadata() {
    let info = read_info_ntfs(&ntfs_boot_sector()).unwrap();
    assert_eq!(info.bytes_per_sector, 512);
    assert_eq!(info.sectors_in_cluster, 8);
    assert_eq!(info.total_sectors_in_partition, 0x0000_0001_0000_0200);
    assert_eq!(info.cluster_containing_mft, 0xC000_0000);
}

#[test]
fn rejects_non_ntfs() {
    let mut s = ntfs_boot_sector();
    s[0x03] = b'F';
    let r = read_info_ntfs(&s);
    assert_eq!(r.unwrap_err(), "Filesystem is not NTFS.");
}
