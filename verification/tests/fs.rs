use std::collections::HashMap;

use zcore::error::{DeviceError, DeviceResult};
use zcore::fs::{
    find_rootfs_device, is_sfs, parse_gpt_entries, parse_gpt_header, parse_mbr, rootfs, Disk,
    GptTable, Partition, RootDevice, Rootfs,
};
use zcore::scheme::BlockScheme;

#[derive(Default)]
struct MemDisk {
    sectors: HashMap<u64, Vec<u8>>,
    reads: Vec<u64>,
    broken: bool,
    flushed: usize,
}

impl BlockScheme for MemDisk {
    fn read_block(&mut self, block_id: u64, buf: &mut [u8]) -> DeviceResult<()> {
        self.reads.push(block_id);
        if self.broken {
            return Err(DeviceError::IoError);
        }
        if let Some(sector) = self.sectors.get(&block_id) {
            buf.copy_from_slice(sector);
        }
        Ok(())
    }

    fn write_block(&mut self, _block_id: u64, _buf: &[u8]) -> DeviceResult<()> {
        Ok(())
    }

    fn flush(&mut self) -> DeviceResult<()> {
        self.flushed += 1;
        Ok(())
    }
}

fn superblock() -> Vec<u8> {
    let mut sector = vec![0u8; 512];
    sector[..4].copy_from_slice(&0x2f8d_be2au32.to_le_bytes());
    sector
}

fn mbr(start: u32, count: u32) -> Vec<u8> {
    let mut sector = vec![0u8; 512];
    sector[446 + 16 + 8..446 + 16 + 12].copy_from_slice(&start.to_le_bytes());
    sector[446 + 16 + 12..446 + 16 + 16].copy_from_slice(&count.to_le_bytes());
    sector[510] = 0x55;
    sector[511] = 0xaa;
    sector
}

fn gpt_header(entries_lba: u64, num: u32, size: u32) -> Vec<u8> {
    let mut sector = vec![0u8; 512];
    sector[..8].copy_from_slice(b"EFI PART");
    sector[72..80].copy_from_slice(&entries_lba.to_le_bytes());
    sector[80..84].copy_from_slice(&num.to_le_bytes());
    sector[84..88].copy_from_slice(&size.to_le_bytes());
    sector
}

fn gpt_entry(sector: &mut [u8], slot: usize, first: u64, last: u64) {
    let entry = &mut sector[slot * 128..slot * 128 + 128];
    entry[0] = 7;
    entry[32..40].copy_from_slice(&first.to_le_bytes());
    entry[40..48].copy_from_slice(&last.to_le_bytes());
}

#[test]
fn superblocks_of_both_versions() {
    assert!(is_sfs(&superblock()));
    assert!(is_sfs(&0x2f8d_be2bu32.to_le_bytes()));
    assert!(!is_sfs(&0x2f8d_be2cu32.to_le_bytes()));
    assert!(!is_sfs(&[0x2a]));
}

#[test]
fn whole_disk_comes_first() {
    let mut dev = MemDisk::default();
    dev.sectors.insert(0, superblock());
    let mut disk = Disk::new(dev);
    assert_eq!(find_rootfs_device(&mut disk), Rootfs::Whole);
    assert_eq!(disk.into_inner().reads, vec![0]);
}

#[test]
fn ram_disk_is_preferred() {
    let mut none: Option<Disk<MemDisk>> = None;
    assert_eq!(rootfs(Some((0x8000, 0x200)), &mut none), RootDevice::Ram(0x8000, 0x200));
    let mut dev = MemDisk::default();
    dev.sectors.insert(0, mbr(63, 100));
    dev.sectors.insert(63, superblock());
    let mut block = Some(Disk::new(dev));
    assert_eq!(
        rootfs(None, &mut block),
        RootDevice::Block(Rootfs::Partition(Partition { start: 63, count: 100 }))
    );
}

#[test]
fn gpt_partition_is_found() {
    let mut dev = MemDisk::default();
    dev.sectors.insert(1, gpt_header(2, 128, 128));
    let mut entries = vec![0u8; 512];
    gpt_entry(&mut entries, 0, 40, 99);
    gpt_entry(&mut entries, 2, 200, 299);
    dev.sectors.insert(2, entries);
    dev.sectors.insert(200, superblock());
    let mut disk = Disk::new(dev);
    assert_eq!(
        find_rootfs_device(&mut disk),
        Rootfs::Partition(Partition { start: 200, count: 100 })
    );
}

#[test]
fn gpt_of_large_blocks_is_found() {
    let mut dev = MemDisk::default();
    dev.sectors.insert(8, gpt_header(2, 4, 128));
    let mut entries = vec![0u8; 512];
    gpt_entry(&mut entries, 1, 10, 11);
    dev.sectors.insert(16, entries);
    dev.sectors.insert(80, superblock());
    let mut disk = Disk::new(dev);
    assert_eq!(
        find_rootfs_device(&mut disk),
        Rootfs::Partition(Partition { start: 80, count: 16 })
    );
}

#[test]
fn mbr_partition_is_found() {
    let mut dev = MemDisk::default();
    dev.sectors.insert(0, mbr(63, 1000));
    dev.sectors.insert(63, superblock());
    let mut disk = Disk::new(dev);
    assert_eq!(
        find_rootfs_device(&mut disk),
        Rootfs::Partition(Partition { start: 63, count: 1000 })
    );
}

#[test]
fn without_a_superblock_the_whole_disk_is_used() {
    let mut dev = MemDisk::default();
    dev.sectors.insert(0, mbr(63, 1000));
    let mut disk = Disk::new(dev);
    assert_eq!(find_rootfs_device(&mut disk), Rootfs::Whole);
    let mut disk = Disk::new(MemDisk { broken: true, ..MemDisk::default() });
    assert_eq!(find_rootfs_device(&mut disk), Rootfs::Whole);
}

#[test]
fn gpt_headers_are_checked() {
    assert_eq!(
        parse_gpt_header(&gpt_header(2, 128, 128), 1),
        Some(GptTable { first: 2, sectors: 32, entry_size: 128, lba_sectors: 1 })
    );
    assert_eq!(
        parse_gpt_header(&gpt_header(2, 128, 128), 8),
        Some(GptTable { first: 16, sectors: 32, entry_size: 128, lba_sectors: 8 })
    );
    assert_eq!(parse_gpt_header(&gpt_header(0, 128, 128), 1), None);
    assert_eq!(parse_gpt_header(&gpt_header(2, 0, 128), 1), None);
    assert_eq!(parse_gpt_header(&gpt_header(2, 128, 64), 1), None);
    assert_eq!(parse_gpt_header(&superblock(), 1), None);
}

#[test]
fn improper_entries_are_skipped() {
    let table = GptTable { first: 2, sectors: 1, entry_size: 128, lba_sectors: 1 };
    let mut entries = vec![0u8; 512];
    gpt_entry(&mut entries, 0, 0, 9);
    gpt_entry(&mut entries, 1, 9, 8);
    gpt_entry(&mut entries, 3, 5, 5);
    assert_eq!(parse_gpt_entries(&entries, table), vec![Partition { start: 5, count: 1 }]);
    assert!(parse_mbr(&mbr(0, 4)).is_empty());
    assert!(parse_mbr(&vec![0; 512]).is_empty());
    assert_eq!(parse_mbr(&mbr(1, 4)), vec![Partition { start: 1, count: 4 }]);
}

#[test]
fn block_devices_have_defaults() {
    let mut dev = MemDisk::default();
    assert_eq!(dev.block_count(), 0);
    dev.quiesce_for_reboot();
    assert_eq!(dev.flushed, 1);
}
