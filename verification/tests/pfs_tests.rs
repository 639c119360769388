use peerfs::pfs::{
    FileError, PartialFile, PartialFiller, SeekFrom, BLOCK_LEN,
};

/// A filler that hands out a fixed byte for every position.
struct ByteFiller(u8);

impl PartialFiller for ByteFiller {
    fn provide(&self, _block_index: u64, block_len: usize, dest: &mut Vec<u8>) -> Result<
        (),
        FileError,
    > {
        for _ in 0..block_len {
            dest.push(self.0);
        }
        Ok(())
    }
}

/// A filler that writes too few bytes: a soft failure.
struct ShortFiller;

impl PartialFiller for ShortFiller {
    fn provide(&self, _block_index: u64, block_len: usize, dest: &mut Vec<u8>) -> Result<
        (),
        FileError,
    > {
        for _ in 0..block_len / 2 {
            dest.push(1);
        }
        Ok(())
    }
}

/// A filler that fails outright.
struct FailingFiller;

impl PartialFiller for FailingFiller {
    fn provide(&self, _block_index: u64, _block_len: usize, _dest: &mut Vec<u8>) -> Result<
        (),
        FileError,
    > {
        Err(FileError::FillFailed)
    }
}

#[test]
fn create_then_open_reports_partial_with_empty_tracker() {
    let file = PartialFile::create(123456);
    assert!(file.is_partial());
    assert_eq!(file.size(), 123456);
    assert_eq!(file.get_partial_blocks().unwrap().get_ranges(), &[]);

    let reopened = PartialFile::open(file.into_storage());
    assert!(reopened.is_partial());
    assert_eq!(reopened.size(), 123456);
    assert_eq!(reopened.get_partial_blocks().unwrap().get_ranges(), &[]);
}

#[test]
fn read_fills_block_and_reopening_shows_it_present() {
    let mut file = PartialFile::create(123456);
    let out = file.read(&ByteFiller(7), 10).unwrap();
    assert_eq!(out, vec![7; 10]);
    assert!(file.get_partial_blocks().unwrap().contains(0));
    assert!(file.is_dirty());

    file.flush_partial();
    let reopened = PartialFile::open(file.into_storage());
    assert!(reopened.is_partial());
    assert!(reopened.get_partial_blocks().unwrap().contains(0));
    assert!(!reopened.get_partial_blocks().unwrap().contains(1));
}

#[test]
fn completion_truncates_and_reopens_full() {
    let size: u64 = 123456;
    let mut file = PartialFile::create(size);
    let block_count = (size as usize + BLOCK_LEN - 1) / BLOCK_LEN;
    for b in 0..block_count {
        file.seek(SeekFrom::Start((b * BLOCK_LEN) as u64)).unwrap();
        file.read(&(), 1).unwrap();
    }
    let blocks = file.get_partial_blocks().unwrap();
    assert_eq!(blocks.get_ranges(), &[(0, block_count as i64)]);

    file.complete_partial();
    assert!(file.is_full());
    let storage = file.into_storage();
    assert_eq!(storage.len(), size as usize);

    let reopened = PartialFile::open(storage);
    assert!(reopened.is_full());
    assert_eq!(reopened.size(), size);
}

#[test]
fn tracked_block_is_served_without_the_filler() {
    let mut file = PartialFile::create(2 * BLOCK_LEN as u64);
    file.read(&ByteFiller(9), 4).unwrap();
    file.seek(SeekFrom::Start(0)).unwrap();
    // the failing filler is never consulted for a tracked block
    let out = file.read(&FailingFiller, 4).unwrap();
    assert_eq!(out, vec![9; 4]);
}

#[test]
fn short_fill_is_a_soft_failure_with_no_tracker_change() {
    let mut file = PartialFile::create(BLOCK_LEN as u64);
    assert_eq!(file.read(&ShortFiller, 4), Err(FileError::InvalidData));
    assert_eq!(file.get_partial_blocks().unwrap().get_ranges(), &[]);
    // the block stays invalid: no automatic retry
    assert_eq!(file.read(&ByteFiller(1), 4), Err(FileError::InvalidData));
    // a seek resets the state; a fresh read may then succeed
    file.seek(SeekFrom::Start(0)).unwrap();
    assert_eq!(file.read(&ByteFiller(1), 4).unwrap(), vec![1; 4]);
}

#[test]
fn failing_fill_reports_the_filler_error() {
    let mut file = PartialFile::create(BLOCK_LEN as u64);
    assert_eq!(file.read(&FailingFiller, 4), Err(FileError::FillFailed));
    assert_eq!(file.get_partial_blocks().unwrap().get_ranges(), &[]);
}

#[test]
fn reads_stop_at_the_block_end() {
    let mut file = PartialFile::create(2 * BLOCK_LEN as u64);
    let out = file.read(&ByteFiller(3), 3 * BLOCK_LEN).unwrap();
    assert_eq!(out.len(), BLOCK_LEN);
    // at the block boundary the cached state still serves zero bytes
    let out = file.read(&ByteFiller(3), 10).unwrap();
    assert!(out.is_empty());
}

#[test]
fn last_block_is_short() {
    let size = BLOCK_LEN as u64 + 100;
    let mut file = PartialFile::create(size);
    file.seek(SeekFrom::Start(BLOCK_LEN as u64)).unwrap();
    let out = file.read(&ByteFiller(5), BLOCK_LEN).unwrap();
    assert_eq!(out, vec![5; 100]);
}

#[test]
fn partial_seek_clamps_into_the_content() {
    let mut file = PartialFile::create(1000);
    assert_eq!(file.seek(SeekFrom::Start(5000)).unwrap(), 1000);
    assert_eq!(file.seek(SeekFrom::End(-100)).unwrap(), 900);
    assert_eq!(file.seek(SeekFrom::Current(-2000)).unwrap(), 0);
    assert_eq!(file.seek(SeekFrom::End(10)).unwrap(), 1000);
}

#[test]
fn full_seek_passes_through_and_rejects_negative_targets() {
    let mut file = PartialFile::open(vec![0; 4]);
    assert!(file.is_full());
    assert_eq!(file.seek(SeekFrom::Start(2)).unwrap(), 2);
    assert_eq!(file.seek(SeekFrom::Current(-5)), Err(FileError::InvalidSeek));
    // past the end is allowed in full mode, as for an ordinary file
    assert_eq!(file.seek(SeekFrom::End(3)).unwrap(), 7);
    assert_eq!(file.read(&(), 8).unwrap(), Vec::<u8>::new());
}

#[test]
fn full_mode_reads_pass_straight_through() {
    let mut file = PartialFile::open(vec![10, 11, 12, 13]);
    assert!(file.is_full());
    assert_eq!(file.size(), 4);
    assert_eq!(file.read(&FailingFiller, 3).unwrap(), vec![10, 11, 12]);
    assert_eq!(file.read(&FailingFiller, 3).unwrap(), vec![13]);
}

#[test]
fn empty_partial_file_footer_is_byte_exact() {
    let file = PartialFile::create(0);
    let mut expected = Vec::new();
    expected.extend_from_slice(&0u64.to_le_bytes()); // size
    expected.extend_from_slice(&0u64.to_le_bytes()); // range count
    expected.extend_from_slice(&24u64.to_le_bytes()); // footer length
    assert_eq!(file.into_storage(), expected);
}

#[test]
fn footer_after_one_filled_block_is_byte_exact() {
    let mut file = PartialFile::create(10);
    file.read(&ByteFiller(2), 10).unwrap();
    file.flush_partial();
    let storage = file.into_storage();
    let mut expected = vec![2u8; 10];
    expected.extend_from_slice(&10u64.to_le_bytes()); // size
    expected.extend_from_slice(&1u64.to_le_bytes()); // range count
    expected.extend_from_slice(&0u64.to_le_bytes()); // from
    expected.extend_from_slice(&1u64.to_le_bytes()); // to
    expected.extend_from_slice(&40u64.to_le_bytes()); // footer length
    assert_eq!(storage, expected);
}

#[test]
fn inconsistent_footers_open_as_full() {
    // too short for any footer
    let f = PartialFile::open(vec![1, 2, 3]);
    assert!(f.is_full());
    assert_eq!(f.size(), 3);

    // footer length field does not close the arithmetic
    let mut bytes = vec![0u8; 64];
    let n = bytes.len();
    bytes[n - 8] = 200;
    let f = PartialFile::open(bytes);
    assert!(f.is_full());
    assert_eq!(f.size(), 64);

    // a range pair that is not a proper interval
    let mut bytes = vec![0u8; 10];
    bytes.extend_from_slice(&10u64.to_le_bytes()); // size
    bytes.extend_from_slice(&1u64.to_le_bytes()); // range count
    bytes.extend_from_slice(&1u64.to_le_bytes()); // from
    bytes.extend_from_slice(&1u64.to_le_bytes()); // to == from: empty
    bytes.extend_from_slice(&40u64.to_le_bytes()); // footer length
    let f = PartialFile::open(bytes);
    assert!(f.is_full());
    assert_eq!(f.size(), 50);
}

#[test]
fn block_arithmetic_is_exact() {
    assert_eq!(PartialFile::calc_block_len(10000, 0), 4096);
    assert_eq!(PartialFile::calc_block_len(10000, 1), 4096);
    assert_eq!(PartialFile::calc_block_len(10000, 2), 10000 - 2 * 4096);
    assert_eq!(PartialFile::calc_block_len(10000, 3), 0);
    assert_eq!(PartialFile::calc_last_block_index(0), 0);
    assert_eq!(PartialFile::calc_last_block_index(1), 1);
    assert_eq!(PartialFile::calc_last_block_index(4096), 1);
    assert_eq!(PartialFile::calc_last_block_index(4097), 2);
    assert_eq!(PartialFile::calc_block_offset(3), 3 * 4096);
}

#[test]
fn reopening_restores_scattered_ranges_exactly() {
    let mut file = PartialFile::create(5 * BLOCK_LEN as u64);
    file.seek(SeekFrom::Start(0)).unwrap();
    file.read(&ByteFiller(1), 1).unwrap();
    file.seek(SeekFrom::Start(2 * BLOCK_LEN as u64)).unwrap();
    file.read(&ByteFiller(2), 1).unwrap();
    file.seek(SeekFrom::Start(4 * BLOCK_LEN as u64)).unwrap();
    file.read(&ByteFiller(3), 1).unwrap();
    file.flush_partial();

    let reopened = PartialFile::open(file.into_storage());
    assert!(reopened.is_partial());
    assert_eq!(
        reopened.get_partial_blocks().unwrap().get_ranges(),
        &[(0, 1), (2, 3), (4, 5)]
    );
}

#[test]
fn adjacent_blocks_reopen_as_one_range() {
    let mut file = PartialFile::create(3 * BLOCK_LEN as u64);
    for b in 0..3u64 {
        file.seek(SeekFrom::Start(b * BLOCK_LEN as u64)).unwrap();
        file.read(&ByteFiller(1), 1).unwrap();
    }
    file.flush_partial();
    let reopened = PartialFile::open(file.into_storage());
    assert_eq!(reopened.get_partial_blocks().unwrap().get_ranges(), &[(0, 3)]);
}
