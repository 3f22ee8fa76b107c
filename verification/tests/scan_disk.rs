use guard_patrol::disk::{Block, Disk};
use guard_patrol::scan::{skip_whitespace, stonum};

fn chars(s: &str) -> Vec<char> {
    s.chars().collect()
}

#[test]
fn skip_whitespace_consumes_the_first_word_character() {
    let row = chars("   42 7");
    let mut pos = 0;
    assert_eq!(skip_whitespace(&row, &mut pos), Some('4'));
    assert_eq!(pos, 4);
    assert_eq!(skip_whitespace(&row, &mut pos), Some('2'));
    assert_eq!(pos, 5);
}

#[test]
fn skip_whitespace_reports_exhaustion() {
    let row = chars("  \t ");
    let mut pos = 0;
    assert_eq!(skip_whitespace(&row, &mut pos), None);
    assert_eq!(pos, row.len());
}

#[test]
fn stonum_reads_a_number_and_its_terminator() {
    let row = chars("123 456");
    let mut pos = 1;
    // The leading digit has already been consumed by the caller.
    assert_eq!(stonum(Some('1'), &row, &mut pos), 123);
    assert_eq!(pos, 4);
    let mut pos = 4;
    assert_eq!(stonum(None, &row, &mut pos), 456);
    assert_eq!(pos, 7);
}

#[test]
fn stonum_with_no_digits_is_zero() {
    let row = chars(" x");
    let mut pos = 0;
    assert_eq!(stonum(None, &row, &mut pos), 0);
    assert_eq!(pos, 1);
}

fn disk_of(layout: &[i64]) -> Disk {
    // Negative entries are free blocks; the rest are file ids.
    let blocks: Vec<Block> = layout
        .iter()
        .map(|&v| {
            if v < 0 {
                Block::Free
            } else {
                Block::File { id: v as usize }
            }
        })
        .collect();
    let size = blocks.iter().filter(|b| **b != Block::Free).count();
    Disk { blocks, size }
}

#[test]
fn defragment_moves_tail_files_into_gaps() {
    // 12345: one block of file 0, two free, three of file 1, four free,
    // five of file 2 -> 022113332..2 compacted.
    let mut disk = disk_of(&[0, -1, -1, 1, 1, 1, -1, -1, -1, -1, 2, 2, 2, 2, 2]);
    let checksum = disk.defragment().unwrap();
    // Compacted layout: 0 2 2 1 1 1 2 2 2.
    assert_eq!(checksum, 0 + 2 + 4 + 3 + 4 + 5 + 12 + 14 + 16);
    for i in 0..disk.size {
        assert!(disk.blocks[i] != Block::Free);
    }
    assert_eq!(disk.blocks.len(), 15);
}

#[test]
fn defragment_of_compact_disk_is_a_plain_checksum() {
    let mut disk = disk_of(&[0, 0, 1, 1]);
    let checksum = disk.defragment().unwrap();
    assert_eq!(checksum, 0 * 0 + 1 * 0 + 2 * 1 + 3 * 1);
    assert_eq!(
        disk.blocks,
        vec![
            Block::File { id: 0 },
            Block::File { id: 0 },
            Block::File { id: 1 },
            Block::File { id: 1 }
        ]
    );
}

use guard_patrol::disk::DiskFormatError;

#[test]
fn from_digits_reads_alternating_runs() {
    let digits: Vec<char> = "12345".chars().collect();
    let disk = guard_patrol::disk::Disk::from_digits(&digits).unwrap();
    assert_eq!(disk.size, 9);
    assert_eq!(disk.blocks.len(), 15);
    assert_eq!(disk.blocks[0], Block::File { id: 0 });
    assert_eq!(disk.blocks[1], Block::Free);
    assert_eq!(disk.blocks[3], Block::File { id: 1 });
    assert_eq!(disk.blocks[14], Block::File { id: 2 });
}

#[test]
fn from_digits_rejects_bad_layouts() {
    let bad: Vec<char> = "10x".chars().collect();
    assert_eq!(
        guard_patrol::disk::Disk::from_digits(&bad).unwrap_err(),
        DiskFormatError::NonDigit
    );
    let empty_file: Vec<char> = "012".chars().collect();
    assert_eq!(
        guard_patrol::disk::Disk::from_digits(&empty_file).unwrap_err(),
        DiskFormatError::EmptyFile
    );
    // A zero-length free run is fine.
    let zero_free: Vec<char> = "103".chars().collect();
    assert!(guard_patrol::disk::Disk::from_digits(&zero_free).is_ok());
}

#[test]
fn parse_and_defragment_pipeline() {
    let digits: Vec<char> = "2333133121414131402".chars().collect();
    let mut disk = guard_patrol::disk::Disk::from_digits(&digits).unwrap();
    assert_eq!(disk.defragment().unwrap(), 1928);
}
