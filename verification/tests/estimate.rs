use chainstate::estimate::get_directory_size;
use chainstate::estimate::get_size_hint;
use chainstate::estimate::FileEntry;

#[test]
fn size_hint_divides_by_the_record_size() {
    assert_eq!(get_size_hint(0), 0);
    assert_eq!(get_size_hint(66), 0);
    assert_eq!(get_size_hint(67), 1);
    assert_eq!(get_size_hint(6_700), 100);
    assert_eq!(get_size_hint(6_766), 100);
    assert_eq!(get_size_hint(u64::MAX), 275_324_538_413_575_397);
}

#[test]
fn directory_size_counts_regular_files_only() {
    let entries = [
        FileEntry { is_file: false, len: 4096 },
        FileEntry { is_file: true, len: 100 },
        FileEntry { is_file: true, len: 23 },
        FileEntry { is_file: false, len: 4096 },
    ];
    assert_eq!(get_directory_size(&entries), Some(123));
    assert_eq!(get_directory_size(&[]), Some(0));
}

#[test]
fn directory_size_that_does_not_fit_is_none() {
    let entries = [
        FileEntry { is_file: true, len: u64::MAX },
        FileEntry { is_file: false, len: 1 },
    ];
    assert_eq!(get_directory_size(&entries), Some(u64::MAX));
    let entries = [
        FileEntry { is_file: true, len: u64::MAX },
        FileEntry { is_file: true, len: 1 },
        FileEntry { is_file: true, len: 5 },
    ];
    assert_eq!(get_directory_size(&entries), None);
}
