//! A guess at the number of records in a store from its size on disk.

use vstd::prelude::*;

verus! {

/// The size of a typical record in bytes.
pub const BYTES_PER_RECORD: u64 = 67;

/// One entry of a directory tree: whether it is a regular file, and its
/// length in bytes.
#[derive(Clone, Copy, Debug, PartialEq, Eq, Structural)]
pub struct FileEntry {
    pub is_file: bool,
    pub len: u64,
}

/// The bytes that `entries` hold in regular files.
pub open spec fn files_total(entries: Seq<FileEntry>) -> nat
    decreases entries.len(),
{
    if entries.len() == 0 {
        0
    } else {
        files_total(entries.drop_last()) + if entries.last().is_file {
            entries.last().len as nat
        } else {
            0
        }
    }
}

/// The total over a prefix of the entries is no more than the total over all
/// of them.
pub proof fn lemma_files_total_monotone(entries: Seq<FileEntry>, n: int)
    requires
        0 <= n <= entries.len(),
    ensures
        files_total(entries.take(n)) <= files_total(entries),
    decreases entries.len(),
{
    if n == entries.len() {
        assert(entries.take(n) =~= entries);
    } else {
        assert(entries.drop_last().take(n) =~= entries.take(n));
        lemma_files_total_monotone(entries.drop_last(), n);
    }
}

/// Adds up the lengths of the regular files among `entries`. `None` when the
/// sum does not fit 64 bits.
pub fn get_directory_size(entries: &[FileEntry]) -> (size: Option<u64>)
    ensures
        files_total(entries@) <= u64::MAX ==> size == Some(files_total(entries@) as u64),
        files_total(entries@) > u64::MAX ==> size.is_none(),
{
    let mut size: u64 = 0;
    let mut i: usize = 0;
    assert(entries@.take(0) =~= Seq::<FileEntry>::empty());
    while i < entries.len()
        invariant
            i <= entries@.len(),
            size == files_total(entries@.take(i as int)),
        decreases entries@.len() - i,
    {
        proof {
            assert(entries@.take(i + 1).drop_last() =~= entries@.take(i as int));
            lemma_files_total_monotone(entries@, i + 1);
        }
        if entries[i].is_file {
            match size.checked_add(entries[i].len) {
                Some(sum) => {
                    size = sum;
                },
                None => {
                    return None;
                },
            }
        }
        i = i + 1;
    }
    assert(entries@.take(i as int) =~= entries@);
    Some(size)
}

/// The number of records that a store of `directory_size` bytes is likely to
/// hold: one for every `BYTES_PER_RECORD` bytes, rounded down.
pub fn get_size_hint(directory_size: u64) -> (records: u64)
    ensures
        records == directory_size / BYTES_PER_RECORD,
{
    directory_size / BYTES_PER_RECORD
}

} // verus!
