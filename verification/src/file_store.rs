use vstd::prelude::*;
use vstd::string::StringExecFns;
use crate::bloom_filter::{BloomFilter, selected_bits};
use crate::config::FileConfig;
use crate::stats::{Stats, bumped};
use crate::text::{decimal, push_decimal};

verus! {

/// The seeds of the filters that remember URLs and stored files: four bits
/// mark each key.
pub open spec fn filter_seeds() -> Seq<u32> {
    seq![1238967u32, 4567654u32, 7890123u32, 3210987u32]
}

/// A fresh, empty filter with the crawler's seeds.
pub fn new_filter() -> (filter: BloomFilter)
    ensures
        filter.well_formed(),
        filter.seeds() == filter_seeds(),
        filter.bits() == Set::<u32>::empty(),
{
    let seeds = vec![1238967u32, 4567654u32, 7890123u32, 3210987u32];
    assert(seeds@ =~= filter_seeds());
    BloomFilter::new(seeds)
}

/// Where the `number`-th stored file of a kind goes: its folder, then a file
/// named by the kind's prefix, the number and the kind's extension.
pub open spec fn file_path(file: FileConfig, number: nat) -> Seq<char> {
    file.folder_name@ + "/"@ + file.file_prefix@ + decimal(number) + "."@ + file.file_extension@
}

/// A file of the kind `file` with `len` bytes is one to store.
pub open spec fn size_wanted(file: FileConfig, len: nat) -> bool {
    file.min_size <= len && len <= file.max_size
}

/// The files stored on disk so far: a filter of their contents, and how many
/// there are.
pub struct FileStore {
    filter: BloomFilter,
    stored: usize,
}

impl Stats {
    /// After a worker got a file that it had stored before.
    pub open spec fn after_repeated_file(self) -> Stats {
        Stats { worker_got_repeated_file: bumped(self.worker_got_repeated_file), ..self }
    }

    /// After writing a file failed.
    pub open spec fn after_write_error(self) -> Stats {
        Stats { worker_write_file_error: bumped(self.worker_write_file_error), ..self }
    }

    /// Counts a file that could not be written.
    pub fn record_write_error(&mut self)
        ensures
            *final(self) == old(self).after_write_error(),
    {
        self.worker_write_file_error = self.worker_write_file_error.wrapping_add(1);
    }
}

impl FileStore {
    /// The filter of stored contents.
    pub closed spec fn filter(&self) -> BloomFilter {
        self.filter
    }

    /// How many files were stored; it numbers the next one.
    pub closed spec fn stored(&self) -> usize {
        self.stored
    }

    /// No file stored yet.
    pub fn new() -> (store: FileStore)
        ensures
            store.filter().well_formed(),
            store.filter().seeds() == filter_seeds(),
            store.filter().bits() == Set::<u32>::empty(),
            store.stored() == 0,
    {
        FileStore { filter: new_filter(), stored: 0 }
    }

    /// Decides what becomes of a file of the kind at `index` of `files`. One
    /// of no configured kind, or whose size is not within the kind's bounds, is
    /// dropped. One whose contents the filter reports stored before is counted
    /// as repeated and dropped. Any other is recorded in the filter and gets
    /// the path (numbered by how many files were stored) that it is to be
    /// written to.
    pub fn file_to_store(&mut self, index: usize, bytes: &[u8], files: &Vec<FileConfig>, stats: &mut Stats) -> (path: Option<String>)
        requires
            old(self).filter().well_formed(),
        ensures
            final(self).filter().well_formed(),
            final(self).filter().seeds() == old(self).filter().seeds(),
            if index >= files@.len() || !size_wanted(files@[index as int], bytes@.len()) {
                &&& path is None
                &&& final(self).filter().bits() == old(self).filter().bits()
                &&& final(self).stored() == old(self).stored()
                &&& *final(stats) == *old(stats)
            } else if old(self).filter().reports(bytes@) {
                &&& path is None
                &&& final(self).filter().bits() == old(self).filter().bits()
                &&& final(self).stored() == old(self).stored()
                &&& *final(stats) == old(stats).after_repeated_file()
            } else {
                &&& path matches Some(p) && p@ == file_path(files@[index as int], old(self).stored() as nat)
                &&& final(self).filter().bits() == old(self).filter().bits().union(
                    selected_bits(old(self).filter().seeds(), bytes@),
                )
                &&& final(self).stored() == bumped(old(self).stored())
                &&& *final(stats) == *old(stats)
            },
    {
        if index >= files.len() {
            return None;
        }
        let file = &files[index];
        if bytes.len() < file.min_size || bytes.len() > file.max_size {
            return None;
        }
        let ghost before = self.filter.bits();
        if self.filter.contains_add(bytes) {
            assert(self.filter.bits() =~= before);
            stats.worker_got_repeated_file = stats.worker_got_repeated_file.wrapping_add(1);
            return None;
        }
        let mut path = String::new();
        path.append(file.folder_name.as_str());
        path.append("/");
        path.append(file.file_prefix.as_str());
        push_decimal(&mut path, self.stored);
        path.append(".");
        path.append(file.file_extension.as_str());
        assert(path@ =~= file_path(files@[index as int], self.stored as nat));
        self.stored = self.stored.wrapping_add(1);
        Some(path)
    }
}

} // verus!
