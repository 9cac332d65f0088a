//! A cache of the owners named at the top of files, kept in a file under the
//! project. Reading and writing that file, and the files' modification
//! times, are the caller's part; this decides what is remembered.
use vstd::prelude::*;

use super::FileOwnerCacheEntry;
use crate::path::{join_path, join_path_spec};
use crate::project::Error;
use crate::strmap::{map_of, StrMap};

verus! {

pub struct GlobalCache {
    base_path: String,
    cache_directory: String,
    file_owner_cache: StrMap<FileOwnerCacheEntry>,
}

impl GlobalCache {
    pub closed spec fn base_path_view(&self) -> Seq<char> {
        self.base_path@
    }

    pub closed spec fn cache_directory_view(&self) -> Seq<char> {
        self.cache_directory@
    }

    /// The entries remembered, under the files' paths.
    pub closed spec fn entries(&self) -> Map<Seq<char>, (u64, Option<Seq<char>>)> {
        map_of(self.file_owner_cache.pairs())
    }

    /// The cache of a project, starting from the entries read back from its
    /// cache file (none when there is no such file or it cannot be parsed),
    /// a later entry for a path hiding an earlier one.
    pub fn new(base_path: String, cache_directory: String, loaded: Vec<(String, FileOwnerCacheEntry)>) -> (r:
        Self)
        ensures
            r.base_path_view() == base_path@,
            r.cache_directory_view() == cache_directory@,
            r.entries() == map_of(
                loaded@.map_values(|e: (String, FileOwnerCacheEntry)| (e.0@, e.1@)),
            ),
    {
        let ghost lv = loaded@.map_values(|e: (String, FileOwnerCacheEntry)| (e.0@, e.1@));
        let mut cache: StrMap<FileOwnerCacheEntry> = StrMap::new();
        let mut i: usize = 0;
        while i < loaded.len()
            invariant
                i <= loaded.len(),
                lv == loaded@.map_values(|e: (String, FileOwnerCacheEntry)| (e.0@, e.1@)),
                cache@ == map_of(lv.take(i as int)),
            decreases loaded.len() - i,
        {
            cache.insert(loaded[i].0.clone(), loaded[i].1.duplicate());
            assert(lv.take(i + 1).drop_last() =~= lv.take(i as int));
            assert(lv.take(i + 1).last() == lv[i as int]);
            i = i + 1;
        }
        assert(lv.take(loaded.len() as int) =~= lv);
        GlobalCache { base_path, cache_directory, file_owner_cache: cache }
    }

    /// The entry remembered for a file, when the file has not changed since:
    /// its modification time now is `timestamp`, whose error is passed on
    /// when there is an entry to check.
    pub fn get_file_owner(&self, path: &str, timestamp: Result<u64, Error>) -> (r: Result<
        Option<FileOwnerCacheEntry>,
        Error,
    >)
        ensures
            !self.entries().contains_key(path@) ==> r matches Ok(None),
            self.entries().contains_key(path@) ==> match timestamp {
                Err(e) => r == Err::<Option<FileOwnerCacheEntry>, Error>(e),
                Ok(t) => if self.entries()[path@].0 == t {
                    r matches Ok(Some(entry)) && entry@ == self.entries()[path@]
                } else {
                    r matches Ok(None)
                },
            },
    {
        match self.file_owner_cache.get(path) {
            Some(entry) => match timestamp {
                Err(e) => Err(e),
                Ok(t) => if entry.timestamp == t {
                    Ok(Some(entry.duplicate()))
                } else {
                    Ok(None)
                },
            },
            None => Ok(None),
        }
    }

    /// Remembers the owner of a file with its modification time; nothing is
    /// remembered when the time could not be read.
    pub fn write_file_owner(&mut self, path: &str, timestamp: Result<u64, Error>, owner: Option<String>)
        ensures
            final(self).base_path_view() == old(self).base_path_view(),
            final(self).cache_directory_view() == old(self).cache_directory_view(),
            final(self).entries() == match timestamp {
                Ok(t) => old(self).entries().insert(path@, (t, crate::project::opt_view(owner))),
                Err(_) => old(self).entries(),
            },
    {
        if let Ok(t) = timestamp {
            self.file_owner_cache.insert(path.to_owned(), FileOwnerCacheEntry { timestamp: t, owner });
        }
    }

    /// The entries as they were stored, in order; a later one for a path
    /// hides an earlier one.
    pub closed spec fn stored(&self) -> Seq<(Seq<char>, (u64, Option<Seq<char>>))> {
        self.file_owner_cache.pairs()
    }

    /// The number of entries to write to the cache file.
    pub fn entry_count(&self) -> (r: usize)
        ensures
            r == self.stored().len(),
    {
        self.file_owner_cache.len()
    }

    /// The `i`-th entry to write to the cache file.
    pub fn entry_at(&self, i: usize) -> (r: (String, FileOwnerCacheEntry))
        requires
            i < self.stored().len(),
        ensures
            (r.0@, r.1@) == self.stored()[i as int],
    {
        (self.file_owner_cache.key_at(i).clone(), self.file_owner_cache.value_at(i).duplicate())
    }

    /// The directory of the cache file.
    pub fn cache_dir(&self) -> (r: String)
        ensures
            r@ == join_path_spec(self.base_path_view(), self.cache_directory_view()),
    {
        join_path(self.base_path.as_str(), self.cache_directory.as_str())
    }

    /// The cache file.
    pub fn get_cache_path(&self) -> (r: String)
        ensures
            r@ == join_path_spec(
                join_path_spec(self.base_path_view(), self.cache_directory_view()),
                "project-file-cache.json"@,
            ),
    {
        let dir = self.cache_dir();
        join_path(dir.as_str(), "project-file-cache.json")
    }
}

/// After an owner is remembered for a path with a time, the cache holds
/// that owner and time for the path, and what it holds for other paths is
/// unchanged: `get_file_owner` with that time gives the owner back.
pub proof fn lemma_cache_read_after_write(
    before: GlobalCache,
    after: GlobalCache,
    path: Seq<char>,
    timestamp: u64,
    owner: Option<Seq<char>>,
)
    requires
        after.entries() == before.entries().insert(path, (timestamp, owner)),
    ensures
        after.entries().contains_key(path),
        after.entries()[path] == (timestamp, owner),
        forall|other: Seq<char>|
            other != path ==> (#[trigger] after.entries().contains_key(other)
                == before.entries().contains_key(other)) && (before.entries().contains_key(other)
                ==> after.entries()[other] == before.entries()[other]),
{
}

/// Persisting and loading: a cache built from the entries that another
/// cache stores, in their order (what `entry_count` and `entry_at` hand out
/// to be written to the cache file), remembers exactly what the other one
/// does.
pub proof fn lemma_cache_reload(
    c: GlobalCache,
    d: GlobalCache,
    loaded: Seq<(Seq<char>, (u64, Option<Seq<char>>))>,
)
    requires
        loaded == c.stored(),
        d.entries() == map_of(loaded),
    ensures
        d.entries() == c.entries(),
{
}

} // verus!
