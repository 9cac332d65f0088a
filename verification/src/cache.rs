//! What is remembered of each file between runs: the owner that its first
//! line named, with the file's modification time when it was read.
use vstd::prelude::*;

use crate::project::{opt_view, Error};

pub mod file;
pub mod noop;

use file::GlobalCache;
use noop::NoopCache;

verus! {

#[derive(Clone, Debug)]
pub struct FileOwnerCacheEntry {
    pub timestamp: u64,
    pub owner: Option<String>,
}

impl View for FileOwnerCacheEntry {
    type V = (u64, Option<Seq<char>>);

    open spec fn view(&self) -> (u64, Option<Seq<char>>) {
        (self.timestamp, opt_view(self.owner))
    }
}

impl FileOwnerCacheEntry {
    pub fn duplicate(&self) -> (r: Self)
        ensures
            r@ == self@,
    {
        FileOwnerCacheEntry { timestamp: self.timestamp, owner: crate::project::copy_opt_string(&self.owner) }
    }
}

/// The cache a run works with: the project's cache file, or none when the
/// run asks for no cache.
pub enum Cache {
    Global(GlobalCache),
    Noop(NoopCache),
}

impl Cache {
    /// What the cache remembers, under the files' paths.
    pub open spec fn entries(&self) -> Map<Seq<char>, (u64, Option<Seq<char>>)> {
        match self {
            Cache::Global(c) => c.entries(),
            Cache::Noop(_) => Map::empty(),
        }
    }

    /// The entry remembered for a file, when the file has not changed since:
    /// its modification time now is `timestamp`, whose error is passed on
    /// when there is an entry to check.
    pub fn get_file_owner(&self, path: &str, timestamp: Result<u64, Error>) -> (r: Result<
        Option<FileOwnerCacheEntry>,
        Error,
    >)
        ensures
            !self.entries().contains_key(path@) ==> r matches Ok(None),
            self.entries().contains_key(path@) ==> match timestamp {
                Err(e) => r == Err::<Option<FileOwnerCacheEntry>, Error>(e),
                Ok(t) => if self.entries()[path@].0 == t {
                    r matches Ok(Some(entry)) && entry@ == self.entries()[path@]
                } else {
                    r matches Ok(None)
                },
            },
    {
        match self {
            Cache::Global(c) => c.get_file_owner(path, timestamp),
            Cache::Noop(c) => c.get_file_owner(path),
        }
    }

    /// Remembers the owner of a file with its modification time, when the
    /// cache is the project's cache file and the time could be read.
    pub fn write_file_owner(&mut self, path: &str, timestamp: Result<u64, Error>, owner: Option<String>)
        ensures
            ((*final(self)) is Global) == ((*old(self)) is Global),
            final(self).entries() == if (*old(self)) is Global && timestamp is Ok {
                old(self).entries().insert(path@, (timestamp->Ok_0, opt_view(owner)))
            } else {
                old(self).entries()
            },
    {
        match self {
            Cache::Global(c) => c.write_file_owner(path, timestamp, owner),
            Cache::Noop(c) => c.write_file_owner(path, owner),
        }
    }
}

} // verus!
