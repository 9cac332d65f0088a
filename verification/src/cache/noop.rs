//! A cache that remembers nothing.
use vstd::prelude::*;

use super::FileOwnerCacheEntry;
use crate::project::Error;

verus! {

pub struct NoopCache {}

impl Default for NoopCache {
    fn default() -> (r: Self)
        ensures
            r == (NoopCache {  }),
    {
        NoopCache {  }
    }
}

impl NoopCache {
    /// Nothing is remembered.
    pub fn get_file_owner(&self, path: &str) -> (r: Result<Option<FileOwnerCacheEntry>, Error>)
        ensures
            r matches Ok(None),
    {
        Ok(None)
    }

    /// Nothing is remembered.
    pub fn write_file_owner(&self, path: &str, owner: Option<String>) {
    }

    /// There is nothing to keep.
    pub fn persist_cache(&self) -> (r: Result<(), Error>)
        ensures
            r is Ok,
    {
        Ok(())
    }

    /// There is nothing to delete.
    pub fn delete_cache(&self) -> (r: Result<(), Error>)
        ensures
            r is Ok,
    {
        Ok(())
    }
}

} // verus!
