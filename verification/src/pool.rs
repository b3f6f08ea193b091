//! Read-through cache over file content.
//!
//! The pool keeps the last-known text of every path read or written
//! through it. The disk itself is the caller's: the caller performs the
//! blocking read or write and hands the outcome in, so every cache
//! decision here is verified while no lock is ever held across I/O.
//!
//! A successful open of an uncached path records what the disk returned;
//! a successful save overwrites the entry with the just-written content,
//! establishing cache/disk agreement at that instant. A failed disk
//! operation never touches the cache.

use vstd::hash_map::StringHashMap;
use vstd::prelude::*;

verus! {

/// Why a disk operation failed, as the caller reports it: the path does
/// not exist, the bytes were not UTF-8 text, or any other I/O fault.
#[derive(Clone, Copy, Debug, PartialEq, Eq, Structural)]
pub enum FsError {
    NotFound,
    InvalidEncoding,
    Io,
}

/// The in-memory cache mapping each path to its last-known content.
pub struct ResourcePool {
    cache: StringHashMap<String>,
}

impl View for ResourcePool {
    type V = Map<Seq<char>, Seq<char>>;

    closed spec fn view(&self) -> Map<Seq<char>, Seq<char>> {
        Map::new(|k: Seq<char>| self.cache@.contains_key(k), |k: Seq<char>| self.cache@[k]@)
    }
}

impl ResourcePool {
    /// Creates a pool with an empty cache.
    pub fn new() -> (p: Self)
        ensures
            p@ == Map::<Seq<char>, Seq<char>>::empty(),
    {
        let p = ResourcePool { cache: StringHashMap::new() };
        proof {
            assert(p@ =~= Map::<Seq<char>, Seq<char>>::empty());
        }
        p
    }

    /// The in-memory half of an open: returns a copy of the cached
    /// content, or `None` when the caller has to read the disk.
    pub fn lookup(&self, path: &str) -> (r: Option<String>)
        ensures
            match r {
                Some(c) => self@.contains_key(path@) && c@ == self@[path@],
                None => !self@.contains_key(path@),
            },
    {
        match self.cache.get(path) {
            Some(c) => Some(c.clone()),
            None => None,
        }
    }

    /// Completes an open that missed the cache, from the outcome of the
    /// caller's disk read: content that was read is recorded and handed
    /// back, a read failure is handed back with the cache untouched.
    pub fn finish_open(&mut self, path: String, disk: Result<String, FsError>) -> (r: Result<
        String,
        FsError,
    >)
        ensures
            match disk {
                Ok(content) => {
                    &&& final(self)@ == old(self)@.insert(path@, content@)
                    &&& r matches Ok(c) && c@ == content@
                },
                Err(e) => {
                    &&& final(self)@ == old(self)@
                    &&& r matches Err(e2) && e2 == e
                },
            },
    {
        match disk {
            Ok(content) => {
                let copy = content.clone();
                self.cache.insert(path, content);
                proof {
                    assert(self@ =~= old(self)@.insert(path@, self.cache@[path@]@));
                }
                Ok(copy)
            },
            Err(e) => {
                proof {
                    assert(self@ =~= old(self)@);
                }
                Err(e)
            },
        }
    }

    /// Completes a save, from the outcome of the caller's disk write: a
    /// written file overwrites the cache entry with exactly the written
    /// content, a write failure leaves the cache at its previous value.
    pub fn finish_save(&mut self, path: String, content: String, disk: Result<(), FsError>) -> (r:
        Result<(), FsError>)
        ensures
            match disk {
                Ok(()) => final(self)@ == old(self)@.insert(path@, content@) && r is Ok,
                Err(e) => final(self)@ == old(self)@ && (r matches Err(e2) && e2 == e),
            },
    {
        match disk {
            Ok(()) => {
                self.cache.insert(path, content);
                proof {
                    assert(self@ =~= old(self)@.insert(path@, self.cache@[path@]@));
                }
                Ok(())
            },
            Err(e) => {
                proof {
                    assert(self@ =~= old(self)@);
                }
                Err(e)
            },
        }
    }
}

/// Law: a saved file is served from the cache. After a successful save
/// of `content` under `path`, a lookup of `path` hits and returns
/// exactly `content`, so the following open touches no disk.
pub proof fn lemma_save_then_open_hits(m: Map<Seq<char>, Seq<char>>, path: Seq<char>, content: Seq<char>)
    ensures
        m.insert(path, content).contains_key(path),
        m.insert(path, content)[path] == content,
{
}

/// Law: one read fills the cache. When `path` is uncached the lookup
/// misses, so the caller reads the disk once; after the open completes
/// with `content`, every further lookup of `path` hits and returns that
/// same content, so no second read happens.
pub proof fn lemma_open_fills_cache(m: Map<Seq<char>, Seq<char>>, path: Seq<char>, content: Seq<char>)
    requires
        !m.contains_key(path),
    ensures
        m.insert(path, content).contains_key(path),
        m.insert(path, content)[path] == content,
{
}

} // verus!
