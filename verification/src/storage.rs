//! The durability layer: an opaque byte store keyed by a digest, with an
//! in-memory backend and an embedded on-disk backend.

use vstd::prelude::*;
use crate::idmap::IdMap;

verus! {

#[verifier::external_type_specification]
#[verifier::external_body]
pub struct ExSledError(sled::Error);

/// Failures of the durability layer.
#[derive(Debug)]
pub enum StorageError {
    /// The in-memory backend failed.
    MemoryStorageError(String),
    /// The on-disk backend failed.
    SledError(sled::Error),
    /// A value that was relied on was absent.
    NoneError,
}

/// Which backend a node uses.
#[derive(Clone, Copy, PartialEq, Eq, Structural, Debug)]
pub enum StorageType {
    Memory,
    Sled,
}

/// An opaque byte store keyed by a digest.
pub trait Storage: Sized {
    /// The stored mapping, key bytes to value bytes.
    spec fn contents(&self) -> Map<Seq<u8>, Seq<u8>>;

    /// Whether the backend's operations cannot fail: true of the in-memory
    /// store, false of one the disk can refuse.
    spec fn infallible(&self) -> bool;

    /// Opens a store; the on-disk backend needs a path.
    fn new(path: Option<&str>) -> Result<Self, StorageError>;

    /// Stores the value under the key; an infallible backend always
    /// succeeds.
    fn insert(&mut self, key: crate::hash::Hash, value: Vec<u8>) -> (r: Result<(), StorageError>)
        ensures
            r is Ok ==> final(self).contents() == old(self).contents().insert(key@, value@),
            old(self).infallible() ==> r is Ok,
    ;

    /// The value stored under the key; absence is an error, and an
    /// infallible backend succeeds exactly when the key is present and
    /// reports absence as `NoneError`.
    fn get(&self, key: crate::hash::Hash) -> (r: Result<Vec<u8>, StorageError>)
        ensures
            r matches Ok(v) ==> self.contents().contains_key(key@) && v@ == self.contents()[key@],
            self.infallible() ==> (r is Ok <==> self.contents().contains_key(key@)),
            (self.infallible() && !self.contents().contains_key(key@)) ==> (r matches Err(e)
                && e is NoneError),
    ;

    /// Makes the stored mapping durable; it does not change it, and an
    /// infallible backend always succeeds.
    fn flush(&mut self) -> (r: Result<(), StorageError>)
        ensures
            final(self).contents() == old(self).contents(),
            old(self).infallible() ==> r is Ok,
    ;
}

/// The in-memory backend: a plain map, nothing durable.
pub struct MemoryStorage {
    storage: IdMap<Vec<u8>>,
}

impl Storage for MemoryStorage {
    closed spec fn contents(&self) -> Map<Seq<u8>, Seq<u8>> {
        self.storage@.map_values(|v: Vec<u8>| v@)
    }

    open spec fn infallible(&self) -> bool {
        true
    }

    fn new(_path: Option<&str>) -> (r: Result<Self, StorageError>) {
        Ok(MemoryStorage { storage: IdMap::new() })
    }

    fn insert(&mut self, key: crate::hash::Hash, value: Vec<u8>) -> (r: Result<(), StorageError>) {
        self.storage.insert(key, value);
        proof {
            assert(final(self).contents() =~= old(self).contents().insert(key@, value@));
        }
        Ok(())
    }

    fn get(&self, key: crate::hash::Hash) -> (r: Result<Vec<u8>, StorageError>) {
        match self.storage.get(&key) {
            Some(data) => Ok(crate::codec::copy_bytes(data.as_slice())),
            None => Err(StorageError::NoneError),
        }
    }

    fn flush(&mut self) -> (r: Result<(), StorageError>) {
        Ok(())
    }
}

/// The on-disk tree, held opaquely; everything known of it comes from the
/// contracts of the calls below.
#[verifier::external_body]
pub struct SledDb {
    db: sled::Db,
}

/// What the on-disk tree holds, key bytes to value bytes.
pub uninterp spec fn sled_contents(db: SledDb) -> Map<Seq<u8>, Seq<u8>>;

/// Relies on sled::open: opens or creates the tree at the path. What it
/// holds depends on the disk, so nothing is promised of the contents.
#[verifier::external_body]
fn sled_open(path: &str) -> (r: Result<SledDb, sled::Error>)
{
    sled::Config::new().path(path).open().map(|db| SledDb { db })
}

/// Relies on sled::Tree::insert: on success the key maps to the value.
#[verifier::external_body]
fn sled_insert(db: &mut SledDb, key: &[u8], value: &[u8]) -> (r: Result<(), sled::Error>)
    ensures
        r is Ok ==> sled_contents(*final(db)) == sled_contents(*old(db)).insert(key@, value@),
{
    db.db.insert(key, value.to_vec()).map(|_| ())
}

/// Relies on sled::Tree::get: on success, exactly the stored value for the
/// key, or nothing when the key is absent.
#[verifier::external_body]
fn sled_get(db: &SledDb, key: &[u8]) -> (r: Result<Option<Vec<u8>>, sled::Error>)
    ensures
        r matches Ok(v) ==> match v {
            Some(bytes) => sled_contents(*db).contains_key(key@) && bytes@ == sled_contents(
                *db,
            )[key@],
            None => !sled_contents(*db).contains_key(key@),
        },
{
    db.db.get(key).map(|o| o.map(|ivec| ivec.to_vec()))
}

/// Relies on sled::Tree::flush: it persists the tree and leaves its
/// contents as they are.
#[verifier::external_body]
fn sled_flush(db: &mut SledDb) -> (r: Result<(), sled::Error>)
    ensures
        sled_contents(*final(db)) == sled_contents(*old(db)),
{
    db.db.flush().map(|_| ())
}

/// The on-disk backend: an embedded log-structured tree, with an optional
/// flush after every insert.
pub struct SledStorage {
    storage: SledDb,
    sync: bool,
}

impl SledStorage {
    /// Whether every insert is followed by a flush.
    pub closed spec fn syncs(self) -> bool {
        self.sync
    }

    /// Turns the flush-after-insert behaviour on or off.
    pub fn set_sync(&mut self, sync: bool)
        ensures
            final(self).syncs() == sync,
            final(self).contents() == old(self).contents(),
    {
        self.sync = sync;
    }
}

impl Storage for SledStorage {
    closed spec fn contents(&self) -> Map<Seq<u8>, Seq<u8>> {
        sled_contents(self.storage)
    }

    open spec fn infallible(&self) -> bool {
        false
    }

    fn new(path: Option<&str>) -> (r: Result<Self, StorageError>) {
        match path {
            None => Err(StorageError::NoneError),
            Some(p) => match sled_open(p) {
                Ok(db) => Ok(SledStorage { storage: db, sync: false }),
                Err(e) => Err(StorageError::SledError(e)),
            },
        }
    }

    fn insert(&mut self, key: crate::hash::Hash, value: Vec<u8>) -> (r: Result<(), StorageError>) {
        match sled_insert(&mut self.storage, key.0.as_slice(), value.as_slice()) {
            Ok(()) => {},
            Err(e) => {
                return Err(StorageError::SledError(e));
            },
        }
        if self.sync {
            match sled_flush(&mut self.storage) {
                Ok(()) => {},
                Err(e) => {
                    return Err(StorageError::SledError(e));
                },
            }
        }
        Ok(())
    }

    fn get(&self, key: crate::hash::Hash) -> (r: Result<Vec<u8>, StorageError>) {
        match sled_get(&self.storage, key.0.as_slice()) {
            Ok(Some(data)) => Ok(data),
            Ok(None) => Err(StorageError::NoneError),
            Err(e) => Err(StorageError::SledError(e)),
        }
    }

    fn flush(&mut self) -> (r: Result<(), StorageError>) {
        match sled_flush(&mut self.storage) {
            Ok(()) => Ok(()),
            Err(e) => Err(StorageError::SledError(e)),
        }
    }
}

} // verus!
