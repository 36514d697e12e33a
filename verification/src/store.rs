use vstd::prelude::*;
use vstd::string::StringExecFns;
use crate::error::{TeangaError, TeangaResult};

verus! {

// ---------------------------------------------------------------------------
// The backing store: an ordered key-value database on disk. What a key
// holds depends on the disk and on other writers, so these wrappers
// promise nothing about the values that come back; the logic that uses
// them is verified for every answer the store can give.
// ---------------------------------------------------------------------------

#[verifier::external_type_specification]
#[verifier::external_body]
pub struct ExDb(sled::Db);

/// An open connection to a corpus's backing store.
pub struct StoreConn {
    pub db: sled::Db,
}

/// Relies on sled::open: opens (creating if absent) the database at the
/// given path.
#[verifier::external_body]
pub fn open_store(path: &str) -> (r: TeangaResult<StoreConn>)
    ensures
        r matches Err(e) ==> e is StoreError,
{
    match sled::open(path) {
        Ok(db) => Ok(StoreConn { db }),
        Err(e) => Err(TeangaError::StoreError(format!("{}", e))),
    }
}

impl StoreConn {
    /// Relies on sled::Tree::get: the value last written under the key,
    /// if any.
    #[verifier::external_body]
    pub fn get(&self, key: &Vec<u8>) -> (r: TeangaResult<Option<Vec<u8>>>)
        ensures
            r matches Err(e) ==> e is StoreError,
    {
        match self.db.get(key.as_slice()) {
            Ok(Some(v)) => Ok(Some(v.as_ref().to_vec())),
            Ok(None) => Ok(None),
            Err(e) => Err(TeangaError::StoreError(format!("{}", e))),
        }
    }

    /// Relies on sled::Tree::insert: writes the value under the key.
    #[verifier::external_body]
    pub fn insert(&self, key: &Vec<u8>, value: &Vec<u8>) -> (r: TeangaResult<()>)
        ensures
            r matches Err(e) ==> e is StoreError,
    {
        match self.db.insert(key.as_slice(), value.clone()) {
            Ok(_) => Ok(()),
            Err(e) => Err(TeangaError::StoreError(format!("{}", e))),
        }
    }

    /// Relies on sled::Tree::remove: deletes the key.
    #[verifier::external_body]
    pub fn remove(&self, key: &Vec<u8>) -> (r: TeangaResult<()>)
        ensures
            r matches Err(e) ==> e is StoreError,
    {
        match self.db.remove(key.as_slice()) {
            Ok(_) => Ok(()),
            Err(e) => Err(TeangaError::StoreError(format!("{}", e))),
        }
    }

    /// Relies on sled::Tree::scan_prefix: every stored pair whose key
    /// starts with the prefix, in key order.
    #[verifier::external_body]
    pub fn scan_prefix_all(&self, prefix: &Vec<u8>) -> (r: TeangaResult<Vec<(Vec<u8>, Vec<u8>)>>)
        ensures
            r matches Ok(entries) ==> forall|i: int|
                0 <= i < entries@.len() ==> (#[trigger] entries@[i]).0@.len() >= prefix@.len()
                    && entries@[i].0@.subrange(0, prefix@.len() as int) == prefix@,
            r matches Err(e) ==> e is StoreError,
    {
        let mut out: Vec<(Vec<u8>, Vec<u8>)> = Vec::new();
        for item in self.db.scan_prefix(prefix.as_slice()) {
            match item {
                Ok((k, v)) => out.push((k.as_ref().to_vec(), v.as_ref().to_vec())),
                Err(e) => {
                    return Err(TeangaError::StoreError(format!("{}", e)));
                },
            }
        }
        Ok(out)
    }

    /// Relies on sled::Tree::compare_and_swap: atomically replaces the
    /// key's value with `new` when its current value is `old_val`
    /// (`None` meaning absent); `Ok(true)` when the swap happened,
    /// `Ok(false)` when the current value differed.
    #[verifier::external_body]
    pub fn compare_and_swap(
        &self,
        key: &Vec<u8>,
        old_val: Option<&Vec<u8>>,
        new: &Vec<u8>,
    ) -> (r: TeangaResult<bool>)
        ensures
            r matches Err(e) ==> e is StoreError,
    {
        let res = self.db.compare_and_swap(
            key.as_slice(),
            old_val.map(|v| v.as_slice()),
            Some(new.clone()),
        );
        match res {
            Ok(Ok(())) => Ok(true),
            Ok(Err(_)) => Ok(false),
            Err(e) => Err(TeangaError::StoreError(format!("{}", e))),
        }
    }
}

} // verus!
