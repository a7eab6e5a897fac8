//! The durable cache: one SQLite table of (kind, key) -> bytes rows, seen by
//! the proofs as a map. Every artifact the pipeline persists goes through
//! this store under a deterministic cache key.

use rusqlite::OptionalExtension;
use vstd::prelude::*;

verus! {

/// The SQLite connection type of the rusqlite crate, declared so it can
/// stand in signatures; values of it are opaque here.
#[verifier::external_type_specification]
#[verifier::external_body]
pub struct ExConnection(rusqlite::Connection);

/// A durable key-value store, keyed by a row kind and a cache key. The
/// store's view tracks its rows as these operations leave them; the table
/// belongs to this store alone and is touched through no other path.
pub struct CacheDb {
    conn: rusqlite::Connection,
}

/// What the store holds: the stored bytes for each (kind, key) pair.
pub uninterp spec fn kv_of(db: CacheDb) -> Map<(Seq<char>, Seq<char>), Seq<u8>>;

impl CacheDb {
    /// Relies on rusqlite Connection::execute: creates the cache table when
    /// it is absent and wraps the connection. What an existing database file
    /// already holds is unknown, so nothing is promised of the contents.
    #[verifier::external_body]
    pub fn new(conn: rusqlite::Connection) -> (r: Result<CacheDb, String>) {
        let res = conn.execute(
            "CREATE TABLE IF NOT EXISTS cache_entries (kind TEXT NOT NULL, k TEXT NOT NULL, v BLOB NOT NULL, PRIMARY KEY (kind, k))",
            (),
        );
        match res {
            Ok(_) => Ok(CacheDb { conn }),
            Err(e) => Err(e.to_string()),
        }
    }

    /// Relies on rusqlite Connection::execute with INSERT OR REPLACE: on
    /// success the row for (kind, key) holds exactly the given bytes and no
    /// other row changes; a failed statement changes nothing, as SQLite
    /// statements are atomic.
    #[verifier::external_body]
    pub fn put(&mut self, kind: &str, key: &str, value: &Vec<u8>) -> (r: Result<(), String>)
        ensures
            r is Ok ==> kv_of(*final(self)) == kv_of(*old(self)).insert((kind@, key@), value@),
            r is Err ==> kv_of(*final(self)) == kv_of(*old(self)),
    {
        let res = self.conn.execute(
            "INSERT OR REPLACE INTO cache_entries (kind, k, v) VALUES (?1, ?2, ?3)",
            (kind, key, value.as_slice()),
        );
        match res {
            Ok(_) => Ok(()),
            Err(e) => Err(e.to_string()),
        }
    }

    /// Relies on rusqlite Connection::query_row with OptionalExtension: a
    /// SELECT by primary key returns the stored bytes exactly when the row
    /// exists.
    #[verifier::external_body]
    pub fn get(&self, kind: &str, key: &str) -> (r: Result<Option<Vec<u8>>, String>)
        ensures
            r matches Ok(Some(v)) ==> kv_of(*self).contains_key((kind@, key@)) && v@ == kv_of(
                *self,
            )[(kind@, key@)],
            r matches Ok(None) ==> !kv_of(*self).contains_key((kind@, key@)),
    {
        let res = self
            .conn
            .query_row(
                "SELECT v FROM cache_entries WHERE kind = ?1 AND k = ?2",
                (kind, key),
                |row| row.get::<_, Vec<u8>>(0),
            )
            .optional();
        match res {
            Ok(v) => Ok(v),
            Err(e) => Err(e.to_string()),
        }
    }

    /// Relies on rusqlite Connection::query_row over SELECT EXISTS: reports
    /// whether the row for (kind, key) is present.
    #[verifier::external_body]
    pub fn has(&self, kind: &str, key: &str) -> (r: Result<bool, String>)
        ensures
            r matches Ok(b) ==> b == kv_of(*self).contains_key((kind@, key@)),
    {
        let res = self.conn.query_row(
            "SELECT EXISTS(SELECT 1 FROM cache_entries WHERE kind = ?1 AND k = ?2)",
            (kind, key),
            |row| row.get::<_, bool>(0),
        );
        match res {
            Ok(b) => Ok(b),
            Err(e) => Err(e.to_string()),
        }
    }
}

// ---------------------------------------------------------------------------
// Row kinds: one namespace per record family
// ---------------------------------------------------------------------------
/// The kind under which extracted map bundles are stored.
pub open spec fn download_kind() -> Seq<char> {
    "download"@
}

/// The kind under which map detail records are stored.
pub open spec fn map_kind() -> Seq<char> {
    "map"@
}

/// The kind under which browse category listings are stored.
pub open spec fn browse_kind() -> Seq<char> {
    "browse"@
}

/// The kind under which lyrics records are stored.
pub open spec fn lyrics_kind() -> Seq<char> {
    "lyrics"@
}

/// The four row kinds are pairwise distinct.
pub proof fn lemma_kinds_distinct()
    ensures
        download_kind() != map_kind(),
        download_kind() != browse_kind(),
        download_kind() != lyrics_kind(),
        map_kind() != browse_kind(),
        map_kind() != lyrics_kind(),
        browse_kind() != lyrics_kind(),
{
    reveal_strlit("download");
    reveal_strlit("map");
    reveal_strlit("browse");
    reveal_strlit("lyrics");
    assert("download"@.len() == 8);
    assert("map"@.len() == 3);
    assert("browse"@.len() == 6);
    assert("lyrics"@.len() == 6);
    assert("browse"@[0] == 'b' && "lyrics"@[0] == 'l');
}

/// The row kind for extracted map bundles.
pub fn download_kind_str() -> (r: &'static str)
    ensures
        r@ == download_kind(),
{
    "download"
}

/// The row kind for map detail records.
pub fn map_kind_str() -> (r: &'static str)
    ensures
        r@ == map_kind(),
{
    "map"
}

/// The row kind for browse category listings.
pub fn browse_kind_str() -> (r: &'static str)
    ensures
        r@ == browse_kind(),
{
    "browse"
}

/// The row kind for lyrics records.
pub fn lyrics_kind_str() -> (r: &'static str)
    ensures
        r@ == lyrics_kind(),
{
    "lyrics"
}

} // verus!
