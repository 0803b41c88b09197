//! Store: durable relational storage of note records plus a full-text
//! shadow index, kept consistent record by record through a transactional
//! upsert.
//!
//! The store is modeled by two maps over identifiers: the records
//! themselves and the text each index row carries. The SQL layer is
//! trusted to realize exactly the map transitions stated on its wrappers;
//! everything above it is verified against those transitions.

use crate::error::StickyError;
use rusqlite::OptionalExtension;
use vstd::prelude::*;

verus! {

/// The storage engine's connection handle, carried opaquely.
#[verifier::external_type_specification]
#[verifier::external_body]
pub struct ExConnection(rusqlite::Connection);

/// One note record as persisted.
#[derive(Debug, Clone)]
pub struct Sticky {
    pub uuid: String,
    pub content_text: String,
    pub rtf_data: Vec<u8>,
    pub plist_metadata: Vec<u8>,
    pub color: String,
    pub modified_at: i64,
    pub created_at: i64,
    pub source_machine: String,
}

/// A note record as plain values (everything but its key).
pub struct NoteRep {
    pub content_text: Seq<char>,
    pub rtf_data: Seq<u8>,
    pub plist_metadata: Seq<u8>,
    pub color: Seq<char>,
    pub modified_at: i64,
    pub created_at: i64,
    pub source_machine: Seq<char>,
}

pub open spec fn note_rep(s: Sticky) -> NoteRep {
    NoteRep {
        content_text: s.content_text@,
        rtf_data: s.rtf_data@,
        plist_metadata: s.plist_metadata@,
        color: s.color@,
        modified_at: s.modified_at,
        created_at: s.created_at,
        source_machine: s.source_machine@,
    }
}

/// The records a connection's note table holds, by identifier.
pub uninterp spec fn stored_notes(c: rusqlite::Connection) -> Map<Seq<char>, NoteRep>;

/// The text each full-text index row of a connection carries, by
/// identifier.
pub uninterp spec fn indexed_text(c: rusqlite::Connection) -> Map<Seq<char>, Seq<char>>;

/// Whether the full-text engine's token-based match accepts `text` for
/// `query`.
pub uninterp spec fn fts_matches(query: Seq<char>, text: Seq<char>) -> bool;

/// Relies on rusqlite::Connection::open: opens the database file at
/// `path`, creating it when absent. Nothing is promised of the contents
/// found there: they are whatever the file held.
#[verifier::external_body]
fn open_connection(path: &str) -> (r: Result<rusqlite::Connection, rusqlite::Error>) {
    rusqlite::Connection::open(path)
}

/// Relies on rusqlite::Connection::execute_batch and SQLite's CREATE
/// TABLE IF NOT EXISTS: brings the note table, the attachment table, and
/// the full-text index into existence, idempotently.
#[verifier::external_body]
fn init_schema(conn: &mut rusqlite::Connection) -> (r: Result<(), rusqlite::Error>) {
    conn.execute_batch(
        "CREATE TABLE IF NOT EXISTS stickies (uuid TEXT PRIMARY KEY, content_text TEXT, rtf_data BLOB, plist_metadata BLOB, color TEXT, modified_at INTEGER, created_at INTEGER, source_machine TEXT);
        CREATE TABLE IF NOT EXISTS attachments (id INTEGER PRIMARY KEY AUTOINCREMENT, sticky_uuid TEXT, filename TEXT, content BLOB, FOREIGN KEY (sticky_uuid) REFERENCES stickies(uuid));
        CREATE VIRTUAL TABLE IF NOT EXISTS stickies_fts USING fts5(uuid UNINDEXED, content_text);",
    )
}

/// Relies on rusqlite transactions (Connection::transaction,
/// Transaction::execute, Transaction::commit) and SQLite's DELETE, INSERT
/// OR REPLACE, and FTS5 table INSERT: in one committed transaction the
/// old index row for the identifier is removed, the record is replaced,
/// and a fresh index row is written from the record's text. A failed
/// transaction rolls back when dropped and changes nothing.
#[verifier::external_body]
fn sql_upsert(conn: &mut rusqlite::Connection, s: &Sticky) -> (r: Result<(), rusqlite::Error>)
    ensures
        r is Ok ==> stored_notes(*final(conn)) == stored_notes(*old(conn)).insert(
            s.uuid@,
            note_rep(*s),
        ) && indexed_text(*final(conn)) == indexed_text(*old(conn)).insert(
            s.uuid@,
            s.content_text@,
        ),
        r is Err ==> stored_notes(*final(conn)) == stored_notes(*old(conn)) && indexed_text(
            *final(conn),
        ) == indexed_text(*old(conn)),
{
    let tx = conn.transaction()?;
    tx.execute("DELETE FROM stickies_fts WHERE uuid = ?1", (&s.uuid,))?;
    tx.execute(
        "INSERT OR REPLACE INTO stickies (uuid, content_text, rtf_data, plist_metadata, color, modified_at, created_at, source_machine) VALUES (?1, ?2, ?3, ?4, ?5, ?6, ?7, ?8)",
        (&s.uuid, &s.content_text, &s.rtf_data, &s.plist_metadata, &s.color, s.modified_at, s.created_at, &s.source_machine),
    )?;
    tx.execute(
        "INSERT INTO stickies_fts (uuid, content_text) VALUES (?1, ?2)",
        (&s.uuid, &s.content_text),
    )?;
    tx.commit()
}

/// Relies on rusqlite's prepare and query_row over the note table:
/// returns the record stored under the identifier, or nothing when the
/// identifier is absent.
#[verifier::external_body]
fn sql_get(conn: &rusqlite::Connection, uuid: &str) -> (r: Result<
    Option<Sticky>,
    rusqlite::Error,
>)
    ensures
        match r {
            Ok(Some(s)) => stored_notes(*conn).contains_key(uuid@) && s.uuid@ == uuid@ && note_rep(
                s,
            ) == stored_notes(*conn)[uuid@],
            Ok(None) => !stored_notes(*conn).contains_key(uuid@),
            Err(_) => true,
        },
{
    let mut stmt = conn.prepare(
        "SELECT uuid, content_text, rtf_data, plist_metadata, color, modified_at, created_at, source_machine FROM stickies WHERE uuid = ?1",
    )?;
    let s = stmt.query_row((uuid,), |row| Ok(Sticky {
        uuid: row.get(0)?, content_text: row.get(1)?, rtf_data: row.get(2)?,
        plist_metadata: row.get(3)?, color: row.get(4)?, modified_at: row.get(5)?,
        created_at: row.get(6)?, source_machine: row.get(7)?,
    })).optional()?;
    Ok(s)
}

/// What a correct listing of all stored identifiers is: every element is
/// stored, every stored identifier appears, and none appears twice.
pub open spec fn uuid_listing(m: Map<Seq<char>, NoteRep>, v: Seq<String>) -> bool {
    &&& forall|i: int| 0 <= i < v.len() ==> m.contains_key(v[i]@)
    &&& forall|id: Seq<char>|
        m.contains_key(id) ==> exists|i: int| 0 <= i < v.len() && v[i]@ == id
    &&& forall|i: int, j: int| 0 <= i < j < v.len() ==> v[i]@ != v[j]@
}

/// What a correct answer to a full-text query is: every returned record
/// is stored and its index row matches the query, and every stored
/// identifier whose index row matches the query is returned.
pub open spec fn search_listing(
    m: Map<Seq<char>, NoteRep>,
    ix: Map<Seq<char>, Seq<char>>,
    query: Seq<char>,
    v: Seq<Sticky>,
) -> bool {
    &&& forall|i: int|
        0 <= i < v.len() ==> {
            &&& m.contains_key(v[i].uuid@)
            &&& note_rep(v[i]) == m[v[i].uuid@]
            &&& ix.contains_key(v[i].uuid@)
            &&& fts_matches(query, ix[v[i].uuid@])
        }
    &&& forall|id: Seq<char>|
        ix.contains_key(id) && m.contains_key(id) && fts_matches(query, ix[id]) ==> exists|i: int|
            0 <= i < v.len() && v[i].uuid@ == id
}

/// Relies on rusqlite's prepare and query_map over the note table's
/// primary-key column: returns every stored identifier exactly once, in
/// no promised order.
#[verifier::external_body]
fn sql_all_uuids(conn: &rusqlite::Connection) -> (r: Result<Vec<String>, rusqlite::Error>)
    ensures
        match r {
            Ok(v) => uuid_listing(stored_notes(*conn), v@),
            Err(_) => true,
        },
{
    let mut stmt = conn.prepare("SELECT uuid FROM stickies")?;
    let uuids = stmt.query_map([], |row| row.get(0))?.collect::<Result<Vec<String>, _>>()?;
    Ok(uuids)
}

/// Relies on rusqlite's prepare and query_map over the join of the note
/// table with the full-text index, and on SQLite's FTS5 MATCH: returns
/// exactly the stored records whose index row matches the query. Assumes
/// each identifier carries at most one index row, which the transactional
/// upsert maintains.
#[verifier::external_body]
fn sql_search(conn: &rusqlite::Connection, query: &str) -> (r: Result<
    Vec<Sticky>,
    rusqlite::Error,
>)
    ensures
        match r {
            Ok(v) => search_listing(stored_notes(*conn), indexed_text(*conn), query@, v@) && (
            forall|i: int|
                0 <= i < v@.len() ==> #[trigger] fts_matches(
                    query@,
                    indexed_text(*conn)[v@[i].uuid@],
                )),
            Err(_) => true,
        },
{
    let mut stmt = conn.prepare(
        "SELECT s.uuid, s.content_text, s.rtf_data, s.plist_metadata, s.color, s.modified_at, s.created_at, s.source_machine FROM stickies s JOIN stickies_fts fts ON s.uuid = fts.uuid WHERE stickies_fts MATCH ?1",
    )?;
    let stickies = stmt.query_map((query,), |row| Ok(Sticky {
        uuid: row.get(0)?, content_text: row.get(1)?, rtf_data: row.get(2)?,
        plist_metadata: row.get(3)?, color: row.get(4)?, modified_at: row.get(5)?,
        created_at: row.get(6)?, source_machine: row.get(7)?,
    }))?.collect::<Result<Vec<Sticky>, _>>()?;
    Ok(stickies)
}

/// The note-record map after a transactional upsert of `s`.
pub open spec fn upsert_notes(m: Map<Seq<char>, NoteRep>, s: Sticky) -> Map<Seq<char>, NoteRep> {
    m.insert(s.uuid@, note_rep(s))
}

/// The index map after a transactional upsert of `s`.
pub open spec fn upsert_index(ix: Map<Seq<char>, Seq<char>>, s: Sticky) -> Map<
    Seq<char>,
    Seq<char>,
> {
    ix.insert(s.uuid@, s.content_text@)
}

/// The durable store.
pub struct Database {
    conn: rusqlite::Connection,
}

impl Database {
    /// The records this store holds, by identifier.
    pub closed spec fn notes(&self) -> Map<Seq<char>, NoteRep> {
        stored_notes(self.conn)
    }

    /// The text each full-text index row carries, by identifier.
    pub closed spec fn index(&self) -> Map<Seq<char>, Seq<char>> {
        indexed_text(self.conn)
    }

    /// Opens (creating as needed) the store at `path` and brings the note
    /// table, the attachment table, and the full-text index into
    /// existence, idempotently. The records found there are whatever the
    /// file held.
    pub fn create(path: &str) -> (r: Result<Database, StickyError>)
        ensures
            r matches Err(e) ==> e is Database,
    {
        let mut conn = match open_connection(path) {
            Ok(c) => c,
            Err(e) => {
                return Err(StickyError::Database(e));
            },
        };
        match init_schema(&mut conn) {
            Ok(u) => u,
            Err(e) => {
                return Err(StickyError::Database(e));
            },
        };
        Ok(Database { conn })
    }

    /// The underlying storage-engine connection.
    pub fn connection(&self) -> &rusqlite::Connection {
        &self.conn
    }

    /// Transactional upsert: stores the record under its identifier and
    /// rewrites its index row from the record's text, atomically. On
    /// failure the store is exactly as it was.
    pub fn insert_sticky(&mut self, sticky: &Sticky) -> (r: Result<(), StickyError>)
        ensures
            r is Ok ==> final(self).notes() == upsert_notes(old(self).notes(), *sticky)
                && final(self).index() == upsert_index(old(self).index(), *sticky),
            r matches Err(e) ==> e is Database && final(self).notes() == old(self).notes()
                && final(self).index() == old(self).index(),
    {
        match sql_upsert(&mut self.conn, sticky) {
            Ok(u) => Ok(u),
            Err(e) => Err(StickyError::Database(e)),
        }
    }

    /// The record stored under `uuid`: none, not an error, when absent.
    pub fn get_sticky(&self, uuid: &str) -> (r: Result<Option<Sticky>, StickyError>)
        ensures
            match r {
                Ok(Some(s)) => self.notes().contains_key(uuid@) && s.uuid@ == uuid@ && note_rep(s)
                    == self.notes()[uuid@],
                Ok(None) => !self.notes().contains_key(uuid@),
                Err(e) => e is Database,
            },
    {
        match sql_get(&self.conn, uuid) {
            Ok(s) => Ok(s),
            Err(e) => Err(StickyError::Database(e)),
        }
    }

    /// Every stored identifier, exactly once, in no promised order.
    pub fn get_all_uuids(&self) -> (r: Result<Vec<String>, StickyError>)
        ensures
            match r {
                Ok(v) => uuid_listing(self.notes(), v@),
                Err(e) => e is Database,
            },
    {
        match sql_all_uuids(&self.conn) {
            Ok(v) => Ok(v),
            Err(e) => Err(StickyError::Database(e)),
        }
    }

    /// Every stored record whose index row matches the query under the
    /// index's token-based semantics: empty, not an error, when nothing
    /// matches.
    pub fn search(&self, query: &str) -> (r: Result<Vec<Sticky>, StickyError>)
        ensures
            match r {
                Ok(v) => search_listing(self.notes(), self.index(), query@, v@),
                Err(e) => e is Database,
            },
    {
        match sql_search(&self.conn, query) {
            Ok(v) => Ok(v),
            Err(e) => Err(StickyError::Database(e)),
        }
    }
}

/// Law (upsert idempotence): upserting the same record twice leaves the
/// store and its index exactly as one upsert does, so the same record is
/// retrievable and the same single search hit is owed afterwards.
pub proof fn lemma_upsert_idempotent(
    m: Map<Seq<char>, NoteRep>,
    ix: Map<Seq<char>, Seq<char>>,
    s: Sticky,
)
    ensures
        upsert_notes(upsert_notes(m, s), s) == upsert_notes(m, s),
        upsert_index(upsert_index(ix, s), s) == upsert_index(ix, s),
{
    assert(upsert_notes(upsert_notes(m, s), s) =~= upsert_notes(m, s));
    assert(upsert_index(upsert_index(ix, s), s) =~= upsert_index(ix, s));
}

/// Law (index freshness): after an upsert the index row for the record's
/// identifier carries exactly the record's text, so for any query that
/// identifier is owed a search hit precisely when the query matches the
/// new text — whatever text any earlier record carried.
pub proof fn lemma_index_freshness(ix: Map<Seq<char>, Seq<char>>, s: Sticky, query: Seq<char>)
    ensures
        upsert_index(ix, s).contains_key(s.uuid@),
        upsert_index(ix, s)[s.uuid@] == s.content_text@,
        fts_matches(query, upsert_index(ix, s)[s.uuid@]) == fts_matches(query, s.content_text@),
{
}

} // verus!
