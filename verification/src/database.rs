use vstd::prelude::*;
use vstd::hash_map::StringHashMap;

use crate::types::Email;

verus! {

/// Errors of the session registry.
#[derive(Debug, PartialEq, Eq, Structural)]
pub enum DatabaseError {
    /// The request could not be applied to the registry.
    Invalid,
    /// The identifier has never been activated.
    NoRows,
}

/// Error surfaced when the durable mailbox store fails.
#[derive(Debug, PartialEq, Eq, Structural)]
pub enum StoreError {
    /// An input/output failure inside the storage engine.
    Io,
}

/// One registry entry: how (and whether) an identifier is currently
/// reachable. A live connection is named by an opaque numeric handle that
/// the caller assigns to each accepted connection.
pub struct Session {
    pub addr: Option<u64>,
    pub alive: bool,
    pub password: Option<String>,
}

#[verifier::external_type_specification]
#[verifier::external_body]
pub struct ExConnection(rusqlite::Connection);

#[verifier::external_type_specification]
#[verifier::external_body]
pub struct ExSqlError(rusqlite::Error);

/// The rows of the MAIL table held by a connection, in ascending rowid
/// order, each as (destination, payload). The wrappers' contracts over this
/// name hold for the stores this library opens: `ensure_mail_table` admits
/// only the exact table declaration below (two TEXT NOT NULL columns, plain
/// rowid, no collation override) with no trigger attached, so every stored
/// value is text and ascending rowid is insertion order. They also assume
/// this process holds the only connection writing the store file; an
/// external concurrent writer is outside the model.
pub uninterp spec fn mail_rows(conn: rusqlite::Connection) -> Seq<(Seq<char>, Seq<char>)>;

/// Relies on rusqlite::Connection::open_in_memory: a fresh in-memory
/// database holds no tables and therefore no mail rows.
#[verifier::external_body]
fn open_memory_connection() -> (r: Result<rusqlite::Connection, rusqlite::Error>)
    ensures
        (match r {
            Ok(c) => mail_rows(c) == Seq::<(Seq<char>, Seq<char>)>::empty(),
            Err(_) => true,
        }),
{
    rusqlite::Connection::open_in_memory()
}

/// Relies on rusqlite::Connection::open: opens (creating it if absent) the
/// database file at the given path. Nothing is promised of the contents:
/// an existing file keeps whatever rows it already holds.
#[verifier::external_body]
fn open_file_connection(path: &str) -> (r: Result<rusqlite::Connection, rusqlite::Error>)
{
    rusqlite::Connection::open(path)
}

/// Relies on rusqlite::Connection::execute running CREATE TABLE IF NOT
/// EXISTS (which never touches existing rows) and Connection::query_row
/// over sqlite_master and MAIL: the result says whether the store declares
/// MAIL exactly as this library does (a plain rowid table of two TEXT NOT
/// NULL columns, no collation override), has no trigger attached to it, and
/// still has room to append a rowid. A pre-existing store with any other
/// schema is reported unusable instead of being written through.
#[verifier::external_body]
fn ensure_mail_table(conn: &mut rusqlite::Connection) -> (r: Result<bool, rusqlite::Error>)
    ensures
        mail_rows(*final(conn)) == mail_rows(*old(conn)),
{
    conn.execute("CREATE TABLE IF NOT EXISTS MAIL (dest TEXT NOT NULL, payload TEXT NOT NULL)", [])?;
    conn.query_row(
        "SELECT (SELECT sql FROM sqlite_master WHERE type = 'table' AND name = 'MAIL') \
         = 'CREATE TABLE MAIL (dest TEXT NOT NULL, payload TEXT NOT NULL)' \
         AND NOT EXISTS (SELECT 1 FROM sqlite_master WHERE type = 'trigger' AND tbl_name = 'MAIL') \
         AND IFNULL((SELECT max(rowid) FROM MAIL), 0) < 9223372036854775807",
        [],
        |row| row.get(0),
    )
}

/// Relies on rusqlite::Connection::execute running a single-row INSERT: on
/// success exactly one row is appended and the changed-row count 1 is
/// returned; a failed statement changes nothing (SQLite statements are
/// atomic). Appending at the end (and nothing else happening) rests on the
/// schema `ensure_mail_table` validated: TEXT columns store the given text
/// unchanged, no trigger runs, and fresh rowids ascend.
#[verifier::external_body]
fn insert_mail(conn: &mut rusqlite::Connection, dest: &str, payload: &str) -> (r: Result<usize, rusqlite::Error>)
    ensures
        (match r {
            Ok(n) => n == 1 && mail_rows(*final(conn)) == mail_rows(*old(conn)).push((dest@, payload@)),
            Err(_) => mail_rows(*final(conn)) == mail_rows(*old(conn)),
        }),
{
    conn.execute("INSERT INTO MAIL (dest, payload) VALUES (?1, ?2)", (dest, payload))
}

/// The rows addressed to one destination, in insertion order.
pub open spec fn rows_for(rows: Seq<(Seq<char>, Seq<char>)>, dest: Seq<char>) -> Seq<(Seq<char>, Seq<char>)>
    decreases rows.len(),
{
    if rows.len() == 0 {
        Seq::empty()
    } else {
        let rest = rows_for(rows.drop_last(), dest);
        if rows.last().0 == dest {
            rest.push(rows.last())
        } else {
            rest
        }
    }
}

/// Relies on rusqlite::Connection::prepare and Statement::query_map running
/// SELECT ... WHERE dest = ? ORDER BY rowid: rows are only ever appended by
/// this library, so ascending rowid is insertion order, and under the
/// schema `ensure_mail_table` validated (TEXT columns, no collation
/// override on dest) the result is exactly the stored rows for that
/// destination. A row whose columns fail to decode is skipped — which
/// never happens to rows counted by `mail_rows` — while a step-level
/// failure (a busy or corrupt database) is surfaced as the error, never as
/// a shortened row list.
#[verifier::external_body]
fn select_mails(conn: &rusqlite::Connection, dest: &str) -> (r: Result<Vec<Email>, rusqlite::Error>)
    ensures
        (match r {
            Ok(v) => {
                &&& v@.len() == rows_for(mail_rows(*conn), dest@).len()
                &&& forall|k: int| 0 <= k < v@.len() ==> ((#[trigger] v@[k]).destination@, v@[k].payload@)
                    == rows_for(mail_rows(*conn), dest@)[k]
            },
            Err(_) => true,
        }),
{
    let mut stmt = conn.prepare("SELECT dest, payload FROM MAIL WHERE dest = ?1 ORDER BY rowid")?;
    let rows = stmt.query_map([dest], |row| {
        Ok(Email { destination: row.get(0)?, payload: row.get(1)? })
    })?;
    let mut result = vec![];
    for row in rows {
        match row {
            Ok(mail) => result.push(mail),
            Err(rusqlite::Error::InvalidColumnType(..)) => {},
            Err(rusqlite::Error::FromSqlConversionFailure(..)) => {},
            Err(e) => return Err(e),
        }
    }
    Ok(result)
}

/// The payloads stored for one destination, in insertion order.
pub open spec fn mails_for(rows: Seq<(Seq<char>, Seq<char>)>, dest: Seq<char>) -> Seq<Seq<char>>
    decreases rows.len(),
{
    if rows.len() == 0 {
        Seq::empty()
    } else {
        let rest = mails_for(rows.drop_last(), dest);
        if rows.last().0 == dest {
            rest.push(rows.last().1)
        } else {
            rest
        }
    }
}

/// What the router decided, and did, for one message.
#[derive(Clone, Copy, Debug, PartialEq, Eq, Structural)]
pub enum RouteOutcome {
    /// The recipient was live: the payload must now be pushed, verbatim, to
    /// the connection named by this handle. Nothing was stored.
    Delivered { handle: u64 },
    /// The recipient was unknown or not live: the payload was appended to
    /// the mailbox store.
    Persisted,
}

/// The session registry together with the durable mailbox store. All
/// registry state is owned exclusively by this value: every liveness check
/// and the decision it feeds execute inside one `&mut self` method, so a
/// check can never be separated from its use.
pub struct Database {
    sessions: StringHashMap<Session>,
    connection: rusqlite::Connection,
}

impl Database {
    /// The registry: which identifiers have been seen, and their sessions.
    pub closed spec fn registry(&self) -> Map<Seq<char>, Session> {
        self.sessions@
    }

    /// The mailbox store contents, in insertion order.
    pub closed spec fn mails(&self) -> Seq<(Seq<char>, Seq<char>)> {
        mail_rows(self.connection)
    }

    /// Registry well-formedness: a session holds a connection handle and a
    /// credential exactly while it is live.
    pub open spec fn wf(&self) -> bool {
        forall|id: Seq<char>| #[trigger] self.registry().contains_key(id) ==> {
            &&& (self.registry()[id].alive <==> self.registry()[id].addr is Some)
            &&& (self.registry()[id].alive <==> self.registry()[id].password is Some)
        }
    }

    /// Whether this identifier has ever been activated.
    pub open spec fn sees(&self, id: Seq<char>) -> bool {
        self.registry().contains_key(id)
    }

    /// Whether this identifier is currently reachable.
    pub open spec fn live(&self, id: Seq<char>) -> bool {
        self.sees(id) && self.registry()[id].alive
    }

    /// Opens (or creates) the store at the given file path, with an empty
    /// registry. Session state never survives a restart; mail rows already
    /// in the file are kept. A pre-existing file is accepted only if its
    /// MAIL table is declared exactly as this library declares it, with no
    /// trigger attached: anything else is reported as a store error, as is
    /// an I/O failure. The store contracts assume this process holds the
    /// only connection that writes the file.
    pub fn new(db_path: String) -> (r: Result<Database, StoreError>)
        ensures
            (match r {
                Ok(db) => db.wf() && db.registry() == Map::<Seq<char>, Session>::empty(),
                Err(e) => e == StoreError::Io,
            }),
    {
        match open_file_connection(db_path.as_str()) {
            Ok(mut connection) => match ensure_mail_table(&mut connection) {
                Ok(true) => Ok(Database { sessions: StringHashMap::new(), connection }),
                Ok(false) => Err(StoreError::Io),
                Err(_) => Err(StoreError::Io),
            },
            Err(_) => Err(StoreError::Io),
        }
    }

    /// Opens a fresh in-memory store: empty registry, empty mailbox.
    pub fn new_in_memory() -> (r: Result<Database, StoreError>)
        ensures
            (match r {
                Ok(db) => db.wf()
                    && db.registry() == Map::<Seq<char>, Session>::empty()
                    && db.mails() == Seq::<(Seq<char>, Seq<char>)>::empty(),
                Err(e) => e == StoreError::Io,
            }),
    {
        match open_memory_connection() {
            Ok(mut connection) => match ensure_mail_table(&mut connection) {
                Ok(true) => Ok(Database { sessions: StringHashMap::new(), connection }),
                Ok(false) => Err(StoreError::Io),
                Err(_) => Err(StoreError::Io),
            },
            Err(_) => Err(StoreError::Io),
        }
    }

    /// The current connection handle for an identifier, if any.
    pub fn get_addr(&self, identifier: String) -> (r: Option<u64>)
        ensures
            r == (if self.sees(identifier@) { self.registry()[identifier@].addr } else { None::<u64> }),
    {
        match self.sessions.get(identifier.as_str()) {
            Some(session) => session.addr,
            None => None,
        }
    }

    /// Marks an identifier reachable at the given handle with the given
    /// credential. Last write wins unconditionally: a re-activation
    /// overwrites the previous credential and handle with no check against
    /// them, and forces liveness.
    pub fn activate_self(&mut self, identifier: String, password: String, addr: u64) -> (r: Result<(), DatabaseError>)
        requires
            old(self).wf(),
        ensures
            r is Ok,
            final(self).wf(),
            final(self).registry() == old(self).registry().insert(
                identifier@,
                (Session { addr: Some(addr), alive: true, password: Some(password) }),
            ),
            final(self).mails() == old(self).mails(),
    {
        self.sessions.insert(identifier, Session { addr: Some(addr), alive: true, password: Some(password) });
        Ok(())
    }

    /// Marks an identifier unreachable: liveness is cleared, and with it
    /// both the credential and the stale connection handle, so no leftover
    /// handle can outlive the session it belonged to. Unknown identifiers
    /// are left alone.
    pub fn deactivate(&mut self, id: String)
        requires
            old(self).wf(),
        ensures
            final(self).wf(),
            final(self).mails() == old(self).mails(),
            old(self).sees(id@) ==> final(self).registry() == old(self).registry().insert(
                id@,
                (Session { addr: None, alive: false, password: None }),
            ),
            !old(self).sees(id@) ==> final(self).registry() == old(self).registry(),
            !final(self).live(id@),
    {
        if self.sessions.get(id.as_str()).is_some() {
            self.sessions.insert(id, Session { addr: None, alive: false, password: None });
        }
    }

    /// Whether an identifier is currently reachable; an identifier that has
    /// never been activated is reported as `NoRows`.
    pub fn is_alive(&self, identifier: &String) -> (r: Result<bool, DatabaseError>)
        ensures
            (match r {
                Ok(b) => self.sees(identifier@) && b == self.registry()[identifier@].alive,
                Err(e) => !self.sees(identifier@) && e == DatabaseError::NoRows,
            }),
    {
        match self.sessions.get(identifier.as_str()) {
            Some(session) => Ok(session.alive),
            None => Err(DatabaseError::NoRows),
        }
    }

    /// Appends one piece of mail to the durable store. A failed write is
    /// retried once, immediately — no timing primitive is available here,
    /// so the retry carries no backoff delay — before the error is
    /// surfaced; the registry is never touched.
    pub fn save_mail_for(&mut self, identifier: String, mail: String) -> (r: Result<usize, StoreError>)
        requires
            old(self).wf(),
        ensures
            final(self).wf(),
            final(self).registry() == old(self).registry(),
            (match r {
                Ok(n) => n == 1 && final(self).mails() == old(self).mails().push((identifier@, mail@)),
                Err(e) => e == StoreError::Io && final(self).mails() == old(self).mails(),
            }),
    {
        match insert_mail(&mut self.connection, identifier.as_str(), mail.as_str()) {
            Ok(n) => Ok(n),
            Err(_) => match insert_mail(&mut self.connection, identifier.as_str(), mail.as_str()) {
                Ok(n) => Ok(n),
                Err(_) => Err(StoreError::Io),
            },
        }
    }

    /// The stored mail for one identifier, in insertion order, never
    /// deleted on read.
    pub fn get_mails_for(&self, identifier: &str) -> (r: Result<Vec<Email>, StoreError>)
        ensures
            (match r {
                Ok(v) => {
                    &&& v@.len() == rows_for(self.mails(), identifier@).len()
                    &&& forall|k: int| 0 <= k < v@.len() ==> ((#[trigger] v@[k]).destination@, v@[k].payload@)
                        == rows_for(self.mails(), identifier@)[k]
                },
                Err(e) => e == StoreError::Io,
            }),
    {
        match select_mails(&self.connection, identifier) {
            Ok(v) => Ok(v),
            Err(_) => Err(StoreError::Io),
        }
    }

    /// Routes one message as a single atomic step: the liveness check and
    /// the decision it feeds happen under one exclusive borrow of the
    /// registry. Exactly one of two things happens on success: a live
    /// recipient's handle is returned for immediate delivery and nothing is
    /// stored, or the payload is appended to the mailbox store. A store
    /// failure (already retried once) leaves the store unchanged and is
    /// surfaced.
    pub fn route(&mut self, destination: String, payload: String) -> (r: Result<RouteOutcome, StoreError>)
        requires
            old(self).wf(),
        ensures
            final(self).wf(),
            final(self).registry() == old(self).registry(),
            (match r {
                Ok(outcome) => match outcome {
                    RouteOutcome::Delivered { handle } =>
                        old(self).live(destination@)
                        && old(self).registry()[destination@].addr == Some(handle)
                        && final(self).mails() == old(self).mails(),
                    RouteOutcome::Persisted =>
                        !old(self).live(destination@)
                        && final(self).mails() == old(self).mails().push((destination@, payload@)),
                },
                Err(e) => e == StoreError::Io
                    && !old(self).live(destination@)
                    && final(self).mails() == old(self).mails(),
            }),
    {
        let deliver: Option<u64> = match self.sessions.get(destination.as_str()) {
            Some(session) => if session.alive {
                session.addr
            } else {
                None
            },
            None => None,
        };
        match deliver {
            Some(handle) => Ok(RouteOutcome::Delivered { handle }),
            None => match self.save_mail_for(destination, payload) {
                Ok(_) => Ok(RouteOutcome::Persisted),
                Err(e) => Err(e),
            },
        }
    }
}

/// Law: an identifier that has never been activated is not live, so routing
/// to it can only persist, never deliver.
pub proof fn lemma_unknown_not_live(db: Database, id: Seq<char>)
    requires
        !db.sees(id),
    ensures
        !db.live(id),
{
}

/// Law: a fetch returns only rows addressed to the queried destination, and
/// their payloads are exactly what [`mails_for`] names, position by
/// position.
pub proof fn lemma_mails_for_is_payloads(rows: Seq<(Seq<char>, Seq<char>)>, d: Seq<char>)
    ensures
        mails_for(rows, d).len() == rows_for(rows, d).len(),
        forall|k: int| 0 <= k < rows_for(rows, d).len() ==> (#[trigger] rows_for(rows, d)[k]).0 == d,
        forall|k: int| 0 <= k < rows_for(rows, d).len() ==> mails_for(rows, d)[k] == (#[trigger] rows_for(rows, d)[k]).1,
    decreases rows.len(),
{
    if rows.len() == 0 {
    } else {
        lemma_mails_for_is_payloads(rows.drop_last(), d);
    }
}

/// Law (round trip): persisting mail for a destination appends exactly that
/// row to what a fetch for the destination returns, and leaves fetches for
/// every other destination untouched.
pub proof fn lemma_persist_fetch_round_trip(rows: Seq<(Seq<char>, Seq<char>)>, d: Seq<char>, m: Seq<char>, other: Seq<char>)
    ensures
        rows_for(rows.push((d, m)), d) == rows_for(rows, d).push((d, m)),
        mails_for(rows.push((d, m)), d) == mails_for(rows, d).push(m),
        other != d ==> rows_for(rows.push((d, m)), other) == rows_for(rows, other),
        other != d ==> mails_for(rows.push((d, m)), other) == mails_for(rows, other),
{
    assert(rows.push((d, m)).drop_last() =~= rows);
}

/// Law (order, no dedup): persisting `m1` then `m2` for one destination
/// makes a fetch for it end in exactly `m1` followed by `m2`.
pub proof fn lemma_fetch_order_preserved(rows: Seq<(Seq<char>, Seq<char>)>, d: Seq<char>, m1: Seq<char>, m2: Seq<char>)
    ensures
        mails_for(rows.push((d, m1)).push((d, m2)), d) == mails_for(rows, d).push(m1).push(m2),
{
    lemma_persist_fetch_round_trip(rows, d, m1, d);
    lemma_persist_fetch_round_trip(rows.push((d, m1)), d, m2, d);
}

/// Law: activating the same identifier twice leaves the registry exactly as
/// if only the second activation had happened — the second credential and
/// handle win, and the session is live after either call.
pub proof fn lemma_reactivation_last_wins(m: Map<Seq<char>, Session>, id: Seq<char>, s1: Session, s2: Session)
    ensures
        m.insert(id, s1).insert(id, s2) == m.insert(id, s2),
        m.insert(id, s1).insert(id, s2)[id] == s2,
{
    assert(m.insert(id, s1).insert(id, s2) =~= m.insert(id, s2));
}

} // verus!
