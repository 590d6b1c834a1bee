//! Durable contract storage: snapshots, an append-only event log and
//! decision items in an embedded SQLite database.
use vstd::prelude::*;
use vstd::string::StringExecFns;
use crate::lifecycle::{
    allowed_edge, transition_outcome, TransitionError, in_tier, status_in_tier, status_name, AttentionTier, Contract, ContractEvent, ContractStatus,
    DecisionItem,
};
use crate::text::str_equal;

verus! {

#[verifier::external_type_specification]
#[verifier::external_body]
pub struct ExConnection(rusqlite::Connection);

#[verifier::external_type_specification]
#[verifier::external_body]
pub struct ExSqliteError(rusqlite::Error);

#[verifier::external_type_specification]
#[verifier::external_body]
pub struct ExSqliteValueRef<'a>(rusqlite::types::ValueRef<'a>);

/// The schema version this store writes.
pub const CURRENT_SCHEMA_VERSION: i64 = 2;

/// One value read from a result row.
#[derive(Debug, Clone, PartialEq)]
pub enum SqlCell {
    Null,
    Integer(i64),
    Text(String),
    Blob(Vec<u8>),
    /// A floating-point value, which this store never writes.
    Real,
    /// A text value whose bytes are not UTF-8.
    InvalidText,
}

/// A value as the database holds it, text still as bytes.
enum RawCell {
    Null,
    Integer(i64),
    Real,
    Text(Vec<u8>),
    Blob(Vec<u8>),
}

/// Why a store operation failed.
#[derive(Debug)]
pub enum StoreError {
    /// The database itself reported an error.
    Sqlite(rusqlite::Error),
    /// A row did not have the shape the store writes, or a snapshot and its
    /// event did not belong together.
    InvalidQuery,
    /// The snapshot row that a transition updates does not exist.
    NoRows,
    /// A list of ids could not be written as JSON.
    Encoding,
}

/// Relies on rusqlite's `Connection::open`: opens or creates the database file.
#[verifier::external_body]
fn open_connection(path: &str) -> (r: Result<rusqlite::Connection, rusqlite::Error>) {
    rusqlite::Connection::open(path)
}

/// Relies on rusqlite's `Connection::busy_timeout`: waits up to `secs` seconds on a locked database.
/// It panics when the timeout in milliseconds does not fit an `i32`.
#[verifier::external_body]
fn set_busy_timeout(conn: &rusqlite::Connection, secs: u64) -> (r: Result<(), rusqlite::Error>)
    requires
        secs <= 2147483,
{
    conn.busy_timeout(std::time::Duration::from_secs(secs))
}

/// Relies on rusqlite's `Connection::pragma_update`: sets a pragma on the connection.
#[verifier::external_body]
fn set_pragma(conn: &rusqlite::Connection, name: &str, value: &str) -> (r: Result<(), rusqlite::Error>) {
    conn.pragma_update(None, name, value)
}

/// Relies on rusqlite's `Connection::execute_batch`: runs statements that take no parameters.
#[verifier::external_body]
fn execute_batch(conn: &rusqlite::Connection, sql: &str) -> (r: Result<(), rusqlite::Error>) {
    conn.execute_batch(sql)
}

/// Relies on rusqlite's `Connection::execute`: runs one statement with text
/// parameters and returns the number of rows it changed.
#[verifier::external_body]
fn execute(conn: &rusqlite::Connection, sql: &str, params: &Vec<String>) -> (r: Result<usize, rusqlite::Error>) {
    conn.execute(sql, rusqlite::params_from_iter(params.iter()))
}

/// Relies on rusqlite's `Connection::last_insert_rowid`: the row id of the latest insert.
#[verifier::external_body]
fn last_insert_rowid(conn: &rusqlite::Connection) -> (r: i64) {
    conn.last_insert_rowid()
}

/// Relies on rusqlite's `Connection::prepare`, `Statement::query_map` and
/// `Row::get_ref`: runs a query with text parameters and hands back every
/// row, value by value, without decoding text.
#[verifier::external_body]
fn query_values(conn: &rusqlite::Connection, sql: &str, params: &Vec<String>) -> (r: Result<Vec<Vec<RawCell>>, rusqlite::Error>) {
    let mut stmt = conn.prepare(sql)?;
    let n = stmt.column_count();
    let rows = stmt.query_map(rusqlite::params_from_iter(params.iter()), |row| {
        (0..n).map(|i| row.get_ref(i).map(raw_cell)).collect::<Result<Vec<_>, _>>()
    })?;
    rows.collect()
}

/// Relies on rusqlite's `types::ValueRef`: one cell per variant, copying its
/// payload.
#[verifier::external_body]
fn raw_cell(v: rusqlite::types::ValueRef<'_>) -> (r: RawCell) {
    match v {
        rusqlite::types::ValueRef::Null => RawCell::Null,
        rusqlite::types::ValueRef::Integer(i) => RawCell::Integer(i),
        rusqlite::types::ValueRef::Real(_) => RawCell::Real,
        rusqlite::types::ValueRef::Text(b) => RawCell::Text(b.to_vec()),
        rusqlite::types::ValueRef::Blob(b) => RawCell::Blob(b.to_vec()),
    }
}

/// Relies on std's `String::from_utf8`: the text, when the bytes are UTF-8.
#[verifier::external_body]
fn utf8_text(bytes: Vec<u8>) -> (r: Option<String>) {
    String::from_utf8(bytes).ok()
}

/// A cell as the decoders read it; text that is not UTF-8 becomes
/// `InvalidText`, which no decoder accepts.
fn cell_of(raw: RawCell) -> (r: SqlCell)
    ensures
        raw is Null ==> r is Null,
        raw matches RawCell::Integer(i) ==> r == SqlCell::Integer(i),
        raw is Real ==> r is Real,
        raw matches RawCell::Blob(b) ==> r == SqlCell::Blob(b),
        raw is Text ==> (r is Text || r is InvalidText),
{
    match raw {
        RawCell::Null => SqlCell::Null,
        RawCell::Integer(i) => SqlCell::Integer(i),
        RawCell::Real => SqlCell::Real,
        RawCell::Text(bytes) => match utf8_text(bytes) {
            Some(t) => SqlCell::Text(t),
            None => SqlCell::InvalidText,
        },
        RawCell::Blob(b) => SqlCell::Blob(b),
    }
}

/// Runs a query and converts every value of every row to a cell.
fn query_rows(conn: &rusqlite::Connection, sql: &str, params: &Vec<String>) -> (r: Result<Vec<Vec<SqlCell>>, rusqlite::Error>) {
    let rows = query_values(conn, sql, params)?;
    let mut out: Vec<Vec<SqlCell>> = Vec::new();
    let mut rows = rows;
    while rows.len() > 0
        decreases rows@.len(),
    {
        let mut row = rows.remove(0);
        let mut cells: Vec<SqlCell> = Vec::new();
        while row.len() > 0
            decreases row@.len(),
        {
            cells.push(cell_of(row.remove(0)));
        }
        out.push(cells);
    }
    Ok(out)
}

/// The JSON text serde_json writes for a list of strings.
pub uninterp spec fn ids_json(ids: Seq<Seq<char>>) -> Seq<char>;

/// The list of strings serde_json reads from a text, if it is a JSON array
/// of strings.
pub uninterp spec fn ids_from_json(text: Seq<char>) -> Option<Seq<Seq<char>>>;

/// Relies on serde_json's `to_string`: the JSON array text of a list of ids,
/// which serde_json's `from_str` reads back as the same list. Writing fails
/// only for a `Serialize` impl that fails or a map with non-string keys, so a
/// list of strings is always written.
#[verifier::external_body]
fn encode_ids(ids: &Vec<String>) -> (r: Option<String>)
    ensures
        r is Some,
        r matches Some(t) ==> t@ == ids_json(ids.deep_view()),
        r matches Some(t) ==> ids_from_json(t@) == Some(ids.deep_view()),
{
    serde_json::to_string(ids).ok()
}

/// Relies on serde_json's `from_str`: reads a JSON array of strings.
#[verifier::external_body]
fn decode_ids(text: &str) -> (r: Option<Vec<String>>)
    ensures
        r matches Some(v) ==> ids_from_json(text@) == Some(v.deep_view()),
        r is None ==> ids_from_json(text@) is None,
{
    serde_json::from_str(text).ok()
}

/// Relies on rusqlite's `Display` for its error: a readable description.
#[verifier::external_body]
pub(crate) fn describe_sqlite_error(e: &rusqlite::Error) -> (r: String) {
    e.to_string()
}

/// The text of a cell that holds text.
pub open spec fn cell_text(c: SqlCell) -> Option<Seq<char>> {
    match c {
        SqlCell::Text(s) => Some(s@),
        _ => None,
    }
}

fn text_of(cell: &SqlCell) -> (r: Option<&str>)
    ensures
        r matches Some(s) ==> cell_text(*cell) == Some(s@),
        r is None ==> cell_text(*cell) is None,
{
    match cell {
        SqlCell::Text(s) => Some(s.as_str()),
        _ => None,
    }
}

fn integer_of(cell: &SqlCell) -> (r: Option<i64>)
    ensures
        r == match *cell {
            SqlCell::Integer(i) => Some(i),
            _ => None::<i64>,
        },
{
    match cell {
        SqlCell::Integer(i) => Some(*i),
        _ => None,
    }
}

fn text_params1(a: &str) -> (r: Vec<String>)
    ensures
        r@.len() == 1,
        r@[0]@ == a@,
{
    let mut v = Vec::new();
    v.push(String::from_str(a));
    v
}

/// A row of (id, status, blocked_by) that decodes: three text cells, a known
/// status name and a JSON list of ids.
pub open spec fn row_decodable(row: Seq<SqlCell>) -> bool {
    &&& row.len() == 3
    &&& cell_text(row[0]) is Some
    &&& cell_text(row[1]) is Some
    &&& cell_text(row[2]) is Some
    &&& exists|s: ContractStatus| status_name(s) == cell_text(row[1])->Some_0
    &&& ids_from_json(cell_text(row[2])->Some_0) is Some
}

/// `c` is what a row of (id, status, blocked_by) holds.
pub open spec fn row_holds(row: Seq<SqlCell>, c: Contract) -> bool {
    &&& row.len() == 3
    &&& cell_text(row[0]) == Some(c.id@)
    &&& cell_text(row[1]) == Some(status_name(c.status))
    &&& cell_text(row[2]) is Some
    &&& ids_from_json(cell_text(row[2])->Some_0) == Some(c.blocked_by.deep_view())
}

/// Decodes a row of (id, status, blocked_by).
pub fn contract_from_row(row: &Vec<SqlCell>) -> (r: Result<Contract, StoreError>)
    ensures
        r is Ok <==> row_decodable(row@),
        r matches Ok(c) ==> row_holds(row@, c),
        r matches Err(e) ==> e is InvalidQuery,
{
    if row.len() != 3 {
        return Err(StoreError::InvalidQuery);
    }
    let id = match text_of(&row[0]) {
        Some(t) => t,
        None => {
            return Err(StoreError::InvalidQuery);
        },
    };
    let status_text = match text_of(&row[1]) {
        Some(t) => t,
        None => {
            return Err(StoreError::InvalidQuery);
        },
    };
    let blocked_text = match text_of(&row[2]) {
        Some(t) => t,
        None => {
            return Err(StoreError::InvalidQuery);
        },
    };
    let status = match ContractStatus::from_db_str(status_text) {
        Some(s) => s,
        None => {
            return Err(StoreError::InvalidQuery);
        },
    };
    let blocked_by = match decode_ids(blocked_text) {
        Some(ids) => ids,
        None => {
            return Err(StoreError::InvalidQuery);
        },
    };
    Ok(Contract { id: String::from_str(id), status, blocked_by })
}

/// One entry of a contract's event log, as replay reads it.
pub struct EventRow {
    pub from: ContractStatus,
    pub to: ContractStatus,
    pub blocked_by: Vec<String>,
}

/// Replays an event log over a snapshot: with no events the snapshot stands;
/// otherwise the contract takes the last event's target status and its
/// `blocked_by` snapshot, keeping the snapshot's id (or `id` when there is
/// no snapshot).
pub fn replay_events(id: &str, snapshot: Option<Contract>, events: Vec<EventRow>) -> (r: Option<Contract>)
    ensures
        events@.len() == 0 ==> r == snapshot,
        events@.len() > 0 ==> (r matches Some(c) && c.status == events@.last().to && c.blocked_by
            == events@.last().blocked_by && (match snapshot {
            Some(s) => c.id == s.id,
            None => c.id@ == id@,
        })),
{
    if events.len() == 0 {
        return snapshot;
    }
    let mut rebuilt = match snapshot {
        Some(contract) => contract,
        None => Contract::new(id, Vec::new()),
    };
    let ghost first_id = rebuilt.id;
    let n = events.len();
    let mut events = events;
    let mut i: usize = 0;
    let ghost all = events@;
    while events.len() > 0
        invariant
            rebuilt.id == first_id,
            events@.len() + i == n,
            n == all.len(),
            n > 0,
            events@ == all.subrange(i as int, n as int),
            i > 0 ==> rebuilt.status == all[i - 1].to && rebuilt.blocked_by == all[i - 1].blocked_by,
        decreases events@.len(),
    {
        let e = events.remove(0);
        proof {
            assert(all[i as int] == e);
            assert(events@ =~= all.subrange(i + 1, n as int));
        }
        rebuilt.status = e.to;
        rebuilt.blocked_by = e.blocked_by;
        i = i + 1;
    }
    Some(rebuilt)
}

/// Some id in `ids` equals `id`.
pub open spec fn referenced(ids: Seq<String>, id: Seq<char>) -> bool {
    exists|j: int| 0 <= j < ids.len() && (#[trigger] ids[j])@ == id
}

/// Contracts with distinct ids.
pub open spec fn distinct_ids(s: Seq<Contract>) -> bool {
    forall|i: int, j: int| 0 <= i < j < s.len() ==> (#[trigger] s[i]).id@ != (#[trigger] s[j]).id@
}

fn contains_id(ids: &Vec<String>, id: &str) -> (r: bool)
    ensures
        r == referenced(ids@, id@),
{
    let mut i: usize = 0;
    while i < ids.len()
        invariant
            0 <= i <= ids@.len(),
            forall|j: int| 0 <= j < i ==> (#[trigger] ids@[j])@ != id@,
        decreases ids@.len() - i,
    {
        if str_equal(ids[i].as_str(), id) {
            return true;
        }
        i = i + 1;
    }
    false
}

fn contains_contract_id(contracts: &Vec<Contract>, id: &str) -> (r: bool)
    ensures
        r == exists|i: int| 0 <= i < contracts@.len() && (#[trigger] contracts@[i]).id@ == id@,
{
    let mut i: usize = 0;
    while i < contracts.len()
        invariant
            0 <= i <= contracts@.len(),
            forall|j: int| 0 <= j < i ==> (#[trigger] contracts@[j]).id@ != id@,
        decreases contracts@.len() - i,
    {
        if str_equal(contracts[i].id.as_str(), id) {
            return true;
        }
        i = i + 1;
    }
    false
}

/// The contracts whose status lies in a status-based tier, in their order.
pub fn select_by_status(contracts: Vec<Contract>, tier: AttentionTier) -> (r: Vec<Contract>)
    ensures
        r@ == contracts@.filter(|c: Contract| in_tier(tier, c.status)),
{
    let mut out: Vec<Contract> = Vec::new();
    let ghost all = contracts@;
    let mut rest = contracts;
    let mut i: usize = 0;
    let n = rest.len();
    proof {
        assert(all.subrange(0, 0).filter(|c: Contract| in_tier(tier, c.status)) =~= Seq::<Contract>::empty());
    }
    while rest.len() > 0
        invariant
            rest@.len() + i == n,
            n == all.len(),
            rest@ == all.subrange(i as int, n as int),
            out@ == all.subrange(0, i as int).filter(|c: Contract| in_tier(tier, c.status)),
        decreases rest@.len(),
    {
        let c = rest.remove(0);
        proof {
            assert(all[i as int] == c);
            assert(rest@ =~= all.subrange(i + 1, n as int));
            assert(all.subrange(0, i + 1) =~= all.subrange(0, i as int).push(c));
            all.subrange(0, i as int).lemma_filter_push(c, |c: Contract| in_tier(tier, c.status));
        }
        if status_in_tier(tier, c.status) {
            out.push(c);
        }
        i = i + 1;
    }
    proof {
        assert(all.subrange(0, n as int) =~= all);
    }
    out
}

/// `r` takes elements of `all` at the increasing positions `idx`.
pub open spec fn taken_in_order(r: Seq<Contract>, all: Seq<Contract>, idx: Seq<int>) -> bool {
    &&& idx.len() == r.len()
    &&& forall|a: int, b: int| 0 <= a < b < idx.len() ==> #[trigger] idx[a] < #[trigger] idx[b]
    &&& forall|k: int| 0 <= k < r.len() ==> 0 <= #[trigger] idx[k] < all.len() && r[k] == all[idx[k]]
}

/// The contracts that some open decision refers to, each once, in the order
/// of `contracts`.
pub fn select_needing_decision(contracts: Vec<Contract>, decision_contract_ids: &Vec<String>) -> (r: Vec<Contract>)
    ensures
        exists|idx: Seq<int>| taken_in_order(r@, contracts@, idx),
        distinct_ids(r@),
        forall|i: int| 0 <= i < r@.len() ==> contracts@.contains(#[trigger] r@[i]),
        forall|i: int| 0 <= i < r@.len() ==> referenced(decision_contract_ids@, (#[trigger] r@[i]).id@),
        forall|i: int| 0 <= i < contracts@.len() && referenced(decision_contract_ids@, (#[trigger] contracts@[i]).id@)
            ==> exists|k: int| 0 <= k < r@.len() && (#[trigger] r@[k]).id@ == contracts@[i].id@,
{
    let mut out: Vec<Contract> = Vec::new();
    let ghost all = contracts@;
    let ghost mut idx: Seq<int> = Seq::empty();
    let mut rest = contracts;
    let mut i: usize = 0;
    let n = rest.len();
    while rest.len() > 0
        invariant
            rest@.len() + i == n,
            n == all.len(),
            rest@ == all.subrange(i as int, n as int),
            taken_in_order(out@, all, idx),
            forall|k: int| 0 <= k < idx.len() ==> #[trigger] idx[k] < i,
            distinct_ids(out@),
            forall|a: int| 0 <= a < out@.len() ==> all.contains(#[trigger] out@[a]) && referenced(decision_contract_ids@, out@[a].id@),
            forall|a: int| 0 <= a < i && referenced(decision_contract_ids@, (#[trigger] all[a]).id@)
                ==> exists|k: int| 0 <= k < out@.len() && (#[trigger] out@[k]).id@ == all[a].id@,
        decreases rest@.len(),
    {
        let c = rest.remove(0);
        proof {
            assert(all[i as int] == c);
            assert(rest@ =~= all.subrange(i + 1, n as int));
            assert(all.contains(c));
        }
        if contains_id(decision_contract_ids, c.id.as_str()) && !contains_contract_id(&out, c.id.as_str()) {
            let ghost before = out@;
            let ghost before_idx = idx;
            out.push(c);
            proof {
                idx = idx.push(i as int);
                assert forall|a: int, b: int| 0 <= a < b < idx.len() implies #[trigger] idx[a] < #[trigger] idx[b] by {
                    if b < before_idx.len() {
                        assert(idx[a] == before_idx[a] && idx[b] == before_idx[b]);
                    } else {
                        assert(idx[a] == before_idx[a]);
                    }
                }
                assert forall|k: int| 0 <= k < out@.len() implies 0 <= #[trigger] idx[k] < all.len() && out@[k] == all[idx[k]] by {
                    if k < before.len() {
                        assert(out@[k] == before[k] && idx[k] == before_idx[k]);
                    }
                }
                assert forall|a: int, b: int| 0 <= a < b < out@.len() implies (#[trigger] out@[a]).id@ != (#[trigger] out@[b]).id@ by {
                    if b < before.len() {
                        assert(out@[a] == before[a] && out@[b] == before[b]);
                    } else {
                        assert(out@[a] == before[a]);
                    }
                }
                assert forall|a: int| 0 <= a < out@.len() implies all.contains(#[trigger] out@[a]) && referenced(decision_contract_ids@, out@[a].id@) by {
                    if a < before.len() {
                        assert(out@[a] == before[a]);
                    }
                }
                assert forall|a: int| 0 <= a < i + 1 && referenced(decision_contract_ids@, (#[trigger] all[a]).id@)
                    implies exists|k: int| 0 <= k < out@.len() && (#[trigger] out@[k]).id@ == all[a].id@ by {
                    if a < i {
                        let k = choose|k: int| 0 <= k < before.len() && (#[trigger] before[k]).id@ == all[a].id@;
                        assert(out@[k] == before[k]);
                    } else {
                        assert(out@[before.len() as int] == c);
                    }
                }
            }
        } else {
            proof {
                assert forall|a: int| 0 <= a < i + 1 && referenced(decision_contract_ids@, (#[trigger] all[a]).id@)
                    implies exists|k: int| 0 <= k < out@.len() && (#[trigger] out@[k]).id@ == all[a].id@ by {
                    if a == i {
                        assert(all[a] == c);
                    }
                }
            }
        }
        i = i + 1;
    }
    out
}

/// The contract store over one database file; each operation opens its own
/// connection, so handles can be shared between threads.
#[derive(Debug, Clone)]
pub struct SqliteContractStore {
    db_path: String,
}

fn sqlite<T>(r: Result<T, rusqlite::Error>) -> (out: Result<T, StoreError>)
    ensures
        r matches Ok(v) ==> out == Ok::<T, StoreError>(v),
        r is Err ==> out matches Err(StoreError::Sqlite(_)),
{
    match r {
        Ok(v) => Ok(v),
        Err(e) => Err(StoreError::Sqlite(e)),
    }
}

/// Decodes every row of (id, status, blocked_by), in order.
pub fn rows_to_contracts(rows: Vec<Vec<SqlCell>>) -> (r: Result<Vec<Contract>, StoreError>)
    ensures
        r is Ok <==> forall|i: int| 0 <= i < rows@.len() ==> row_decodable(#[trigger] rows@[i]@),
        r matches Ok(cs) ==> cs@.len() == rows@.len() && forall|i: int|
            0 <= i < rows@.len() ==> row_holds(#[trigger] rows@[i]@, cs@[i]),
        r matches Err(e) ==> e is InvalidQuery,
{
    let mut out: Vec<Contract> = Vec::new();
    let mut i: usize = 0;
    while i < rows.len()
        invariant
            0 <= i <= rows@.len(),
            out@.len() == i,
            forall|k: int| 0 <= k < i ==> row_decodable(#[trigger] rows@[k]@),
            forall|k: int| 0 <= k < i ==> row_holds(#[trigger] rows@[k]@, out@[k]),
        decreases rows@.len() - i,
    {
        let c = match contract_from_row(&rows[i]) {
            Ok(c) => c,
            Err(e) => {
                return Err(e);
            },
        };
        out.push(c);
        i = i + 1;
    }
    Ok(out)
}

/// The snapshot looked up by id: no row is `None`; otherwise the first row,
/// which must decode and carry that id.
pub fn contract_from_rows(rows: &Vec<Vec<SqlCell>>, id: &str) -> (r: Result<Option<Contract>, StoreError>)
    ensures
        rows@.len() == 0 ==> r == Ok::<Option<Contract>, StoreError>(None),
        rows@.len() > 0 ==> (r is Ok <==> row_decodable(rows@[0]@) && cell_text(rows@[0]@[0]) == Some(id@)),
        rows@.len() > 0 ==> (r matches Ok(Some(c)) <==> r is Ok),
        r matches Ok(Some(c)) ==> c.id@ == id@ && row_holds(rows@[0]@, c),
        r matches Err(e) ==> e is InvalidQuery,
{
    if rows.len() == 0 {
        return Ok(None);
    }
    let c = contract_from_row(&rows[0])?;
    if !str_equal(c.id.as_str(), id) {
        return Err(StoreError::InvalidQuery);
    }
    Ok(Some(c))
}

/// `e` is what a row of (contract_id, from_status, to_status) holds.
pub open spec fn row_is_event(row: Seq<SqlCell>, e: ContractEvent) -> bool {
    &&& row.len() == 3
    &&& cell_text(row[0]) == Some(e.contract_id@)
    &&& cell_text(row[1]) == Some(status_name(e.from))
    &&& cell_text(row[2]) == Some(status_name(e.to))
}

/// Decodes the event rows of contract `id`; a row of another contract or of
/// another shape is an invalid query.
pub fn events_from_rows(rows: &Vec<Vec<SqlCell>>, id: &str) -> (r: Result<Vec<ContractEvent>, StoreError>)
    ensures
        r matches Ok(events) ==> events@.len() == rows@.len() && forall|i: int|
            0 <= i < rows@.len() ==> row_is_event(#[trigger] rows@[i]@, events@[i])
                && events@[i].contract_id@ == id@,
        r is Err ==> exists|i: int| 0 <= i < rows@.len() && !(#[trigger] rows@[i]@.len() == 3
            && cell_text(rows@[i]@[0]) == Some(id@)
            && (exists|s: ContractStatus| Some(status_name(s)) == cell_text(rows@[i]@[1]))
            && (exists|s: ContractStatus| Some(status_name(s)) == cell_text(rows@[i]@[2]))),
        r matches Err(e) ==> e is InvalidQuery,
{
    let mut out: Vec<ContractEvent> = Vec::new();
    let mut i: usize = 0;
    while i < rows.len()
        invariant
            0 <= i <= rows@.len(),
            out@.len() == i,
            forall|k: int| 0 <= k < i ==> row_is_event(#[trigger] rows@[k]@, out@[k]) && out@[k].contract_id@ == id@,
        decreases rows@.len() - i,
    {
        let row = &rows[i];
        if row.len() != 3 {
            return Err(StoreError::InvalidQuery);
        }
        let contract_id = match text_of(&row[0]) {
            Some(t) => {
                if !str_equal(t, id) {
                    return Err(StoreError::InvalidQuery);
                }
                String::from_str(t)
            },
            None => {
                return Err(StoreError::InvalidQuery);
            },
        };
        let from = match status_cell(&row[1]) {
            Ok(s) => s,
            Err(e) => {
                return Err(e);
            },
        };
        let to = match status_cell(&row[2]) {
            Ok(s) => s,
            Err(e) => {
                return Err(e);
            },
        };
        out.push(ContractEvent { contract_id, from, to });
        i = i + 1;
    }
    Ok(out)
}

/// An event-log row of (from_status, to_status, blocked_by_snapshot) as
/// replay reads it.
pub open spec fn row_is_replay_entry(row: Seq<SqlCell>, e: EventRow) -> bool {
    &&& row.len() == 3
    &&& cell_text(row[0]) == Some(status_name(e.from))
    &&& cell_text(row[1]) == Some(status_name(e.to))
    &&& cell_text(row[2]) is Some
    &&& ids_from_json(cell_text(row[2])->Some_0) == Some(e.blocked_by.deep_view())
}

/// An event-log row that replay can read: two known status names and a
/// JSON list of ids.
pub open spec fn replay_row_decodable(row: Seq<SqlCell>) -> bool {
    &&& row.len() == 3
    &&& exists|s: ContractStatus| Some(status_name(s)) == cell_text(row[0])
    &&& exists|s: ContractStatus| Some(status_name(s)) == cell_text(row[1])
    &&& cell_text(row[2]) is Some
    &&& ids_from_json(cell_text(row[2])->Some_0) is Some
}

/// Decodes the rows that replay reads.
pub fn replay_entries_from_rows(rows: &Vec<Vec<SqlCell>>) -> (r: Result<Vec<EventRow>, StoreError>)
    ensures
        r is Ok <==> forall|i: int| 0 <= i < rows@.len() ==> replay_row_decodable(#[trigger] rows@[i]@),
        r matches Ok(entries) ==> entries@.len() == rows@.len() && forall|i: int|
            0 <= i < rows@.len() ==> row_is_replay_entry(#[trigger] rows@[i]@, entries@[i]),
        r matches Err(e) ==> e is InvalidQuery,
{
    let mut out: Vec<EventRow> = Vec::new();
    let mut i: usize = 0;
    while i < rows.len()
        invariant
            0 <= i <= rows@.len(),
            out@.len() == i,
            forall|k: int| 0 <= k < i ==> row_is_replay_entry(#[trigger] rows@[k]@, out@[k]),
            forall|k: int| 0 <= k < i ==> replay_row_decodable(#[trigger] rows@[k]@),
        decreases rows@.len() - i,
    {
        let row = &rows[i];
        if row.len() != 3 {
            return Err(StoreError::InvalidQuery);
        }
        let from = status_cell(&row[0])?;
        let to = status_cell(&row[1])?;
        let blocked_by = match text_of(&row[2]) {
            Some(t) => match decode_ids(t) {
                Some(ids) => ids,
                None => {
                    return Err(StoreError::InvalidQuery);
                },
            },
            None => {
                return Err(StoreError::InvalidQuery);
            },
        };
        out.push(EventRow { from, to, blocked_by });
        i = i + 1;
    }
    Ok(out)
}

/// A decision row of (id, contract_id, summary).
pub fn decision_from_row(row: &Vec<SqlCell>) -> (r: Result<DecisionItem, StoreError>)
    ensures
        r matches Ok(d) ==> row@.len() == 3 && row@[0] == SqlCell::Integer(d.id) && cell_text(row@[1])
            == Some(d.contract_id@) && cell_text(row@[2]) == Some(d.summary@),
        r is Err ==> !(row@.len() == 3 && row@[0] is Integer && cell_text(row@[1]) is Some
            && cell_text(row@[2]) is Some),
        r matches Err(e) ==> e is InvalidQuery,
{
    if row.len() != 3 {
        return Err(StoreError::InvalidQuery);
    }
    let id = match integer_of(&row[0]) {
        Some(v) => v,
        None => {
            return Err(StoreError::InvalidQuery);
        },
    };
    let contract_id = match text_of(&row[1]) {
        Some(t) => String::from_str(t),
        None => {
            return Err(StoreError::InvalidQuery);
        },
    };
    let summary = match text_of(&row[2]) {
        Some(t) => String::from_str(t),
        None => {
            return Err(StoreError::InvalidQuery);
        },
    };
    Ok(DecisionItem { id, contract_id, summary })
}

/// A decision row that decodes: an integer id and two text cells.
pub open spec fn decision_row_decodable(row: Seq<SqlCell>) -> bool {
    row.len() == 3 && row[0] is Integer && cell_text(row[1]) is Some && cell_text(row[2]) is Some
}

/// `d` is what a decision row holds.
pub open spec fn decision_row_holds(row: Seq<SqlCell>, d: DecisionItem) -> bool {
    row.len() == 3 && row[0] == SqlCell::Integer(d.id) && cell_text(row[1]) == Some(d.contract_id@)
        && cell_text(row[2]) == Some(d.summary@)
}

/// Decodes every decision row, in order.
pub fn decisions_from_rows(rows: &Vec<Vec<SqlCell>>) -> (r: Result<Vec<DecisionItem>, StoreError>)
    ensures
        r is Ok <==> forall|i: int| 0 <= i < rows@.len() ==> decision_row_decodable(#[trigger] rows@[i]@),
        r matches Ok(ds) ==> ds@.len() == rows@.len() && forall|i: int|
            0 <= i < rows@.len() ==> decision_row_holds(#[trigger] rows@[i]@, ds@[i]),
        r matches Err(e) ==> e is InvalidQuery,
{
    let mut out: Vec<DecisionItem> = Vec::new();
    let mut i: usize = 0;
    while i < rows.len()
        invariant
            0 <= i <= rows@.len(),
            out@.len() == i,
            forall|k: int| 0 <= k < i ==> decision_row_decodable(#[trigger] rows@[k]@),
            forall|k: int| 0 <= k < i ==> decision_row_holds(#[trigger] rows@[k]@, out@[k]),
        decreases rows@.len() - i,
    {
        let d = match decision_from_row(&rows[i]) {
            Ok(d) => d,
            Err(e) => {
                return Err(e);
            },
        };
        out.push(d);
        i = i + 1;
    }
    Ok(out)
}

/// The schema version read from its row: one row with one integer cell.
pub fn version_from_rows(rows: &Vec<Vec<SqlCell>>) -> (r: Result<i64, StoreError>)
    ensures
        (rows@.len() > 0 && rows@[0]@.len() == 1 && rows@[0]@[0] is Integer) ==> r == Ok::<i64, StoreError>(
            rows@[0]@[0]->Integer_0,
        ),
        !(rows@.len() > 0 && rows@[0]@.len() == 1 && rows@[0]@[0] is Integer) ==> r matches Err(StoreError::InvalidQuery),
{
    if rows.len() == 0 || rows[0].len() != 1 {
        return Err(StoreError::InvalidQuery);
    }
    match integer_of(&rows[0][0]) {
        Some(v) => Ok(v),
        None => Err(StoreError::InvalidQuery),
    }
}

/// Whether the column count query found the `blocked_by_snapshot` column:
/// one row with one integer cell that is not 0.
pub fn has_snapshot_column(rows: &Vec<Vec<SqlCell>>) -> (r: bool)
    ensures
        r == (rows@.len() == 1 && rows@[0]@.len() == 1 && rows@[0]@[0] is Integer
            && rows@[0]@[0]->Integer_0 != 0),
{
    rows.len() == 1 && rows[0].len() == 1 && match integer_of(&rows[0][0]) {
        Some(n) => n != 0,
        None => false,
    }
}

/// Whether a stored schema version is older than the one this store writes.
pub fn needs_version_update(version: i64) -> (r: bool)
    ensures
        r == (version < CURRENT_SCHEMA_VERSION),
{
    version < CURRENT_SCHEMA_VERSION
}

/// The parameters of a snapshot write: id, status name, JSON of `blocked_by`.
pub fn snapshot_params(contract: &Contract) -> (r: Result<Vec<String>, StoreError>)
    ensures
        r is Ok,
        r matches Ok(p) ==> p@.len() == 3 && p@[0]@ == contract.id@ && p@[1]@ == status_name(contract.status)
            && p@[2]@ == ids_json(contract.blocked_by.deep_view())
            && ids_from_json(p@[2]@) == Some(contract.blocked_by.deep_view()),
        r matches Err(e) ==> e is Encoding,
{
    let blocked_by = match encode_ids(&contract.blocked_by) {
        Some(text) => text,
        None => {
            return Err(StoreError::Encoding);
        },
    };
    let mut params: Vec<String> = Vec::new();
    params.push(contract.id.clone());
    params.push(String::from_str(contract.status.as_db_str()));
    params.push(blocked_by);
    Ok(params)
}

/// The parameters of a transition: for the snapshot update (status,
/// blocked_by JSON, id) and for the event insert (contract id, from, to,
/// blocked_by JSON).
pub fn transition_params(contract: &Contract, event: &ContractEvent) -> (r: Result<(Vec<String>, Vec<String>), StoreError>)
    ensures
        r is Ok,
        r matches Ok(p) ==> p.0@.len() == 3 && p.0@[0]@ == status_name(contract.status)
            && p.0@[1]@ == ids_json(contract.blocked_by.deep_view()) && p.0@[2]@ == contract.id@
            && p.1@.len() == 4 && p.1@[0]@ == event.contract_id@ && p.1@[1]@ == status_name(event.from)
            && p.1@[2]@ == status_name(event.to) && p.1@[3]@ == ids_json(contract.blocked_by.deep_view()),
        r matches Err(e) ==> e is Encoding,
{
    let blocked_by = match encode_ids(&contract.blocked_by) {
        Some(text) => text,
        None => {
            return Err(StoreError::Encoding);
        },
    };
    let mut update: Vec<String> = Vec::new();
    update.push(String::from_str(contract.status.as_db_str()));
    update.push(blocked_by.clone());
    update.push(contract.id.clone());
    let mut insert: Vec<String> = Vec::new();
    insert.push(event.contract_id.clone());
    insert.push(String::from_str(event.from.as_db_str()));
    insert.push(String::from_str(event.to.as_db_str()));
    insert.push(blocked_by);
    Ok((update, insert))
}

/// What the snapshot update's row count means: none updated is `NoRows`.
pub fn update_outcome(updated: usize) -> (r: Result<(), StoreError>)
    ensures
        updated == 0 ==> r matches Err(StoreError::NoRows),
        updated != 0 ==> r is Ok,
{
    if updated == 0 {
        Err(StoreError::NoRows)
    } else {
        Ok(())
    }
}

fn status_cell(cell: &SqlCell) -> (r: Result<ContractStatus, StoreError>)
    ensures
        r matches Ok(s) ==> cell_text(*cell) == Some(status_name(s)),
        r is Err ==> !(exists|s: ContractStatus| Some(status_name(s)) == cell_text(*cell)),
        r matches Err(e) ==> e is InvalidQuery,
{
    match text_of(cell) {
        Some(t) => match ContractStatus::from_db_str(t) {
            Some(s) => Ok(s),
            None => Err(StoreError::InvalidQuery),
        },
        None => Err(StoreError::InvalidQuery),
    }
}

/// The store's own failures: the database, or rows it cannot read.
pub open spec fn database_or_shape_error(r: Result<(), StoreError>) -> bool {
    r matches Err(e) ==> (e is Sqlite || e is InvalidQuery)
}

impl SqliteContractStore {
    fn connection(&self) -> (r: Result<rusqlite::Connection, StoreError>)
        ensures
            r matches Err(e) ==> e is Sqlite,
    {
        let conn = sqlite(open_connection(self.db_path.as_str()))?;
        sqlite(set_busy_timeout(&conn, 5))?;
        sqlite(set_pragma(&conn, "foreign_keys", "ON"))?;
        Ok(conn)
    }

    /// Opens the store at `db_path`, creating and upgrading the schema.
    pub fn open(db_path: &str) -> (r: Result<SqliteContractStore, StoreError>)
        ensures
            r matches Ok(store) ==> store.path() == db_path@,
            r matches Err(e) ==> (e is Sqlite || e is InvalidQuery),
    {
        let store = SqliteContractStore { db_path: String::from_str(db_path) };
        let conn = store.connection()?;
        store.bootstrap_schema(&conn)?;
        Ok(store)
    }

    /// The database file this store reads and writes.
    pub closed spec fn path(&self) -> Seq<char> {
        self.db_path@
    }

    fn read_schema_version(conn: &rusqlite::Connection) -> (r: Result<i64, StoreError>)
        ensures
            r matches Err(e) ==> (e is Sqlite || e is InvalidQuery),
    {
        let rows = sqlite(
            query_rows(conn, "SELECT value FROM schema_meta WHERE key = 'schema_version'", &Vec::new()),
        )?;
        version_from_rows(&rows)
    }

    /// Creates the tables when missing, records the schema version, adds the
    /// `blocked_by_snapshot` column to older logs and raises an older version.
    fn bootstrap_schema(&self, conn: &rusqlite::Connection) -> (r: Result<(), StoreError>)
        ensures
            database_or_shape_error(r),
    {
        sqlite(
            execute_batch(
                conn,
                "CREATE TABLE IF NOT EXISTS schema_meta (
                key TEXT PRIMARY KEY,
                value INTEGER NOT NULL
            );

            CREATE TABLE IF NOT EXISTS contracts (
                id TEXT PRIMARY KEY,
                status TEXT NOT NULL,
                blocked_by TEXT NOT NULL
            );

            CREATE TABLE IF NOT EXISTS contract_events (
                id INTEGER PRIMARY KEY AUTOINCREMENT,
                contract_id TEXT NOT NULL,
                from_status TEXT NOT NULL,
                to_status TEXT NOT NULL,
                blocked_by_snapshot TEXT NOT NULL DEFAULT '[]',
                created_at TEXT NOT NULL DEFAULT CURRENT_TIMESTAMP,
                FOREIGN KEY(contract_id) REFERENCES contracts(id)
            );

            CREATE TABLE IF NOT EXISTS decision_items (
                id INTEGER PRIMARY KEY AUTOINCREMENT,
                contract_id TEXT NOT NULL,
                summary TEXT NOT NULL,
                resolved INTEGER NOT NULL DEFAULT 0,
                created_at TEXT NOT NULL DEFAULT CURRENT_TIMESTAMP,
                FOREIGN KEY(contract_id) REFERENCES contracts(id)
            );",
            ),
        )?;
        sqlite(
            execute(
                conn,
                "INSERT OR IGNORE INTO schema_meta (key, value) VALUES ('schema_version', 2)",
                &Vec::new(),
            ),
        )?;
        let columns = sqlite(
            query_rows(
                conn,
                "SELECT COUNT(*) FROM pragma_table_info('contract_events') WHERE name = 'blocked_by_snapshot'",
                &Vec::new(),
            ),
        )?;
        if !has_snapshot_column(&columns) {
            sqlite(
                execute(
                    conn,
                    "ALTER TABLE contract_events ADD COLUMN blocked_by_snapshot TEXT NOT NULL DEFAULT '[]'",
                    &Vec::new(),
                ),
            )?;
        }
        let version = Self::read_schema_version(conn)?;
        if needs_version_update(version) {
            sqlite(
                execute(
                    conn,
                    "UPDATE schema_meta SET value = 2 WHERE key = 'schema_version'",
                    &Vec::new(),
                ),
            )?;
        }
        Ok(())
    }

    pub fn schema_version(&self) -> (r: Result<i64, StoreError>)
        ensures
            r matches Err(e) ==> (e is Sqlite || e is InvalidQuery),
    {
        let conn = self.connection()?;
        Self::read_schema_version(&conn)
    }

    /// Inserts or replaces the snapshot of a contract, written with the
    /// parameters of `snapshot_params`.
    pub fn save_contract(&self, contract: &Contract) -> (r: Result<(), StoreError>)
        ensures
            r matches Err(e) ==> (e is Sqlite || e is Encoding),
    {
        let conn = self.connection()?;
        let params = snapshot_params(contract)?;
        sqlite(
            execute(
                &conn,
                "INSERT INTO contracts (id, status, blocked_by)
             VALUES (?1, ?2, ?3)
             ON CONFLICT(id) DO UPDATE SET
                status = excluded.status,
                blocked_by = excluded.blocked_by",
                &params,
            ),
        )?;
        Ok(())
    }

    /// The snapshot of contract `id`, if one was saved, as `contract_from_rows`
    /// decodes it.
    pub fn load_contract(&self, id: &str) -> (r: Result<Option<Contract>, StoreError>)
        ensures
            r matches Ok(Some(c)) ==> c.id@ == id@,
            r matches Err(e) ==> (e is Sqlite || e is InvalidQuery),
    {
        let conn = self.connection()?;
        let rows = sqlite(
            query_rows(&conn, "SELECT id, status, blocked_by FROM contracts WHERE id = ?1", &text_params1(id)),
        )?;
        contract_from_rows(&rows, id)
    }

    /// Every snapshot, by ascending id, each decoded from its row.
    pub fn list_contracts(&self) -> (r: Result<Vec<Contract>, StoreError>)
        ensures
            r matches Err(e) ==> (e is Sqlite || e is InvalidQuery),
    {
        let conn = self.connection()?;
        let rows = sqlite(
            query_rows(&conn, "SELECT id, status, blocked_by FROM contracts ORDER BY id ASC", &Vec::new()),
        )?;
        rows_to_contracts(rows)
    }

    /// Updates the snapshot and appends the event in one transaction. A
    /// contract and an event of different ids are refused before the database
    /// is touched, and only they give `InvalidQuery`.
    pub fn record_transition(&self, contract: &Contract, event: &ContractEvent) -> (r: Result<
        (),
        StoreError,
    >)
        ensures
            contract.id@ != event.contract_id@ <==> r matches Err(StoreError::InvalidQuery),
            r matches Err(e) ==> (e is Sqlite || e is InvalidQuery || e is NoRows || e is Encoding),
    {
        if !str_equal(contract.id.as_str(), event.contract_id.as_str()) {
            return Err(StoreError::InvalidQuery);
        }
        let conn = self.connection()?;
        let (update, insert) = transition_params(contract, event)?;
        sqlite(execute_batch(&conn, "BEGIN"))?;
        let updated = match execute(&conn, "UPDATE contracts SET status = ?1, blocked_by = ?2 WHERE id = ?3", &update) {
            Ok(n) => n,
            Err(e) => {
                let _ = execute_batch(&conn, "ROLLBACK");
                return Err(StoreError::Sqlite(e));
            },
        };
        if let Err(e) = update_outcome(updated) {
            let _ = execute_batch(&conn, "ROLLBACK");
            return Err(e);
        }
        if let Err(e) = execute(
            &conn,
            "INSERT INTO contract_events (contract_id, from_status, to_status, blocked_by_snapshot)
             VALUES (?1, ?2, ?3, ?4)",
            &insert,
        ) {
            let _ = execute_batch(&conn, "ROLLBACK");
            return Err(StoreError::Sqlite(e));
        }
        match execute_batch(&conn, "COMMIT") {
            Ok(()) => Ok(()),
            Err(e) => {
                let _ = execute_batch(&conn, "ROLLBACK");
                Err(StoreError::Sqlite(e))
            },
        }
    }

    /// The event log of a contract, oldest first, as `events_from_rows`
    /// decodes it.
    pub fn list_events(&self, contract_id: &str) -> (r: Result<Vec<ContractEvent>, StoreError>)
        ensures
            r matches Ok(events) ==> forall|i: int|
                0 <= i < events@.len() ==> (#[trigger] events@[i]).contract_id@ == contract_id@,
            r matches Err(e) ==> (e is Sqlite || e is InvalidQuery),
    {
        let conn = self.connection()?;
        let rows = sqlite(
            query_rows(
                &conn,
                "SELECT contract_id, from_status, to_status
             FROM contract_events
             WHERE contract_id = ?1
             ORDER BY id ASC",
                &text_params1(contract_id),
            ),
        )?;
        let r = events_from_rows(&rows, contract_id);
        proof {
            if r is Ok {
                let events = r->Ok_0;
                assert forall|i: int| 0 <= i < events@.len() implies (#[trigger] events@[i]).contract_id@
                    == contract_id@ by {
                    assert(row_is_event(rows@[i]@, events@[i]));
                }
            }
        }
        r
    }

    /// Rebuilds a contract by replaying its event log over the snapshot
    /// (`replay_events` of what was read); with no events the snapshot stands.
    pub fn rebuild_contract_from_events(&self, id: &str) -> (r: Result<Option<Contract>, StoreError>)
        ensures
            r matches Ok(Some(c)) ==> c.id@ == id@,
            r matches Err(e) ==> (e is Sqlite || e is InvalidQuery),
    {
        let snapshot = self.load_contract(id)?;
        let conn = self.connection()?;
        let rows = sqlite(
            query_rows(
                &conn,
                "SELECT from_status, to_status, blocked_by_snapshot
             FROM contract_events
             WHERE contract_id = ?1
             ORDER BY id ASC",
                &text_params1(id),
            ),
        )?;
        let events = replay_entries_from_rows(&rows)?;
        Ok(replay_events(id, snapshot, events))
    }

    /// Records an open decision about a contract and returns its row id.
    pub fn create_decision(&self, contract_id: &str, summary: &str) -> (r: Result<i64, StoreError>)
        ensures
            r matches Err(e) ==> e is Sqlite,
    {
        let conn = self.connection()?;
        let mut params: Vec<String> = Vec::new();
        params.push(String::from_str(contract_id));
        params.push(String::from_str(summary));
        sqlite(
            execute(
                &conn,
                "INSERT INTO decision_items (contract_id, summary, resolved)
             VALUES (?1, ?2, 0)",
                &params,
            ),
        )?;
        Ok(last_insert_rowid(&conn))
    }

    /// The unresolved decisions, oldest first, each decoded by
    /// `decision_from_row`.
    pub fn list_open_decisions(&self) -> (r: Result<Vec<DecisionItem>, StoreError>)
        ensures
            r matches Err(e) ==> (e is Sqlite || e is InvalidQuery),
    {
        let conn = self.connection()?;
        let rows = sqlite(
            query_rows(
                &conn,
                "SELECT id, contract_id, summary
             FROM decision_items
             WHERE resolved = 0
             ORDER BY id ASC",
                &Vec::new(),
            ),
        )?;
        decisions_from_rows(&rows)
    }

    pub fn list_anomalies(&self) -> (r: Result<Vec<Contract>, StoreError>)
        ensures
            r matches Ok(cs) ==> forall|i: int| 0 <= i < cs@.len() ==> in_tier(AttentionTier::Anomaly, (#[trigger] cs@[i]).status),
    {
        self.list_by_attention_tier(AttentionTier::Anomaly)
    }

    /// The contracts of one attention tier, by ascending id. NeedsDecision
    /// holds each contract with an open decision once, however many
    /// decisions refer to it.
    pub fn list_by_attention_tier(&self, tier: AttentionTier) -> (r: Result<Vec<Contract>, StoreError>)
        ensures
            tier != AttentionTier::NeedsDecision ==> (r matches Ok(cs) ==> forall|i: int| 0 <= i < cs@.len() ==> in_tier(tier, (#[trigger] cs@[i]).status)),
            tier == AttentionTier::NeedsDecision ==> (r matches Ok(cs) ==> distinct_ids(cs@)),
    {
        let contracts = self.list_contracts()?;
        match tier {
            AttentionTier::NeedsDecision => {
                let decisions = self.list_open_decisions()?;
                let mut ids: Vec<String> = Vec::new();
                let mut i: usize = 0;
                while i < decisions.len()
                    invariant
                        0 <= i <= decisions@.len(),
                        ids@.len() == i,
                        forall|k: int| 0 <= k < i ==> (#[trigger] ids@[k])@ == decisions@[k].contract_id@,
                    decreases decisions@.len() - i,
                {
                    ids.push(decisions[i].contract_id.clone());
                    i = i + 1;
                }
                Ok(select_needing_decision(contracts, &ids))
            },
            _ => {
                let selected = select_by_status(contracts, tier);
                proof {
                    assert forall|i: int| 0 <= i < selected@.len() implies in_tier(tier, (#[trigger] selected@[i]).status) by {
                        assert(selected@.contains(selected@[i]));
                    }
                }
                Ok(selected)
            },
        }
    }
}

/// What a successful transition tells about its two ends and its event.
pub open spec fn step_facts(
    before: Contract,
    after: Contract,
    target: ContractStatus,
    r: Result<ContractEvent, TransitionError>,
) -> bool {
    &&& r is Ok
    &&& allowed_edge(before.status, target)
    &&& after.status == target
    &&& after.blocked_by == before.blocked_by
    &&& r->Ok_0.from == before.status
    &&& r->Ok_0.to == target
}

pub proof fn lemma_successful_step(
    before: Contract,
    after: Contract,
    target: ContractStatus,
    r: Result<ContractEvent, TransitionError>,
)
    requires
        transition_outcome(before, after, target, r),
        r is Ok,
    ensures
        step_facts(before, after, target, r),
{
}

/// Replaying the log that a run of successful transitions leaves behind
/// reconstructs the contract's status and `blocked_by`: each entry records
/// the transition's ends and the contract's `blocked_by` after it, the
/// entries chain from the first status, and the last one ends where the
/// contract stands.
#[verifier::spinoff_prover]
pub proof fn lemma_replay_reconstructs(
    states: Seq<Contract>,
    targets: Seq<ContractStatus>,
    results: Seq<Result<ContractEvent, TransitionError>>,
    log: Seq<EventRow>,
)
    requires
        states.len() == targets.len() + 1,
        results.len() == targets.len(),
        log.len() == targets.len(),
        forall|i: int|
            0 <= i < targets.len() ==> transition_outcome(
                states[i],
                states[i + 1],
                targets[i],
                #[trigger] results[i],
            ) && results[i] is Ok,
        forall|i: int|
            0 <= i < log.len() ==> (#[trigger] log[i]).from == results[i]->Ok_0.from && log[i].to
                == results[i]->Ok_0.to && log[i].blocked_by == states[i + 1].blocked_by,
    ensures
        log.len() > 0 ==> log[0].from == states[0].status,
        forall|i: int| 0 <= i < log.len() - 1 ==> (#[trigger] log[i]).to == log[i + 1].from,
        log.len() > 0 ==> log.last().to == states.last().status && log.last().blocked_by
            == states.last().blocked_by,
        forall|i: int| 0 <= i < log.len() ==> allowed_edge((#[trigger] log[i]).from, log[i].to),
{
    assert forall|i: int| 0 <= i < targets.len() implies step_facts(states[i], states[i + 1], targets[i], #[trigger] results[i]) by {
        lemma_successful_step(states[i], states[i + 1], targets[i], results[i]);
    }
    if log.len() > 0 {
        assert(step_facts(states[0], states[1], targets[0], results[0]));
        let n = log.len() - 1;
        assert(step_facts(states[n], states[n + 1], targets[n], results[n]));
    }
    assert forall|i: int| 0 <= i < log.len() - 1 implies (#[trigger] log[i]).to == log[i + 1].from by {
        assert(step_facts(states[i], states[i + 1], targets[i], results[i]));
        assert(step_facts(states[i + 1], states[i + 2], targets[i + 1], results[i + 1]));
    }
    assert forall|i: int| 0 <= i < log.len() implies allowed_edge((#[trigger] log[i]).from, log[i].to) by {
        assert(step_facts(states[i], states[i + 1], targets[i], results[i]));
    }
}

} // verus!
