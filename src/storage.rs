//! Rows, upserts and the relational store they are written to.
//!
//! Every write is an upsert-by-replace: a row whose conflict key is already
//! present replaces the old row whole. The conflict key of a row is set by the
//! store's schema, so the laws below hold for every choice of it.
use vstd::prelude::*;
use vstd::string::StringExecFns;

verus! {

/// A value bound to one `?` of a statement.
#[derive(Debug)]
pub enum SqlValue {
    Null,
    Integer(i64),
    Text(String),
}

/// What a [`SqlValue`] holds.
pub enum SqlVal {
    Null,
    Integer(int),
    Text(Seq<char>),
}

impl View for SqlValue {
    type V = SqlVal;

    open spec fn view(&self) -> SqlVal {
        match self {
            SqlValue::Null => SqlVal::Null,
            SqlValue::Integer(i) => SqlVal::Integer(*i as int),
            SqlValue::Text(s) => SqlVal::Text(s@),
        }
    }
}

pub open spec fn sql_views(v: Seq<SqlValue>) -> Seq<SqlVal> {
    v.map_values(|x: SqlValue| x@)
}

pub open spec fn int_val(v: i64) -> SqlVal {
    SqlVal::Integer(v as int)
}

pub open spec fn opt_int_val(v: Option<i64>) -> SqlVal {
    match v {
        Some(i) => SqlVal::Integer(i as int),
        None => SqlVal::Null,
    }
}

pub open spec fn text_val(s: String) -> SqlVal {
    SqlVal::Text(s@)
}

pub open spec fn opt_text_val(s: Option<String>) -> SqlVal {
    match s {
        Some(t) => SqlVal::Text(t@),
        None => SqlVal::Null,
    }
}

/// A boolean is stored as the integer 1 or 0.
pub open spec fn opt_bool_val(b: Option<bool>) -> SqlVal {
    match b {
        Some(true) => SqlVal::Integer(1),
        Some(false) => SqlVal::Integer(0),
        None => SqlVal::Null,
    }
}

/// `parts` joined, with `sep` between each two.
pub open spec fn joined_with(parts: Seq<Seq<char>>, sep: Seq<char>) -> Seq<char>
    decreases parts.len(),
{
    if parts.len() == 0 {
        Seq::empty()
    } else if parts.len() == 1 {
        parts[0]
    } else {
        joined_with(parts.drop_last(), sep) + sep + parts.last()
    }
}

pub open spec fn string_views(v: Seq<String>) -> Seq<Seq<char>> {
    v.map_values(|s: String| s@)
}

/// A list of languages is stored as one text, the names joined by `, `.
pub open spec fn langs_val(langs: Option<Vec<String>>) -> SqlVal {
    match langs {
        Some(l) => SqlVal::Text(joined_with(string_views(l@), ", "@)),
        None => SqlVal::Null,
    }
}

pub fn int_value(v: i64) -> (r: SqlValue)
    ensures
        r@ == int_val(v),
{
    SqlValue::Integer(v)
}

pub fn opt_int_value(v: Option<i64>) -> (r: SqlValue)
    ensures
        r@ == opt_int_val(v),
{
    match v {
        Some(i) => SqlValue::Integer(i),
        None => SqlValue::Null,
    }
}

pub fn text_value(s: &String) -> (r: SqlValue)
    ensures
        r@ == text_val(*s),
{
    SqlValue::Text(s.clone())
}

pub fn opt_text_value(s: &Option<String>) -> (r: SqlValue)
    ensures
        r@ == opt_text_val(*s),
{
    match s {
        Some(t) => SqlValue::Text(t.clone()),
        None => SqlValue::Null,
    }
}

pub fn opt_bool_value(b: Option<bool>) -> (r: SqlValue)
    ensures
        r@ == opt_bool_val(b),
{
    match b {
        Some(true) => SqlValue::Integer(1),
        Some(false) => SqlValue::Integer(0),
        None => SqlValue::Null,
    }
}

/// `parts` joined with `sep` between each two.
pub fn join_strings(parts: &Vec<String>, sep: &str) -> (r: String)
    ensures
        r@ == joined_with(string_views(parts@), sep@),
{
    let mut out = String::from_str("");
    let mut i: usize = 0;
    proof {
        reveal_strlit("");
        assert(string_views(parts@.subrange(0, 0)) =~= Seq::<Seq<char>>::empty());
    }
    while i < parts.len()
        invariant
            i <= parts@.len(),
            out@ == joined_with(string_views(parts@.subrange(0, i as int)), sep@),
        decreases parts@.len() - i,
    {
        proof {
            assert(string_views(parts@.subrange(0, i + 1)).drop_last() =~= string_views(
                parts@.subrange(0, i as int),
            ));
        }
        if i > 0 {
            out.append(sep);
        }
        out.append(parts[i].as_str());
        i = i + 1;
        proof {
            assert(out@ =~= joined_with(string_views(parts@.subrange(0, i as int)), sep@));
        }
    }
    proof {
        assert(parts@.subrange(0, parts@.len() as int) =~= parts@);
    }
    out
}

pub fn langs_value(langs: &Option<Vec<String>>) -> (r: SqlValue)
    ensures
        r@ == langs_val(*langs),
{
    match langs {
        Some(l) => {
            let joined = join_strings(l, ", ");
            SqlValue::Text(joined)
        },
        None => SqlValue::Null,
    }
}

/// One insert-or-replace of one row into one table.
#[derive(Debug)]
pub struct Upsert {
    pub table: String,
    /// The column list, as it stands between the parentheses of the statement.
    pub columns: String,
    /// One value per column, in column order.
    pub values: Vec<SqlValue>,
}

pub struct UpsertView {
    pub table: Seq<char>,
    pub columns: Seq<char>,
    pub values: Seq<SqlVal>,
}

impl View for Upsert {
    type V = UpsertView;

    open spec fn view(&self) -> UpsertView {
        UpsertView { table: self.table@, columns: self.columns@, values: sql_views(self.values@) }
    }
}

pub open spec fn upsert_views(v: Seq<Upsert>) -> Seq<UpsertView> {
    v.map_values(|u: Upsert| u@)
}

/// `n` placeholders, `?, ?, ..., ?`.
pub open spec fn placeholders(n: nat) -> Seq<char>
    decreases n,
{
    if n == 0 {
        Seq::empty()
    } else if n == 1 {
        seq!['?']
    } else {
        placeholders((n - 1) as nat) + ", ?"@
    }
}

/// The statement text of an upsert.
pub open spec fn upsert_sql(u: UpsertView) -> Seq<char> {
    "INSERT OR REPLACE INTO "@ + u.table + " ("@ + u.columns + ") VALUES ("@ + placeholders(
        u.values.len(),
    ) + ")"@
}

impl Upsert {
    /// `INSERT OR REPLACE INTO <table> (<columns>) VALUES (?, ...)`, one `?`
    /// for each value.
    pub fn sql(&self) -> (r: String)
        ensures
            r@ == upsert_sql(self@),
    {
        let mut s = String::from_str("INSERT OR REPLACE INTO ");
        s.append(self.table.as_str());
        s.append(" (");
        s.append(self.columns.as_str());
        s.append(") VALUES (");
        let n: usize = self.values.len();
        let mut i: usize = 0;
        let ghost head = s@;
        proof {
            reveal_strlit("");
        }
        while i < n
            invariant
                i <= n,
                s@ == head + placeholders(i as nat),
            decreases n - i,
        {
            if i == 0 {
                s.append("?");
                proof {
                    reveal_strlit("?");
                    assert(s@ =~= head + placeholders(1));
                }
            } else {
                s.append(", ?");
                proof {
                    assert(s@ =~= head + placeholders((i + 1) as nat));
                }
            }
            i = i + 1;
        }
        s.append(")");
        proof {
            assert(sql_views(self.values@).len() == n);
            assert(s@ =~= upsert_sql(self@));
        }
        s
    }
}

/// The store after the upserts `ops`, in order, each replacing the row of its
/// conflict key `key(op)`.
pub open spec fn apply_upserts<K>(
    store: Map<K, UpsertView>,
    ops: Seq<UpsertView>,
    key: spec_fn(UpsertView) -> K,
) -> Map<K, UpsertView>
    decreases ops.len(),
{
    if ops.len() == 0 {
        store
    } else {
        apply_upserts(store, ops.drop_last(), key).insert(key(ops.last()), ops.last())
    }
}

/// Applying upserts is laying the rows they leave over the old store.
pub proof fn lemma_apply_is_overlay<K>(
    store: Map<K, UpsertView>,
    ops: Seq<UpsertView>,
    key: spec_fn(UpsertView) -> K,
)
    ensures
        apply_upserts(store, ops, key) == store.union_prefer_right(
            apply_upserts(Map::empty(), ops, key),
        ),
    decreases ops.len(),
{
    if ops.len() == 0 {
        assert(store.union_prefer_right(Map::empty()) =~= store);
    } else {
        lemma_apply_is_overlay(store, ops.drop_last(), key);
        assert(apply_upserts(store, ops, key) =~= store.union_prefer_right(
            apply_upserts(Map::empty(), ops, key),
        ));
    }
}

/// Replace semantics make a write idempotent: applying the same upserts a
/// second time leaves the store as the first time left it.
pub proof fn lemma_upserts_idempotent<K>(
    store: Map<K, UpsertView>,
    ops: Seq<UpsertView>,
    key: spec_fn(UpsertView) -> K,
)
    ensures
        apply_upserts(apply_upserts(store, ops, key), ops, key) == apply_upserts(store, ops, key),
{
    let once = apply_upserts(store, ops, key);
    let rows = apply_upserts(Map::empty(), ops, key);
    lemma_apply_is_overlay(store, ops, key);
    lemma_apply_is_overlay(once, ops, key);
    assert(once.union_prefer_right(rows) =~= once);
}

#[verifier::external_type_specification]
#[verifier::external_body]
pub struct ExConnection(rusqlite::Connection);

#[verifier::external_type_specification]
#[verifier::external_body]
pub struct ExSqliteError(rusqlite::Error);

/// A request made of the database, with its answer.
pub enum DbEvent {
    /// One row written by an upsert statement, and the rows changed.
    Write(UpsertView, Result<usize, rusqlite::Error>),
    /// One SQL command without parameters, such as `BEGIN DEFERRED`.
    Command(Seq<char>, Result<(), rusqlite::Error>),
}

/// A database connection, with the record of every request made through it.
pub struct Db {
    /// The connection itself, for reading back; writes go through the
    /// functions of this module, which record them.
    pub connection: rusqlite::Connection,
    /// Every request made through this handle, in order, with its answer.
    pub trace: Ghost<Seq<DbEvent>>,
}

impl Db {
    pub fn new(connection: rusqlite::Connection) -> (r: Db)
        ensures
            r.trace@ == Seq::<DbEvent>::empty(),
    {
        Db { connection, trace: Ghost(Seq::empty()) }
    }

    /// Gives the connection back.
    pub fn into_connection(self) -> rusqlite::Connection {
        self.connection
    }
}

/// Relies on `rusqlite::Connection::execute`: runs the statement `sql` with
/// the upsert's values bound in order, and returns the number of rows it
/// changed or the error. The request and its answer are recorded.
#[verifier::external_body]
fn execute_statement(db: &mut Db, op: &Upsert, sql: &str) -> (r: Result<usize, rusqlite::Error>)
    requires
        sql@ == upsert_sql(op@),
    ensures
        final(db).trace@ == old(db).trace@.push(DbEvent::Write(op@, r)),
{
    let mut bound: Vec<rusqlite::types::Value> = Vec::with_capacity(op.values.len());
    for v in &op.values {
        bound.push(match v {
            SqlValue::Null => rusqlite::types::Value::Null,
            SqlValue::Integer(i) => rusqlite::types::Value::Integer(*i),
            SqlValue::Text(t) => rusqlite::types::Value::Text(t.clone()),
        });
    }
    db.connection.execute(sql, rusqlite::params_from_iter(bound))
}

/// Relies on `rusqlite::Connection::execute_batch`: runs the SQL text
/// `command`, which takes no parameters. The request and its answer are
/// recorded.
#[verifier::external_body]
fn execute_command(db: &mut Db, command: &str) -> (r: Result<(), rusqlite::Error>)
    ensures
        final(db).trace@ == old(db).trace@.push(DbEvent::Command(command@, r)),
{
    db.connection.execute_batch(command)
}

/// Begins a deferred transaction.
pub const BEGIN_SQL: &'static str = "BEGIN DEFERRED";

/// Commits the open transaction.
pub const COMMIT_SQL: &'static str = "COMMIT";

/// Rolls the open transaction back.
pub const ROLLBACK_SQL: &'static str = "ROLLBACK";

/// Runs one of the transaction commands.
pub fn run_command(db: &mut Db, command: &'static str) -> (r: Result<(), rusqlite::Error>)
    ensures
        final(db).trace@ == old(db).trace@.push(DbEvent::Command(command@, r)),
{
    execute_command(db, command)
}

/// The running result after one more answer of the database: the rows
/// changed so far plus the answer's, saturated at `usize::MAX`, or the
/// answer's error.
pub open spec fn written_after(total: usize, w: Result<usize, rusqlite::Error>) -> Result<
    usize,
    rusqlite::Error,
> {
    match w {
        Ok(n) => Ok(
            if total + n > usize::MAX {
                usize::MAX
            } else {
                (total + n) as usize
            },
        ),
        Err(e) => Err(e),
    }
}

/// The result of writes whose answers were `answers`, in order: the first
/// error, or else the saturated sum of the rows changed.
pub open spec fn fold_written(answers: Seq<Result<usize, rusqlite::Error>>) -> Result<
    usize,
    rusqlite::Error,
>
    decreases answers.len(),
{
    if answers.len() == 0 {
        Ok(0)
    } else {
        match fold_written(answers.drop_last()) {
            Ok(t) => written_after(t, answers.last()),
            Err(e) => Err(e),
        }
    }
}

/// `answers` are the database's answers to the first of `n` writes made in
/// order, up to and including the first that failed: every write was made
/// unless one failed, and none after it.
pub open spec fn answers_until_error<T>(answers: Seq<Result<T, rusqlite::Error>>, n: int) -> bool {
    &&& answers.len() <= n
    &&& forall|i: int| 0 <= i < answers.len() - 1 ==> (#[trigger] answers[i]) is Ok
    &&& answers.len() < n ==> answers.len() > 0 && answers.last() is Err
}

/// The database's answers in a write log.
pub open spec fn log_answers(log: Seq<(UpsertView, Result<usize, rusqlite::Error>)>) -> Seq<
    Result<usize, rusqlite::Error>,
> {
    log.map_values(|e: (UpsertView, Result<usize, rusqlite::Error>)| e.1)
}

/// The rows handed to the database in a write log.
pub open spec fn log_writes(log: Seq<(UpsertView, Result<usize, rusqlite::Error>)>) -> Seq<
    UpsertView,
> {
    log.map_values(|e: (UpsertView, Result<usize, rusqlite::Error>)| e.0)
}

/// Writing the rows `ops` in order, stopping at the first failure, gives `r`,
/// where `log` pairs each row handed to the database with its answer: the
/// rows handed are the first of `ops`, in order; every row was handed unless
/// one failed, and none after it; and `r` is the first error, or else the
/// rows changed, summed.
pub open spec fn writes_give(
    log: Seq<(UpsertView, Result<usize, rusqlite::Error>)>,
    ops: Seq<UpsertView>,
    r: Result<usize, rusqlite::Error>,
) -> bool {
    &&& log.len() <= ops.len()
    &&& log_writes(log) == ops.take(log.len() as int)
    &&& answers_until_error(log_answers(log), ops.len() as int)
    &&& r == fold_written(log_answers(log))
}

/// Takes one answer of the database into the running count.
pub fn add_written(total: usize, w: Result<usize, rusqlite::Error>) -> (r: Result<
    usize,
    rusqlite::Error,
>)
    ensures
        r == written_after(total, w),
{
    match w {
        Ok(n) => Ok(total.saturating_add(n)),
        Err(e) => Err(e),
    }
}

/// The events of a write log, in order.
pub open spec fn write_events(log: Seq<(UpsertView, Result<usize, rusqlite::Error>)>) -> Seq<
    DbEvent,
> {
    log.map_values(|e: (UpsertView, Result<usize, rusqlite::Error>)| DbEvent::Write(e.0, e.1))
}

/// Writes `ops` in order and stops at the first that fails, returning its
/// error; otherwise returns the number of rows changed, saturated at
/// `usize::MAX`. The requests made are exactly those writes: with nothing to
/// write, nothing is asked of the database.
pub fn execute_all(db: &mut Db, ops: &Vec<Upsert>) -> (r: Result<usize, rusqlite::Error>)
    ensures
        ops@.len() == 0 ==> (r matches Ok(0) && final(db).trace@ == old(db).trace@),
        exists|log: Seq<(UpsertView, Result<usize, rusqlite::Error>)>|
            #[trigger] writes_give(log, upsert_views(ops@), r) && final(db).trace@ == old(db).trace@ + write_events(log),
{
    let ghost t0 = db.trace@;
    let mut total: usize = 0;
    let mut i: usize = 0;
    let ghost mut log: Seq<(UpsertView, Result<usize, rusqlite::Error>)> = Seq::empty();
    proof {
        assert(log_writes(log) =~= upsert_views(ops@).take(0));
        assert(log_answers(log) =~= Seq::<Result<usize, rusqlite::Error>>::empty());
        assert(t0 + write_events(log) =~= t0);
    }
    while i < ops.len()
        invariant
            i <= ops@.len(),
            log.len() == i,
            log_writes(log) == upsert_views(ops@).take(i as int),
            forall|j: int| 0 <= j < log.len() ==> (#[trigger] log_answers(log)[j]) is Ok,
            fold_written(log_answers(log)) == Ok::<usize, rusqlite::Error>(total),
            db.trace@ == t0 + write_events(log),
            t0 == old(db).trace@,
        decreases ops@.len() - i,
    {
        let sql = ops[i].sql();
        let answer = execute_statement(db, &ops[i], sql.as_str());
        let ghost entry = (ops@[i as int]@, answer);
        proof {
            assert(log_answers(log.push(entry)) =~= log_answers(log).push(answer));
            assert(log_writes(log.push(entry)) =~= upsert_views(ops@).take(i + 1));
            assert(log_answers(log.push(entry)).drop_last() =~= log_answers(log));
            assert(write_events(log.push(entry)) =~= write_events(log).push(
                DbEvent::Write(entry.0, entry.1),
            ));
            assert(db.trace@ =~= t0 + write_events(log.push(entry)));
        }
        match add_written(total, answer) {
            Ok(t) => {
                proof {
                    log = log.push(entry);
                }
                total = t;
            },
            Err(e) => {
                proof {
                    log = log.push(entry);
                    assert(writes_give(log, upsert_views(ops@), Err(e)));
                }
                return Err(e);
            },
        }
        i = i + 1;
    }
    proof {
        assert(upsert_views(ops@).take(i as int) =~= upsert_views(ops@));
        assert(writes_give(log, upsert_views(ops@), Ok(total)));
    }
    Ok(total)
}

/// A write run that succeeded handed every one of its rows to the database,
/// in order, and each was answered with success.
pub proof fn lemma_success_wrote_all(
    log: Seq<(UpsertView, Result<usize, rusqlite::Error>)>,
    ops: Seq<UpsertView>,
    n: usize,
)
    requires
        writes_give(log, ops, Ok(n)),
    ensures
        log_writes(log) == ops,
        forall|i: int| 0 <= i < log.len() ==> (#[trigger] log_answers(log)[i]) is Ok,
{
    let answers = log_answers(log);
    if log.len() < ops.len() {
        assert(answers.len() > 0 && answers.last() is Err);
        match fold_written(answers.drop_last()) {
            Ok(t) => {},
            Err(e) => {},
        }
        assert(fold_written(answers) is Err);
    }
    assert(ops.take(log.len() as int) =~= ops);
    assert forall|i: int| 0 <= i < log.len() implies (#[trigger] log_answers(log)[i]) is Ok by {
        if i == log.len() - 1 {
            match fold_written(answers.drop_last()) {
                Ok(t) => {},
                Err(e) => {},
            }
        }
    }
}

} // verus!
