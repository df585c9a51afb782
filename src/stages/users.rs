//! Profiles, their optional parts, and the rows each part is stored as.
use crate::storage::{
    lemma_success_wrote_all, log_writes,
    fold_written, log_answers, run_command, write_events, Db, DbEvent, BEGIN_SQL, COMMIT_SQL,
    ROLLBACK_SQL,
    apply_upserts, lemma_upserts_idempotent,
    int_val, int_value, langs_val, langs_value, opt_bool_val, opt_bool_value, opt_int_val,
    opt_int_value, opt_text_val, opt_text_value, sql_views, text_val, text_value, upsert_views,
    execute_all, writes_give, SqlVal, SqlValue, Upsert, UpsertView,
};
use crate::chunking::{
    ceil_div, chunk_ids, chunk_indices, chunks_of, indices, lemma_ceil_div_bounds,
    lemma_chunk_indices_in_range, lemma_chunks_partition, vec_views,
};
use crate::requests::api_manager::{comma_joined, join_ids, param, param_views};
use crate::RobberError;
use vstd::prelude::*;
use vstd::string::StringExecFns;

verus! {

/// A part of a profile that is stored as rows of one side table, each keyed
/// by the profile's id.
pub trait StoreExt {
    /// The rows of this part, for the profile `user_id`, in `table`.
    spec fn spec_rows(&self, table: Seq<char>, user_id: i64) -> Seq<UpsertView>;

    fn rows(&self, table: &str, user_id: i64) -> (r: Vec<Upsert>)
        ensures
            upsert_views(r@) == self.spec_rows(table@, user_id),
    ;

    /// Every row of this part goes to `table`.
    proof fn lemma_rows_in_table(&self, table: Seq<char>, user_id: i64)
        ensures
            forall|i: int|
                0 <= i < self.spec_rows(table, user_id).len() ==> (#[trigger] self.spec_rows(
                    table,
                    user_id,
                )[i]).table == table,
    ;

    /// Writes the rows of this part through `db`, in order; stops at the
    /// first write that fails and returns its error, else returns the rows
    /// changed. The requests made are exactly those writes: a part with no
    /// rows asks nothing of the database and gives `Ok(0)`.
    fn store(&self, db: &mut Db, table_name: &str, user_id: i64) -> (r: Result<
        usize,
        rusqlite::Error,
    >)
        ensures
            self.spec_rows(table_name@, user_id).len() == 0 ==> (r matches Ok(0) && final(db).trace@ == old(db).trace@),
            exists|log: Seq<(UpsertView, Result<usize, rusqlite::Error>)>|
                #[trigger] writes_give(log, self.spec_rows(table_name@, user_id), r) && final(db).trace@ == old(db).trace@ + write_events(log),
    {
        let rows = self.rows(table_name, user_id);
        execute_all(db, &rows)
    }
}

/// The rows of every item of `items`, item after item.
pub open spec fn rows_of_all<E: StoreExt>(items: Seq<E>, table: Seq<char>, user_id: i64) -> Seq<
    UpsertView,
> {
    items.map_values(|e: E| e.spec_rows(table, user_id)).flatten()
}

/// Every row of a list of parts goes to `table`.
pub proof fn lemma_rows_of_all_in_table<E: StoreExt>(items: Seq<E>, table: Seq<char>, user_id: i64)
    ensures
        forall|i: int|
            0 <= i < rows_of_all(items, table, user_id).len() ==> (#[trigger] rows_of_all(
                items,
                table,
                user_id,
            )[i]).table == table,
    decreases items.len(),
{
    if items.len() > 0 {
        let per = |e: E| e.spec_rows(table, user_id);
        let init = items.drop_last();
        lemma_rows_of_all_in_table(init, table, user_id);
        items.last().lemma_rows_in_table(table, user_id);
        assert(items.map_values(per) =~= init.map_values(per).push(items.last().spec_rows(table, user_id)));
        init.map_values(per).lemma_flatten_push(items.last().spec_rows(table, user_id));
        let a = rows_of_all(init, table, user_id);
        let b = items.last().spec_rows(table, user_id);
        assert forall|i: int| 0 <= i < (a + b).len() implies (#[trigger] (a + b)[i]).table == table by {
            if i < a.len() {
                assert((a + b)[i] == a[i]);
            } else {
                assert((a + b)[i] == b[i - a.len()]);
            }
        }
    }
}

/// The rows of every item of `items`, item after item; where two rows share a
/// conflict key, the later one wins when they are written.
pub fn rows_of_each<E: StoreExt>(items: &Vec<E>, table: &str, user_id: i64) -> (r: Vec<Upsert>)
    ensures
        upsert_views(r@) == rows_of_all(items@, table@, user_id),
{
    let mut out: Vec<Upsert> = Vec::new();
    let mut i: usize = 0;
    while i < items.len()
        invariant
            i <= items@.len(),
            upsert_views(out@) == rows_of_all(items@.subrange(0, i as int), table@, user_id),
        decreases items@.len() - i,
    {
        let mut more = items[i].rows(table, user_id);
        let ghost before = out@;
        let ghost added = more@;
        out.append(&mut more);
        proof {
            let per = |e: E| e.spec_rows(table@, user_id);
            assert(items@.subrange(0, i + 1).map_values(per) =~= items@.subrange(
                0,
                i as int,
            ).map_values(per).push(items@[i as int].spec_rows(table@, user_id)));
            items@.subrange(0, i as int).map_values(per).lemma_flatten_push(
                items@[i as int].spec_rows(table@, user_id),
            );
            assert(out@ =~= before + added);
            assert(upsert_views(out@) =~= upsert_views(before) + upsert_views(added));
        }
        i = i + 1;
    }
    proof {
        assert(items@.subrange(0, items@.len() as int) =~= items@);
    }
    out
}

/// One place of work.
#[derive(Debug)]
pub struct CareerInfo {
    pub group_id: Option<i64>,
    pub company: Option<String>,
    pub country_id: Option<i64>,
    pub city_id: Option<i64>,
    pub city_name: Option<String>,
    pub from: Option<i64>,
    pub until: Option<i64>,
    pub position: Option<String>,
}

pub const CAREER_INFO_COLUMNS: &'static str = "user_id, group_id, company, country_id, city_id, city_name, \"from\", \"until\", position";

impl CareerInfo {
    /// The row of `user_id`'s record, in column order.
    pub open spec fn spec_values(&self, user_id: i64) -> Seq<SqlVal> {
        seq![
            int_val(user_id),
            opt_int_val(self.group_id),
            opt_text_val(self.company),
            opt_int_val(self.country_id),
            opt_int_val(self.city_id),
            opt_text_val(self.city_name),
            opt_int_val(self.from),
            opt_int_val(self.until),
            opt_text_val(self.position),
        ]
    }

    pub fn values(&self, user_id: i64) -> (r: Vec<SqlValue>)
        ensures
            sql_views(r@) == self.spec_values(user_id),
    {
        let r = vec![
            int_value(user_id),
            opt_int_value(self.group_id),
            opt_text_value(&self.company),
            opt_int_value(self.country_id),
            opt_int_value(self.city_id),
            opt_text_value(&self.city_name),
            opt_int_value(self.from),
            opt_int_value(self.until),
            opt_text_value(&self.position),
        ];
        proof {
            assert(sql_views(r@) =~= self.spec_values(user_id));
        }
        r
    }

    pub open spec fn spec_upsert(&self, table: Seq<char>, user_id: i64) -> UpsertView {
        UpsertView { table, columns: CAREER_INFO_COLUMNS@, values: self.spec_values(user_id) }
    }

    pub fn upsert(&self, table: &str, user_id: i64) -> (r: Upsert)
        ensures
            r@ == self.spec_upsert(table@, user_id),
    {
        Upsert {
            table: String::from_str(table),
            columns: String::from_str(CAREER_INFO_COLUMNS),
            values: self.values(user_id),
        }
    }
}

/// The city a profile names.
#[derive(Debug)]
pub struct City {
    pub id: i64,
    pub title: String,
}

pub const CITY_COLUMNS: &'static str = "user_id, id, title";

impl City {
    /// The row of `user_id`'s record, in column order.
    pub open spec fn spec_values(&self, user_id: i64) -> Seq<SqlVal> {
        seq![
            int_val(user_id),
            int_val(self.id),
            text_val(self.title),
        ]
    }

    pub fn values(&self, user_id: i64) -> (r: Vec<SqlValue>)
        ensures
            sql_views(r@) == self.spec_values(user_id),
    {
        let r = vec![
            int_value(user_id),
            int_value(self.id),
            text_value(&self.title),
        ];
        proof {
            assert(sql_views(r@) =~= self.spec_values(user_id));
        }
        r
    }

    pub open spec fn spec_upsert(&self, table: Seq<char>, user_id: i64) -> UpsertView {
        UpsertView { table, columns: CITY_COLUMNS@, values: self.spec_values(user_id) }
    }

    pub fn upsert(&self, table: &str, user_id: i64) -> (r: Upsert)
        ensures
            r@ == self.spec_upsert(table@, user_id),
    {
        Upsert {
            table: String::from_str(table),
            columns: String::from_str(CITY_COLUMNS),
            values: self.values(user_id),
        }
    }
}

/// Sizes of a profile's collections.
#[derive(Debug)]
pub struct Counters {
    pub albums: i64,
    pub videos: i64,
    pub audios: i64,
    pub photos: i64,
    pub notes: i64,
    pub friends: i64,
    pub groups: i64,
    pub user_videos: i64,
    pub followers: i64,
    pub pages: i64,
}

pub const COUNTERS_COLUMNS: &'static str = "user_id, albums, videos, audios, photos, notes, friends, groups, user_videos, followers, pages";

impl Counters {
    /// The row of `user_id`'s record, in column order.
    pub open spec fn spec_values(&self, user_id: i64) -> Seq<SqlVal> {
        seq![
            int_val(user_id),
            int_val(self.albums),
            int_val(self.videos),
            int_val(self.audios),
            int_val(self.photos),
            int_val(self.notes),
            int_val(self.friends),
            int_val(self.groups),
            int_val(self.user_videos),
            int_val(self.followers),
            int_val(self.pages),
        ]
    }

    pub fn values(&self, user_id: i64) -> (r: Vec<SqlValue>)
        ensures
            sql_views(r@) == self.spec_values(user_id),
    {
        let r = vec![
            int_value(user_id),
            int_value(self.albums),
            int_value(self.videos),
            int_value(self.audios),
            int_value(self.photos),
            int_value(self.notes),
            int_value(self.friends),
            int_value(self.groups),
            int_value(self.user_videos),
            int_value(self.followers),
            int_value(self.pages),
        ];
        proof {
            assert(sql_views(r@) =~= self.spec_values(user_id));
        }
        r
    }

    pub open spec fn spec_upsert(&self, table: Seq<char>, user_id: i64) -> UpsertView {
        UpsertView { table, columns: COUNTERS_COLUMNS@, values: self.spec_values(user_id) }
    }

    pub fn upsert(&self, table: &str, user_id: i64) -> (r: Upsert)
        ensures
            r@ == self.spec_upsert(table@, user_id),
    {
        Upsert {
            table: String::from_str(table),
            columns: String::from_str(COUNTERS_COLUMNS),
            values: self.values(user_id),
        }
    }
}

/// The country a profile names.
#[derive(Debug)]
pub struct Country {
    pub id: i64,
    pub title: String,
}

pub const COUNTRY_COLUMNS: &'static str = "user_id, id, title";

impl Country {
    /// The row of `user_id`'s record, in column order.
    pub open spec fn spec_values(&self, user_id: i64) -> Seq<SqlVal> {
        seq![
            int_val(user_id),
            int_val(self.id),
            text_val(self.title),
        ]
    }

    pub fn values(&self, user_id: i64) -> (r: Vec<SqlValue>)
        ensures
            sql_views(r@) == self.spec_values(user_id),
    {
        let r = vec![
            int_value(user_id),
            int_value(self.id),
            text_value(&self.title),
        ];
        proof {
            assert(sql_views(r@) =~= self.spec_values(user_id));
        }
        r
    }

    pub open spec fn spec_upsert(&self, table: Seq<char>, user_id: i64) -> UpsertView {
        UpsertView { table, columns: COUNTRY_COLUMNS@, values: self.spec_values(user_id) }
    }

    pub fn upsert(&self, table: &str, user_id: i64) -> (r: Upsert)
        ensures
            r@ == self.spec_upsert(table@, user_id),
    {
        Upsert {
            table: String::from_str(table),
            columns: String::from_str(COUNTRY_COLUMNS),
            values: self.values(user_id),
        }
    }
}

/// The main higher education of a profile.
#[derive(Debug)]
pub struct EducationInfo {
    pub university: i64,
    pub university_name: String,
    pub faculty: Option<i64>,
    pub faculty_name: Option<String>,
    pub graduation: Option<i64>,
}

pub const EDUCATION_INFO_COLUMNS: &'static str = "user_id, university, university_name, faculty, faculty_name, graduation";

impl EducationInfo {
    /// The row of `user_id`'s record, in column order.
    pub open spec fn spec_values(&self, user_id: i64) -> Seq<SqlVal> {
        seq![
            int_val(user_id),
            int_val(self.university),
            text_val(self.university_name),
            opt_int_val(self.faculty),
            opt_text_val(self.faculty_name),
            opt_int_val(self.graduation),
        ]
    }

    pub fn values(&self, user_id: i64) -> (r: Vec<SqlValue>)
        ensures
            sql_views(r@) == self.spec_values(user_id),
    {
        let r = vec![
            int_value(user_id),
            int_value(self.university),
            text_value(&self.university_name),
            opt_int_value(self.faculty),
            opt_text_value(&self.faculty_name),
            opt_int_value(self.graduation),
        ];
        proof {
            assert(sql_views(r@) =~= self.spec_values(user_id));
        }
        r
    }

    pub open spec fn spec_upsert(&self, table: Seq<char>, user_id: i64) -> UpsertView {
        UpsertView { table, columns: EDUCATION_INFO_COLUMNS@, values: self.spec_values(user_id) }
    }

    pub fn upsert(&self, table: &str, user_id: i64) -> (r: Upsert)
        ensures
            r@ == self.spec_upsert(table@, user_id),
    {
        Upsert {
            table: String::from_str(table),
            columns: String::from_str(EDUCATION_INFO_COLUMNS),
            values: self.values(user_id),
        }
    }
}

/// When and from which platform a profile was last active.
#[derive(Debug)]
pub struct LastSeen {
    pub time: i64,
    pub platform: i64,
}

pub const LAST_SEEN_COLUMNS: &'static str = "user_id, time, platform";

impl LastSeen {
    /// The row of `user_id`'s record, in column order.
    pub open spec fn spec_values(&self, user_id: i64) -> Seq<SqlVal> {
        seq![
            int_val(user_id),
            int_val(self.time),
            int_val(self.platform),
        ]
    }

    pub fn values(&self, user_id: i64) -> (r: Vec<SqlValue>)
        ensures
            sql_views(r@) == self.spec_values(user_id),
    {
        let r = vec![
            int_value(user_id),
            int_value(self.time),
            int_value(self.platform),
        ];
        proof {
            assert(sql_views(r@) =~= self.spec_values(user_id));
        }
        r
    }

    pub open spec fn spec_upsert(&self, table: Seq<char>, user_id: i64) -> UpsertView {
        UpsertView { table, columns: LAST_SEEN_COLUMNS@, values: self.spec_values(user_id) }
    }

    pub fn upsert(&self, table: &str, user_id: i64) -> (r: Upsert)
        ensures
            r@ == self.spec_upsert(table@, user_id),
    {
        Upsert {
            table: String::from_str(table),
            columns: String::from_str(LAST_SEEN_COLUMNS),
            values: self.values(user_id),
        }
    }
}

/// One period of military service.
#[derive(Debug)]
pub struct MilitaryInfo {
    pub unit: String,
    pub unit_id: i64,
    pub country_id: i64,
    pub from: Option<i64>,
    pub until: Option<i64>,
}

pub const MILITARY_INFO_COLUMNS: &'static str = "user_id, unit, unit_id, country_id, \"from\", \"until\"";

impl MilitaryInfo {
    /// The row of `user_id`'s record, in column order.
    pub open spec fn spec_values(&self, user_id: i64) -> Seq<SqlVal> {
        seq![
            int_val(user_id),
            text_val(self.unit),
            int_val(self.unit_id),
            int_val(self.country_id),
            opt_int_val(self.from),
            opt_int_val(self.until),
        ]
    }

    pub fn values(&self, user_id: i64) -> (r: Vec<SqlValue>)
        ensures
            sql_views(r@) == self.spec_values(user_id),
    {
        let r = vec![
            int_value(user_id),
            text_value(&self.unit),
            int_value(self.unit_id),
            int_value(self.country_id),
            opt_int_value(self.from),
            opt_int_value(self.until),
        ];
        proof {
            assert(sql_views(r@) =~= self.spec_values(user_id));
        }
        r
    }

    pub open spec fn spec_upsert(&self, table: Seq<char>, user_id: i64) -> UpsertView {
        UpsertView { table, columns: MILITARY_INFO_COLUMNS@, values: self.spec_values(user_id) }
    }

    pub fn upsert(&self, table: &str, user_id: i64) -> (r: Upsert)
        ensures
            r@ == self.spec_upsert(table@, user_id),
    {
        Upsert {
            table: String::from_str(table),
            columns: String::from_str(MILITARY_INFO_COLUMNS),
            values: self.values(user_id),
        }
    }
}

/// What a profile does now; `kind` is its `type`.
#[derive(Debug)]
pub struct Occupation {
    pub kind: String,
    pub id: i64,
    pub name: String,
}

pub const OCCUPATION_COLUMNS: &'static str = "user_id, type, id, name";

impl Occupation {
    /// The row of `user_id`'s record, in column order.
    pub open spec fn spec_values(&self, user_id: i64) -> Seq<SqlVal> {
        seq![
            int_val(user_id),
            text_val(self.kind),
            int_val(self.id),
            text_val(self.name),
        ]
    }

    pub fn values(&self, user_id: i64) -> (r: Vec<SqlValue>)
        ensures
            sql_views(r@) == self.spec_values(user_id),
    {
        let r = vec![
            int_value(user_id),
            text_value(&self.kind),
            int_value(self.id),
            text_value(&self.name),
        ];
        proof {
            assert(sql_views(r@) =~= self.spec_values(user_id));
        }
        r
    }

    pub open spec fn spec_upsert(&self, table: Seq<char>, user_id: i64) -> UpsertView {
        UpsertView { table, columns: OCCUPATION_COLUMNS@, values: self.spec_values(user_id) }
    }

    pub fn upsert(&self, table: &str, user_id: i64) -> (r: Upsert)
        ensures
            r@ == self.spec_upsert(table@, user_id),
    {
        Upsert {
            table: String::from_str(table),
            columns: String::from_str(OCCUPATION_COLUMNS),
            values: self.values(user_id),
        }
    }
}

/// Views and habits; the languages are stored joined by `, `.
#[derive(Debug)]
pub struct PersonalInfo {
    pub political: Option<i64>,
    pub langs: Option<Vec<String>>,
    pub religion: Option<String>,
    pub inspired_by: Option<String>,
    pub people_main: Option<i64>,
    pub life_main: Option<i64>,
    pub smoking: Option<i64>,
    pub alcohol: Option<i64>,
}

pub const PERSONAL_INFO_COLUMNS: &'static str = "user_id, political, langs, religion, inspired_by, people_main, life_main, smoking, alcohol";

impl PersonalInfo {
    /// The row of `user_id`'s record, in column order.
    pub open spec fn spec_values(&self, user_id: i64) -> Seq<SqlVal> {
        seq![
            int_val(user_id),
            opt_int_val(self.political),
            langs_val(self.langs),
            opt_text_val(self.religion),
            opt_text_val(self.inspired_by),
            opt_int_val(self.people_main),
            opt_int_val(self.life_main),
            opt_int_val(self.smoking),
            opt_int_val(self.alcohol),
        ]
    }

    pub fn values(&self, user_id: i64) -> (r: Vec<SqlValue>)
        ensures
            sql_views(r@) == self.spec_values(user_id),
    {
        let r = vec![
            int_value(user_id),
            opt_int_value(self.political),
            langs_value(&self.langs),
            opt_text_value(&self.religion),
            opt_text_value(&self.inspired_by),
            opt_int_value(self.people_main),
            opt_int_value(self.life_main),
            opt_int_value(self.smoking),
            opt_int_value(self.alcohol),
        ];
        proof {
            assert(sql_views(r@) =~= self.spec_values(user_id));
        }
        r
    }

    pub open spec fn spec_upsert(&self, table: Seq<char>, user_id: i64) -> UpsertView {
        UpsertView { table, columns: PERSONAL_INFO_COLUMNS@, values: self.spec_values(user_id) }
    }

    pub fn upsert(&self, table: &str, user_id: i64) -> (r: Upsert)
        ensures
            r@ == self.spec_upsert(table@, user_id),
    {
        Upsert {
            table: String::from_str(table),
            columns: String::from_str(PERSONAL_INFO_COLUMNS),
            values: self.values(user_id),
        }
    }
}

/// One relative; `kind` is its `type`.
#[derive(Debug)]
pub struct Relative {
    pub id: Option<i64>,
    pub name: Option<String>,
    pub kind: String,
}

pub const RELATIVE_COLUMNS: &'static str = "user_id, id, name, type";

impl Relative {
    /// The row of `user_id`'s record, in column order.
    pub open spec fn spec_values(&self, user_id: i64) -> Seq<SqlVal> {
        seq![
            int_val(user_id),
            opt_int_val(self.id),
            opt_text_val(self.name),
            text_val(self.kind),
        ]
    }

    pub fn values(&self, user_id: i64) -> (r: Vec<SqlValue>)
        ensures
            sql_views(r@) == self.spec_values(user_id),
    {
        let r = vec![
            int_value(user_id),
            opt_int_value(self.id),
            opt_text_value(&self.name),
            text_value(&self.kind),
        ];
        proof {
            assert(sql_views(r@) =~= self.spec_values(user_id));
        }
        r
    }

    pub open spec fn spec_upsert(&self, table: Seq<char>, user_id: i64) -> UpsertView {
        UpsertView { table, columns: RELATIVE_COLUMNS@, values: self.spec_values(user_id) }
    }

    pub fn upsert(&self, table: &str, user_id: i64) -> (r: Upsert)
        ensures
            r@ == self.spec_upsert(table@, user_id),
    {
        Upsert {
            table: String::from_str(table),
            columns: String::from_str(RELATIVE_COLUMNS),
            values: self.values(user_id),
        }
    }
}

/// The partner a profile names.
#[derive(Debug)]
pub struct RelationPartner {
    pub id: i64,
    pub first_name: String,
    pub last_name: String,
}

pub const RELATION_PARTNER_COLUMNS: &'static str = "user_id, id, first_name, last_name";

impl RelationPartner {
    /// The row of `user_id`'s record, in column order.
    pub open spec fn spec_values(&self, user_id: i64) -> Seq<SqlVal> {
        seq![
            int_val(user_id),
            int_val(self.id),
            text_val(self.first_name),
            text_val(self.last_name),
        ]
    }

    pub fn values(&self, user_id: i64) -> (r: Vec<SqlValue>)
        ensures
            sql_views(r@) == self.spec_values(user_id),
    {
        let r = vec![
            int_value(user_id),
            int_value(self.id),
            text_value(&self.first_name),
            text_value(&self.last_name),
        ];
        proof {
            assert(sql_views(r@) =~= self.spec_values(user_id));
        }
        r
    }

    pub open spec fn spec_upsert(&self, table: Seq<char>, user_id: i64) -> UpsertView {
        UpsertView { table, columns: RELATION_PARTNER_COLUMNS@, values: self.spec_values(user_id) }
    }

    pub fn upsert(&self, table: &str, user_id: i64) -> (r: Upsert)
        ensures
            r@ == self.spec_upsert(table@, user_id),
    {
        Upsert {
            table: String::from_str(table),
            columns: String::from_str(RELATION_PARTNER_COLUMNS),
            values: self.values(user_id),
        }
    }
}

/// One school; `kind` is its `type`.
#[derive(Debug)]
pub struct School {
    pub id: Option<String>,
    pub country: i64,
    pub city: i64,
    pub name: Option<String>,
    pub year_from: Option<i64>,
    pub year_to: Option<i64>,
    pub year_graduated: Option<i64>,
    pub class: Option<String>,
    pub speciality: Option<String>,
    pub kind: Option<i64>,
}

pub const SCHOOL_COLUMNS: &'static str = "user_id, id, country, city, name, \"year_from\", year_to, year_graduated, class, speciality, type";

impl School {
    /// The row of `user_id`'s record, in column order.
    pub open spec fn spec_values(&self, user_id: i64) -> Seq<SqlVal> {
        seq![
            int_val(user_id),
            opt_text_val(self.id),
            int_val(self.country),
            int_val(self.city),
            opt_text_val(self.name),
            opt_int_val(self.year_from),
            opt_int_val(self.year_to),
            opt_int_val(self.year_graduated),
            opt_text_val(self.class),
            opt_text_val(self.speciality),
            opt_int_val(self.kind),
        ]
    }

    pub fn values(&self, user_id: i64) -> (r: Vec<SqlValue>)
        ensures
            sql_views(r@) == self.spec_values(user_id),
    {
        let r = vec![
            int_value(user_id),
            opt_text_value(&self.id),
            int_value(self.country),
            int_value(self.city),
            opt_text_value(&self.name),
            opt_int_value(self.year_from),
            opt_int_value(self.year_to),
            opt_int_value(self.year_graduated),
            opt_text_value(&self.class),
            opt_text_value(&self.speciality),
            opt_int_value(self.kind),
        ];
        proof {
            assert(sql_views(r@) =~= self.spec_values(user_id));
        }
        r
    }

    pub open spec fn spec_upsert(&self, table: Seq<char>, user_id: i64) -> UpsertView {
        UpsertView { table, columns: SCHOOL_COLUMNS@, values: self.spec_values(user_id) }
    }

    pub fn upsert(&self, table: &str, user_id: i64) -> (r: Upsert)
        ensures
            r@ == self.spec_upsert(table@, user_id),
    {
        Upsert {
            table: String::from_str(table),
            columns: String::from_str(SCHOOL_COLUMNS),
            values: self.values(user_id),
        }
    }
}

/// Phone numbers; stored only where at least one is known.
#[derive(Debug)]
pub struct Contacts {
    pub mobile_phone: Option<String>,
    pub home_phone: Option<String>,
}

pub const CONTACTS_COLUMNS: &'static str = "user_id, mobile_phone, home_phone";

impl Contacts {
    /// The row of `user_id`'s record, in column order.
    pub open spec fn spec_values(&self, user_id: i64) -> Seq<SqlVal> {
        seq![
            int_val(user_id),
            opt_text_val(self.mobile_phone),
            opt_text_val(self.home_phone),
        ]
    }

    pub fn values(&self, user_id: i64) -> (r: Vec<SqlValue>)
        ensures
            sql_views(r@) == self.spec_values(user_id),
    {
        let r = vec![
            int_value(user_id),
            opt_text_value(&self.mobile_phone),
            opt_text_value(&self.home_phone),
        ];
        proof {
            assert(sql_views(r@) =~= self.spec_values(user_id));
        }
        r
    }

    pub open spec fn spec_upsert(&self, table: Seq<char>, user_id: i64) -> UpsertView {
        UpsertView { table, columns: CONTACTS_COLUMNS@, values: self.spec_values(user_id) }
    }

    pub fn upsert(&self, table: &str, user_id: i64) -> (r: Upsert)
        ensures
            r@ == self.spec_upsert(table@, user_id),
    {
        Upsert {
            table: String::from_str(table),
            columns: String::from_str(CONTACTS_COLUMNS),
            values: self.values(user_id),
        }
    }
}

/// One university.
#[derive(Debug)]
pub struct University {
    pub id: i64,
    pub country: i64,
    pub city: i64,
    pub name: String,
    pub faculty: Option<i64>,
    pub faculty_name: Option<String>,
    pub chair: Option<i64>,
    pub chair_name: Option<String>,
    pub graduation: Option<i64>,
    pub education_form: Option<String>,
    pub education_status: Option<String>,
}

pub const UNIVERSITY_COLUMNS: &'static str = "user_id, id, country, city, name, faculty, faculty_name, chair, chair_name, graduation, education_form, education_status";

impl University {
    /// The row of `user_id`'s record, in column order.
    pub open spec fn spec_values(&self, user_id: i64) -> Seq<SqlVal> {
        seq![
            int_val(user_id),
            int_val(self.id),
            int_val(self.country),
            int_val(self.city),
            text_val(self.name),
            opt_int_val(self.faculty),
            opt_text_val(self.faculty_name),
            opt_int_val(self.chair),
            opt_text_val(self.chair_name),
            opt_int_val(self.graduation),
            opt_text_val(self.education_form),
            opt_text_val(self.education_status),
        ]
    }

    pub fn values(&self, user_id: i64) -> (r: Vec<SqlValue>)
        ensures
            sql_views(r@) == self.spec_values(user_id),
    {
        let r = vec![
            int_value(user_id),
            int_value(self.id),
            int_value(self.country),
            int_value(self.city),
            text_value(&self.name),
            opt_int_value(self.faculty),
            opt_text_value(&self.faculty_name),
            opt_int_value(self.chair),
            opt_text_value(&self.chair_name),
            opt_int_value(self.graduation),
            opt_text_value(&self.education_form),
            opt_text_value(&self.education_status),
        ];
        proof {
            assert(sql_views(r@) =~= self.spec_values(user_id));
        }
        r
    }

    pub open spec fn spec_upsert(&self, table: Seq<char>, user_id: i64) -> UpsertView {
        UpsertView { table, columns: UNIVERSITY_COLUMNS@, values: self.spec_values(user_id) }
    }

    pub fn upsert(&self, table: &str, user_id: i64) -> (r: Upsert)
        ensures
            r@ == self.spec_upsert(table@, user_id),
    {
        Upsert {
            table: String::from_str(table),
            columns: String::from_str(UNIVERSITY_COLUMNS),
            values: self.values(user_id),
        }
    }
}

impl StoreExt for CareerInfo {
    open spec fn spec_rows(&self, table: Seq<char>, user_id: i64) -> Seq<UpsertView> {
        seq![self.spec_upsert(table, user_id)]
    }

    fn rows(&self, table: &str, user_id: i64) -> (r: Vec<Upsert>) {
        let r = vec![self.upsert(table, user_id)];
        proof {
            assert(upsert_views(r@) =~= self.spec_rows(table@, user_id));
        }
        r
    }

    proof fn lemma_rows_in_table(&self, table: Seq<char>, user_id: i64) {
    }
}

impl StoreExt for City {
    open spec fn spec_rows(&self, table: Seq<char>, user_id: i64) -> Seq<UpsertView> {
        seq![self.spec_upsert(table, user_id)]
    }

    fn rows(&self, table: &str, user_id: i64) -> (r: Vec<Upsert>) {
        let r = vec![self.upsert(table, user_id)];
        proof {
            assert(upsert_views(r@) =~= self.spec_rows(table@, user_id));
        }
        r
    }

    proof fn lemma_rows_in_table(&self, table: Seq<char>, user_id: i64) {
    }
}

impl StoreExt for Counters {
    open spec fn spec_rows(&self, table: Seq<char>, user_id: i64) -> Seq<UpsertView> {
        seq![self.spec_upsert(table, user_id)]
    }

    fn rows(&self, table: &str, user_id: i64) -> (r: Vec<Upsert>) {
        let r = vec![self.upsert(table, user_id)];
        proof {
            assert(upsert_views(r@) =~= self.spec_rows(table@, user_id));
        }
        r
    }

    proof fn lemma_rows_in_table(&self, table: Seq<char>, user_id: i64) {
    }
}

impl StoreExt for Country {
    open spec fn spec_rows(&self, table: Seq<char>, user_id: i64) -> Seq<UpsertView> {
        seq![self.spec_upsert(table, user_id)]
    }

    fn rows(&self, table: &str, user_id: i64) -> (r: Vec<Upsert>) {
        let r = vec![self.upsert(table, user_id)];
        proof {
            assert(upsert_views(r@) =~= self.spec_rows(table@, user_id));
        }
        r
    }

    proof fn lemma_rows_in_table(&self, table: Seq<char>, user_id: i64) {
    }
}

impl StoreExt for EducationInfo {
    open spec fn spec_rows(&self, table: Seq<char>, user_id: i64) -> Seq<UpsertView> {
        seq![self.spec_upsert(table, user_id)]
    }

    fn rows(&self, table: &str, user_id: i64) -> (r: Vec<Upsert>) {
        let r = vec![self.upsert(table, user_id)];
        proof {
            assert(upsert_views(r@) =~= self.spec_rows(table@, user_id));
        }
        r
    }

    proof fn lemma_rows_in_table(&self, table: Seq<char>, user_id: i64) {
    }
}

impl StoreExt for LastSeen {
    open spec fn spec_rows(&self, table: Seq<char>, user_id: i64) -> Seq<UpsertView> {
        seq![self.spec_upsert(table, user_id)]
    }

    fn rows(&self, table: &str, user_id: i64) -> (r: Vec<Upsert>) {
        let r = vec![self.upsert(table, user_id)];
        proof {
            assert(upsert_views(r@) =~= self.spec_rows(table@, user_id));
        }
        r
    }

    proof fn lemma_rows_in_table(&self, table: Seq<char>, user_id: i64) {
    }
}

impl StoreExt for MilitaryInfo {
    open spec fn spec_rows(&self, table: Seq<char>, user_id: i64) -> Seq<UpsertView> {
        seq![self.spec_upsert(table, user_id)]
    }

    fn rows(&self, table: &str, user_id: i64) -> (r: Vec<Upsert>) {
        let r = vec![self.upsert(table, user_id)];
        proof {
            assert(upsert_views(r@) =~= self.spec_rows(table@, user_id));
        }
        r
    }

    proof fn lemma_rows_in_table(&self, table: Seq<char>, user_id: i64) {
    }
}

impl StoreExt for Occupation {
    open spec fn spec_rows(&self, table: Seq<char>, user_id: i64) -> Seq<UpsertView> {
        seq![self.spec_upsert(table, user_id)]
    }

    fn rows(&self, table: &str, user_id: i64) -> (r: Vec<Upsert>) {
        let r = vec![self.upsert(table, user_id)];
        proof {
            assert(upsert_views(r@) =~= self.spec_rows(table@, user_id));
        }
        r
    }

    proof fn lemma_rows_in_table(&self, table: Seq<char>, user_id: i64) {
    }
}

impl StoreExt for Relative {
    open spec fn spec_rows(&self, table: Seq<char>, user_id: i64) -> Seq<UpsertView> {
        seq![self.spec_upsert(table, user_id)]
    }

    fn rows(&self, table: &str, user_id: i64) -> (r: Vec<Upsert>) {
        let r = vec![self.upsert(table, user_id)];
        proof {
            assert(upsert_views(r@) =~= self.spec_rows(table@, user_id));
        }
        r
    }

    proof fn lemma_rows_in_table(&self, table: Seq<char>, user_id: i64) {
    }
}

impl StoreExt for RelationPartner {
    open spec fn spec_rows(&self, table: Seq<char>, user_id: i64) -> Seq<UpsertView> {
        seq![self.spec_upsert(table, user_id)]
    }

    fn rows(&self, table: &str, user_id: i64) -> (r: Vec<Upsert>) {
        let r = vec![self.upsert(table, user_id)];
        proof {
            assert(upsert_views(r@) =~= self.spec_rows(table@, user_id));
        }
        r
    }

    proof fn lemma_rows_in_table(&self, table: Seq<char>, user_id: i64) {
    }
}

impl StoreExt for School {
    open spec fn spec_rows(&self, table: Seq<char>, user_id: i64) -> Seq<UpsertView> {
        seq![self.spec_upsert(table, user_id)]
    }

    fn rows(&self, table: &str, user_id: i64) -> (r: Vec<Upsert>) {
        let r = vec![self.upsert(table, user_id)];
        proof {
            assert(upsert_views(r@) =~= self.spec_rows(table@, user_id));
        }
        r
    }

    proof fn lemma_rows_in_table(&self, table: Seq<char>, user_id: i64) {
    }
}

impl StoreExt for University {
    open spec fn spec_rows(&self, table: Seq<char>, user_id: i64) -> Seq<UpsertView> {
        seq![self.spec_upsert(table, user_id)]
    }

    fn rows(&self, table: &str, user_id: i64) -> (r: Vec<Upsert>) {
        let r = vec![self.upsert(table, user_id)];
        proof {
            assert(upsert_views(r@) =~= self.spec_rows(table@, user_id));
        }
        r
    }

    proof fn lemma_rows_in_table(&self, table: Seq<char>, user_id: i64) {
    }
}

impl StoreExt for Contacts {
    /// Nothing is stored when neither number is known.
    open spec fn spec_rows(&self, table: Seq<char>, user_id: i64) -> Seq<UpsertView> {
        if self.mobile_phone.is_some() || self.home_phone.is_some() {
            seq![self.spec_upsert(table, user_id)]
        } else {
            Seq::empty()
        }
    }

    fn rows(&self, table: &str, user_id: i64) -> (r: Vec<Upsert>) {
        if self.mobile_phone.is_some() || self.home_phone.is_some() {
            let r = vec![self.upsert(table, user_id)];
            proof {
                assert(upsert_views(r@) =~= self.spec_rows(table@, user_id));
            }
            r
        } else {
            let r: Vec<Upsert> = Vec::new();
            proof {
                assert(upsert_views(r@) =~= self.spec_rows(table@, user_id));
            }
            r
        }
    }

    proof fn lemma_rows_in_table(&self, table: Seq<char>, user_id: i64) {
    }
}

/// Personal views: either a record, or the empty list the remote side sends
/// when it has nothing to report.
#[derive(Debug)]
pub enum Personal {
    Value(PersonalInfo),
    Empty(Vec<()>),
}

impl StoreExt for Personal {
    /// The empty sentinel stands for an absent record: it gives no row.
    open spec fn spec_rows(&self, table: Seq<char>, user_id: i64) -> Seq<UpsertView> {
        match self {
            Personal::Value(info) => seq![info.spec_upsert(table, user_id)],
            Personal::Empty(_) => Seq::empty(),
        }
    }

    fn rows(&self, table: &str, user_id: i64) -> (r: Vec<Upsert>) {
        let r = match self {
            Personal::Value(info) => vec![info.upsert(table, user_id)],
            Personal::Empty(_) => Vec::new(),
        };
        proof {
            assert(upsert_views(r@) =~= self.spec_rows(table@, user_id));
        }
        r
    }

    proof fn lemma_rows_in_table(&self, table: Seq<char>, user_id: i64) {
    }
}

/// A profile's relatives.
#[derive(Debug)]
pub enum Relatives {
    Value(Vec<Relative>),
}

/// A profile's places of work: the remote side sends one record or a list.
#[derive(Debug)]
pub enum Career {
    One(CareerInfo),
    Many(Vec<CareerInfo>),
}

/// A profile's universities.
#[derive(Debug)]
pub enum Universities {
    Value(Vec<University>),
}

/// A profile's schools.
#[derive(Debug)]
pub enum Schools {
    Value(Vec<School>),
}

/// A profile's military service: the remote side sends one record or a list.
#[derive(Debug)]
pub enum Military {
    One(MilitaryInfo),
    Many(Vec<MilitaryInfo>),
}

impl StoreExt for Relatives {
    open spec fn spec_rows(&self, table: Seq<char>, user_id: i64) -> Seq<UpsertView> {
        match self {
            Relatives::Value(items) => rows_of_all(items@, table, user_id),
        }
    }

    fn rows(&self, table: &str, user_id: i64) -> (r: Vec<Upsert>) {
        let r = match self {
            Relatives::Value(items) => rows_of_each(items, table, user_id),
        };
        proof {
            assert(upsert_views(r@) == self.spec_rows(table@, user_id));
        }
        r
    }

    proof fn lemma_rows_in_table(&self, table: Seq<char>, user_id: i64) {
        match self {
            Relatives::Value(items) => lemma_rows_of_all_in_table(items@, table, user_id),
        }
    }
}

impl StoreExt for Universities {
    open spec fn spec_rows(&self, table: Seq<char>, user_id: i64) -> Seq<UpsertView> {
        match self {
            Universities::Value(items) => rows_of_all(items@, table, user_id),
        }
    }

    fn rows(&self, table: &str, user_id: i64) -> (r: Vec<Upsert>) {
        let r = match self {
            Universities::Value(items) => rows_of_each(items, table, user_id),
        };
        proof {
            assert(upsert_views(r@) == self.spec_rows(table@, user_id));
        }
        r
    }

    proof fn lemma_rows_in_table(&self, table: Seq<char>, user_id: i64) {
        match self {
            Universities::Value(items) => lemma_rows_of_all_in_table(items@, table, user_id),
        }
    }
}

impl StoreExt for Schools {
    open spec fn spec_rows(&self, table: Seq<char>, user_id: i64) -> Seq<UpsertView> {
        match self {
            Schools::Value(items) => rows_of_all(items@, table, user_id),
        }
    }

    fn rows(&self, table: &str, user_id: i64) -> (r: Vec<Upsert>) {
        let r = match self {
            Schools::Value(items) => rows_of_each(items, table, user_id),
        };
        proof {
            assert(upsert_views(r@) == self.spec_rows(table@, user_id));
        }
        r
    }

    proof fn lemma_rows_in_table(&self, table: Seq<char>, user_id: i64) {
        match self {
            Schools::Value(items) => lemma_rows_of_all_in_table(items@, table, user_id),
        }
    }
}

impl StoreExt for Career {
    open spec fn spec_rows(&self, table: Seq<char>, user_id: i64) -> Seq<UpsertView> {
        match self {
            Career::One(item) => item.spec_rows(table, user_id),
            Career::Many(items) => rows_of_all(items@, table, user_id),
        }
    }

    fn rows(&self, table: &str, user_id: i64) -> (r: Vec<Upsert>) {
        let r = match self {
            Career::One(item) => item.rows(table, user_id),
            Career::Many(items) => rows_of_each(items, table, user_id),
        };
        proof {
            assert(upsert_views(r@) == self.spec_rows(table@, user_id));
        }
        r
    }

    proof fn lemma_rows_in_table(&self, table: Seq<char>, user_id: i64) {
        match self {
            Career::One(item) => item.lemma_rows_in_table(table, user_id),
            Career::Many(items) => lemma_rows_of_all_in_table(items@, table, user_id),
        }
    }
}

impl StoreExt for Military {
    open spec fn spec_rows(&self, table: Seq<char>, user_id: i64) -> Seq<UpsertView> {
        match self {
            Military::One(item) => item.spec_rows(table, user_id),
            Military::Many(items) => rows_of_all(items@, table, user_id),
        }
    }

    fn rows(&self, table: &str, user_id: i64) -> (r: Vec<Upsert>) {
        let r = match self {
            Military::One(item) => item.rows(table, user_id),
            Military::Many(items) => rows_of_each(items, table, user_id),
        };
        proof {
            assert(upsert_views(r@) == self.spec_rows(table@, user_id));
        }
        r
    }

    proof fn lemma_rows_in_table(&self, table: Seq<char>, user_id: i64) {
        match self {
            Military::One(item) => item.lemma_rows_in_table(table, user_id),
            Military::Many(items) => lemma_rows_of_all_in_table(items@, table, user_id),
        }
    }
}

/// The rows of a part of `user_id`'s profile; none where the part is absent.
pub open spec fn opt_rows<E: StoreExt>(part: Option<E>, table: Seq<char>, user_id: i64) -> Seq<
    UpsertView,
> {
    match part {
        Some(e) => e.spec_rows(table, user_id),
        None => Seq::empty(),
    }
}

/// Appends the rows of `part`, where it is present, to `out`.
pub fn add_rows<E: StoreExt>(out: &mut Vec<Upsert>, part: &Option<E>, table: &str, user_id: i64)
    ensures
        upsert_views(final(out)@) == upsert_views(old(out)@) + opt_rows(*part, table@, user_id),
{
    match part {
        Some(e) => {
            let mut more = e.rows(table, user_id);
            let ghost before = out@;
            let ghost added = more@;
            out.append(&mut more);
            proof {
                assert(out@ =~= before + added);
                assert(upsert_views(out@) =~= upsert_views(before) + upsert_views(added));
            }
        },
        None => {
            proof {
                assert(upsert_views(out@) =~= upsert_views(out@) + Seq::<UpsertView>::empty());
            }
        },
    }
}

/// A profile: its identity, its plain fields, and its optional parts.
#[derive(Debug)]
pub struct User {
    pub id: i64,
    pub first_name: String,
    pub last_name: String,
    pub deactivated: Option<String>,
    pub is_closed: Option<bool>,
    pub about: Option<String>,
    pub activities: Option<String>,
    pub bdate: Option<String>,
    pub books: Option<String>,
    pub career: Option<Career>,
    pub city: Option<City>,
    pub skype: Option<String>,
    pub facebook: Option<String>,
    pub twitter: Option<String>,
    pub livejournal: Option<String>,
    pub instagram: Option<String>,
    pub contacts: Option<Contacts>,
    pub counters: Option<Counters>,
    pub country: Option<Country>,
    pub domain: Option<String>,
    pub education: Option<EducationInfo>,
    pub followers_count: Option<i64>,
    pub games: Option<String>,
    pub has_mobile: Option<i64>,
    pub has_photo: Option<i64>,
    pub home_town: Option<String>,
    pub interests: Option<String>,
    pub last_seen: Option<LastSeen>,
    pub maiden_name: Option<String>,
    pub military: Option<Military>,
    pub movies: Option<String>,
    pub music: Option<String>,
    pub nickname: Option<String>,
    pub occupation: Option<Occupation>,
    pub personal: Option<Personal>,
    pub photo_max_orig: Option<String>,
    pub quotes: Option<String>,
    pub relatives: Option<Relatives>,
    pub relation: Option<i64>,
    pub relation_partner: Option<RelationPartner>,
    pub schools: Option<Schools>,
    pub screen_name: Option<String>,
    pub sex: Option<i64>,
    pub site: Option<String>,
    pub status: Option<String>,
    pub tv: Option<String>,
    pub universities: Option<Universities>,
    pub verified: Option<i64>,
}

pub const USER_COLUMNS: &'static str = "id, first_name, last_name, deactivated, is_closed, about, activities, bdate, books, domain, followers_count, games, has_mobile, has_photo, home_town, interests, maiden_name, movies, music, nickname, photo_max_orig, quotes, screen_name, sex, site, status, tv, verified, skype, facebook, twitter, livejournal, instagram";

impl User {
    /// The profile's own row, in column order.
    pub open spec fn spec_values(&self) -> Seq<SqlVal> {
        seq![
            int_val(self.id),
            text_val(self.first_name),
            text_val(self.last_name),
            opt_text_val(self.deactivated),
            opt_bool_val(self.is_closed),
            opt_text_val(self.about),
            opt_text_val(self.activities),
            opt_text_val(self.bdate),
            opt_text_val(self.books),
            opt_text_val(self.domain),
            opt_int_val(self.followers_count),
            opt_text_val(self.games),
            opt_int_val(self.has_mobile),
            opt_int_val(self.has_photo),
            opt_text_val(self.home_town),
            opt_text_val(self.interests),
            opt_text_val(self.maiden_name),
            opt_text_val(self.movies),
            opt_text_val(self.music),
            opt_text_val(self.nickname),
            opt_text_val(self.photo_max_orig),
            opt_text_val(self.quotes),
            opt_text_val(self.screen_name),
            opt_int_val(self.sex),
            opt_text_val(self.site),
            opt_text_val(self.status),
            opt_text_val(self.tv),
            opt_int_val(self.verified),
            opt_text_val(self.skype),
            opt_text_val(self.facebook),
            opt_text_val(self.twitter),
            opt_text_val(self.livejournal),
            opt_text_val(self.instagram),
        ]
    }

    pub fn values(&self) -> (r: Vec<SqlValue>)
        ensures
            sql_views(r@) == self.spec_values(),
    {
        let r = vec![
            int_value(self.id),
            text_value(&self.first_name),
            text_value(&self.last_name),
            opt_text_value(&self.deactivated),
            opt_bool_value(self.is_closed),
            opt_text_value(&self.about),
            opt_text_value(&self.activities),
            opt_text_value(&self.bdate),
            opt_text_value(&self.books),
            opt_text_value(&self.domain),
            opt_int_value(self.followers_count),
            opt_text_value(&self.games),
            opt_int_value(self.has_mobile),
            opt_int_value(self.has_photo),
            opt_text_value(&self.home_town),
            opt_text_value(&self.interests),
            opt_text_value(&self.maiden_name),
            opt_text_value(&self.movies),
            opt_text_value(&self.music),
            opt_text_value(&self.nickname),
            opt_text_value(&self.photo_max_orig),
            opt_text_value(&self.quotes),
            opt_text_value(&self.screen_name),
            opt_int_value(self.sex),
            opt_text_value(&self.site),
            opt_text_value(&self.status),
            opt_text_value(&self.tv),
            opt_int_value(self.verified),
            opt_text_value(&self.skype),
            opt_text_value(&self.facebook),
            opt_text_value(&self.twitter),
            opt_text_value(&self.livejournal),
            opt_text_value(&self.instagram),
        ];
        proof {
            assert(sql_views(r@) =~= self.spec_values());
        }
        r
    }

    /// Every row the profile is stored as: its own row in `table`, then, for
    /// each part that is present, that part's rows in the part's side table,
    /// all keyed by the profile's id.
    pub open spec fn spec_rows(&self, table: Seq<char>) -> Seq<UpsertView> {
        seq![UpsertView { table, columns: USER_COLUMNS@, values: self.spec_values() }]
            + opt_rows(self.career, "career"@, self.id)
            + opt_rows(self.city, "city"@, self.id)
            + opt_rows(self.counters, "counters"@, self.id)
            + opt_rows(self.country, "country"@, self.id)
            + opt_rows(self.education, "education"@, self.id)
            + opt_rows(self.last_seen, "last_seen"@, self.id)
            + opt_rows(self.personal, "personal"@, self.id)
            + opt_rows(self.contacts, "contacts"@, self.id)
            + opt_rows(self.military, "military"@, self.id)
            + opt_rows(self.occupation, "occupation"@, self.id)
            + opt_rows(self.relatives, "relatives"@, self.id)
            + opt_rows(self.relation_partner, "relation_partner"@, self.id)
            + opt_rows(self.schools, "schools"@, self.id)
            + opt_rows(self.universities, "universities"@, self.id)
    }

    pub fn rows(&self, table: &str) -> (r: Vec<Upsert>)
        ensures
            upsert_views(r@) == self.spec_rows(table@),
    {
        let own = Upsert {
            table: String::from_str(table),
            columns: String::from_str(USER_COLUMNS),
            values: self.values(),
        };
        let mut out: Vec<Upsert> = vec![own];
        proof {
            assert(upsert_views(out@) =~= seq![
                UpsertView { table: table@, columns: USER_COLUMNS@, values: self.spec_values() },
            ]);
        }
        add_rows(&mut out, &self.career, "career", self.id);
        add_rows(&mut out, &self.city, "city", self.id);
        add_rows(&mut out, &self.counters, "counters", self.id);
        add_rows(&mut out, &self.country, "country", self.id);
        add_rows(&mut out, &self.education, "education", self.id);
        add_rows(&mut out, &self.last_seen, "last_seen", self.id);
        add_rows(&mut out, &self.personal, "personal", self.id);
        add_rows(&mut out, &self.contacts, "contacts", self.id);
        add_rows(&mut out, &self.military, "military", self.id);
        add_rows(&mut out, &self.occupation, "occupation", self.id);
        add_rows(&mut out, &self.relatives, "relatives", self.id);
        add_rows(&mut out, &self.relation_partner, "relation_partner", self.id);
        add_rows(&mut out, &self.schools, "schools", self.id);
        add_rows(&mut out, &self.universities, "universities", self.id);
        out
    }

    /// Writes the profile's rows through `db`, in the order of
    /// [`User::rows`] (its own row first), and stops at the first write that
    /// fails, returning its error. The requests made are exactly those
    /// writes.
    pub fn store(&self, db: &mut Db, table_name: &str) -> (r: Result<usize, rusqlite::Error>)
        ensures
            exists|log: Seq<(UpsertView, Result<usize, rusqlite::Error>)>|
                #[trigger] writes_give(log, self.spec_rows(table_name@), r) && final(db).trace@
                    == old(db).trace@ + write_events(log),
    {
        let rows = self.rows(table_name);
        execute_all(db, &rows)
    }
}

/// Persisting a profile a second time, with the same content, leaves the store
/// exactly as persisting it once left it, whatever conflict key each table
/// has: rows are replaced, never duplicated or merged.
pub proof fn lemma_store_user_idempotent<K>(
    user: User,
    table: Seq<char>,
    store: Map<K, UpsertView>,
    key: spec_fn(UpsertView) -> K,
)
    ensures
        apply_upserts(apply_upserts(store, user.spec_rows(table), key), user.spec_rows(table), key)
            == apply_upserts(store, user.spec_rows(table), key),
{
    lemma_upserts_idempotent(store, user.spec_rows(table), key);
}

/// The remote method that returns profiles by id.
pub const USERS_GET_METHOD: &'static str = "users.get";

/// The most ids a checked fetch asks for in one call.
pub const CHECKED_CHUNK_SIZE: usize = 1000;

/// The parameters of a profile call: the ids, comma-joined, then the field
/// list as given (empty for no optional fields).
pub fn users_get_params(ids: &Vec<i32>, fields: &str) -> (r: Vec<(String, String)>)
    ensures
        param_views(r@) == seq![("user_ids"@, comma_joined(ids@)), ("fields"@, fields@)],
{
    let r = vec![param("user_ids", join_ids(ids)), param("fields", String::from_str(fields))];
    proof {
        assert(param_views(r@) =~= seq![("user_ids"@, comma_joined(ids@)), ("fields"@, fields@)]);
    }
    r
}

/// An answer of the profile method; without `response` the remote side
/// reported a failure.
#[derive(Debug)]
pub struct UserGet {
    pub response: Option<Vec<User>>,
}

impl UserGet {
    /// The profiles of the answer, or `APIError` where it has none.
    pub fn into_users(self) -> (r: Result<Vec<User>, RobberError>)
        ensures
            match self.response {
                Some(v) => r matches Ok(u) && u@ == v@,
                None => r matches Err(RobberError::APIError),
            },
    {
        match self.response {
            Some(v) => Ok(v),
            None => Err(RobberError::APIError),
        }
    }
}

/// Fetches profiles through one client, one chunk of ids per call, one call
/// after another; the caller makes each call, waits the pacing delay, and
/// hands the answer back. A checked fetch fails whole at the first chunk that
/// fails; a best-effort fetch skips such a chunk.
pub struct BatchFetch {
    pub chunks: Vec<Vec<i32>>,
    /// The index of the chunk to ask for next.
    pub next: usize,
    pub users: Vec<User>,
    pub checked: bool,
}

impl BatchFetch {
    pub fn new(ids: &Vec<i32>, chunk_size: usize, checked: bool) -> (r: Self)
        requires
            chunk_size > 0,
        ensures
            vec_views(r.chunks@) == chunks_of(ids@, chunk_size as int),
            r.next == 0,
            r.users@.len() == 0,
            r.checked == checked,
    {
        BatchFetch { chunks: chunk_ids(ids, chunk_size), next: 0, users: Vec::new(), checked }
    }

    pub fn is_done(&self) -> (r: bool)
        ensures
            r == (self.next >= self.chunks@.len()),
    {
        self.next >= self.chunks.len()
    }

    /// The parameters of the next call, or `None` once every chunk was asked for.
    pub fn next_params(&self, fields: &str) -> (r: Option<Vec<(String, String)>>)
        ensures
            self.next < self.chunks@.len() ==> (r matches Some(p) && param_views(p@) == seq![
                ("user_ids"@, comma_joined(self.chunks@[self.next as int]@)),
                ("fields"@, fields@),
            ]),
            self.next >= self.chunks@.len() ==> r is None,
    {
        if self.next < self.chunks.len() {
            Some(users_get_params(&self.chunks[self.next], fields))
        } else {
            None
        }
    }

    /// Takes the answer to the next chunk's call.
    pub fn on_answer(&mut self, answer: Result<UserGet, RobberError>) -> (r: Result<(), RobberError>)
        requires
            old(self).next < old(self).chunks@.len(),
        ensures
            final(self).chunks@ == old(self).chunks@,
            final(self).checked == old(self).checked,
            match answer {
                Ok(UserGet { response: Some(v) }) => r is Ok && final(self).next == old(self).next + 1
                    && final(self).users@ == old(self).users@ + v@,
                Ok(UserGet { response: None }) => if old(self).checked {
                    r matches Err(RobberError::APIError) && final(self).next == old(self).next
                        && final(self).users@ == old(self).users@
                } else {
                    r is Ok && final(self).next == old(self).next + 1 && final(self).users@ == old(
                        self,
                    ).users@
                },
                Err(e) => if old(self).checked {
                    r == Err::<(), RobberError>(e) && final(self).next == old(self).next
                        && final(self).users@ == old(self).users@
                } else {
                    r is Ok && final(self).next == old(self).next + 1 && final(self).users@ == old(
                        self,
                    ).users@
                },
            },
    {
        let n: usize = self.chunks.len();
        assert(self.next < n);
        let failure = match answer {
            Ok(get) => match get.response {
                Some(mut v) => {
                    self.users.append(&mut v);
                    self.next = self.next + 1;
                    return Ok(());
                },
                None => RobberError::APIError,
            },
            Err(e) => e,
        };
        if self.checked {
            Err(failure)
        } else {
            self.next = self.next + 1;
            Ok(())
        }
    }

    /// The profiles fetched, in chunk order.
    pub fn into_users(self) -> (r: Vec<User>)
        ensures
            r@ == self.users@,
    {
        self.users
    }
}

/// One more request of a batch, after the first `j`.
proof fn lemma_batch_step_next(done: Seq<SaveStep>, batch: Seq<usize>, j: int)
    requires
        0 <= j < batch_steps(batch).len(),
    ensures
        batch_steps(batch).len() == batch.len() + 2,
        j == 0 ==> batch_steps(batch)[j] == SaveStep::Begin,
        1 <= j <= batch.len() ==> batch_steps(batch)[j] == SaveStep::Store(batch[j - 1] as int),
        j == batch.len() + 1 ==> batch_steps(batch)[j] == SaveStep::Commit,
        (done + batch_steps(batch).take(j)).push(batch_steps(batch)[j]) == done + batch_steps(
            batch,
        ).take(j + 1),
{
    assert((done + batch_steps(batch).take(j)).push(batch_steps(batch)[j]) =~= done + batch_steps(
        batch,
    ).take(j + 1));
}

/// The primary table, keyed by profile id.
pub const OBJECTS_TABLE: &'static str = "objects";

/// One request that saving profiles makes of the database.
pub enum SaveStep {
    /// Begin a batch's transaction.
    Begin,
    /// Store the profile at this index, inside the open transaction.
    Store(int),
    /// Commit the batch's transaction.
    Commit,
}

/// The batches profiles are saved in: their indices, in order, cut into
/// pieces of `size`.
pub open spec fn save_batches(n: int, size: int) -> Seq<Seq<usize>> {
    chunks_of(indices(n), size)
}

/// The requests for one batch: begin, store each profile in order, commit.
pub open spec fn batch_steps(batch: Seq<usize>) -> Seq<SaveStep> {
    seq![SaveStep::Begin] + batch.map_values(|i: usize| SaveStep::Store(i as int)) + seq![
        SaveStep::Commit,
    ]
}

/// The requests for every batch, batch after batch.
pub open spec fn planned_steps(batches: Seq<Seq<usize>>) -> Seq<SaveStep> {
    batches.map_values(|b: Seq<usize>| batch_steps(b)).flatten()
}

pub open spec fn log_steps(log: Seq<(SaveStep, Result<(), rusqlite::Error>)>) -> Seq<SaveStep> {
    log.map_values(|e: (SaveStep, Result<(), rusqlite::Error>)| e.0)
}

/// `log` holds the requests made, in order, each with the database's answer,
/// and saving in `batches` with those answers gives `r`: the requests follow
/// the plan; they stop at the first failed one, whose error is `r`; and `r`
/// is `Ok` only once every planned request has succeeded.
pub open spec fn save_log_gives(
    log: Seq<(SaveStep, Result<(), rusqlite::Error>)>,
    batches: Seq<Seq<usize>>,
    r: Result<(), rusqlite::Error>,
) -> bool {
    &&& log.len() <= planned_steps(batches).len()
    &&& log_steps(log) == planned_steps(batches).take(log.len() as int)
    &&& forall|i: int| 0 <= i < log.len() - 1 ==> (#[trigger] log[i]).1 is Ok
    &&& match r {
        Ok(()) => log.len() == planned_steps(batches).len() && (log.len() > 0 ==> log.last().1 is Ok),
        Err(e) => log.len() > 0 && log.last().1 == Err::<(), rusqlite::Error>(e),
    }
}

/// The requests of the first `b` batches, then the first `j` of batch `b`,
/// are the start of the plan.
proof fn lemma_steps_prefix(batches: Seq<Seq<usize>>, b: int, j: int)
    requires
        0 <= b < batches.len(),
        0 <= j <= batch_steps(batches[b]).len(),
    ensures
        planned_steps(batches.take(b + 1)) == planned_steps(batches.take(b)) + batch_steps(
            batches[b],
        ),
        planned_steps(batches.take(b)).len() + j <= planned_steps(batches).len(),
        planned_steps(batches.take(b)) + batch_steps(batches[b]).take(j) == planned_steps(
            batches,
        ).take(planned_steps(batches.take(b)).len() + j),
{
    let f = |bt: Seq<usize>| batch_steps(bt);
    let head = batches.take(b + 1);
    let tail = batches.skip(b + 1);
    assert(batches =~= head + tail);
    assert(batches.map_values(f) =~= head.map_values(f) + tail.map_values(f));
    vstd::seq_lib::lemma_flatten_concat(head.map_values(f), tail.map_values(f));
    assert(head.map_values(f) =~= batches.take(b).map_values(f).push(batch_steps(batches[b])));
    batches.take(b).map_values(f).lemma_flatten_push(batch_steps(batches[b]));
    assert(planned_steps(batches.take(b)) + batch_steps(batches[b]).take(j) =~= planned_steps(
        batches,
    ).take(planned_steps(batches.take(b)).len() + j));
}

/// Why saving profiles failed: the database's error, and the id of the
/// profile whose write failed, or none when a transaction command failed.
#[derive(Debug)]
pub struct SaveError {
    pub user_id: Option<i64>,
    pub error: rusqlite::Error,
}

pub open spec fn unit_of(r: Result<usize, rusqlite::Error>) -> Result<(), rusqlite::Error> {
    match r {
        Ok(_) => Ok(()),
        Err(e) => Err(e),
    }
}

pub open spec fn save_error_of(r: Result<(), SaveError>) -> Result<(), rusqlite::Error> {
    match r {
        Ok(()) => Ok(()),
        Err(f) => Err(f.error),
    }
}

/// `seg` are the requests that the step `step`, answered `res`, made of the
/// database while saving `users`: the transaction command, or the writes of
/// the profile's rows as [`User::store`] makes them.
pub open spec fn step_events(
    step: SaveStep,
    res: Result<(), rusqlite::Error>,
    seg: Seq<DbEvent>,
    users: Seq<User>,
) -> bool {
    match step {
        SaveStep::Begin => seg == seq![DbEvent::Command(BEGIN_SQL@, res)],
        SaveStep::Commit => seg == seq![DbEvent::Command(COMMIT_SQL@, res)],
        SaveStep::Store(i) => 0 <= i < users.len() && exists|
            wlog: Seq<(UpsertView, Result<usize, rusqlite::Error>)>,
        |
            #[trigger] writes_give(
                wlog,
                users[i].spec_rows(OBJECTS_TABLE@),
                fold_written(log_answers(wlog)),
            ) && seg == write_events(wlog) && res == unit_of(fold_written(log_answers(wlog))),
    }
}

/// After a failure inside an open transaction, one rollback is requested;
/// after a failed begin, or without a failure, nothing more.
pub open spec fn rollback_events(
    log: Seq<(SaveStep, Result<(), rusqlite::Error>)>,
    tail: Seq<DbEvent>,
) -> bool {
    if log.len() > 0 && log.last().1 is Err && !(log.last().0 is Begin) {
        tail.len() == 1 && tail[0] is Command && tail[0]->Command_0 == ROLLBACK_SQL@
    } else {
        tail.len() == 0
    }
}

/// The profile whose store was the last step, if it was a store.
pub open spec fn failed_profile(
    log: Seq<(SaveStep, Result<(), rusqlite::Error>)>,
    users: Seq<User>,
) -> Option<i64> {
    if log.len() > 0 && log.last().0 is Store {
        Some(users[log.last().0->Store_0].id)
    } else {
        None
    }
}

/// Saving `users` in `batches` took the database's trace from `before` to
/// `after` and gave `r`: the steps `log` follow the plan and stop at the
/// first failure (see [`save_log_gives`]); `segs` are the requests of each
/// step; `tail` is the rollback after a failure; and an error names the
/// profile whose write failed.
pub open spec fn save_trace_gives(
    log: Seq<(SaveStep, Result<(), rusqlite::Error>)>,
    segs: Seq<Seq<DbEvent>>,
    tail: Seq<DbEvent>,
    users: Seq<User>,
    batches: Seq<Seq<usize>>,
    before: Seq<DbEvent>,
    after: Seq<DbEvent>,
    r: Result<(), SaveError>,
) -> bool {
    &&& save_log_gives(log, batches, save_error_of(r))
    &&& segs.len() == log.len()
    &&& forall|j: int|
        0 <= j < log.len() ==> #[trigger] step_events(log[j].0, log[j].1, segs[j], users)
    &&& rollback_events(log, tail)
    &&& after == before + segs.flatten() + tail
    &&& r matches Err(f) ==> f.user_id == failed_profile(log, users)
}

/// Steps that stopped `j` requests into batch `b` are the start of the plan.
proof fn lemma_log_on_plan(
    log: Seq<(SaveStep, Result<(), rusqlite::Error>)>,
    plan: Seq<Seq<usize>>,
    b: int,
    j: int,
)
    requires
        0 <= b < plan.len(),
        0 <= j <= batch_steps(plan[b]).len(),
        log_steps(log) == planned_steps(plan.take(b)) + batch_steps(plan[b]).take(j),
    ensures
        log.len() <= planned_steps(plan).len(),
        log_steps(log) == planned_steps(plan).take(log.len() as int),
{
    lemma_steps_prefix(plan, b, j);
    assert(log_steps(log).len() == log.len());
}

/// Records one more step and its requests.
proof fn lemma_record_step(
    log: Seq<(SaveStep, Result<(), rusqlite::Error>)>,
    segs: Seq<Seq<DbEvent>>,
    users: Seq<User>,
    entry: (SaveStep, Result<(), rusqlite::Error>),
    seg: Seq<DbEvent>,
)
    requires
        segs.len() == log.len(),
        forall|j: int|
            0 <= j < log.len() ==> #[trigger] step_events(log[j].0, log[j].1, segs[j], users),
        step_events(entry.0, entry.1, seg, users),
    ensures
        segs.push(seg).len() == log.push(entry).len(),
        forall|j: int|
            0 <= j < log.push(entry).len() ==> #[trigger] step_events(
                log.push(entry)[j].0,
                log.push(entry)[j].1,
                segs.push(seg)[j],
                users,
            ),
        segs.push(seg).flatten() == segs.flatten() + seg,
        log_steps(log.push(entry)) == log_steps(log).push(entry.0),
        forall|j: int| 0 <= j < log.len() ==> log.push(entry)[j] == log[j],
{
    assert forall|j: int| 0 <= j < log.push(entry).len() implies #[trigger] step_events(
        log.push(entry)[j].0,
        log.push(entry)[j].1,
        segs.push(seg)[j],
        users,
    ) by {
        if j < log.len() {
            assert(log.push(entry)[j] == log[j]);
            assert(segs.push(seg)[j] == segs[j]);
        }
    }
    segs.lemma_flatten_push(seg);
    assert(log_steps(log.push(entry)) =~= log_steps(log).push(entry.0));
}

/// Stores `users` in batches of `transaction_size`, in order, one
/// transaction per batch, each profile as [`User::store`] writes it into
/// [`OBJECTS_TABLE`]. A failing request ends the run with its error, naming
/// the profile whose write failed: the open transaction is rolled back;
/// batches committed before it stay committed; later batches are not tried.
/// The requests made are exactly those.
pub fn save_users(users: &Vec<User>, db: &mut Db, transaction_size: usize) -> (r: Result<
    (),
    SaveError,
>)
    requires
        transaction_size > 0,
    ensures
        users@.len() == 0 ==> r is Ok && final(db).trace@ == old(db).trace@,
        exists|
            log: Seq<(SaveStep, Result<(), rusqlite::Error>)>,
            segs: Seq<Seq<DbEvent>>,
            tail: Seq<DbEvent>,
        |
            #[trigger] save_trace_gives(
                log,
                segs,
                tail,
                users@,
                save_batches(users@.len() as int, transaction_size as int),
                old(db).trace@,
                final(db).trace@,
                r,
            ),
{
    let ghost t0 = db.trace@;
    let batches = chunk_indices(users.len(), transaction_size);
    let ghost plan = vec_views(batches@);
    let ghost mut log: Seq<(SaveStep, Result<(), rusqlite::Error>)> = Seq::empty();
    let ghost mut segs: Seq<Seq<DbEvent>> = Seq::empty();
    proof {
        lemma_chunk_indices_in_range(users@.len() as int, transaction_size as int);
        lemma_ceil_div_bounds(users@.len() as int, transaction_size as int);
        assert(plan.take(0) =~= Seq::<Seq<usize>>::empty());
        assert(log_steps(log) =~= planned_steps(plan.take(0)));
        assert(t0 + segs.flatten() =~= t0);
    }
    let mut b: usize = 0;
    while b < batches.len()
        invariant
            plan == vec_views(batches@),
            plan == save_batches(users@.len() as int, transaction_size as int),
            users@.len() == 0 ==> plan.len() == 0,
            forall|x: int, k: int|
                0 <= x < plan.len() && 0 <= k < plan[x].len() ==> (#[trigger] plan[x][k])
                    < users@.len(),
            b <= batches@.len(),
            log_steps(log) == planned_steps(plan.take(b as int)),
            forall|i: int| 0 <= i < log.len() ==> (#[trigger] log[i]).1 is Ok,
            segs.len() == log.len(),
            forall|j: int|
                0 <= j < log.len() ==> #[trigger] step_events(log[j].0, log[j].1, segs[j], users@),
            db.trace@ == t0 + segs.flatten(),
            t0 == old(db).trace@,
        decreases batches@.len() - b,
    {
        let batch = &batches[b];
        proof {
            assert(batch@ == plan[b as int]);
            lemma_steps_prefix(plan, b as int, 1);
            lemma_batch_step_next(planned_steps(plan.take(b as int)), plan[b as int], 0);
            assert(planned_steps(plan.take(b as int)) =~= planned_steps(plan.take(b as int))
                + batch_steps(plan[b as int]).take(0));
        }
        let begun = run_command(db, BEGIN_SQL);
        let ghost entry = (SaveStep::Begin, begun);
        let ghost seg = seq![DbEvent::Command(BEGIN_SQL@, begun)];
        proof {
            lemma_record_step(log, segs, users@, entry, seg);
            log = log.push(entry);
            segs = segs.push(seg);
            assert(db.trace@ =~= t0 + segs.flatten());
            assert(log_steps(log) == planned_steps(plan.take(b as int)) + batch_steps(
                plan[b as int],
            ).take(1));
        }
        match begun {
            Ok(()) => {},
            Err(e) => {
                let failure = SaveError { user_id: None, error: e };
                proof {
                    lemma_log_on_plan(log, plan, b as int, 1);
                    assert(db.trace@ =~= t0 + segs.flatten() + Seq::<DbEvent>::empty());
                    assert(save_trace_gives(
                        log,
                        segs,
                        Seq::empty(),
                        users@,
                        save_batches(users@.len() as int, transaction_size as int),
                        t0,
                        db.trace@,
                        Err(failure),
                    ));
                }
                return Err(failure);
            },
        }
        let mut k: usize = 0;
        while k < batch.len()
            invariant
                plan == vec_views(batches@),
                plan == save_batches(users@.len() as int, transaction_size as int),
                users@.len() == 0 ==> plan.len() == 0,
                b < plan.len(),
                batch@ == plan[b as int],
                forall|x: int, j: int|
                    0 <= x < plan.len() && 0 <= j < plan[x].len() ==> (#[trigger] plan[x][j])
                        < users@.len(),
                k <= batch@.len(),
                log_steps(log) == planned_steps(plan.take(b as int)) + batch_steps(
                    plan[b as int],
                ).take(k + 1),
                forall|i: int| 0 <= i < log.len() ==> (#[trigger] log[i]).1 is Ok,
                segs.len() == log.len(),
                forall|j: int|
                    0 <= j < log.len() ==> #[trigger] step_events(
                        log[j].0,
                        log[j].1,
                        segs[j],
                        users@,
                    ),
                db.trace@ == t0 + segs.flatten(),
                t0 == old(db).trace@,
            t0 == old(db).trace@,
            decreases batch@.len() - k,
        {
            let i: usize = batch[k];
            proof {
                assert(i == plan[b as int][k as int]);
                lemma_steps_prefix(plan, b as int, k + 2);
                lemma_batch_step_next(planned_steps(plan.take(b as int)), plan[b as int], k + 1);
            }
            let ghost before = db.trace@;
            let stored = users[i].store(db, OBJECTS_TABLE);
            let ghost wlog = choose|wlog: Seq<(UpsertView, Result<usize, rusqlite::Error>)>|
                #[trigger] writes_give(wlog, users@[i as int].spec_rows(OBJECTS_TABLE@), stored)
                    && db.trace@ == before + write_events(wlog);
            let ghost entry = (SaveStep::Store(i as int), unit_of(stored));
            let ghost seg = write_events(wlog);
            proof {
                assert(writes_give(
                    wlog,
                    users@[i as int].spec_rows(OBJECTS_TABLE@),
                    fold_written(log_answers(wlog)),
                ));
                assert(step_events(entry.0, entry.1, seg, users@));
                lemma_record_step(log, segs, users@, entry, seg);
                log = log.push(entry);
                segs = segs.push(seg);
                assert(db.trace@ =~= t0 + segs.flatten());
                assert(log_steps(log) == planned_steps(plan.take(b as int)) + batch_steps(
                    plan[b as int],
                ).take(k + 2));
            }
            match stored {
                Ok(_) => {},
                Err(e) => {
                    let rolled = run_command(db, ROLLBACK_SQL);
                    let ghost tail = seq![DbEvent::Command(ROLLBACK_SQL@, rolled)];
                    let failure = SaveError { user_id: Some(users[i].id), error: e };
                    proof {
                        lemma_log_on_plan(log, plan, b as int, k + 2);
                        assert(db.trace@ =~= t0 + segs.flatten() + tail);
                        assert(save_trace_gives(
                            log,
                            segs,
                            tail,
                            users@,
                            save_batches(users@.len() as int, transaction_size as int),
                            t0,
                            db.trace@,
                            Err(failure),
                        ));
                    }
                    return Err(failure);
                },
            }
            k = k + 1;
        }
        proof {
            let n_steps = batch_steps(plan[b as int]).len() as int;
            lemma_steps_prefix(plan, b as int, n_steps);
            lemma_batch_step_next(planned_steps(plan.take(b as int)), plan[b as int], n_steps - 1);
            assert(batch_steps(plan[b as int]).take(n_steps) =~= batch_steps(plan[b as int]));
        }
        let committed = run_command(db, COMMIT_SQL);
        let ghost entry = (SaveStep::Commit, committed);
        let ghost seg = seq![DbEvent::Command(COMMIT_SQL@, committed)];
        proof {
            lemma_record_step(log, segs, users@, entry, seg);
            log = log.push(entry);
            segs = segs.push(seg);
            assert(db.trace@ =~= t0 + segs.flatten());
            assert(log_steps(log) == planned_steps(plan.take(b as int)) + batch_steps(
                plan[b as int],
            ));
        }
        match committed {
            Ok(()) => {},
            Err(e) => {
                let rolled = run_command(db, ROLLBACK_SQL);
                let ghost tail = seq![DbEvent::Command(ROLLBACK_SQL@, rolled)];
                let failure = SaveError { user_id: None, error: e };
                proof {
                    lemma_log_on_plan(
                        log,
                        plan,
                        b as int,
                        batch_steps(plan[b as int]).len() as int,
                    );
                    assert(db.trace@ =~= t0 + segs.flatten() + tail);
                    assert(save_trace_gives(
                        log,
                        segs,
                        tail,
                        users@,
                        save_batches(users@.len() as int, transaction_size as int),
                        t0,
                        db.trace@,
                        Err(failure),
                    ));
                }
                return Err(failure);
            },
        }
        b = b + 1;
    }
    proof {
        assert(plan.take(plan.len() as int) =~= plan);
        assert(log_steps(log).len() == log.len());
        assert(planned_steps(plan).take(log.len() as int) =~= planned_steps(plan));
        assert(db.trace@ =~= t0 + segs.flatten() + Seq::<DbEvent>::empty());
        assert(save_trace_gives(log, segs, Seq::empty(), users@, plan, t0, db.trace@, Ok(())));
    }
    Ok(())
}

/// Profiles are saved in `ceil(n / size)` batches, none empty and none
/// larger than `size`, which together name every profile once, in order.
pub proof fn lemma_save_batches(n: nat, size: nat)
    requires
        size > 0,
    ensures
        save_batches(n as int, size as int).len() == ceil_div(n as int, size as int),
        forall|b: int|
            0 <= b < save_batches(n as int, size as int).len() ==> 0 < (
            #[trigger] save_batches(n as int, size as int)[b]).len() <= size,
        save_batches(n as int, size as int).flatten() == indices(n as int),
{
    lemma_chunks_partition(indices(n as int), size as int);
}

/// Every row that saving the profiles `users` hands to the store, in order.
pub open spec fn users_rows(users: Seq<User>) -> Seq<UpsertView> {
    users.map_values(|u: User| u.spec_rows(OBJECTS_TABLE@)).flatten()
}

/// Saving the same profiles a second time leaves the store exactly as saving
/// them once left it, whatever conflict key each table has.
pub proof fn lemma_save_users_idempotent<K>(
    users: Seq<User>,
    store: Map<K, UpsertView>,
    key: spec_fn(UpsertView) -> K,
)
    ensures
        apply_upserts(apply_upserts(store, users_rows(users), key), users_rows(users), key)
            == apply_upserts(store, users_rows(users), key),
{
    lemma_upserts_idempotent(store, users_rows(users), key);
}

/// The rows among `rows` that go to `table`.
pub open spec fn rows_in(rows: Seq<UpsertView>, table: Seq<char>) -> Seq<UpsertView> {
    rows.filter(|r: UpsertView| r.table == table)
}

proof fn lemma_rows_in_other_table(rows: Seq<UpsertView>, table: Seq<char>, other: Seq<char>)
    requires
        other != table,
        forall|i: int| 0 <= i < rows.len() ==> (#[trigger] rows[i]).table == other,
    ensures
        rows_in(rows, table) == Seq::<UpsertView>::empty(),
    decreases rows.len(),
{
    reveal(Seq::filter);
    if rows.len() > 0 {
        lemma_rows_in_other_table(rows.drop_last(), table, other);
        assert(rows.last().table == other);
    }
}

proof fn lemma_rows_in_same_table(rows: Seq<UpsertView>, table: Seq<char>)
    requires
        forall|i: int| 0 <= i < rows.len() ==> (#[trigger] rows[i]).table == table,
    ensures
        rows_in(rows, table) == rows,
    decreases rows.len(),
{
    reveal(Seq::filter);
    if rows.len() > 0 {
        lemma_rows_in_same_table(rows.drop_last(), table);
        assert(rows.last().table == table);
        assert(rows.drop_last().push(rows.last()) =~= rows);
    }
}

proof fn lemma_part_rows_in<E: StoreExt>(
    part: Option<E>,
    table: Seq<char>,
    user_id: i64,
    target: Seq<char>,
)
    ensures
        table != target ==> rows_in(opt_rows(part, table, user_id), target) == Seq::<
            UpsertView,
        >::empty(),
        table == target ==> rows_in(opt_rows(part, table, user_id), target) == opt_rows(
            part,
            table,
            user_id,
        ),
{
    match part {
        Some(e) => {
            e.lemma_rows_in_table(table, user_id);
        },
        None => {},
    }
    if table != target {
        lemma_rows_in_other_table(opt_rows(part, table, user_id), target, table);
    } else {
        lemma_rows_in_same_table(opt_rows(part, table, user_id), target);
    }
}

proof fn lemma_rows_in_add(a: Seq<UpsertView>, b: Seq<UpsertView>, table: Seq<char>)
    ensures
        rows_in(a + b, table) == rows_in(a, table) + rows_in(b, table),
{
    Seq::filter_distributes_over_add(a, b, |r: UpsertView| r.table == table);
}

/// A part stored in another table adds no row to `target`.
proof fn lemma_part_skipped<E: StoreExt>(
    acc: Seq<UpsertView>,
    part: Option<E>,
    table: Seq<char>,
    user_id: i64,
    target: Seq<char>,
)
    requires
        table.len() > 0,
        target.len() > 0,
        table[0] != target[0],
    ensures
        rows_in(acc + opt_rows(part, table, user_id), target) == rows_in(acc, target),
{
    lemma_part_rows_in(part, table, user_id, target);
    lemma_rows_in_add(acc, opt_rows(part, table, user_id), target);
    assert(rows_in(acc, target) + Seq::<UpsertView>::empty() =~= rows_in(acc, target));
}

/// Only a populated `personal` record is stored: the empty sentinel, like an
/// absent record, leaves the `personal` table without a row for the profile,
/// and a record gives it exactly one.
#[verifier::rlimit(60)]
pub proof fn lemma_personal_rows(user: User, table: Seq<char>)
    requires
        table != "personal"@,
    ensures
        match user.personal {
            Some(Personal::Value(info)) => rows_in(user.spec_rows(table), "personal"@) == seq![
                info.spec_upsert("personal"@, user.id),
            ],
            _ => rows_in(user.spec_rows(table), "personal"@).len() == 0,
        },
{
    let target = "personal"@;
    reveal_strlit("personal");
    let own = seq![UpsertView { table, columns: USER_COLUMNS@, values: user.spec_values() }];
    lemma_rows_in_other_table(own, target, table);
    let mut acc = own;
    let mut found = Seq::<UpsertView>::empty();
    reveal_strlit("career");
    lemma_part_skipped(acc, user.career, "career"@, user.id, target);
    acc = acc + opt_rows(user.career, "career"@, user.id);
    reveal_strlit("city");
    lemma_part_skipped(acc, user.city, "city"@, user.id, target);
    acc = acc + opt_rows(user.city, "city"@, user.id);
    reveal_strlit("counters");
    lemma_part_skipped(acc, user.counters, "counters"@, user.id, target);
    acc = acc + opt_rows(user.counters, "counters"@, user.id);
    reveal_strlit("country");
    lemma_part_skipped(acc, user.country, "country"@, user.id, target);
    acc = acc + opt_rows(user.country, "country"@, user.id);
    reveal_strlit("education");
    lemma_part_skipped(acc, user.education, "education"@, user.id, target);
    acc = acc + opt_rows(user.education, "education"@, user.id);
    reveal_strlit("last_seen");
    lemma_part_skipped(acc, user.last_seen, "last_seen"@, user.id, target);
    acc = acc + opt_rows(user.last_seen, "last_seen"@, user.id);
    lemma_part_rows_in(user.personal, target, user.id, target);
    lemma_rows_in_add(acc, opt_rows(user.personal, target, user.id), target);
    found = opt_rows(user.personal, target, user.id);
    acc = acc + opt_rows(user.personal, target, user.id);
    reveal_strlit("contacts");
    lemma_part_skipped(acc, user.contacts, "contacts"@, user.id, target);
    acc = acc + opt_rows(user.contacts, "contacts"@, user.id);
    reveal_strlit("military");
    lemma_part_skipped(acc, user.military, "military"@, user.id, target);
    acc = acc + opt_rows(user.military, "military"@, user.id);
    reveal_strlit("occupation");
    lemma_part_skipped(acc, user.occupation, "occupation"@, user.id, target);
    acc = acc + opt_rows(user.occupation, "occupation"@, user.id);
    reveal_strlit("relatives");
    lemma_part_skipped(acc, user.relatives, "relatives"@, user.id, target);
    acc = acc + opt_rows(user.relatives, "relatives"@, user.id);
    reveal_strlit("relation_partner");
    lemma_part_skipped(acc, user.relation_partner, "relation_partner"@, user.id, target);
    acc = acc + opt_rows(user.relation_partner, "relation_partner"@, user.id);
    reveal_strlit("schools");
    lemma_part_skipped(acc, user.schools, "schools"@, user.id, target);
    acc = acc + opt_rows(user.schools, "schools"@, user.id);
    reveal_strlit("universities");
    lemma_part_skipped(acc, user.universities, "universities"@, user.id, target);
    acc = acc + opt_rows(user.universities, "universities"@, user.id);
    assert(rows_in(acc, target) == found);
    assert(acc == user.spec_rows(table));
    match user.personal {
        Some(Personal::Value(info)) => {
            assert(found =~= seq![info.spec_upsert("personal"@, user.id)]);
        },
        _ => {
            assert(found =~= Seq::<UpsertView>::empty());
        },
    }
}

/// Two stores of the same profile that both succeed write exactly the
/// profile's rows, so the second leaves the store as the first left it,
/// whatever conflict key each table has: two schools stay two rows.
pub proof fn lemma_store_twice_idempotent<K>(
    user: User,
    table: Seq<char>,
    first: Seq<(UpsertView, Result<usize, rusqlite::Error>)>,
    second: Seq<(UpsertView, Result<usize, rusqlite::Error>)>,
    n1: usize,
    n2: usize,
    store: Map<K, UpsertView>,
    key: spec_fn(UpsertView) -> K,
)
    requires
        writes_give(first, user.spec_rows(table), Ok(n1)),
        writes_give(second, user.spec_rows(table), Ok(n2)),
    ensures
        log_writes(first) == user.spec_rows(table),
        log_writes(second) == user.spec_rows(table),
        apply_upserts(apply_upserts(store, log_writes(first), key), log_writes(second), key)
            == apply_upserts(store, log_writes(first), key),
{
    lemma_success_wrote_all(first, user.spec_rows(table), n1);
    lemma_success_wrote_all(second, user.spec_rows(table), n2);
    lemma_upserts_idempotent(store, user.spec_rows(table), key);
}

} // verus!
