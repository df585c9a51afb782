use cute_fox::storage::{add_written, execute_all, Db, SqlValue, Upsert};
use cute_fox::chunking::chunk_indices;
use cute_fox::stages::users::{
    save_users, Career, CareerInfo, City, Contacts, Personal, PersonalInfo, Relative, Relatives,
    School, Schools, StoreExt,
    User, OBJECTS_TABLE, USER_COLUMNS,
};
use cute_fox::{CuteValue, SqliteStorage};
use rusqlite::Connection;

fn blank_user(id: i64) -> User {
    User {
        id,
        first_name: String::from("Ann"),
        last_name: String::from("Lee"),
        deactivated: None,
        is_closed: None,
        about: None,
        activities: None,
        bdate: None,
        books: None,
        career: None,
        city: None,
        skype: None,
        facebook: None,
        twitter: None,
        livejournal: None,
        instagram: None,
        contacts: None,
        counters: None,
        country: None,
        domain: None,
        education: None,
        followers_count: None,
        games: None,
        has_mobile: None,
        has_photo: None,
        home_town: None,
        interests: None,
        last_seen: None,
        maiden_name: None,
        military: None,
        movies: None,
        music: None,
        nickname: None,
        occupation: None,
        personal: None,
        photo_max_orig: None,
        quotes: None,
        relatives: None,
        relation: None,
        relation_partner: None,
        schools: None,
        screen_name: None,
        sex: None,
        site: None,
        status: None,
        tv: None,
        universities: None,
        verified: None,
    }
}

fn school(id: &str, name: &str) -> School {
    School {
        id: Some(String::from(id)),
        country: 1,
        city: 2,
        name: Some(String::from(name)),
        year_from: Some(2001),
        year_to: None,
        year_graduated: None,
        class: None,
        speciality: None,
        kind: Some(3),
    }
}

fn personal_info() -> PersonalInfo {
    PersonalInfo {
        political: None,
        langs: Some(vec![String::from("English"), String::from("Français")]),
        religion: None,
        inspired_by: Some(String::from("books")),
        people_main: Some(2),
        life_main: Some(6),
        smoking: None,
        alcohol: Some(0),
    }
}

fn open_store() -> Connection {
    let conn = Connection::open_in_memory().unwrap();
    let create = format!(
        "CREATE TABLE objects (id INTEGER PRIMARY KEY, {});
         CREATE TABLE schools (user_id INTEGER, id TEXT, country INTEGER, city INTEGER, name TEXT,
             year_from INTEGER, year_to INTEGER, year_graduated INTEGER, class TEXT,
             speciality TEXT, type INTEGER, PRIMARY KEY (user_id, id));
         CREATE TABLE personal (user_id INTEGER PRIMARY KEY, political INTEGER, langs TEXT,
             religion TEXT, inspired_by TEXT, people_main INTEGER, life_main INTEGER,
             smoking INTEGER, alcohol INTEGER);
         CREATE TABLE city (user_id INTEGER PRIMARY KEY, id INTEGER, title TEXT);",
        USER_COLUMNS.trim_start_matches("id, ")
    );
    conn.execute_batch(&create).unwrap();
    conn
}

fn count(conn: &Connection, table: &str) -> i64 {
    conn.query_row(&format!("SELECT COUNT(*) FROM {}", table), [], |r| r.get(0)).unwrap()
}

#[test]
fn profile_without_parts_is_one_row() {
    let mut user = blank_user(42);
    user.is_closed = Some(true);
    user.sex = Some(2);
    let rows = user.rows(OBJECTS_TABLE);
    assert_eq!(rows.len(), 1);
    assert_eq!(rows[0].table, "objects");
    assert_eq!(rows[0].values.len(), 33);
    assert!(matches!(rows[0].values[0], SqlValue::Integer(42)));
    assert!(matches!(&rows[0].values[1], SqlValue::Text(t) if t == "Ann"));
    assert!(matches!(rows[0].values[3], SqlValue::Null));
    assert!(matches!(rows[0].values[4], SqlValue::Integer(1)));
    assert!(matches!(rows[0].values[23], SqlValue::Integer(2)));
}

#[test]
fn upsert_statement_text() {
    let city = City { id: 1, title: String::from("Paris") };
    let rows = city.rows("city", 42);
    assert_eq!(rows.len(), 1);
    assert_eq!(rows[0].sql(), "INSERT OR REPLACE INTO city (user_id, id, title) VALUES (?, ?, ?)");
    let bare = Upsert { table: String::from("t"), columns: String::new(), values: Vec::new() };
    assert_eq!(bare.sql(), "INSERT OR REPLACE INTO t () VALUES ()");
}

#[test]
fn parts_follow_the_profile_row() {
    let mut user = blank_user(42);
    user.schools = Some(Schools::Value(vec![school("10", "A"), school("11", "B")]));
    user.city = Some(City { id: 5, title: String::from("Town") });
    let rows = user.rows(OBJECTS_TABLE);
    let tables: Vec<&str> = rows.iter().map(|r| r.table.as_str()).collect();
    assert_eq!(tables, vec!["objects", "city", "schools", "schools"]);
    assert!(matches!(rows[2].values[0], SqlValue::Integer(42)));
    assert!(matches!(&rows[3].values[4], SqlValue::Text(t) if t == "B"));
}

#[test]
fn career_one_or_many() {
    let info = |company: &str| CareerInfo {
        group_id: None,
        company: Some(String::from(company)),
        country_id: None,
        city_id: None,
        city_name: None,
        from: Some(2010),
        until: None,
        position: None,
    };
    assert_eq!(Career::One(info("X")).rows("career", 1).len(), 1);
    assert_eq!(Career::Many(vec![info("X"), info("Y"), info("Z")]).rows("career", 1).len(), 3);
    assert_eq!(Career::Many(Vec::new()).rows("career", 1).len(), 0);
}

#[test]
fn empty_personal_sentinel_gives_no_row() {
    let mut user = blank_user(7);
    user.personal = Some(Personal::Empty(Vec::new()));
    let rows = user.rows(OBJECTS_TABLE);
    assert_eq!(rows.iter().filter(|r| r.table == "personal").count(), 0);

    user.personal = Some(Personal::Value(personal_info()));
    let rows = user.rows(OBJECTS_TABLE);
    assert_eq!(rows.iter().filter(|r| r.table == "personal").count(), 1);
}

#[test]
fn personal_languages_are_joined() {
    let rows = Personal::Value(personal_info()).rows("personal", 7);
    assert!(matches!(&rows[0].values[2], SqlValue::Text(t) if t == "English, Français"));
    assert!(matches!(rows[0].values[1], SqlValue::Null));
}

#[test]
fn contacts_without_numbers_are_not_stored() {
    let none = Contacts { mobile_phone: None, home_phone: None };
    assert!(none.rows("contacts", 1).is_empty());
    let some = Contacts { mobile_phone: Some(String::from("123")), home_phone: None };
    assert_eq!(some.rows("contacts", 1).len(), 1);
}

#[test]
fn storing_a_profile_twice_keeps_one_copy() {
    let mut db = Db::new(open_store());
    let mut user = blank_user(42);
    user.schools = Some(Schools::Value(vec![school("10", "A"), school("11", "B")]));
    user.personal = Some(Personal::Value(personal_info()));
    user.store(&mut db, OBJECTS_TABLE).unwrap();
    user.store(&mut db, OBJECTS_TABLE).unwrap();
    assert_eq!(count(&db.connection, "objects"), 1);
    assert_eq!(count(&db.connection, "schools"), 2);
    assert_eq!(count(&db.connection, "personal"), 1);
    let names: Vec<String> = db
        .connection
        .prepare("SELECT name FROM schools ORDER BY id")
        .unwrap()
        .query_map([], |r| r.get(0))
        .unwrap()
        .map(|n| n.unwrap())
        .collect();
    assert_eq!(names, vec![String::from("A"), String::from("B")]);
}

#[test]
fn stored_personal_sentinel_writes_nothing() {
    let mut db = Db::new(open_store());
    let mut user = blank_user(5);
    user.personal = Some(Personal::Empty(Vec::new()));
    user.store(&mut db, OBJECTS_TABLE).unwrap();
    assert_eq!(count(&db.connection, "personal"), 0);
    assert_eq!(count(&db.connection, "objects"), 1);
}

#[test]
fn failing_write_is_reported() {
    let mut db = Db::new(open_store());
    let mut user = blank_user(5);
    user.counters = Some(cute_fox::stages::users::Counters {
        albums: 0,
        videos: 0,
        audios: 0,
        photos: 0,
        notes: 0,
        friends: 0,
        groups: 0,
        user_videos: 0,
        followers: 0,
        pages: 0,
    });
    // The store has no `counters` table.
    assert!(user.store(&mut db, OBJECTS_TABLE).is_err());
}

#[test]
fn save_commits_every_batch() {
    let mut db = Db::new(open_store());
    let users: Vec<User> = (1..=5).map(blank_user).collect();
    CuteValue::Users(users).save(&mut db, 2).unwrap();
    assert_eq!(count(&db.connection, "objects"), 5);
}

#[test]
fn failed_batch_rolls_back_alone() {
    let mut db = Db::new(open_store());
    let mut users: Vec<User> = (1..=5).map(blank_user).collect();
    users[3].last_seen = Some(cute_fox::stages::users::LastSeen { time: 1, platform: 7 });
    let result = save_users(&users, &mut db, 2);
    let failure = result.unwrap_err();
    assert_eq!(failure.user_id, Some(4));
    // Batches [1, 2] and [3, 4] ran; the second failed on profile 4 and was rolled back.
    assert_eq!(count(&db.connection, "objects"), 2);
}

fn relative(id: i64, kind: &str) -> Relative {
    Relative { id: Some(id), name: None, kind: String::from(kind) }
}

#[test]
fn written_counts_saturate_and_errors_pass_through() {
    assert_eq!(add_written(3, Ok(2)).unwrap(), 5);
    assert_eq!(add_written(usize::MAX - 1, Ok(5)).unwrap(), usize::MAX);
    let failed = add_written(7, Err(rusqlite::Error::QueryReturnedNoRows));
    assert!(matches!(failed, Err(rusqlite::Error::QueryReturnedNoRows)));
}

#[test]
fn batches_cut_indices_in_order() {
    assert_eq!(chunk_indices(5, 2), vec![vec![0, 1], vec![2, 3], vec![4]]);
    assert!(chunk_indices(0, 3).is_empty());
}

#[test]
fn nothing_to_write_asks_nothing() {
    // No table exists: any write would fail.
    let mut db = Db::new(Connection::open_in_memory().unwrap());
    assert_eq!(execute_all(&mut db, &Vec::new()).unwrap(), 0);
    assert_eq!(Personal::Empty(Vec::new()).store(&mut db, "personal", 42).unwrap(), 0);
    assert_eq!(Relatives::Value(Vec::new()).store(&mut db, "relatives", 42).unwrap(), 0);
    let none = Contacts { mobile_phone: None, home_phone: None };
    assert_eq!(none.store(&mut db, "contacts", 42).unwrap(), 0);
    let mut empty = Db::new(Connection::open_in_memory().unwrap());
    assert!(save_users(&Vec::new(), &mut empty, 3).is_ok());
}

#[test]
fn list_parts_count_rows_written() {
    let mut db = Db::new(Connection::open_in_memory().unwrap());
    db.connection.execute_batch("CREATE TABLE relatives (user_id INTEGER, id INTEGER, name TEXT, type TEXT);")
        .unwrap();
    let rows = Relatives::Value(vec![relative(1, "sibling"), relative(2, "child")]);
    assert_eq!(rows.store(&mut db, "relatives", 9).unwrap(), 2);
    let personal = Personal::Value(personal_info());
    assert!(personal.store(&mut db, "personal", 9).is_err());
}

#[test]
fn first_failed_write_stops_the_rest() {
    let mut db = Db::new(Connection::open_in_memory().unwrap());
    db.connection.execute_batch(
        "CREATE TABLE relatives (user_id INTEGER, id INTEGER UNIQUE, name TEXT, type TEXT NOT NULL);",
    )
    .unwrap();
    let ops = vec![
        relative(1, "a").rows("relatives", 9).remove(0),
        relative(2, "b").rows("missing_table", 9).remove(0),
        relative(3, "c").rows("relatives", 9).remove(0),
    ];
    assert!(execute_all(&mut db, &ops).is_err());
    assert_eq!(count(&db.connection, "relatives"), 1);
}
