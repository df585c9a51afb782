use cute_fox::requests::api_manager::{join_ids, to_decimal, ApiManager, API_VERSION};
use cute_fox::stages::groups::{GetMembers, GetMembersResponse, MembersCollector, MEMBERS_PAGE_SIZE};
use cute_fox::stages::users::{users_get_params, BatchFetch, User, UserGet};
use cute_fox::RobberError;

fn pair(name: &str, value: &str) -> (String, String) {
    (String::from(name), String::from(value))
}

fn page(count: i32, items: Vec<i32>) -> GetMembers {
    GetMembers { response: Some(GetMembersResponse { count, items }) }
}

fn named_user(id: i64) -> User {
    User {
        id,
        first_name: String::from("A"),
        last_name: String::from("B"),
        deactivated: None,
        is_closed: None,
        about: None,
        activities: None,
        bdate: None,
        books: None,
        career: None,
        city: None,
        skype: None,
        facebook: None,
        twitter: None,
        livejournal: None,
        instagram: None,
        contacts: None,
        counters: None,
        country: None,
        domain: None,
        education: None,
        followers_count: None,
        games: None,
        has_mobile: None,
        has_photo: None,
        home_town: None,
        interests: None,
        last_seen: None,
        maiden_name: None,
        military: None,
        movies: None,
        music: None,
        nickname: None,
        occupation: None,
        personal: None,
        photo_max_orig: None,
        quotes: None,
        relatives: None,
        relation: None,
        relation_partner: None,
        schools: None,
        screen_name: None,
        sex: None,
        site: None,
        status: None,
        tv: None,
        universities: None,
        verified: None,
    }
}

#[test]
fn decimal_forms() {
    assert_eq!(to_decimal(0), "0");
    assert_eq!(to_decimal(1000), "1000");
    assert_eq!(to_decimal(-42), "-42");
    assert_eq!(to_decimal(i32::MIN), "-2147483648");
}

#[test]
fn user_ids_are_comma_joined() {
    assert_eq!(join_ids(&vec![1, -2, 300]), "1,-2,300");
    assert_eq!(join_ids(&vec![544923642]), "544923642");
    assert_eq!(join_ids(&Vec::new()), "");
}

#[test]
fn credential_parameters_come_last() {
    let api = ApiManager::new("SECRET-REDACTED", API_VERSION);
    let query = api.query(vec![pair("group_id", "1"), pair("access_token", "caller")]);
    assert_eq!(
        query,
        vec![
            pair("group_id", "1"),
            pair("access_token", "caller"),
            pair("access_token", "SECRET-REDACTED"),
            pair("v", "5.130"),
        ]
    );
    assert_eq!(ApiManager::method_url("users.get"), "https://api.vk.com/method/users.get");
}

#[test]
fn users_get_parameters() {
    let params = users_get_params(&vec![5, 6, 7], "sex,bdate");
    assert_eq!(params, vec![pair("user_ids", "5,6,7"), pair("fields", "sex,bdate")]);
    let bare = users_get_params(&vec![1], "");
    assert_eq!(bare, vec![pair("user_ids", "1"), pair("fields", "")]);
}

#[test]
fn members_of_2500_take_three_calls() {
    let mut collector = MembersCollector::new(77);
    assert_eq!(MEMBERS_PAGE_SIZE, 1000);
    let mut offsets = Vec::new();
    let mut served = 0;
    while let Some(offset) = collector.next_offset() {
        offsets.push(offset);
        let start = offset;
        let end = (offset + 1000).min(2500);
        collector.on_page(page(2500, (start..end).collect())).unwrap();
        served += 1;
        assert!(served <= 3);
    }
    assert_eq!(offsets, vec![0, 1000, 2000]);
    let ids = collector.into_ids();
    assert_eq!(ids.len(), 2500);
    assert_eq!(ids, (0..2500).collect::<Vec<i32>>());
}

#[test]
fn members_parameters_carry_the_offset() {
    let collector = MembersCollector::new(-15);
    assert_eq!(
        collector.request_params(2000),
        vec![pair("group_id", "-15"), pair("offset", "2000")]
    );
}

#[test]
fn empty_group_takes_one_call() {
    let mut collector = MembersCollector::new(1);
    assert_eq!(collector.next_offset(), Some(0));
    collector.on_page(page(0, Vec::new())).unwrap();
    assert_eq!(collector.next_offset(), None);
    assert!(collector.is_done());
    assert!(collector.into_ids().is_empty());
}

#[test]
fn roster_of_exactly_one_page() {
    let mut collector = MembersCollector::with_page_size(1, 3);
    collector.on_page(page(3, vec![1, 2, 3])).unwrap();
    assert_eq!(collector.next_offset(), None);
    assert_eq!(collector.into_ids(), vec![1, 2, 3]);
}

#[test]
fn missing_response_fails_collection() {
    let mut collector = MembersCollector::new(1);
    collector.on_page(page(1500, (0..1000).collect())).unwrap();
    assert_eq!(collector.next_offset(), Some(1000));
    let failed = GetMembers { response: None };
    assert!(!failed.validate());
    assert!(matches!(collector.on_page(failed), Err(RobberError::APIError)));
    assert!(page(1, vec![1]).validate());
}

#[test]
fn checked_fetch_stops_at_failed_chunk() {
    let ids: Vec<i32> = (1..=5).collect();
    let mut fetch = BatchFetch::new(&ids, 2, true);
    assert_eq!(fetch.chunks, vec![vec![1, 2], vec![3, 4], vec![5]]);
    assert_eq!(fetch.next_params("sex"), Some(vec![pair("user_ids", "1,2"), pair("fields", "sex")]));
    let answer = UserGet { response: Some(vec![named_user(1), named_user(2)]) };
    fetch.on_answer(Ok(answer)).unwrap();
    assert_eq!(fetch.next, 1);
    assert_eq!(fetch.next_params("").unwrap()[0], pair("user_ids", "3,4"));
    let result = fetch.on_answer(Ok(UserGet { response: None }));
    assert!(matches!(result, Err(RobberError::APIError)));
    assert_eq!(fetch.next, 1);
    assert_eq!(fetch.into_users().len(), 2);
}

#[test]
fn best_effort_fetch_skips_failed_chunk() {
    let ids: Vec<i32> = (1..=5).collect();
    let mut fetch = BatchFetch::new(&ids, 2, false);
    fetch.on_answer(Ok(UserGet { response: None })).unwrap();
    fetch.on_answer(Err(RobberError::APIError)).unwrap();
    fetch.on_answer(Ok(UserGet { response: Some(vec![named_user(5)]) })).unwrap();
    assert!(fetch.is_done());
    assert_eq!(fetch.next_params(""), None);
    let users = fetch.into_users();
    assert_eq!(users.len(), 1);
    assert_eq!(users[0].id, 5);
}

#[test]
fn answer_without_response_is_api_error() {
    assert!(matches!(UserGet { response: None }.into_users(), Err(RobberError::APIError)));
    let users = UserGet { response: Some(vec![named_user(9)]) }.into_users().unwrap();
    assert_eq!(users[0].id, 9);
}
