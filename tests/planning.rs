use cute_fox::chunking::chunk_ids;
use cute_fox::fanout::{merge_results, plan_rounds};
use cute_fox::requests::api_manager::API_VERSION;
use cute_fox::stages::users::User;
use cute_fox::{CuteFox, RobberError, USERS_CHUNK_SIZE};

fn blank_user(id: i64) -> User {
    User {
        id,
        first_name: String::from("First"),
        last_name: String::from("Last"),
        deactivated: None,
        is_closed: None,
        about: None,
        activities: None,
        bdate: None,
        books: None,
        career: None,
        city: None,
        skype: None,
        facebook: None,
        twitter: None,
        livejournal: None,
        instagram: None,
        contacts: None,
        counters: None,
        country: None,
        domain: None,
        education: None,
        followers_count: None,
        games: None,
        has_mobile: None,
        has_photo: None,
        home_town: None,
        interests: None,
        last_seen: None,
        maiden_name: None,
        military: None,
        movies: None,
        music: None,
        nickname: None,
        occupation: None,
        personal: None,
        photo_max_orig: None,
        quotes: None,
        relatives: None,
        relation: None,
        relation_partner: None,
        schools: None,
        screen_name: None,
        sex: None,
        site: None,
        status: None,
        tv: None,
        universities: None,
        verified: None,
    }
}

#[test]
fn chunks_keep_order_and_bound_size() {
    let ids: Vec<i32> = (1..=2500).collect();
    let chunks = chunk_ids(&ids, 1000);
    assert_eq!(chunks.len(), 3);
    assert_eq!(chunks[0].len(), 1000);
    assert_eq!(chunks[1].len(), 1000);
    assert_eq!(chunks[2].len(), 500);
    assert_eq!(chunks[1][0], 1001);
    let joined: Vec<i32> = chunks.concat();
    assert_eq!(joined, ids);
}

#[test]
fn chunks_of_exact_multiple_and_empty() {
    let ids: Vec<i32> = (0..2000).collect();
    let chunks = chunk_ids(&ids, 1000);
    assert_eq!(chunks.len(), 2);
    assert!(chunks.iter().all(|c| c.len() == 1000));
    let empty: Vec<i32> = Vec::new();
    assert!(chunk_ids(&empty, 1000).is_empty());
    let one = chunk_ids(&vec![7], 3);
    assert_eq!(one, vec![vec![7]]);
}

#[test]
fn rounds_assign_one_chunk_per_client() {
    assert_eq!(plan_rounds(3, 2), vec![vec![0, 1], vec![2]]);
    assert_eq!(plan_rounds(4, 2), vec![vec![0, 1], vec![2, 3]]);
    assert_eq!(plan_rounds(2, 5), vec![vec![0, 1]]);
    assert!(plan_rounds(0, 3).is_empty());
    let rounds = plan_rounds(10, 3);
    assert_eq!(rounds.len(), 4);
    assert!(rounds.iter().all(|r| !r.is_empty() && r.len() <= 3));
}

#[test]
fn fan_out_two_credentials_2500_ids() {
    let tokens = vec![String::from("token-a"), String::from("token-b")];
    let fox = CuteFox::new(&tokens, API_VERSION);
    assert_eq!(fox.managers.len(), 2);
    assert_eq!(fox.managers[1].token, "token-b");
    assert_eq!(fox.managers[0].version, "5.130");

    let ids: Vec<i32> = (1..=2500).collect();
    let plan = fox.plan_users(&ids);
    assert_eq!(USERS_CHUNK_SIZE, 1000);
    assert_eq!(plan.chunks.len(), 3);
    assert_eq!(plan.rounds, vec![vec![0, 1], vec![2]]);

    // Every launched call answers with the profiles of its chunk.
    let mut results: Vec<Result<Vec<User>, RobberError>> = Vec::new();
    for round in &plan.rounds {
        for &chunk in round {
            let users = plan.chunks[chunk].iter().map(|&id| blank_user(id as i64)).collect();
            results.push(Ok(users));
        }
    }
    let merged = merge_results(results).unwrap();
    assert_eq!(merged.len(), 2500);
    let mut seen: Vec<i64> = merged.iter().map(|u| u.id).collect();
    seen.sort();
    seen.dedup();
    assert_eq!(seen.len(), 2500);
    assert_eq!(seen[0], 1);
    assert_eq!(seen[2499], 2500);
}

#[test]
fn merge_fails_on_any_failed_call() {
    let results: Vec<Result<Vec<i32>, RobberError>> =
        vec![Ok(vec![1, 2]), Err(RobberError::APIError), Ok(vec![3])];
    assert!(matches!(merge_results(results), Err(RobberError::APIError)));
}

#[test]
fn merge_returns_the_first_error_in_launch_order() {
    let decode = serde_json::from_str::<i32>("not a number").unwrap_err();
    let results: Vec<Result<Vec<i32>, RobberError>> = vec![
        Ok(vec![1]),
        Err(RobberError::SerdeError(decode)),
        Err(RobberError::APIError),
    ];
    assert!(matches!(merge_results(results), Err(RobberError::SerdeError(_))));
}

#[test]
fn merge_concatenates_in_launch_order() {
    let results: Vec<Result<Vec<i32>, RobberError>> =
        vec![Ok(vec![3, 4]), Ok(vec![]), Ok(vec![1])];
    assert_eq!(merge_results(results).unwrap(), vec![3, 4, 1]);
    let none: Vec<Result<Vec<i32>, RobberError>> = Vec::new();
    assert_eq!(merge_results(none).unwrap(), Vec::<i32>::new());
}

#[test]
fn merge_reports_transport_and_join_failures() {
    let transport = reqwest::Client::new().get("not a url").build().unwrap_err();
    let results: Vec<Result<Vec<i32>, RobberError>> =
        vec![Ok(vec![1]), Err(RobberError::ReqwestError(transport)), Ok(vec![2])];
    assert!(matches!(merge_results(results), Err(RobberError::ReqwestError(_))));

    let runtime = tokio::runtime::Runtime::new().unwrap();
    let joined = runtime.block_on(async {
        let handle = tokio::spawn(async { std::future::pending::<()>().await });
        handle.abort();
        handle.await.unwrap_err()
    });
    let results: Vec<Result<Vec<i32>, RobberError>> =
        vec![Err(RobberError::JoinError(joined)), Err(RobberError::APIError)];
    assert!(matches!(merge_results(results), Err(RobberError::JoinError(_))));
}
