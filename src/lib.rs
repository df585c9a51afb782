//! Fetches profiles and group rosters from a rate-limited remote API with a
//! pool of credentials, and maps each profile onto rows of a normalized store.
//!
//! The library decides; the caller performs. Network round trips, pacing
//! delays and database writes are carried out by the caller, which hands the
//! results back to the verified planners and state machines found here.
use vstd::prelude::*;

pub mod chunking;
pub mod fanout;
pub mod requests;
pub mod storage;
pub mod stages;

use crate::chunking::{chunk_ids, chunks_of, indices, lemma_chunks_partition, vec_views};
use crate::fanout::{lemma_rounds_shape, plan_rounds};
use crate::requests::api_manager::ApiManager;
use crate::stages::users::{
    save_batches, save_trace_gives, save_users, SaveError, SaveStep, User,
};
use crate::storage::{Db, DbEvent};

verus! {

/// How many profile ids one fan-out call asks for.
pub const USERS_CHUNK_SIZE: usize = 1000;

#[verifier::external_type_specification]
#[verifier::external_body]
pub struct ExSerdeJsonError(serde_json::Error);

#[verifier::external_type_specification]
#[verifier::external_body]
pub struct ExReqwestError(reqwest::Error);

#[verifier::external_type_specification]
#[verifier::external_body]
pub struct ExJoinError(tokio::task::JoinError);

/// Why a fetch failed.
#[derive(Debug)]
pub enum RobberError {
    /// The response body was not the expected JSON shape.
    SerdeError(serde_json::Error),
    /// The request could not be sent, or its body not read.
    ReqwestError(reqwest::Error),
    /// A concurrently dispatched call could not be awaited to completion.
    JoinError(tokio::task::JoinError),
    /// The remote side answered without a usable `response` payload.
    APIError,
    /// A task was given to an orchestrator without any credential.
    NoCredentials,
}

/// One unit of work for the orchestrator.
#[derive(Debug, Clone)]
pub enum CuteTask {
    /// The profiles of every member of a group.
    GetMembers { group_id: i32, fields: String },
    /// The profiles of the given ids.
    GetUsers { user_ids: Vec<i32>, fields: String },
}

/// What a task produced.
#[derive(Debug)]
pub enum CuteValue {
    Users(Vec<User>),
}

/// Something that can be written to the relational store.
pub trait SqliteStorage: Sized {
    /// The profiles held, in the order they are written.
    spec fn records(&self) -> Seq<User>;

    /// Writes the profiles held in transactions of at most
    /// `transaction_size` profiles, in order, as [`save_users`] does.
    fn save(self, db: &mut Db, transaction_size: usize) -> (r: Result<(), SaveError>)
        requires
            transaction_size > 0,
        ensures
            self.records().len() == 0 ==> r is Ok && final(db).trace@ == old(db).trace@,
            exists|
                log: Seq<(SaveStep, Result<(), rusqlite::Error>)>,
                segs: Seq<Seq<DbEvent>>,
                tail: Seq<DbEvent>,
            |
                #[trigger] save_trace_gives(
                    log,
                    segs,
                    tail,
                    self.records(),
                    save_batches(self.records().len() as int, transaction_size as int),
                    old(db).trace@,
                    final(db).trace@,
                    r,
                ),
    ;
}

impl SqliteStorage for CuteValue {
    open spec fn records(&self) -> Seq<User> {
        match self {
            CuteValue::Users(users) => users@,
        }
    }

    fn save(self, db: &mut Db, transaction_size: usize) -> (r: Result<(), SaveError>) {
        let ghost held = self.records();
        let r = match self {
            CuteValue::Users(users) => save_users(&users, db, transaction_size),
        };
        proof {
            assert(held == self.records());
        }
        r
    }
}

/// How a profile fetch is spread: the id chunks, and the chunks each round
/// launches.
pub struct FanOutPlan {
    pub chunks: Vec<Vec<i32>>,
    /// Round after round, the indices into `chunks` it launches; the `j`-th
    /// of a round goes through the `j`-th credential.
    pub rounds: Vec<Vec<usize>>,
}

/// The orchestrator: a pool of credentials, shared by every call it launches.
pub struct CuteFox {
    pub managers: Vec<ApiManager>,
}

impl CuteFox {
    /// One client per token, all speaking `api_version`, in token order.
    pub fn new(tokens: &[String], api_version: &str) -> (r: Self)
        ensures
            r.managers@.len() == tokens@.len(),
            forall|i: int|
                0 <= i < tokens@.len() ==> (#[trigger] r.managers@[i]).token@ == tokens@[i]@
                    && r.managers@[i].version@ == api_version@,
    {
        let mut managers: Vec<ApiManager> = Vec::new();
        let mut i: usize = 0;
        while i < tokens.len()
            invariant
                i <= tokens@.len(),
                managers@.len() == i,
                forall|j: int|
                    0 <= j < i ==> (#[trigger] managers@[j]).token@ == tokens@[j]@
                        && managers@[j].version@ == api_version@,
            decreases tokens@.len() - i,
        {
            managers.push(ApiManager::new(tokens[i].as_str(), api_version));
            i = i + 1;
        }
        CuteFox { managers }
    }

    /// Plans the fetch of the profiles `user_ids`: chunks of
    /// [`USERS_CHUNK_SIZE`] ids in order, launched one per credential per
    /// round.
    pub fn plan_users(&self, user_ids: &Vec<i32>) -> (r: FanOutPlan)
        requires
            self.managers@.len() > 0,
        ensures
            vec_views(r.chunks@) == chunks_of(user_ids@, USERS_CHUNK_SIZE as int),
            vec_views(r.rounds@) == chunks_of(
                indices(r.chunks@.len() as int),
                self.managers@.len() as int,
            ),
    {
        let chunks = chunk_ids(user_ids, USERS_CHUNK_SIZE);
        let rounds = plan_rounds(chunks.len(), self.managers.len());
        FanOutPlan { chunks, rounds }
    }
}

/// Launching a fetch plan's rounds in order sends every id of the task once,
/// and only once: the chunks named by the rounds, round after round and slot
/// after slot, joined, are the ids in their order.
pub proof fn lemma_plan_covers_ids(
    user_ids: Seq<i32>,
    chunks: Seq<Seq<i32>>,
    rounds: Seq<Seq<usize>>,
    n_clients: nat,
)
    requires
        n_clients > 0,
        user_ids.len() <= usize::MAX,
        chunks == chunks_of(user_ids, USERS_CHUNK_SIZE as int),
        rounds == chunks_of(indices(chunks.len() as int), n_clients as int),
    ensures
        rounds.flatten().map_values(|c: usize| chunks[c as int]).flatten() == user_ids,
{
    lemma_rounds_shape(chunks.len(), n_clients);
    lemma_chunks_partition(user_ids, USERS_CHUNK_SIZE as int);
    crate::chunking::lemma_ceil_div_bounds(user_ids.len() as int, USERS_CHUNK_SIZE as int);
    assert(chunks.len() <= user_ids.len()) by (nonlinear_arith)
        requires
            chunks.len() > 0 ==> (chunks.len() - 1) * 1000 < user_ids.len(),
            chunks.len() >= 0,
    ;
    assert(rounds.flatten() == indices(chunks.len() as int));
    assert(rounds.flatten().map_values(|c: usize| chunks[c as int]) =~= chunks);
}

} // verus!
