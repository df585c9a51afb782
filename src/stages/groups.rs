//! Collecting the member ids of a group, page by page.
use crate::chunking::{ceil_div, chunks_of, lemma_ceil_div_bounds, lemma_chunks_partition};
use crate::requests::api_manager::{decimal, param, param_views, to_decimal};
use crate::RobberError;
use vstd::prelude::*;

verus! {

/// The remote method that lists a group's members.
pub const GET_MEMBERS_METHOD: &'static str = "groups.getMembers";

/// How many member ids one page of the listing holds.
pub const MEMBERS_PAGE_SIZE: i32 = 1000;

/// One page of a group's members, and the size of the whole roster.
#[derive(Debug)]
pub struct GetMembersResponse {
    pub count: i32,
    pub items: Vec<i32>,
}

/// An answer of the listing method; without `response` the remote side
/// reported a failure.
#[derive(Debug)]
pub struct GetMembers {
    pub response: Option<GetMembersResponse>,
}

impl GetMembers {
    pub fn validate(&self) -> (r: bool)
        ensures
            r == self.response.is_some(),
    {
        self.response.is_some()
    }
}

/// How many calls collect a roster of `count` ids: one per page, and at least
/// the first, which tells the count.
pub open spec fn page_calls(count: int, page_size: int) -> int {
    if count <= 0 {
        1
    } else {
        ceil_div(count, page_size)
    }
}

/// Where a collection stands.
pub struct CollectorState {
    pub page_size: int,
    /// The roster size, as the first page told it.
    pub count: int,
    /// How many pages have come back.
    pub fetched: int,
    /// The ids of those pages, in offset order.
    pub ids: Seq<i32>,
}

impl CollectorState {
    pub open spec fn start(page_size: int) -> CollectorState {
        CollectorState { page_size, count: 0, fetched: 0, ids: Seq::empty() }
    }

    pub open spec fn is_done(self) -> bool {
        self.fetched > 0 && self.fetched >= page_calls(self.count, self.page_size)
    }

    /// The offset of the next call, or none when the roster is complete.
    pub open spec fn next_offset(self) -> Option<int> {
        if self.is_done() {
            None
        } else {
            Some(self.fetched * self.page_size)
        }
    }

    /// The state after a page that says the roster holds `count` ids and
    /// carries `items`; only the first page's count is kept.
    pub open spec fn next(self, count: int, items: Seq<i32>) -> CollectorState {
        CollectorState {
            page_size: self.page_size,
            count: if self.fetched == 0 {
                count
            } else {
                self.count
            },
            fetched: self.fetched + 1,
            ids: self.ids + items,
        }
    }
}

/// The state after the pages `pages`, each answering its call, of a roster
/// that every page says holds `count` ids.
pub open spec fn feed(s: CollectorState, pages: Seq<Seq<i32>>, count: int) -> CollectorState
    decreases pages.len(),
{
    if pages.len() == 0 {
        s
    } else {
        feed(s, pages.drop_last(), count).next(count, pages.last())
    }
}

/// No more pieces than items, once there is one.
proof fn lemma_ceil_div_at_most(n: int, size: int)
    requires
        n > 0,
        size > 0,
    ensures
        1 <= ceil_div(n, size) <= n,
{
    lemma_ceil_div_bounds(n, size);
    assert(ceil_div(n, size) <= n) by (nonlinear_arith)
        requires
            (ceil_div(n, size) - 1) * size < n,
            size >= 1,
            ceil_div(n, size) >= 1,
    ;
}

/// Collects a group's roster. Calls are made one after another, in offset
/// order; the caller makes each call the collector asks for, waits the pacing
/// delay, and hands the answer back.
pub struct MembersCollector {
    pub group_id: i32,
    pub page_size: i32,
    pub count: i32,
    pub fetched: usize,
    pub ids: Vec<i32>,
}

impl View for MembersCollector {
    type V = CollectorState;

    open spec fn view(&self) -> CollectorState {
        CollectorState {
            page_size: self.page_size as int,
            count: self.count as int,
            fetched: self.fetched as int,
            ids: self.ids@,
        }
    }
}

impl MembersCollector {
    pub open spec fn wf(&self) -> bool {
        &&& self.page_size > 0
        &&& self.fetched > 0 ==> self.fetched <= page_calls(self.count as int, self.page_size as int)
    }

    pub fn new(group_id: i32) -> (r: Self)
        ensures
            r.wf(),
            r.group_id == group_id,
            r@ == CollectorState::start(MEMBERS_PAGE_SIZE as int),
    {
        Self::with_page_size(group_id, MEMBERS_PAGE_SIZE)
    }

    pub fn with_page_size(group_id: i32, page_size: i32) -> (r: Self)
        requires
            page_size > 0,
        ensures
            r.wf(),
            r.group_id == group_id,
            r@ == CollectorState::start(page_size as int),
    {
        let r = MembersCollector { group_id, page_size, count: 0, fetched: 0, ids: Vec::new() };
        proof {
            assert(r@ =~= CollectorState::start(page_size as int));
        }
        r
    }

    pub fn is_done(&self) -> (r: bool)
        requires
            self.wf(),
        ensures
            r == self@.is_done(),
    {
        if self.fetched == 0 {
            false
        } else if self.count <= 0 {
            true
        } else {
            proof {
                lemma_ceil_div_bounds(self.count as int, self.page_size as int);
            }
            let calls: i64 = (self.count as i64 + self.page_size as i64 - 1) / self.page_size as i64;
            self.fetched as i64 >= calls
        }
    }

    /// The offset of the next call to make, or `None` once the roster is
    /// complete.
    pub fn next_offset(&self) -> (r: Option<i32>)
        requires
            self.wf(),
        ensures
            r is None <==> self@.is_done(),
            r matches Some(o) ==> self@.next_offset() == Some(o as int),
    {
        if self.is_done() {
            None
        } else if self.fetched == 0 {
            assert(0 * (self.page_size as int) == 0);
            Some(0)
        } else {
            let f: usize = self.fetched;
            let p: i32 = self.page_size;
            proof {
                let q: int = ceil_div(self.count as int, p as int);
                lemma_ceil_div_bounds(self.count as int, p as int);
                assert(self.count > 0);
                lemma_ceil_div_at_most(self.count as int, p as int);
                assert(f * p <= (q - 1) * p) by (nonlinear_arith)
                    requires
                        f < q,
                        p > 0,
                ;
                assert(f * p >= 0) by (nonlinear_arith)
                    requires
                        f >= 0,
                        p > 0,
                ;
            }
            let offset: i64 = f as i64 * p as i64;
            assert(offset == f * p);
            assert(offset < self.count);
            Some(offset as i32)
        }
    }

    /// The parameters of the call at `offset`.
    pub fn request_params(&self, offset: i32) -> (r: Vec<(String, String)>)
        ensures
            param_views(r@) == seq![
                ("group_id"@, decimal(self.group_id as int)),
                ("offset"@, decimal(offset as int)),
            ],
    {
        let r = vec![param("group_id", to_decimal(self.group_id)), param("offset", to_decimal(offset))];
        proof {
            assert(param_views(r@) =~= seq![
                ("group_id"@, decimal(self.group_id as int)),
                ("offset"@, decimal(offset as int)),
            ]);
        }
        r
    }

    /// Takes the answer to the call the collector asked for. An answer
    /// without `response` fails the whole collection with `APIError`; the ids
    /// gathered so far are then of no use.
    pub fn on_page(&mut self, page: GetMembers) -> (r: Result<(), RobberError>)
        requires
            old(self).wf(),
            !old(self)@.is_done(),
        ensures
            final(self).group_id == old(self).group_id,
            final(self).wf(),
            match page.response {
                None => r matches Err(RobberError::APIError) && final(self)@ == old(self)@,
                Some(resp) => r is Ok && final(self)@ == old(self)@.next(
                    resp.count as int,
                    resp.items@,
                ),
            },
    {
        match page.response {
            None => Err(RobberError::APIError),
            Some(resp) => {
                proof {
                    let c: int = if self.fetched == 0 {
                        resp.count as int
                    } else {
                        self.count as int
                    };
                    if c > 0 {
                        lemma_ceil_div_at_most(c, self.page_size as int);
                    }
                }
                if self.fetched == 0 {
                    self.count = resp.count;
                }
                self.fetched = self.fetched + 1;
                let mut items = resp.items;
                self.ids.append(&mut items);
                Ok(())
            },
        }
    }

    /// The roster collected, in offset order.
    pub fn into_ids(self) -> (r: Vec<i32>)
        ensures
            r@ == self.ids@,
    {
        self.ids
    }
}

/// A roster of `count > 0` ids served in full pages is collected in exactly
/// `ceil(count / page_size)` calls, the `k`-th at offset `k * page_size`, and
/// the pages joined are the roster.
pub proof fn lemma_full_pages_collect_roster(roster: Seq<i32>, page_size: int)
    requires
        page_size > 0,
        roster.len() > 0,
    ensures
        chunks_of(roster, page_size).len() == ceil_div(roster.len() as int, page_size),
        forall|k: int|
            0 <= k < chunks_of(roster, page_size).len() ==> (#[trigger] feed(
                CollectorState::start(page_size),
                chunks_of(roster, page_size).take(k),
                roster.len() as int,
            )).next_offset() == Some(k * page_size),
        feed(
            CollectorState::start(page_size),
            chunks_of(roster, page_size),
            roster.len() as int,
        ).next_offset() is None,
        feed(CollectorState::start(page_size), chunks_of(roster, page_size), roster.len() as int).ids
            == roster,
{
    let pages = chunks_of(roster, page_size);
    let n: int = roster.len() as int;
    lemma_chunks_partition(roster, page_size);
    assert forall|k: int| 0 <= k <= pages.len() implies {
        let s = #[trigger] feed(CollectorState::start(page_size), pages.take(k), n);
        &&& s.page_size == page_size
        &&& s.fetched == k
        &&& s.count == if k > 0 {
            n
        } else {
            0
        }
        &&& s.ids == pages.take(k).flatten()
    } by {
        lemma_feed_prefix(pages, n, page_size, k);
    }
    assert(pages.take(pages.len() as int) =~= pages);
    lemma_ceil_div_bounds(n, page_size);
}

proof fn lemma_feed_prefix(pages: Seq<Seq<i32>>, count: int, page_size: int, k: int)
    requires
        0 <= k <= pages.len(),
    ensures
        ({
            let s = feed(CollectorState::start(page_size), pages.take(k), count);
            &&& s.page_size == page_size
            &&& s.fetched == k
            &&& s.count == if k > 0 {
                count
            } else {
                0
            }
            &&& s.ids == pages.take(k).flatten()
        }),
    decreases k,
{
    if k == 0 {
        assert(pages.take(0) =~= Seq::<Seq<i32>>::empty());
    } else {
        lemma_feed_prefix(pages, count, page_size, k - 1);
        assert(pages.take(k).drop_last() =~= pages.take(k - 1));
        assert(pages.take(k) =~= pages.take(k - 1).push(pages[k - 1]));
        pages.take(k - 1).lemma_flatten_push(pages[k - 1]);
    }
}

/// Whatever the pages hold, a roster whose first page says it has `count`
/// ids is collected in exactly `page_calls(count, page_size)` calls:
/// `ceil(count / page_size)` of them, or the single first call when `count`
/// is 0. The `k`-th call is at offset `k * page_size`, and the ids collected
/// are the pages joined in offset order.
pub proof fn lemma_collector_calls(pages: Seq<Seq<i32>>, count: int, page_size: int)
    requires
        page_size > 0,
        pages.len() == page_calls(count, page_size),
    ensures
        count > 0 ==> pages.len() == ceil_div(count, page_size),
        count <= 0 ==> pages.len() == 1,
        forall|k: int|
            0 <= k < pages.len() ==> (#[trigger] feed(
                CollectorState::start(page_size),
                pages.take(k),
                count,
            )).next_offset() == Some(k * page_size),
        feed(CollectorState::start(page_size), pages, count).next_offset() is None,
        feed(CollectorState::start(page_size), pages, count).ids == pages.flatten(),
{
    if count > 0 {
        lemma_ceil_div_at_most(count, page_size);
    }
    assert forall|k: int| 0 <= k < pages.len() implies (#[trigger] feed(
        CollectorState::start(page_size),
        pages.take(k),
        count,
    )).next_offset() == Some(k * page_size) by {
        lemma_feed_prefix(pages, count, page_size, k);
    }
    lemma_feed_prefix(pages, count, page_size, pages.len() as int);
    assert(pages.take(pages.len() as int) =~= pages);
}

} // verus!
