use vstd::prelude::*;

use crate::errors::PickError;
use crate::records::{InstanceRecord, RecordModel};

verus! {

/// One reservation of a provider page: the nesting level the provider wraps
/// its instances in.  The list may be absent.
pub struct PageReservation {
    pub instances: Option<Vec<InstanceRecord>>,
}

/// The mathematical content of a [`PageReservation`].
pub ghost struct ReservationModel {
    pub instances: Option<Seq<RecordModel>>,
}

impl View for PageReservation {
    type V = ReservationModel;

    open spec fn view(&self) -> ReservationModel {
        ReservationModel { instances: self.instances.deep_view() }
    }
}

impl DeepView for PageReservation {
    type V = ReservationModel;

    open spec fn deep_view(&self) -> ReservationModel {
        self.view()
    }
}

/// One response page of a paginated instance query: some reservations and,
/// when more results remain, a continuation token.
pub struct Page {
    pub reservations: Option<Vec<PageReservation>>,
    pub next_token: Option<String>,
}

/// The mathematical content of a [`Page`].
pub ghost struct PageModel {
    pub reservations: Option<Seq<ReservationModel>>,
    pub next_token: Option<Seq<char>>,
}

impl View for Page {
    type V = PageModel;

    open spec fn view(&self) -> PageModel {
        PageModel {
            reservations: self.reservations.deep_view(),
            next_token: self.next_token.deep_view(),
        }
    }
}

/// The instances of one reservation, in order; an absent list is empty.
pub open spec fn reservation_records(r: ReservationModel) -> Seq<RecordModel> {
    match r.instances {
        Some(s) => s,
        None => Seq::empty(),
    }
}

/// The instances of a reservation sequence, flattened in order.
pub open spec fn flatten_reservations(rs: Seq<ReservationModel>) -> Seq<RecordModel>
    decreases rs.len(),
{
    if rs.len() == 0 {
        Seq::empty()
    } else {
        flatten_reservations(rs.drop_last()) + reservation_records(rs.last())
    }
}

/// All instances one page carries, flattened out of its reservations.
pub open spec fn page_records(p: PageModel) -> Seq<RecordModel> {
    match p.reservations {
        Some(rs) => flatten_reservations(rs),
        None => Seq::empty(),
    }
}

/// All instances a sequence of pages carries, concatenated in page order.
pub open spec fn pages_records(ps: Seq<PageModel>) -> Seq<RecordModel>
    decreases ps.len(),
{
    if ps.len() == 0 {
        Seq::empty()
    } else {
        pages_records(ps.drop_last()) + page_records(ps.last())
    }
}

/// The mathematical state of one paginated fetch.
pub ghost struct FetchModel {
    /// Every instance collected so far, in page order.
    pub collected: Seq<RecordModel>,
    /// The continuation token of the page applied last, if any.
    pub next_token: Option<Seq<char>>,
    /// Whether any page was applied yet.
    pub started: bool,
    /// How many pages were applied, that is, how many requests were answered.
    pub pages_seen: nat,
}

/// The state before the first request of a fetch.
pub open spec fn fetch_init() -> FetchModel {
    FetchModel { collected: Seq::empty(), next_token: None, started: false, pages_seen: 0 }
}

/// How one answered page advances a fetch: its instances are appended and
/// its continuation token replaces the previous one.
pub open spec fn fetch_step(m: FetchModel, p: PageModel) -> FetchModel {
    FetchModel {
        collected: m.collected + page_records(p),
        next_token: p.next_token,
        started: true,
        pages_seen: m.pages_seen + 1,
    }
}

/// Whether a fetch in state `m` must issue another page request: always
/// before the first page, and afterwards exactly while a continuation token
/// is present.
pub open spec fn fetch_wants_request(m: FetchModel) -> bool {
    !m.started || m.next_token is Some
}

/// The fetch state after the pages `ps` were applied in order, starting
/// from the initial state.
pub open spec fn fetch_run(ps: Seq<PageModel>) -> FetchModel
    decreases ps.len(),
{
    if ps.len() == 0 {
        fetch_init()
    } else {
        fetch_step(fetch_run(ps.drop_last()), ps.last())
    }
}

/// Pagination is complete and exact: after any page sequence `ps` the fetch
/// holds precisely the concatenation, in page order, of every page's
/// flattened instance list, and it answered exactly one request per page.
/// When every page but the last carries a continuation token and the last
/// carries none, the fetch asks for exactly one more request at each proper
/// prefix and stops asking once the last page is in.
pub proof fn lemma_fetch_exact(ps: Seq<PageModel>)
    ensures
        fetch_run(ps).collected == pages_records(ps),
        fetch_run(ps).pages_seen == ps.len(),
        fetch_run(ps).started == (ps.len() > 0),
        ps.len() > 0 ==> fetch_run(ps).next_token == ps.last().next_token,
        ps.len() > 0 && (forall|i: int| 0 <= i < ps.len() - 1 ==> ps[i].next_token is Some)
            && ps.last().next_token is None ==> (forall|k: int|
            0 <= k < ps.len() ==> fetch_wants_request(fetch_run(#[trigger] ps.take(k))))
            && !fetch_wants_request(fetch_run(ps)),
    decreases ps.len(),
{
    if ps.len() == 0 {
    } else {
        lemma_fetch_exact(ps.drop_last());
        assert(fetch_run(ps) == fetch_step(fetch_run(ps.drop_last()), ps.last()));
        if (forall|i: int| 0 <= i < ps.len() - 1 ==> ps[i].next_token is Some)
            && ps.last().next_token is None {
            assert forall|k: int| 0 <= k < ps.len() implies fetch_wants_request(
                fetch_run(#[trigger] ps.take(k)),
            ) by {
                assert(ps.take(k).len() == k);
                if k > 0 {
                    assert(ps.take(k).last() == ps[k - 1]);
                    assert(ps.take(k).drop_last() =~= ps.take(k - 1));
                    assert(fetch_run(ps.take(k)) == fetch_step(
                        fetch_run(ps.take(k - 1)),
                        ps[k - 1],
                    ));
                    assert(ps[k - 1].next_token is Some);
                    assert(fetch_run(ps.take(k)).next_token is Some);
                } else {
                    assert(ps.take(0).len() == 0);
                    assert(fetch_run(ps.take(0)) == fetch_init());
                }
            }
            assert(fetch_run(ps).next_token is None);
            assert(fetch_run(ps).started);
            assert(!fetch_wants_request(fetch_run(ps)));
        }
    }
}

/// The executable state of one paginated fetch against a single region and
/// filter group.  The caller issues the page requests; this state decides
/// whether another request is owed and accumulates what came back.
pub struct FetchState {
    collected: Vec<InstanceRecord>,
    next_token: Option<String>,
    started: bool,
    pages_seen: u64,
}

impl View for FetchState {
    type V = FetchModel;

    closed spec fn view(&self) -> FetchModel {
        FetchModel {
            collected: self.collected.deep_view(),
            next_token: self.next_token.deep_view(),
            started: self.started,
            pages_seen: self.pages_seen as nat,
        }
    }
}

impl FetchState {
    /// A fetch that has issued no request yet.
    pub fn new() -> (s: Self)
        ensures
            s@ == fetch_init(),
    {
        let s = FetchState { collected: Vec::new(), next_token: None, started: false, pages_seen: 0 };
        proof {
            assert(s@.collected =~= Seq::<RecordModel>::empty());
        }
        s
    }

    /// Whether another page request must be issued: before the first page
    /// always, afterwards exactly while the last page carried a token.
    pub fn wants_request(&self) -> (r: bool)
        ensures
            r == fetch_wants_request(self@),
    {
        !self.started || self.next_token.is_some()
    }

    /// The continuation token the next request must carry: none on the
    /// first request, the last page's token afterwards.
    pub fn request_token(&self) -> (t: &Option<String>)
        ensures
            t.deep_view() == self@.next_token,
    {
        &self.next_token
    }

    /// How many pages were applied so far.
    pub fn pages_seen(&self) -> (n: u64)
        ensures
            n == self@.pages_seen,
    {
        self.pages_seen
    }

    /// Applies one answered page: appends its instances, reservation by
    /// reservation in order, and takes over its continuation token.
    pub fn apply_page(&mut self, page: Page)
        requires
            old(self)@.pages_seen < u64::MAX,
        ensures
            final(self)@ == fetch_step(old(self)@, page@),
    {
        let ghost m0 = self@;
        let ghost pm = page@;
        match page.reservations {
            None => {
                proof {
                    assert(self@.collected =~= m0.collected + page_records(pm));
                }
            },
            Some(mut rs) => {
                let ghost rs0 = rs.deep_view();
                let ghost mut consumed: int = 0;
                proof {
                    assert(rs0.take(0) =~= Seq::<ReservationModel>::empty());
                    assert(self@.collected =~= m0.collected + flatten_reservations(rs0.take(0)));
                }
                while rs.len() > 0
                    invariant
                        0 <= consumed <= rs0.len(),
                        consumed == rs0.len() - rs.deep_view().len(),
                        rs.deep_view() =~= rs0.skip(consumed),
                        self.collected.deep_view() == m0.collected + flatten_reservations(
                            rs0.take(consumed),
                        ),
                        self.pages_seen == old(self).pages_seen,
                        self.next_token == old(self).next_token,
                        self.started == old(self).started,
                    decreases rs.len(),
                {
                    let ghost pre = rs.deep_view();
                    let ghost pre_vec = rs@;
                    let r = rs.remove(0);
                    let ghost rm = r.deep_view();
                    let ghost cm = self.collected.deep_view();
                    proof {
                        assert(rm == pre_vec[0].deep_view());
                        assert(rm == pre[0]);
                        assert(rm == rs0[consumed]);
                        assert(rs@ =~= pre_vec.skip(1));
                        assert forall|j: int| 0 <= j < rs.deep_view().len() implies rs.deep_view()[j]
                            == rs0.skip(consumed + 1)[j] by {
                            assert(rs@[j] == pre_vec[j + 1]);
                            assert(rs.deep_view()[j] == pre[j + 1]);
                        }
                        assert(rs.deep_view() =~= rs0.skip(consumed + 1));
                    }
                    match r.instances {
                        None => {},
                        Some(mut is) => {
                            let ghost is_m = is.deep_view();
                            proof {
                                assert(reservation_records(rm) == is_m);
                            }
                            self.collected.append(&mut is);
                            proof {
                                assert(self.collected.deep_view() =~= cm + is_m);
                            }
                        },
                    }
                    proof {
                        assert(rs0.take(consumed + 1).drop_last() =~= rs0.take(consumed));
                        assert(rs0.take(consumed + 1).last() == rs0[consumed]);
                        assert(flatten_reservations(rs0.take(consumed + 1)) == flatten_reservations(
                            rs0.take(consumed),
                        ) + reservation_records(rs0[consumed]));
                        assert(self.collected.deep_view() =~= m0.collected + flatten_reservations(
                            rs0.take(consumed + 1),
                        ));
                        consumed = consumed + 1;
                    }
                }
                proof {
                    assert(rs0.take(rs0.len() as int) =~= rs0);
                }
            },
        }
        self.next_token = page.next_token;
        self.started = true;
        self.pages_seen = self.pages_seen + 1;
    }

    /// Decides one provider answer, fail-fast: a failed page request aborts
    /// the whole fetch with the provider's detail, leaving the state as it
    /// was; an answered page advances the state as `apply_page` does.
    pub fn apply_result(&mut self, r: Result<Page, String>) -> (out: Result<(), PickError>)
        requires
            old(self)@.pages_seen < u64::MAX,
        ensures
            match r {
                Ok(page) => out is Ok && final(self)@ == fetch_step(old(self)@, page@),
                Err(detail) => final(self)@ == old(self)@ && match out {
                    Err(e) => e matches PickError::QueryFailed(s) && s@ == detail@,
                    Ok(_) => false,
                },
            },
    {
        match r {
            Ok(page) => {
                self.apply_page(page);
                Ok(())
            },
            Err(detail) => Err(PickError::QueryFailed(detail)),
        }
    }

    /// Hands out everything collected, ending the fetch.
    pub fn into_records(self) -> (r: Vec<InstanceRecord>)
        ensures
            r.deep_view() == self@.collected,
    {
        self.collected
    }
}

} // verus!
