//! Journey endpoints: creation, lookup, archival, title update, listing,
//! the active journey, and ending a journey.

use vstd::prelude::*;

use crate::db::models::journey::{self, Journey, JourneyV, NewJourney};
use crate::db::models::user::UserInfo;
use crate::db::store::{
    has_journey_id, has_user_id, journey_index_of, journey_owned, journeys_sorted_desc, jviews,
    lemma_filter_elem_membership, lemma_journey_id_unique, lemma_sort_journeys_desc_props,
    sort_journeys_desc, sorted_journeys_desc, Store, TS_MAX,
};
use crate::endpoints::{log_db_err, page_of, ErrStatus, Page, PAGE_SIZE};
use crate::timefmt::{format_rfc3339, rfc3339_of};

verus! {

/// Seconds east of UTC at which responses render their dates.
pub const DISPLAY_OFFSET_SECS: i32 = 7200;

/// A journey as responses carry it: dates rendered at the display offset.
#[derive(Debug)]
pub struct TimezoneJourney {
    pub id: i32,
    pub user_id: i32,
    pub title: String,
    pub archived: bool,
    pub start_date: String,
    pub end_date: Option<String>,
}

/// The mathematical value of a rendered journey.
pub struct TimezoneJourneyV {
    pub id: int,
    pub user_id: int,
    pub title: Seq<char>,
    pub archived: bool,
    pub start_date: Seq<char>,
    pub end_date: Option<Seq<char>>,
}

impl View for TimezoneJourney {
    type V = TimezoneJourneyV;

    open spec fn view(&self) -> TimezoneJourneyV {
        TimezoneJourneyV {
            id: self.id as int,
            user_id: self.user_id as int,
            title: self.title@,
            archived: self.archived,
            start_date: self.start_date@,
            end_date: match self.end_date {
                Some(ref s) => Some(s@),
                None => None,
            },
        }
    }
}

/// The rendered form of a stored journey row.
pub open spec fn tz_of_journey(j: JourneyV) -> TimezoneJourneyV {
    TimezoneJourneyV {
        id: j.id,
        user_id: j.user_id,
        title: j.title,
        archived: j.archived,
        start_date: rfc3339_of(j.start_date, DISPLAY_OFFSET_SECS as int),
        end_date: match j.end_date {
            Some(d) => Some(rfc3339_of(d, DISPLAY_OFFSET_SECS as int)),
            None => None,
        },
    }
}

/// The rendered forms of a sequence of stored journey rows.
pub open spec fn tz_of_journeys(s: Seq<JourneyV>) -> Seq<TimezoneJourneyV> {
    s.map_values(|j: JourneyV| tz_of_journey(j))
}

/// The values of a sequence of rendered journeys.
pub open spec fn tzjviews(v: Seq<TimezoneJourney>) -> Seq<TimezoneJourneyV> {
    v.map_values(|t: TimezoneJourney| t@)
}

/// A stored journey row with its timestamps in the store's range.
pub open spec fn journey_dates_in_range(j: JourneyV) -> bool {
    &&& 0 <= j.start_date <= TS_MAX as int
    &&& (j.end_date matches Some(d) ==> 0 <= d <= TS_MAX as int)
}

impl TimezoneJourney {
    /// Renders a stored journey at the display offset.
    pub fn from_journey(journey: Journey) -> (r: TimezoneJourney)
        requires
            journey_dates_in_range(journey@),
        ensures
            r@ == tz_of_journey(journey@),
    {
        let start_date = format_rfc3339(journey.start_date, DISPLAY_OFFSET_SECS);
        let end_date = match journey.end_date {
            Some(d) => Some(format_rfc3339(d, DISPLAY_OFFSET_SECS)),
            None => None,
        };
        TimezoneJourney {
            id: journey.id,
            user_id: journey.user_id,
            title: journey.title,
            archived: journey.archived,
            start_date,
            end_date,
        }
    }
}

/// Creates a journey for a user, starting now (at the given timestamp).
/// If an unexpected error occurs, fails with an `InternalServerError`
/// status, leaving the store unchanged.
pub fn create(journey: NewJourney, store: &mut Store, start_date: i64) -> (r: Result<
    TimezoneJourney,
    ErrStatus,
>)
    requires
        old(store)@.wf(),
        0 <= start_date <= TS_MAX,
    ensures
        final(store)@.wf(),
        match r {
            Ok(tz) => {
                &&& has_user_id(old(store)@.users, journey.user_id as int)
                &&& {
                    let row = JourneyV {
                        id: old(store)@.next_journey_id,
                        user_id: journey.user_id as int,
                        title: journey.title@,
                        archived: false,
                        start_date: start_date as int,
                        end_date: None,
                    };
                    &&& final(store)@.journeys == old(store)@.journeys.push(row)
                    &&& tz@ == tz_of_journey(row)
                }
                &&& final(store)@.next_journey_id == old(store)@.next_journey_id + 1
                &&& final(store)@.users == old(store)@.users
                &&& final(store)@.entries == old(store)@.entries
                &&& final(store)@.next_user_id == old(store)@.next_user_id
                &&& final(store)@.next_entry_id == old(store)@.next_entry_id
            },
            Err(ErrStatus::InternalServerError) => {
                &&& *final(store) == *old(store)
                &&& !has_user_id(old(store)@.users, journey.user_id as int) || old(
                    store,
                )@.next_journey_id == i32::MAX as int
            },
            _ => false,
        },
{
    let row = match journey::create(store, &journey, start_date) {
        Ok(row) => row,
        Err(e) => {
            return Err(log_db_err(e));
        },
    };
    Ok(TimezoneJourney::from_journey(row))
}

/// Gets the journey that matches the id.
/// If the journey does not exist, fails with a `NotFound` status.
pub fn get_by_id(jid: i32, store: &Store) -> (r: Result<TimezoneJourney, ErrStatus>)
    requires
        store@.wf(),
    ensures
        match r {
            Ok(tz) => has_journey_id(store@.journeys, jid as int) && tz@ == tz_of_journey(
                store@.journeys[journey_index_of(store@.journeys, jid as int)],
            ),
            Err(ErrStatus::NotFound) => !has_journey_id(store@.journeys, jid as int),
            _ => false,
        },
{
    let k = match store.find_journey_index(jid) {
        Some(k) => k,
        None => {
            return Err(ErrStatus::NotFound);
        },
    };
    proof {
        assert(has_journey_id(store@.journeys, jid as int)) by {
            assert(store@.journeys[k as int].id == jid as int);
        }
        lemma_journey_id_unique(store@, k as int, journey_index_of(store@.journeys, jid as int));
    }
    Ok(TimezoneJourney::from_journey(store.journeys[k].clone()))
}

/// Sets a journey's status to archived, simulating deletion. Only a
/// journey owned by the calling user is touched.
/// If no journey matches the id and the owner, fails with a `NotFound`
/// status.
pub fn delete(jid: i32, user: &UserInfo, store: &mut Store) -> (r: Result<(), ErrStatus>)
    requires
        old(store)@.wf(),
    ensures
        final(store)@.wf(),
        match r {
            Ok(_) => {
                &&& journey_owned(old(store)@.journeys, jid as int, user@.id)
                &&& {
                    let i = journey_index_of(old(store)@.journeys, jid as int);
                    let j0 = old(store)@.journeys[i];
                    final(store)@.journeys == old(store)@.journeys.update(
                        i,
                        JourneyV {
                            id: j0.id,
                            user_id: j0.user_id,
                            title: j0.title,
                            archived: true,
                            start_date: j0.start_date,
                            end_date: j0.end_date,
                        },
                    )
                }
                &&& final(store)@.users == old(store)@.users
                &&& final(store)@.entries == old(store)@.entries
                &&& final(store)@.next_user_id == old(store)@.next_user_id
                &&& final(store)@.next_journey_id == old(store)@.next_journey_id
                &&& final(store)@.next_entry_id == old(store)@.next_entry_id
            },
            Err(ErrStatus::NotFound) => {
                &&& *final(store) == *old(store)
                &&& !journey_owned(old(store)@.journeys, jid as int, user@.id)
            },
            _ => false,
        },
{
    let ghost olds = old(store)@;
    let k = match store.find_journey_index(jid) {
        Some(k) => k,
        None => {
            return Err(ErrStatus::NotFound);
        },
    };
    if store.journeys[k].user_id != user.id {
        proof {
            assert forall|i: int|
                0 <= i < olds.journeys.len() && (#[trigger] olds.journeys[i]).id
                    == jid as int implies olds.journeys[i].user_id != user@.id by {
                lemma_journey_id_unique(olds, i, k as int);
            }
        }
        return Err(ErrStatus::NotFound);
    }
    let mut row = store.journeys[k].clone();
    row.archived = true;
    let ghost rowv = row@;
    store.journeys[k] = row;
    proof {
        let news = store@;
        assert(journey_owned(olds.journeys, jid as int, user@.id)) by {
            assert(olds.journeys[k as int].id == jid as int && olds.journeys[k as int].user_id
                == user@.id);
        }
        assert(has_journey_id(olds.journeys, jid as int)) by {
            assert(olds.journeys[k as int].id == jid as int);
        }
        let k0 = journey_index_of(olds.journeys, jid as int);
        lemma_journey_id_unique(olds, k as int, k0);
        assert(news.journeys =~= olds.journeys.update(k0, rowv));
        assert(news.users == olds.users && news.entries == olds.entries);
        assert(news.users_wf() && news.entries_wf());
        assert forall|i: int, j: int|
            #![trigger news.journeys[i], news.journeys[j]]
            0 <= i < j < news.journeys.len() implies news.journeys[i].id != news.journeys[j].id by {
            if i != k0 && j != k0 {
                assert(news.journeys[i] == olds.journeys[i] && news.journeys[j]
                    == olds.journeys[j]);
            } else if i == k0 {
                assert(news.journeys[j] == olds.journeys[j]);
            } else {
                assert(news.journeys[i] == olds.journeys[i]);
            }
        }
        assert forall|i: int| 0 <= i < news.journeys.len() implies {
            &&& 0 < (#[trigger] news.journeys[i]).id < news.next_journey_id
            &&& 0 <= news.journeys[i].start_date <= TS_MAX as int
            &&& (news.journeys[i].end_date matches Some(d) ==> 0 <= d <= TS_MAX as int)
        } by {
            if i != k0 {
                assert(news.journeys[i] == olds.journeys[i]);
            } else {
                assert(news.journeys[i] == rowv);
                assert(journey_dates_in_range(olds.journeys[k0]));
            }
        }
    }
    Ok(())
}

/// Updates the title of the journey that matches the passed record's id.
/// Updating a journey that is not stored changes nothing.
pub fn update(journey: &Journey, store: &mut Store) -> (r: Result<(), ErrStatus>)
    requires
        old(store)@.wf(),
    ensures
        final(store)@.wf(),
        match r {
            Ok(_) => {
                &&& !has_journey_id(old(store)@.journeys, journey@.id) ==> *final(store) == *old(
                    store,
                )
                &&& has_journey_id(old(store)@.journeys, journey@.id) ==> {
                    let i = journey_index_of(old(store)@.journeys, journey@.id);
                    let j0 = old(store)@.journeys[i];
                    &&& final(store)@.journeys == old(store)@.journeys.update(
                        i,
                        JourneyV {
                            id: j0.id,
                            user_id: j0.user_id,
                            title: journey@.title,
                            archived: j0.archived,
                            start_date: j0.start_date,
                            end_date: j0.end_date,
                        },
                    )
                    &&& final(store)@.users == old(store)@.users
                    &&& final(store)@.entries == old(store)@.entries
                    &&& final(store)@.next_user_id == old(store)@.next_user_id
                    &&& final(store)@.next_journey_id == old(store)@.next_journey_id
                    &&& final(store)@.next_entry_id == old(store)@.next_entry_id
                }
            },
            Err(_) => false,
        },
{
    let ghost olds = old(store)@;
    let k = match store.find_journey_index(journey.id) {
        Some(k) => k,
        None => {
            return Ok(());
        },
    };
    let mut row = store.journeys[k].clone();
    row.title = journey.title.clone();
    let ghost rowv = row@;
    store.journeys[k] = row;
    proof {
        let news = store@;
        assert(has_journey_id(olds.journeys, journey@.id)) by {
            assert(olds.journeys[k as int].id == journey@.id);
        }
        let k0 = journey_index_of(olds.journeys, journey@.id);
        lemma_journey_id_unique(olds, k as int, k0);
        assert(news.journeys =~= olds.journeys.update(k0, rowv));
        assert(news.users == olds.users && news.entries == olds.entries);
        assert(news.users_wf() && news.entries_wf());
        assert forall|i: int, j: int|
            #![trigger news.journeys[i], news.journeys[j]]
            0 <= i < j < news.journeys.len() implies news.journeys[i].id != news.journeys[j].id by {
            if i != k0 && j != k0 {
                assert(news.journeys[i] == olds.journeys[i] && news.journeys[j]
                    == olds.journeys[j]);
            } else if i == k0 {
                assert(news.journeys[j] == olds.journeys[j]);
            } else {
                assert(news.journeys[i] == olds.journeys[i]);
            }
        }
        assert forall|i: int| 0 <= i < news.journeys.len() implies {
            &&& 0 < (#[trigger] news.journeys[i]).id < news.next_journey_id
            &&& 0 <= news.journeys[i].start_date <= TS_MAX as int
            &&& (news.journeys[i].end_date matches Some(d) ==> 0 <= d <= TS_MAX as int)
        } by {
            if i != k0 {
                assert(news.journeys[i] == olds.journeys[i]);
            } else {
                assert(news.journeys[i] == rowv);
                assert(journey_dates_in_range(olds.journeys[k0]));
            }
        }
    }
    Ok(())
}

/// The query string of a journey listing.
#[derive(Clone, Copy, Debug)]
pub struct JourneyQuery {
    pub page: Page,
}

/// Keeps the journeys of this user that are not archived.
pub open spec fn active_journey_of(uid: int) -> spec_fn(JourneyV) -> bool {
    |j: JourneyV| j.user_id == uid && !j.archived
}

/// The page of a user's non-archived journeys, ordered by start timestamp
/// descending.
pub open spec fn user_journeys_page(s: crate::db::store::StoreV, uid: int, page: int) -> Seq<
    JourneyV,
> {
    page_of(sort_journeys_desc(s.journeys.filter(active_journey_of(uid))), page)
}

/// Every row of a page of a user's journeys is a stored row, so its
/// timestamps are in the store's range.
proof fn lemma_user_journeys_page_in_range(s: crate::db::store::StoreV, uid: int, page: int)
    requires
        s.wf(),
        0 <= page,
    ensures
        forall|i: int|
            0 <= i < user_journeys_page(s, uid, page).len() ==> journey_dates_in_range(
                #[trigger] user_journeys_page(s, uid, page)[i],
            ),
{
    broadcast use vstd::seq_lib::group_to_multiset_ensures;
    broadcast use vstd::multiset::group_multiset_axioms;

    let filtered = s.journeys.filter(active_journey_of(uid));
    let sorted = sort_journeys_desc(filtered);
    lemma_sort_journeys_desc_props(filtered);
    let pg = user_journeys_page(s, uid, page);
    let off = page * (PAGE_SIZE as int);
    assert(0 <= off) by (nonlinear_arith)
        requires
            0 <= page,
            off == page * (PAGE_SIZE as int),
            PAGE_SIZE == 10,
    ;
    assert forall|i: int| 0 <= i < pg.len() implies journey_dates_in_range(
        #[trigger] pg[i],
    ) by {
        let x = pg[i];
        assert(sorted.contains(x)) by {
            assert(0 <= off + i < sorted.len() && sorted[off + i] == x);
        }
        assert(sorted.to_multiset().count(x) > 0);
        assert(filtered.contains(x));
        let k = choose|k: int| 0 <= k < filtered.len() && #[trigger] filtered[k] == x;
        lemma_filter_elem_membership(s.journeys, active_journey_of(uid), k);
        let m = choose|m: int| 0 <= m < s.journeys.len() && #[trigger] s.journeys[m] == filtered[k];
        assert(journey_dates_in_range(s.journeys[m]));
    }
}

/// Gets a page of the non-archived journeys of a user, newest start
/// first.
pub fn get_journeys_by_user(uid: i32, page: JourneyQuery, store: &Store) -> (r: Result<
    Vec<TimezoneJourney>,
    ErrStatus,
>)
    requires
        store@.wf(),
        page.page.wf(),
    ensures
        match r {
            Ok(rows) => tzjviews(rows@) == tz_of_journeys(
                user_journeys_page(store@, uid as int, page.page.0 as int),
            ),
            Err(_) => false,
        },
{
    broadcast use vstd::prelude::Seq::lemma_filter_push;

    let pg = page.page.0;
    let ghost sv = store@.journeys;
    let ghost keep = active_journey_of(uid as int);

    let mut active: Vec<Journey> = Vec::new();
    let mut i: usize = 0;
    while i < store.journeys.len()
        invariant
            i <= store.journeys.len(),
            sv == store@.journeys,
            keep == active_journey_of(uid as int),
            jviews(active@) == sv.take(i as int).filter(keep),
        decreases store.journeys.len() - i,
    {
        proof {
            assert(sv.take(i + 1) =~= sv.take(i as int).push(sv[i as int]));
            sv.take(i as int).lemma_filter_push(sv[i as int], keep);
        }
        if store.journeys[i].user_id == uid && !store.journeys[i].archived {
            let ghost before = jviews(active@);
            active.push(store.journeys[i].clone());
            proof {
                assert(jviews(active@) =~= before.push(sv[i as int]));
            }
        }
        i += 1;
    }
    proof {
        assert(sv.take(sv.len() as int) =~= sv);
    }

    let sorted = sorted_journeys_desc(&active);
    let ghost sortedv = sort_journeys_desc(sv.filter(keep));

    // page slice, then render
    let n = sorted.len();
    let pu = pg as u64;
    let mut out: Vec<TimezoneJourney> = Vec::new();
    proof {
        lemma_user_journeys_page_in_range(store@, uid as int, pg as int);
    }
    if pu > (n as u64) / (PAGE_SIZE as u64) {
        proof {
            assert(pg * (PAGE_SIZE as int) >= n) by (nonlinear_arith)
                requires
                    pu > (n as u64) / (PAGE_SIZE as u64),
                    pu == pg,
                    n >= 0,
                    PAGE_SIZE == 10,
            ;
            assert(tzjviews(out@) =~= tz_of_journeys(
                user_journeys_page(store@, uid as int, pg as int),
            ));
        }
        return Ok(out);
    }
    let off = (pu * (PAGE_SIZE as u64)) as usize;
    proof {
        assert(off == pg * (PAGE_SIZE as int) && off <= n) by (nonlinear_arith)
            requires
                pu <= (n as u64) / (PAGE_SIZE as u64),
                pu == pg,
                off == pu * (PAGE_SIZE as u64),
                n <= u64::MAX,
                PAGE_SIZE == 10,
        ;
    }
    let end = if n - off > PAGE_SIZE as usize {
        off + PAGE_SIZE as usize
    } else {
        n
    };
    proof {
        assert(sortedv.subrange(off as int, end as int) =~= user_journeys_page(
            store@,
            uid as int,
            pg as int,
        ));
    }
    let mut t = off;
    while t < end
        invariant
            off <= t <= end <= sorted@.len(),
            jviews(sorted@) == sortedv,
            tzjviews(out@) == tz_of_journeys(sortedv.subrange(off as int, t as int)),
            forall|q: int|
                0 <= q < user_journeys_page(store@, uid as int, pg as int).len()
                    ==> journey_dates_in_range(
                    #[trigger] user_journeys_page(store@, uid as int, pg as int)[q],
                ),
            sortedv.subrange(off as int, end as int) == user_journeys_page(
                store@,
                uid as int,
                pg as int,
            ),
        decreases end - t,
    {
        proof {
            assert(sortedv[t as int] == user_journeys_page(store@, uid as int, pg as int)[t - off]);
            assert(journey_dates_in_range(sortedv[t as int]));
        }
        let tz = TimezoneJourney::from_journey(sorted[t].clone());
        out.push(tz);
        proof {
            let sub = sortedv.subrange(off as int, t as int);
            assert(sortedv.subrange(off as int, t + 1) =~= sub.push(sortedv[t as int]));
            assert(tz_of_journeys(sub.push(sortedv[t as int])) =~= tz_of_journeys(sub).push(
                tz_of_journey(sortedv[t as int]),
            ));
            assert(tzjviews(out@) =~= tz_of_journeys(sub).push(tz_of_journey(sortedv[t as int])));
        }
        t += 1;
    }
    Ok(out)
}

/// Keeps the open journeys of this user: not archived and not yet ended.
pub open spec fn open_journey_of(uid: int) -> spec_fn(JourneyV) -> bool {
    |j: JourneyV| j.user_id == uid && !j.archived && j.end_date is None
}

/// Gets the current active journey of a user: the most recently started
/// journey that is neither archived nor ended.
/// If the user has no open journey, fails with a `NotFound` status.
pub fn get_active_journey_by_user(uid: i32, store: &Store) -> (r: Result<
    TimezoneJourney,
    ErrStatus,
>)
    requires
        store@.wf(),
    ensures
        match r {
            Ok(tz) => {
                &&& store@.journeys.filter(open_journey_of(uid as int)).len() > 0
                &&& tz@ == tz_of_journey(
                    sort_journeys_desc(store@.journeys.filter(open_journey_of(uid as int)))[0],
                )
            },
            Err(ErrStatus::NotFound) => forall|i: int|
                0 <= i < store@.journeys.len() ==> !(open_journey_of(uid as int))(
                    #[trigger] store@.journeys[i],
                ),
            _ => false,
        },
{
    broadcast use vstd::prelude::Seq::lemma_filter_push;
    broadcast use vstd::seq_lib::group_to_multiset_ensures;
    broadcast use vstd::multiset::group_multiset_axioms;

    let ghost sv = store@.journeys;
    let ghost keep = open_journey_of(uid as int);

    let mut open: Vec<Journey> = Vec::new();
    let mut i: usize = 0;
    while i < store.journeys.len()
        invariant
            i <= store.journeys.len(),
            sv == store@.journeys,
            keep == open_journey_of(uid as int),
            jviews(open@) == sv.take(i as int).filter(keep),
        decreases store.journeys.len() - i,
    {
        proof {
            assert(sv.take(i + 1) =~= sv.take(i as int).push(sv[i as int]));
            sv.take(i as int).lemma_filter_push(sv[i as int], keep);
        }
        if store.journeys[i].user_id == uid && !store.journeys[i].archived
            && store.journeys[i].end_date.is_none() {
            let ghost before = jviews(open@);
            open.push(store.journeys[i].clone());
            proof {
                assert(jviews(open@) =~= before.push(sv[i as int]));
            }
        }
        i += 1;
    }
    proof {
        assert(sv.take(sv.len() as int) =~= sv);
    }
    if open.len() == 0 {
        proof {
            assert forall|k: int| 0 <= k < sv.len() implies !(open_journey_of(uid as int))(
                #[trigger] sv[k],
            ) by {
                if keep(sv[k]) {
                    sv.lemma_filter_contains(keep, k);
                }
            }
        }
        return Err(ErrStatus::NotFound);
    }
    let sorted = sorted_journeys_desc(&open);
    let ghost filtered = sv.filter(keep);
    let ghost sortedv = sort_journeys_desc(filtered);
    proof {
        lemma_sort_journeys_desc_props(filtered);
        let x = sortedv[0];
        assert(sortedv.contains(x));
        assert(sortedv.to_multiset().count(x) > 0);
        assert(filtered.contains(x));
        let k = choose|k: int| 0 <= k < filtered.len() && #[trigger] filtered[k] == x;
        lemma_filter_elem_membership(sv, keep, k);
        let m = choose|m: int| 0 <= m < sv.len() && #[trigger] sv[m] == filtered[k];
        assert(journey_dates_in_range(sv[m]));
    }
    Ok(TimezoneJourney::from_journey(sorted[0].clone()))
}

/// A journey that can still be ended: stored, not archived, and with its
/// end timestamp still unset.
pub open spec fn endable(journeys: Seq<JourneyV>, id: int) -> bool {
    exists|i: int|
        0 <= i < journeys.len() && (#[trigger] journeys[i]).id == id && !journeys[i].archived
            && journeys[i].end_date is None
}

/// The row after ending a journey at this timestamp.
pub open spec fn ended_row(j0: JourneyV, end_date: int) -> JourneyV {
    JourneyV {
        id: j0.id,
        user_id: j0.user_id,
        title: j0.title,
        archived: j0.archived,
        start_date: j0.start_date,
        end_date: Some(end_date),
    }
}

/// Sets the end timestamp of a journey. A journey's end timestamp, once
/// set, is immutable through this operation.
/// If the journey does not exist, is archived, or has ended already,
/// fails with a `NotFound` status.
pub fn end(jid: i32, _user: &UserInfo, store: &mut Store, end_date: i64) -> (r: Result<
    TimezoneJourney,
    ErrStatus,
>)
    requires
        old(store)@.wf(),
        0 <= end_date <= TS_MAX,
    ensures
        final(store)@.wf(),
        match r {
            Ok(tz) => {
                &&& endable(old(store)@.journeys, jid as int)
                &&& {
                    let i = journey_index_of(old(store)@.journeys, jid as int);
                    let j1 = ended_row(old(store)@.journeys[i], end_date as int);
                    &&& final(store)@.journeys == old(store)@.journeys.update(i, j1)
                    &&& tz@ == tz_of_journey(j1)
                }
                &&& final(store)@.users == old(store)@.users
                &&& final(store)@.entries == old(store)@.entries
                &&& final(store)@.next_user_id == old(store)@.next_user_id
                &&& final(store)@.next_journey_id == old(store)@.next_journey_id
                &&& final(store)@.next_entry_id == old(store)@.next_entry_id
            },
            Err(ErrStatus::NotFound) => {
                &&& *final(store) == *old(store)
                &&& !endable(old(store)@.journeys, jid as int)
            },
            _ => false,
        },
{
    let ghost olds = old(store)@;
    let k = match store.find_journey_index(jid) {
        Some(k) => k,
        None => {
            return Err(ErrStatus::NotFound);
        },
    };
    if store.journeys[k].archived || store.journeys[k].end_date.is_some() {
        proof {
            assert forall|i: int|
                0 <= i < olds.journeys.len() && (#[trigger] olds.journeys[i]).id
                    == jid as int implies olds.journeys[i].archived || olds.journeys[i].end_date
                is Some by {
                lemma_journey_id_unique(olds, i, k as int);
            }
        }
        return Err(ErrStatus::NotFound);
    }
    let mut row = store.journeys[k].clone();
    row.end_date = Some(end_date);
    let result_row = row.clone();
    let ghost rowv = row@;
    store.journeys[k] = row;
    proof {
        let news = store@;
        assert(endable(olds.journeys, jid as int)) by {
            assert(olds.journeys[k as int].id == jid as int && !olds.journeys[k as int].archived
                && olds.journeys[k as int].end_date is None);
        }
        assert(has_journey_id(olds.journeys, jid as int)) by {
            assert(olds.journeys[k as int].id == jid as int);
        }
        let k0 = journey_index_of(olds.journeys, jid as int);
        lemma_journey_id_unique(olds, k as int, k0);
        assert(rowv == ended_row(olds.journeys[k0], end_date as int));
        assert(news.journeys =~= olds.journeys.update(k0, rowv));
        assert(news.users == olds.users && news.entries == olds.entries);
        assert(news.users_wf() && news.entries_wf());
        assert forall|i: int, j: int|
            #![trigger news.journeys[i], news.journeys[j]]
            0 <= i < j < news.journeys.len() implies news.journeys[i].id != news.journeys[j].id by {
            if i != k0 && j != k0 {
                assert(news.journeys[i] == olds.journeys[i] && news.journeys[j]
                    == olds.journeys[j]);
            } else if i == k0 {
                assert(news.journeys[j] == olds.journeys[j]);
            } else {
                assert(news.journeys[i] == olds.journeys[i]);
            }
        }
        assert forall|i: int| 0 <= i < news.journeys.len() implies {
            &&& 0 < (#[trigger] news.journeys[i]).id < news.next_journey_id
            &&& 0 <= news.journeys[i].start_date <= TS_MAX as int
            &&& (news.journeys[i].end_date matches Some(d) ==> 0 <= d <= TS_MAX as int)
        } by {
            if i != k0 {
                assert(news.journeys[i] == olds.journeys[i]);
            } else {
                assert(news.journeys[i] == rowv);
            }
        }
    }
    Ok(TimezoneJourney::from_journey(result_row))
}

/// A journey listing page holds at most `PAGE_SIZE` rows, ordered by
/// start timestamp descending.
pub proof fn lemma_user_journeys_page_bounded(s: crate::db::store::StoreV, uid: int, page: int)
    requires
        0 <= page,
    ensures
        user_journeys_page(s, uid, page).len() <= PAGE_SIZE as int,
        journeys_sorted_desc(user_journeys_page(s, uid, page)),
{
    let filtered = s.journeys.filter(active_journey_of(uid));
    let sorted = sort_journeys_desc(filtered);
    lemma_sort_journeys_desc_props(filtered);
    let pg = user_journeys_page(s, uid, page);
    let off = page * (PAGE_SIZE as int);
    assert(0 <= off) by (nonlinear_arith)
        requires
            0 <= page,
            off == page * (PAGE_SIZE as int),
            PAGE_SIZE == 10,
    ;
    assert forall|i: int, j: int|
        0 <= i < j < pg.len() implies (#[trigger] pg[i]).start_date
        >= (#[trigger] pg[j]).start_date by {
        assert(pg[i] == sorted[off + i] && pg[j] == sorted[off + j]);
    }
}

/// Ending a journey closes it for good: after a successful end of the
/// journey with this id, no row of the table can be ended under that id
/// again, so a second end of the same journey reports that nothing
/// matched.
pub proof fn lemma_end_twice(
    pre: Seq<JourneyV>,
    post: Seq<JourneyV>,
    jid: int,
    end_date: int,
)
    requires
        forall|i: int, j: int|
            #![trigger pre[i], pre[j]]
            0 <= i < j < pre.len() ==> pre[i].id != pre[j].id,
        endable(pre, jid),
        post == pre.update(journey_index_of(pre, jid), ended_row(pre[journey_index_of(pre, jid)], end_date)),
    ensures
        !endable(post, jid),
{
    let k0 = journey_index_of(pre, jid);
    assert(has_journey_id(pre, jid));
    assert(0 <= k0 < pre.len() && pre[k0].id == jid);
    assert forall|i: int|
        0 <= i < post.len() && (#[trigger] post[i]).id == jid implies !(!post[i].archived
        && post[i].end_date is None) by {
        if i != k0 {
            assert(post[i] == pre[i]);
        }
    }
}

} // verus!
