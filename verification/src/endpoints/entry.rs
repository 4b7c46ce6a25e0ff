//! Entry endpoints: creation, lookup, description update, archival,
//! listing, and the object-store key under which an entry's image lives.

use vstd::prelude::*;

use crate::db::models::entry::{self, new_entry_row, Entry, EntryV, NewEntry};
use crate::db::models::user::UserInfo;
use crate::db::store::{
    entries_sorted_desc, entry_index_of, eviews, has_entry_id, has_journey_id, journey_index_of,
    lemma_entry_id_unique, lemma_filter_elem_membership, lemma_journey_id_unique,
    lemma_sort_entries_desc_props, sort_entries_desc, sorted_entries_desc, Store, StoreV, TS_MAX,
};
use crate::endpoints::journey::DISPLAY_OFFSET_SECS;
use crate::endpoints::{log_db_err, page_of, ErrStatus, Page, PAGE_SIZE};
use crate::timefmt::{format_rfc3339, rfc3339_of};

verus! {

/// An entry as responses carry it: the creation date rendered at the
/// display offset.
#[derive(Debug)]
pub struct TimezoneEntry {
    pub id: i32,
    pub journey_id: i32,
    pub created: String,
    pub archived: bool,
    pub description: Option<String>,
    pub coordinates: Option<String>,
    pub location: Option<String>,
}

/// The mathematical value of a rendered entry.
pub struct TimezoneEntryV {
    pub id: int,
    pub journey_id: int,
    pub created: Seq<char>,
    pub archived: bool,
    pub description: Option<Seq<char>>,
    pub coordinates: Option<Seq<char>>,
    pub location: Option<Seq<char>>,
}

impl View for TimezoneEntry {
    type V = TimezoneEntryV;

    open spec fn view(&self) -> TimezoneEntryV {
        TimezoneEntryV {
            id: self.id as int,
            journey_id: self.journey_id as int,
            created: self.created@,
            archived: self.archived,
            description: match self.description {
                Some(ref s) => Some(s@),
                None => None,
            },
            coordinates: match self.coordinates {
                Some(ref s) => Some(s@),
                None => None,
            },
            location: match self.location {
                Some(ref s) => Some(s@),
                None => None,
            },
        }
    }
}

/// The rendered form of a stored entry row.
pub open spec fn tz_of_entry(e: EntryV) -> TimezoneEntryV {
    TimezoneEntryV {
        id: e.id,
        journey_id: e.journey_id,
        created: rfc3339_of(e.created, DISPLAY_OFFSET_SECS as int),
        archived: e.archived,
        description: e.description,
        coordinates: e.coordinates,
        location: e.location,
    }
}

/// The rendered forms of a sequence of stored entry rows.
pub open spec fn tz_of_entries(s: Seq<EntryV>) -> Seq<TimezoneEntryV> {
    s.map_values(|e: EntryV| tz_of_entry(e))
}

/// The values of a sequence of rendered entries.
pub open spec fn tzeviews(v: Seq<TimezoneEntry>) -> Seq<TimezoneEntryV> {
    v.map_values(|t: TimezoneEntry| t@)
}

impl TimezoneEntry {
    /// Renders a stored entry at the display offset.
    pub fn from_entry(entry: Entry) -> (r: TimezoneEntry)
        requires
            0 <= entry@.created <= TS_MAX as int,
        ensures
            r@ == tz_of_entry(entry@),
    {
        let created = format_rfc3339(entry.created, DISPLAY_OFFSET_SECS);
        TimezoneEntry {
            id: entry.id,
            journey_id: entry.journey_id,
            created,
            archived: entry.archived,
            description: entry.description,
            coordinates: entry.coordinates,
            location: entry.location,
        }
    }
}

/// Creates a new entry against an open journey.
/// If the journey does not exist, fails with a `NotFound` status.
/// If the journey has ended already, fails with a `BadRequest` status.
/// If an unexpected error occurs, fails with an `InternalServerError`
/// status, leaving the store unchanged.
pub fn create(new_entry: NewEntry, _user: &UserInfo, store: &mut Store, created: i64) -> (r: Result<
    TimezoneEntry,
    ErrStatus,
>)
    requires
        old(store)@.wf(),
        0 <= created <= TS_MAX,
    ensures
        final(store)@.wf(),
        match r {
            Ok(tz) => {
                &&& has_journey_id(old(store)@.journeys, new_entry.journey_id as int)
                &&& old(store)@.journeys[journey_index_of(
                    old(store)@.journeys,
                    new_entry.journey_id as int,
                )].end_date is None
                &&& {
                    let row = new_entry_row(
                        &new_entry,
                        old(store)@.next_entry_id,
                        created as int,
                    );
                    &&& final(store)@.entries == old(store)@.entries.push(row)
                    &&& tz@ == tz_of_entry(row)
                }
                &&& final(store)@.next_entry_id == old(store)@.next_entry_id + 1
                &&& final(store)@.users == old(store)@.users
                &&& final(store)@.journeys == old(store)@.journeys
                &&& final(store)@.next_user_id == old(store)@.next_user_id
                &&& final(store)@.next_journey_id == old(store)@.next_journey_id
            },
            Err(ErrStatus::NotFound) => {
                &&& *final(store) == *old(store)
                &&& !has_journey_id(old(store)@.journeys, new_entry.journey_id as int)
            },
            Err(ErrStatus::BadRequest) => {
                &&& *final(store) == *old(store)
                &&& has_journey_id(old(store)@.journeys, new_entry.journey_id as int)
                &&& old(store)@.journeys[journey_index_of(
                    old(store)@.journeys,
                    new_entry.journey_id as int,
                )].end_date is Some
            },
            Err(ErrStatus::InternalServerError) => {
                &&& *final(store) == *old(store)
                &&& has_journey_id(old(store)@.journeys, new_entry.journey_id as int)
                &&& old(store)@.journeys[journey_index_of(
                    old(store)@.journeys,
                    new_entry.journey_id as int,
                )].end_date is None
                &&& old(store)@.next_entry_id == i32::MAX as int
            },
            _ => false,
        },
{
    let ghost olds = old(store)@;
    let k = match store.find_journey_index(new_entry.journey_id) {
        Some(k) => k,
        None => {
            return Err(ErrStatus::NotFound);
        },
    };
    proof {
        assert(has_journey_id(olds.journeys, new_entry.journey_id as int)) by {
            assert(olds.journeys[k as int].id == new_entry.journey_id as int);
        }
        lemma_journey_id_unique(
            olds,
            k as int,
            journey_index_of(olds.journeys, new_entry.journey_id as int),
        );
    }
    if store.journeys[k].end_date.is_some() {
        return Err(ErrStatus::BadRequest);
    }
    let ghost rowv = new_entry_row(&new_entry, olds.next_entry_id, created as int);
    let row = match entry::create(&new_entry, store, created) {
        Ok(row) => row,
        Err(e) => {
            return Err(log_db_err(e));
        },
    };
    Ok(TimezoneEntry::from_entry(row))
}

/// Gets the entry that matches the id.
/// If the entry does not exist, fails with a `NotFound` status.
pub fn get_by_id(entry_id: i32, store: &Store) -> (r: Result<TimezoneEntry, ErrStatus>)
    requires
        store@.wf(),
    ensures
        match r {
            Ok(tz) => has_entry_id(store@.entries, entry_id as int) && tz@ == tz_of_entry(
                store@.entries[entry_index_of(store@.entries, entry_id as int)],
            ),
            Err(ErrStatus::NotFound) => !has_entry_id(store@.entries, entry_id as int),
            _ => false,
        },
{
    let k = match store.find_entry_index(entry_id) {
        Some(k) => k,
        None => {
            return Err(ErrStatus::NotFound);
        },
    };
    proof {
        assert(has_entry_id(store@.entries, entry_id as int)) by {
            assert(store@.entries[k as int].id == entry_id as int);
        }
        lemma_entry_id_unique(store@, k as int, entry_index_of(store@.entries, entry_id as int));
    }
    Ok(TimezoneEntry::from_entry(store.entries[k].clone()))
}

/// Updates the description of the entry that matches the id, from the
/// passed input record. Updating an entry that is not stored changes
/// nothing.
pub fn update(entry_id: i32, new_entry: NewEntry, _user: &UserInfo, store: &mut Store) -> (r:
    Result<(), ErrStatus>)
    requires
        old(store)@.wf(),
    ensures
        final(store)@.wf(),
        match r {
            Ok(_) => {
                &&& !has_entry_id(old(store)@.entries, entry_id as int) ==> *final(store) == *old(
                    store,
                )
                &&& has_entry_id(old(store)@.entries, entry_id as int) ==> {
                    let i = entry_index_of(old(store)@.entries, entry_id as int);
                    let e0 = old(store)@.entries[i];
                    &&& final(store)@.entries == old(store)@.entries.update(
                        i,
                        EntryV {
                            id: e0.id,
                            journey_id: e0.journey_id,
                            created: e0.created,
                            archived: e0.archived,
                            description: match new_entry.description {
                                Some(ref s) => Some(s@),
                                None => None,
                            },
                            coordinates: e0.coordinates,
                            location: e0.location,
                        },
                    )
                    &&& final(store)@.users == old(store)@.users
                    &&& final(store)@.journeys == old(store)@.journeys
                    &&& final(store)@.next_user_id == old(store)@.next_user_id
                    &&& final(store)@.next_journey_id == old(store)@.next_journey_id
                    &&& final(store)@.next_entry_id == old(store)@.next_entry_id
                }
            },
            Err(_) => false,
        },
{
    let ghost olds = old(store)@;
    let k = match store.find_entry_index(entry_id) {
        Some(k) => k,
        None => {
            return Ok(());
        },
    };
    let mut row = store.entries[k].clone();
    row.description = new_entry.description;
    let ghost rowv = row@;
    store.entries[k] = row;
    proof {
        let news = store@;
        assert(has_entry_id(olds.entries, entry_id as int)) by {
            assert(olds.entries[k as int].id == entry_id as int);
        }
        let k0 = entry_index_of(olds.entries, entry_id as int);
        lemma_entry_id_unique(olds, k as int, k0);
        assert(news.entries =~= olds.entries.update(k0, rowv));
        assert(news.users == olds.users && news.journeys == olds.journeys);
        assert(news.users_wf() && news.journeys_wf());
        assert forall|i: int, j: int|
            #![trigger news.entries[i], news.entries[j]]
            0 <= i < j < news.entries.len() implies news.entries[i].id != news.entries[j].id by {
            if i != k0 && j != k0 {
                assert(news.entries[i] == olds.entries[i] && news.entries[j] == olds.entries[j]);
            } else if i == k0 {
                assert(news.entries[j] == olds.entries[j]);
            } else {
                assert(news.entries[i] == olds.entries[i]);
            }
        }
        assert forall|i: int| 0 <= i < news.entries.len() implies {
            &&& 0 < (#[trigger] news.entries[i]).id < news.next_entry_id
            &&& 0 <= news.entries[i].created <= TS_MAX as int
        } by {
            if i != k0 {
                assert(news.entries[i] == olds.entries[i]);
            } else {
                assert(news.entries[i] == rowv);
            }
        }
    }
    Ok(())
}

/// Soft-deletes an entry. There is deliberately no ownership check on
/// this route; see the persistence operation.
pub fn delete(entry_id: i32, store: &mut Store) -> (r: Result<(), ErrStatus>)
    requires
        old(store)@.wf(),
    ensures
        final(store)@.wf(),
        match r {
            Ok(_) => {
                &&& !has_entry_id(old(store)@.entries, entry_id as int) ==> *final(store) == *old(
                    store,
                )
                &&& has_entry_id(old(store)@.entries, entry_id as int) ==> {
                    let i = entry_index_of(old(store)@.entries, entry_id as int);
                    let e0 = old(store)@.entries[i];
                    &&& final(store)@.entries == old(store)@.entries.update(
                        i,
                        EntryV {
                            id: e0.id,
                            journey_id: e0.journey_id,
                            created: e0.created,
                            archived: true,
                            description: e0.description,
                            coordinates: e0.coordinates,
                            location: e0.location,
                        },
                    )
                    &&& final(store)@.users == old(store)@.users
                    &&& final(store)@.journeys == old(store)@.journeys
                    &&& final(store)@.next_user_id == old(store)@.next_user_id
                    &&& final(store)@.next_journey_id == old(store)@.next_journey_id
                    &&& final(store)@.next_entry_id == old(store)@.next_entry_id
                }
            },
            Err(_) => false,
        },
{
    match entry::archive(entry_id, store) {
        Ok(_) => Ok(()),
        Err(e) => Err(log_db_err(e)),
    }
}

/// The query string of an entry listing: a page, and an optional journey
/// to restrict to.
#[derive(Clone, Copy, Debug)]
pub struct EntryQuery {
    pub page: Page,
    pub journey: Option<i32>,
}

/// Keeps the entries that a listing returns: not archived, and of the
/// given journey where one is named.
pub open spec fn listed_entry(journey: Option<int>) -> spec_fn(EntryV) -> bool {
    |e: EntryV| !e.archived && (journey matches Some(j) ==> e.journey_id == j)
}

/// The page of listed entries, ordered by creation timestamp descending.
pub open spec fn entries_page(s: StoreV, journey: Option<int>, page: int) -> Seq<EntryV> {
    page_of(sort_entries_desc(s.entries.filter(listed_entry(journey))), page)
}

/// Every row of a page of listed entries is a stored row, so its
/// timestamp is in the store's range.
proof fn lemma_entries_page_in_range(s: StoreV, journey: Option<int>, page: int)
    requires
        s.wf(),
        0 <= page,
    ensures
        forall|i: int|
            0 <= i < entries_page(s, journey, page).len() ==> 0 <= (#[trigger] entries_page(
                s,
                journey,
                page,
            )[i]).created <= TS_MAX as int,
{
    broadcast use vstd::seq_lib::group_to_multiset_ensures;
    broadcast use vstd::multiset::group_multiset_axioms;

    let filtered = s.entries.filter(listed_entry(journey));
    let sorted = sort_entries_desc(filtered);
    lemma_sort_entries_desc_props(filtered);
    let pg = entries_page(s, journey, page);
    let off = page * (PAGE_SIZE as int);
    assert(0 <= off) by (nonlinear_arith)
        requires
            0 <= page,
            off == page * (PAGE_SIZE as int),
            PAGE_SIZE == 10,
    ;
    assert forall|i: int| 0 <= i < pg.len() implies 0 <= (#[trigger] pg[i]).created <= TS_MAX
        as int by {
        let x = pg[i];
        assert(sorted.contains(x)) by {
            assert(0 <= off + i < sorted.len() && sorted[off + i] == x);
        }
        assert(sorted.to_multiset().count(x) > 0);
        assert(filtered.contains(x));
        let k = choose|k: int| 0 <= k < filtered.len() && #[trigger] filtered[k] == x;
        lemma_filter_elem_membership(s.entries, listed_entry(journey), k);
        let m = choose|m: int| 0 <= m < s.entries.len() && #[trigger] s.entries[m] == filtered[k];
        assert(0 <= s.entries[m].created <= TS_MAX as int);
    }
}

/// The journey restriction of a query, as a value.
pub open spec fn query_journey(q: EntryQuery) -> Option<int> {
    match q.journey {
        Some(j) => Some(j as int),
        None => None,
    }
}

/// Gets a page of the non-archived entries matching the query-string,
/// newest first, optionally restricted to one journey.
pub fn get_all(query: EntryQuery, store: &Store) -> (r: Result<Vec<TimezoneEntry>, ErrStatus>)
    requires
        store@.wf(),
        query.page.wf(),
    ensures
        match r {
            Ok(rows) => tzeviews(rows@) == tz_of_entries(
                entries_page(store@, query_journey(query), query.page.0 as int),
            ),
            Err(_) => false,
        },
{
    broadcast use vstd::prelude::Seq::lemma_filter_push;

    let pg = query.page.0;
    let ghost sv = store@.entries;
    let ghost jopt = query_journey(query);
    let ghost keep = listed_entry(jopt);

    let mut listed: Vec<Entry> = Vec::new();
    let mut i: usize = 0;
    while i < store.entries.len()
        invariant
            i <= store.entries.len(),
            sv == store@.entries,
            jopt == query_journey(query),
            keep == listed_entry(jopt),
            eviews(listed@) == sv.take(i as int).filter(keep),
        decreases store.entries.len() - i,
    {
        proof {
            assert(sv.take(i + 1) =~= sv.take(i as int).push(sv[i as int]));
            sv.take(i as int).lemma_filter_push(sv[i as int], keep);
        }
        let matches_journey = match query.journey {
            Some(j) => store.entries[i].journey_id == j,
            None => true,
        };
        if !store.entries[i].archived && matches_journey {
            let ghost before = eviews(listed@);
            listed.push(store.entries[i].clone());
            proof {
                assert(eviews(listed@) =~= before.push(sv[i as int]));
            }
        }
        i += 1;
    }
    proof {
        assert(sv.take(sv.len() as int) =~= sv);
    }

    let sorted = sorted_entries_desc(&listed);
    let ghost sortedv = sort_entries_desc(sv.filter(keep));

    let n = sorted.len();
    let pu = pg as u64;
    let mut out: Vec<TimezoneEntry> = Vec::new();
    proof {
        lemma_entries_page_in_range(store@, jopt, pg as int);
    }
    if pu > (n as u64) / (PAGE_SIZE as u64) {
        proof {
            assert(pg * (PAGE_SIZE as int) >= n) by (nonlinear_arith)
                requires
                    pu > (n as u64) / (PAGE_SIZE as u64),
                    pu == pg,
                    n >= 0,
                    PAGE_SIZE == 10,
            ;
            assert(tzeviews(out@) =~= tz_of_entries(entries_page(store@, jopt, pg as int)));
        }
        return Ok(out);
    }
    let off = (pu * (PAGE_SIZE as u64)) as usize;
    proof {
        assert(off == pg * (PAGE_SIZE as int) && off <= n) by (nonlinear_arith)
            requires
                pu <= (n as u64) / (PAGE_SIZE as u64),
                pu == pg,
                off == pu * (PAGE_SIZE as u64),
                n <= u64::MAX,
                PAGE_SIZE == 10,
        ;
    }
    let end = if n - off > PAGE_SIZE as usize {
        off + PAGE_SIZE as usize
    } else {
        n
    };
    proof {
        assert(sortedv.subrange(off as int, end as int) =~= entries_page(store@, jopt, pg as int));
    }
    let mut t = off;
    while t < end
        invariant
            off <= t <= end <= sorted@.len(),
            eviews(sorted@) == sortedv,
            tzeviews(out@) == tz_of_entries(sortedv.subrange(off as int, t as int)),
            forall|q: int|
                0 <= q < entries_page(store@, jopt, pg as int).len() ==> 0 <= (
                #[trigger] entries_page(store@, jopt, pg as int)[q]).created <= TS_MAX as int,
            sortedv.subrange(off as int, end as int) == entries_page(store@, jopt, pg as int),
        decreases end - t,
    {
        proof {
            assert(sortedv[t as int] == entries_page(store@, jopt, pg as int)[t - off]);
            assert(0 <= sortedv[t as int].created <= TS_MAX as int);
        }
        let tz = TimezoneEntry::from_entry(sorted[t].clone());
        out.push(tz);
        proof {
            let sub = sortedv.subrange(off as int, t as int);
            assert(sortedv.subrange(off as int, t + 1) =~= sub.push(sortedv[t as int]));
            assert(tz_of_entries(sub.push(sortedv[t as int])) =~= tz_of_entries(sub).push(
                tz_of_entry(sortedv[t as int]),
            ));
            assert(tzeviews(out@) =~= tz_of_entries(sub).push(tz_of_entry(sortedv[t as int])));
        }
        t += 1;
    }
    Ok(out)
}

/// An entry listing page holds at most `PAGE_SIZE` rows, ordered by
/// creation timestamp descending.
pub proof fn lemma_entries_page_bounded(s: StoreV, journey: Option<int>, page: int)
    requires
        0 <= page,
    ensures
        entries_page(s, journey, page).len() <= PAGE_SIZE as int,
        entries_sorted_desc(entries_page(s, journey, page)),
{
    let filtered = s.entries.filter(listed_entry(journey));
    let sorted = sort_entries_desc(filtered);
    lemma_sort_entries_desc_props(filtered);
    let pg = entries_page(s, journey, page);
    let off = page * (PAGE_SIZE as int);
    assert(0 <= off) by (nonlinear_arith)
        requires
            0 <= page,
            off == page * (PAGE_SIZE as int),
            PAGE_SIZE == 10,
    ;
    assert forall|i: int, j: int|
        0 <= i < j < pg.len() implies (#[trigger] pg[i]).created >= (#[trigger] pg[j]).created by {
        assert(pg[i] == sorted[off + i] && pg[j] == sorted[off + j]);
    }
}

/// The character of one decimal digit.
pub open spec fn digit_char(d: int) -> char {
    if d == 0 {
        '0'
    } else if d == 1 {
        '1'
    } else if d == 2 {
        '2'
    } else if d == 3 {
        '3'
    } else if d == 4 {
        '4'
    } else if d == 5 {
        '5'
    } else if d == 6 {
        '6'
    } else if d == 7 {
        '7'
    } else if d == 8 {
        '8'
    } else {
        '9'
    }
}

/// The decimal digits of a number, most significant first.
pub open spec fn dec_digits(n: nat) -> Seq<char>
    decreases n,
{
    if n < 10 {
        seq![digit_char(n as int)]
    } else {
        dec_digits(n / 10).push(digit_char((n % 10) as int))
    }
}

/// The object-store key of an entry's image: the entry id written in
/// decimal.
pub open spec fn spec_image_key(id: int) -> Seq<char> {
    if id < 0 {
        seq!['-'] + dec_digits((-id) as nat)
    } else {
        dec_digits(id as nat)
    }
}

/// The string of one decimal digit.
fn digit_str(d: u32) -> (r: &'static str)
    requires
        d < 10,
    ensures
        r@ == seq![digit_char(d as int)],
{
    proof {
        reveal_strlit("0");
        reveal_strlit("1");
        reveal_strlit("2");
        reveal_strlit("3");
        reveal_strlit("4");
        reveal_strlit("5");
        reveal_strlit("6");
        reveal_strlit("7");
        reveal_strlit("8");
        reveal_strlit("9");
    }
    let r = match d {
        0 => "0",
        1 => "1",
        2 => "2",
        3 => "3",
        4 => "4",
        5 => "5",
        6 => "6",
        7 => "7",
        8 => "8",
        _ => "9",
    };
    proof {
        assert(r@ =~= seq![digit_char(d as int)]);
    }
    r
}

/// Writes a number in decimal.
fn dec_string(n: u32) -> (r: String)
    ensures
        r@ == dec_digits(n as nat),
    decreases n,
{
    if n < 10 {
        let mut s = String::new();
        s.append(digit_str(n));
        proof {
            assert(s@ =~= dec_digits(n as nat));
        }
        s
    } else {
        let mut s = dec_string(n / 10);
        s.append(digit_str(n % 10));
        proof {
            assert(s@ =~= dec_digits((n / 10) as nat).push(digit_char((n % 10) as int)));
        }
        s
    }
}

/// The object-store key under which an entry's image lives: the entry id
/// written in decimal.
pub fn image_key(entry_id: i32) -> (r: String)
    ensures
        r@ == spec_image_key(entry_id as int),
{
    if entry_id < 0 {
        let n = (-(entry_id as i64)) as u32;
        let mut s = String::new();
        s.append("-");
        let digits = dec_string(n);
        s.append(digits.as_str());
        proof {
            reveal_strlit("-");
            assert(s@ =~= seq!['-'] + dec_digits(n as nat));
        }
        s
    } else {
        dec_string(entry_id as u32)
    }
}

/// Checks that the entry an image is being attached to exists, and hands
/// back the object-store key to upload the image under. The upload itself
/// is the surrounding application's.
/// If the entry does not exist, fails with a `NotFound` status.
pub fn create_image(entry_id: i32, _auth: &UserInfo, store: &Store) -> (r: Result<
    String,
    ErrStatus,
>)
    requires
        store@.wf(),
    ensures
        match r {
            Ok(key) => has_entry_id(store@.entries, entry_id as int) && key@ == spec_image_key(
                entry_id as int,
            ),
            Err(ErrStatus::NotFound) => !has_entry_id(store@.entries, entry_id as int),
            _ => false,
        },
{
    match store.find_entry_index(entry_id) {
        Some(k) => {
            proof {
                assert(has_entry_id(store@.entries, entry_id as int)) by {
                    assert(store@.entries[k as int].id == entry_id as int);
                }
            }
        },
        None => {
            return Err(ErrStatus::NotFound);
        },
    }
    Ok(image_key(entry_id))
}

/// Outcome classes of an object-store fetch, as the surrounding
/// application reports them.
#[derive(Clone, Copy, Debug, PartialEq, Eq, Structural)]
pub enum BlobError {
    /// The object store holds nothing under the key.
    NoSuchKey,
    /// Any other upstream failure.
    Other,
}

/// Maps an object-store error to a response status: a missing key is
/// `NotFound`, anything else an internal error.
pub fn log_blob_err(e: BlobError) -> (r: ErrStatus)
    ensures
        r == (if e is NoSuchKey {
            ErrStatus::NotFound
        } else {
            ErrStatus::InternalServerError
        }),
{
    match e {
        BlobError::NoSuchKey => ErrStatus::NotFound,
        e => crate::endpoints::log_err(e),
    }
}

} // verus!
