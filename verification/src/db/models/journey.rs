//! The journeys table: trips owned by a user, and its persistence
//! operations.

use vstd::prelude::*;

use crate::db::store::{has_user_id, Store, StoreError, TS_MAX};

verus! {

/// A stored journey row. The end timestamp is null while the trip is
/// ongoing; archiving soft-deletes the row.
#[derive(Debug)]
pub struct Journey {
    pub id: i32,
    pub user_id: i32,
    pub title: String,
    pub archived: bool,
    pub start_date: i64,
    pub end_date: Option<i64>,
}

/// The mathematical value of a stored journey row.
pub struct JourneyV {
    pub id: int,
    pub user_id: int,
    pub title: Seq<char>,
    pub archived: bool,
    pub start_date: int,
    pub end_date: Option<int>,
}

impl View for Journey {
    type V = JourneyV;

    open spec fn view(&self) -> JourneyV {
        JourneyV {
            id: self.id as int,
            user_id: self.user_id as int,
            title: self.title@,
            archived: self.archived,
            start_date: self.start_date as int,
            end_date: match self.end_date {
                Some(d) => Some(d as int),
                None => None,
            },
        }
    }
}

impl Clone for Journey {
    fn clone(&self) -> (r: Self)
        ensures
            r@ == self@,
    {
        Journey {
            id: self.id,
            user_id: self.user_id,
            title: self.title.clone(),
            archived: self.archived,
            start_date: self.start_date,
            end_date: self.end_date,
        }
    }
}

/// Input for creating a journey.
#[derive(Debug)]
pub struct NewJourney {
    pub user_id: i32,
    pub title: String,
}

/// Inserts a journey into the database, open-ended and not archived,
/// starting at the given timestamp. Fails with `ForeignKey` where the
/// owning user does not exist, and with `Full` where the serial key is
/// exhausted.
pub fn create(store: &mut Store, journey: &NewJourney, start_date: i64) -> (r: Result<
    Journey,
    StoreError,
>)
    requires
        old(store)@.wf(),
        0 <= start_date <= TS_MAX,
    ensures
        final(store)@.wf(),
        match r {
            Ok(j) => {
                &&& has_user_id(old(store)@.users, journey.user_id as int)
                &&& old(store)@.next_journey_id < i32::MAX as int
                &&& j@ == (JourneyV {
                    id: old(store)@.next_journey_id,
                    user_id: journey.user_id as int,
                    title: journey.title@,
                    archived: false,
                    start_date: start_date as int,
                    end_date: None,
                })
                &&& final(store)@.journeys == old(store)@.journeys.push(j@)
                &&& final(store)@.next_journey_id == old(store)@.next_journey_id + 1
                &&& final(store)@.users == old(store)@.users
                &&& final(store)@.entries == old(store)@.entries
                &&& final(store)@.next_user_id == old(store)@.next_user_id
                &&& final(store)@.next_entry_id == old(store)@.next_entry_id
            },
            Err(StoreError::ForeignKey) => {
                &&& *final(store) == *old(store)
                &&& !has_user_id(old(store)@.users, journey.user_id as int)
            },
            Err(StoreError::Full) => {
                &&& *final(store) == *old(store)
                &&& old(store)@.next_journey_id == i32::MAX as int
            },
            _ => false,
        },
{
    match store.find_user_index(journey.user_id) {
        Some(_) => {},
        None => {
            return Err(StoreError::ForeignKey);
        },
    }
    if store.next_journey_id == i32::MAX {
        return Err(StoreError::Full);
    }
    let id = store.next_journey_id;
    let row = Journey {
        id,
        user_id: journey.user_id,
        title: journey.title.clone(),
        archived: false,
        start_date,
        end_date: None,
    };
    let result = row.clone();
    let ghost rowv = row@;
    store.journeys.push(row);
    store.next_journey_id = id + 1;
    proof {
        let olds = old(store)@;
        let news = store@;
        assert(news.journeys =~= olds.journeys.push(rowv));
        assert forall|i: int, j: int|
            #![trigger news.journeys[i], news.journeys[j]]
            0 <= i < j < news.journeys.len() implies news.journeys[i].id != news.journeys[j].id by {
            if j == news.journeys.len() - 1 {
                assert(news.journeys[i] == olds.journeys[i]);
                assert(news.journeys[j] == rowv);
            }
        }
    }
    Ok(result)
}

} // verus!
