//! The entries table: journal notes belonging to a journey, and its
//! persistence operations.

use vstd::prelude::*;

use crate::db::store::{
    entry_index_of, has_entry_id, has_journey_id, lemma_entry_id_unique, Store, StoreError, TS_MAX,
};

verus! {

/// A stored entry row. An attached image lives in the object store under
/// a key derived from the entry id; archiving soft-deletes the row.
#[derive(Debug)]
pub struct Entry {
    pub id: i32,
    pub journey_id: i32,
    pub created: i64,
    pub archived: bool,
    pub description: Option<String>,
    pub coordinates: Option<String>,
    pub location: Option<String>,
}

/// The mathematical value of a stored entry row.
pub struct EntryV {
    pub id: int,
    pub journey_id: int,
    pub created: int,
    pub archived: bool,
    pub description: Option<Seq<char>>,
    pub coordinates: Option<Seq<char>>,
    pub location: Option<Seq<char>>,
}

impl View for Entry {
    type V = EntryV;

    open spec fn view(&self) -> EntryV {
        EntryV {
            id: self.id as int,
            journey_id: self.journey_id as int,
            created: self.created as int,
            archived: self.archived,
            description: match self.description {
                Some(ref s) => Some(s@),
                None => None,
            },
            coordinates: match self.coordinates {
                Some(ref s) => Some(s@),
                None => None,
            },
            location: match self.location {
                Some(ref s) => Some(s@),
                None => None,
            },
        }
    }
}

impl Clone for Entry {
    fn clone(&self) -> (r: Self)
        ensures
            r@ == self@,
    {
        Entry {
            id: self.id,
            journey_id: self.journey_id,
            created: self.created,
            archived: self.archived,
            description: match &self.description {
                Some(s) => Some(s.clone()),
                None => None,
            },
            coordinates: match &self.coordinates {
                Some(s) => Some(s.clone()),
                None => None,
            },
            location: match &self.location {
                Some(s) => Some(s.clone()),
                None => None,
            },
        }
    }
}

/// Input for creating an entry.
#[derive(Debug)]
pub struct NewEntry {
    pub journey_id: i32,
    pub description: Option<String>,
    pub coordinates: Option<String>,
    pub location: Option<String>,
}

impl Clone for NewEntry {
    fn clone(&self) -> (r: Self)
        ensures
            r.journey_id == self.journey_id,
            (match r.description {
                Some(ref s) => self.description matches Some(ref t) && s@ == t@,
                None => self.description is None,
            }),
            (match r.coordinates {
                Some(ref s) => self.coordinates matches Some(ref t) && s@ == t@,
                None => self.coordinates is None,
            }),
            (match r.location {
                Some(ref s) => self.location matches Some(ref t) && s@ == t@,
                None => self.location is None,
            }),
    {
        NewEntry {
            journey_id: self.journey_id,
            description: match &self.description {
                Some(s) => Some(s.clone()),
                None => None,
            },
            coordinates: match &self.coordinates {
                Some(s) => Some(s.clone()),
                None => None,
            },
            location: match &self.location {
                Some(s) => Some(s.clone()),
                None => None,
            },
        }
    }
}

/// The entry row that creating from this input at this timestamp and with
/// this id stores.
pub open spec fn new_entry_row(e: &NewEntry, id: int, created: int) -> EntryV {
    EntryV {
        id: id,
        journey_id: e.journey_id as int,
        created: created,
        archived: false,
        description: match e.description {
            Some(ref s) => Some(s@),
            None => None,
        },
        coordinates: match e.coordinates {
            Some(ref s) => Some(s@),
            None => None,
        },
        location: match e.location {
            Some(ref s) => Some(s@),
            None => None,
        },
    }
}

/// Inserts an entry into the database, not archived, created at the given
/// timestamp. Fails with `ForeignKey` where the owning journey does not
/// exist, and with `Full` where the serial key is exhausted.
pub fn create(new_entry: &NewEntry, store: &mut Store, created: i64) -> (r: Result<
    Entry,
    StoreError,
>)
    requires
        old(store)@.wf(),
        0 <= created <= TS_MAX,
    ensures
        final(store)@.wf(),
        match r {
            Ok(e) => {
                &&& has_journey_id(old(store)@.journeys, new_entry.journey_id as int)
                &&& old(store)@.next_entry_id < i32::MAX as int
                &&& e@ == new_entry_row(new_entry, old(store)@.next_entry_id, created as int)
                &&& final(store)@.entries == old(store)@.entries.push(e@)
                &&& final(store)@.next_entry_id == old(store)@.next_entry_id + 1
                &&& final(store)@.users == old(store)@.users
                &&& final(store)@.journeys == old(store)@.journeys
                &&& final(store)@.next_user_id == old(store)@.next_user_id
                &&& final(store)@.next_journey_id == old(store)@.next_journey_id
            },
            Err(StoreError::ForeignKey) => {
                &&& *final(store) == *old(store)
                &&& !has_journey_id(old(store)@.journeys, new_entry.journey_id as int)
            },
            Err(StoreError::Full) => {
                &&& *final(store) == *old(store)
                &&& old(store)@.next_entry_id == i32::MAX as int
            },
            _ => false,
        },
{
    match store.find_journey_index(new_entry.journey_id) {
        Some(_) => {},
        None => {
            return Err(StoreError::ForeignKey);
        },
    }
    if store.next_entry_id == i32::MAX {
        return Err(StoreError::Full);
    }
    let id = store.next_entry_id;
    let input = new_entry.clone();
    let row = Entry {
        id,
        journey_id: input.journey_id,
        created,
        archived: false,
        description: input.description,
        coordinates: input.coordinates,
        location: input.location,
    };
    let result = row.clone();
    let ghost rowv = row@;
    store.entries.push(row);
    store.next_entry_id = id + 1;
    proof {
        let olds = old(store)@;
        let news = store@;
        assert(rowv == new_entry_row(new_entry, olds.next_entry_id, created as int));
        assert(news.entries =~= olds.entries.push(rowv));
        assert(news.users == olds.users);
        assert(news.journeys == olds.journeys);
        assert(news.users_wf());
        assert(news.journeys_wf());
        assert forall|i: int, j: int|
            #![trigger news.entries[i], news.entries[j]]
            0 <= i < j < news.entries.len() implies news.entries[i].id != news.entries[j].id by {
            if j == news.entries.len() - 1 {
                assert(news.entries[i] == olds.entries[i]);
                assert(news.entries[j] == rowv);
            }
        }
    }
    Ok(result)
}

/// Soft-deletes an entry: sets its archived flag. There is deliberately
/// no ownership check here; archiving an entry that is not stored changes
/// nothing.
pub fn archive(entry_id: i32, store: &mut Store) -> (r: Result<(), StoreError>)
    requires
        old(store)@.wf(),
    ensures
        final(store)@.wf(),
        match r {
            Ok(_) => {
                &&& !has_entry_id(old(store)@.entries, entry_id as int) ==> *final(store) == *old(
                    store,
                )
                &&& has_entry_id(old(store)@.entries, entry_id as int) ==> {
                    let i = entry_index_of(old(store)@.entries, entry_id as int);
                    let e0 = old(store)@.entries[i];
                    &&& final(store)@.entries == old(store)@.entries.update(
                        i,
                        EntryV {
                            id: e0.id,
                            journey_id: e0.journey_id,
                            created: e0.created,
                            archived: true,
                            description: e0.description,
                            coordinates: e0.coordinates,
                            location: e0.location,
                        },
                    )
                    &&& final(store)@.users == old(store)@.users
                    &&& final(store)@.journeys == old(store)@.journeys
                    &&& final(store)@.next_user_id == old(store)@.next_user_id
                    &&& final(store)@.next_journey_id == old(store)@.next_journey_id
                    &&& final(store)@.next_entry_id == old(store)@.next_entry_id
                }
            },
            Err(_) => false,
        },
{
    let ghost olds = old(store)@;
    let idx = match store.find_entry_index(entry_id) {
        Some(i) => i,
        None => {
            return Ok(());
        },
    };
    let mut row = store.entries[idx].clone();
    row.archived = true;
    let ghost rowv = row@;
    store.entries[idx] = row;
    proof {
        let news = store@;
        assert(has_entry_id(olds.entries, entry_id as int)) by {
            assert(olds.entries[idx as int].id == entry_id as int);
        }
        let i0 = entry_index_of(olds.entries, entry_id as int);
        assert(0 <= i0 < olds.entries.len() && olds.entries[i0].id == entry_id as int);
        lemma_entry_id_unique(olds, idx as int, i0);
        assert(news.entries =~= olds.entries.update(i0, rowv));
        assert(news.users == olds.users);
        assert(news.journeys == olds.journeys);
        assert(news.users_wf());
        assert(news.journeys_wf());
        assert forall|i: int, j: int|
            #![trigger news.entries[i], news.entries[j]]
            0 <= i < j < news.entries.len() implies news.entries[i].id != news.entries[j].id by {
            if i != i0 && j != i0 {
                assert(news.entries[i] == olds.entries[i] && news.entries[j] == olds.entries[j]);
            } else if i == i0 {
                assert(news.entries[j] == olds.entries[j]);
                assert(olds.entries[j].id != olds.entries[i0].id);
            } else {
                assert(news.entries[i] == olds.entries[i]);
                assert(olds.entries[i].id != olds.entries[i0].id);
            }
        }
    }
    Ok(())
}

} // verus!
