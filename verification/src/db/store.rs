//! The in-memory relational store: three tables with serial primary keys,
//! unique usernames and emails, and the query helpers the handlers build on.

use vstd::prelude::*;
use vstd::multiset::Multiset;

use crate::db::models::entry::{Entry, EntryV};
use crate::db::models::journey::{Journey, JourneyV};
use crate::db::models::user::{User, UserV};

verus! {

/// Latest timestamp the store accepts: late in year 9999, chosen so that
/// every stored timestamp stays well inside the range the calendar
/// formatter supports.
pub const TS_MAX: i64 = 253402207200;

/// Errors of the persistence layer.
#[derive(Clone, Copy, Debug, PartialEq, Eq, Structural)]
pub enum StoreError {
    /// No row matched.
    NotFound,
    /// A uniqueness constraint would be violated.
    Duplicate,
    /// A referenced row does not exist.
    ForeignKey,
    /// A serial key is exhausted.
    Full,
}

/// The three tables, and the next value of each serial primary key.
pub struct Store {
    pub users: Vec<User>,
    pub journeys: Vec<Journey>,
    pub entries: Vec<Entry>,
    pub next_user_id: i32,
    pub next_journey_id: i32,
    pub next_entry_id: i32,
}

/// The mathematical value of the store: each table as the sequence of its
/// rows in insertion order.
pub struct StoreV {
    pub users: Seq<UserV>,
    pub journeys: Seq<JourneyV>,
    pub entries: Seq<EntryV>,
    pub next_user_id: int,
    pub next_journey_id: int,
    pub next_entry_id: int,
}

/// The values of a sequence of user rows.
pub open spec fn uviews(v: Seq<User>) -> Seq<UserV> {
    v.map_values(|u: User| u@)
}

/// The values of a sequence of journey rows.
pub open spec fn jviews(v: Seq<Journey>) -> Seq<JourneyV> {
    v.map_values(|j: Journey| j@)
}

/// The values of a sequence of entry rows.
pub open spec fn eviews(v: Seq<Entry>) -> Seq<EntryV> {
    v.map_values(|e: Entry| e@)
}

impl View for Store {
    type V = StoreV;

    open spec fn view(&self) -> StoreV {
        StoreV {
            users: uviews(self.users@),
            journeys: jviews(self.journeys@),
            entries: eviews(self.entries@),
            next_user_id: self.next_user_id as int,
            next_journey_id: self.next_journey_id as int,
            next_entry_id: self.next_entry_id as int,
        }
    }
}

/// There is a user row with this id.
pub open spec fn has_user_id(users: Seq<UserV>, id: int) -> bool {
    exists|i: int| 0 <= i < users.len() && (#[trigger] users[i]).id == id
}

/// The index of the user row with this id.
pub open spec fn user_index_of(users: Seq<UserV>, id: int) -> int {
    choose|i: int| 0 <= i < users.len() && (#[trigger] users[i]).id == id
}

/// Some user row carries this username.
pub open spec fn username_taken(users: Seq<UserV>, username: Seq<char>) -> bool {
    exists|i: int| 0 <= i < users.len() && (#[trigger] users[i]).username == username
}

/// The index of the user row carrying this username.
pub open spec fn username_index_of(users: Seq<UserV>, username: Seq<char>) -> int {
    choose|i: int| 0 <= i < users.len() && (#[trigger] users[i]).username == username
}

/// Some user row carries this email.
pub open spec fn email_taken(users: Seq<UserV>, email: Seq<char>) -> bool {
    exists|i: int| 0 <= i < users.len() && (#[trigger] users[i]).email == email
}

/// The index of the user row carrying this email.
pub open spec fn email_index_of(users: Seq<UserV>, email: Seq<char>) -> int {
    choose|i: int| 0 <= i < users.len() && (#[trigger] users[i]).email == email
}

/// A user row other than the one with this id carries this username.
pub open spec fn username_taken_by_other(users: Seq<UserV>, username: Seq<char>, id: int) -> bool {
    exists|i: int|
        0 <= i < users.len() && (#[trigger] users[i]).username == username && users[i].id != id
}

/// A user row other than the one with this id carries this email.
pub open spec fn email_taken_by_other(users: Seq<UserV>, email: Seq<char>, id: int) -> bool {
    exists|i: int| 0 <= i < users.len() && (#[trigger] users[i]).email == email && users[i].id != id
}

/// The journey with this id exists and is owned by this user.
pub open spec fn journey_owned(journeys: Seq<JourneyV>, jid: int, uid: int) -> bool {
    exists|i: int|
        0 <= i < journeys.len() && (#[trigger] journeys[i]).id == jid && journeys[i].user_id == uid
}

/// There is a journey row with this id.
pub open spec fn has_journey_id(journeys: Seq<JourneyV>, id: int) -> bool {
    exists|i: int| 0 <= i < journeys.len() && (#[trigger] journeys[i]).id == id
}

/// The index of the journey row with this id.
pub open spec fn journey_index_of(journeys: Seq<JourneyV>, id: int) -> int {
    choose|i: int| 0 <= i < journeys.len() && (#[trigger] journeys[i]).id == id
}

/// There is an entry row with this id.
pub open spec fn has_entry_id(entries: Seq<EntryV>, id: int) -> bool {
    exists|i: int| 0 <= i < entries.len() && (#[trigger] entries[i]).id == id
}

/// The index of the entry row with this id.
pub open spec fn entry_index_of(entries: Seq<EntryV>, id: int) -> int {
    choose|i: int| 0 <= i < entries.len() && (#[trigger] entries[i]).id == id
}

impl StoreV {
    /// The users table is well formed: ids are serial and unique, usernames
    /// and emails are unique, timestamps are in range.
    pub open spec fn users_wf(self) -> bool {
        &&& forall|i: int|
            0 <= i < self.users.len() ==> {
                &&& 0 < (#[trigger] self.users[i]).id < self.next_user_id
                &&& 0 <= self.users[i].date <= TS_MAX as int
            }
        &&& forall|i: int, j: int|
            #![trigger self.users[i], self.users[j]]
            0 <= i < j < self.users.len() ==> {
                &&& self.users[i].id != self.users[j].id
                &&& self.users[i].username != self.users[j].username
                &&& self.users[i].email != self.users[j].email
            }
    }

    /// The journeys table is well formed: ids are serial and unique,
    /// timestamps are in range.
    pub open spec fn journeys_wf(self) -> bool {
        &&& forall|i: int|
            0 <= i < self.journeys.len() ==> {
                &&& 0 < (#[trigger] self.journeys[i]).id < self.next_journey_id
                &&& 0 <= self.journeys[i].start_date <= TS_MAX as int
                &&& (self.journeys[i].end_date matches Some(d) ==> 0 <= d <= TS_MAX as int)
            }
        &&& forall|i: int, j: int|
            #![trigger self.journeys[i], self.journeys[j]]
            0 <= i < j < self.journeys.len() ==> self.journeys[i].id != self.journeys[j].id
    }

    /// The entries table is well formed: ids are serial and unique,
    /// timestamps are in range.
    pub open spec fn entries_wf(self) -> bool {
        &&& forall|i: int|
            0 <= i < self.entries.len() ==> {
                &&& 0 < (#[trigger] self.entries[i]).id < self.next_entry_id
                &&& 0 <= self.entries[i].created <= TS_MAX as int
            }
        &&& forall|i: int, j: int|
            #![trigger self.entries[i], self.entries[j]]
            0 <= i < j < self.entries.len() ==> self.entries[i].id != self.entries[j].id
    }

    /// The whole store is well formed.
    pub open spec fn wf(self) -> bool {
        &&& 1 <= self.next_user_id <= i32::MAX as int
        &&& 1 <= self.next_journey_id <= i32::MAX as int
        &&& 1 <= self.next_entry_id <= i32::MAX as int
        &&& self.users_wf()
        &&& self.journeys_wf()
        &&& self.entries_wf()
    }
}

/// Keeps the user rows that do not carry this id.
pub open spec fn keeps_user(uid: int) -> spec_fn(UserV) -> bool {
    |u: UserV| u.id != uid
}

/// Keeps the journey rows not owned by this user.
pub open spec fn keeps_journey_of(uid: int) -> spec_fn(JourneyV) -> bool {
    |j: JourneyV| j.user_id != uid
}

/// Keeps the entry rows whose journey is not owned by this user.
pub open spec fn keeps_entry(journeys: Seq<JourneyV>, uid: int) -> spec_fn(EntryV) -> bool {
    |e: EntryV| !journey_owned(journeys, e.journey_id, uid)
}

/// Every element of a filtered sequence stands in the sequence itself.
pub proof fn lemma_filter_elem_membership<A>(s: Seq<A>, p: spec_fn(A) -> bool, i: int)
    requires
        0 <= i < s.filter(p).len(),
    ensures
        s.contains(s.filter(p)[i]),
    decreases s.len(),
{
    reveal(Seq::filter);
    if s.len() != 0 {
        let s0 = s.drop_last();
        if p(s.last()) && i == s.filter(p).len() - 1 {
            assert(s[s.len() - 1] == s.filter(p)[i]);
        } else {
            lemma_filter_elem_membership(s0, p, i);
            let k = choose|k: int| 0 <= k < s0.len() && s0[k] == s0.filter(p)[i];
            assert(s[k] == s.filter(p)[i]);
        }
    }
}

/// Filtering keeps a key pairwise distinct.
pub proof fn lemma_filter_unique_keys<A, K>(s: Seq<A>, p: spec_fn(A) -> bool, key: spec_fn(A) -> K)
    requires
        forall|i: int, j: int| 0 <= i < j < s.len() ==> key(s[i]) != key(s[j]),
    ensures
        forall|i: int, j: int|
            0 <= i < j < s.filter(p).len() ==> key(s.filter(p)[i]) != key(s.filter(p)[j]),
    decreases s.len(),
{
    reveal(Seq::filter);
    if s.len() != 0 {
        let s0 = s.drop_last();
        assert forall|i: int, j: int| 0 <= i < j < s0.len() implies key(s0[i]) != key(s0[j]) by {
            assert(s0[i] == s[i] && s0[j] == s[j]);
        }
        lemma_filter_unique_keys(s0, p, key);
        if p(s.last()) {
            assert forall|i: int, j: int|
                0 <= i < j < s.filter(p).len() implies key(s.filter(p)[i]) != key(
                s.filter(p)[j],
            ) by {
                if j == s.filter(p).len() - 1 {
                    lemma_filter_elem_membership(s0, p, i);
                    let k = choose|k: int| 0 <= k < s0.len() && s0[k] == s0.filter(p)[i];
                    assert(key(s[k]) != key(s[s.len() - 1]));
                } else {
                    assert(s.filter(p)[i] == s0.filter(p)[i] && s.filter(p)[j] == s0.filter(p)[j]);
                }
            }
        }
    }
}

/// Every element of a filtered sequence satisfies any property that all
/// elements of the sequence satisfy.
pub proof fn lemma_filter_elems_keep<A>(s: Seq<A>, p: spec_fn(A) -> bool, q: spec_fn(A) -> bool)
    requires
        forall|i: int| 0 <= i < s.len() ==> q(#[trigger] s[i]),
    ensures
        forall|i: int| 0 <= i < s.filter(p).len() ==> q(#[trigger] s.filter(p)[i]),
{
    assert forall|i: int| 0 <= i < s.filter(p).len() implies q(#[trigger] s.filter(p)[i]) by {
        lemma_filter_elem_membership(s, p, i);
        let k = choose|k: int| 0 <= k < s.len() && s[k] == s.filter(p)[i];
        assert(q(s[k]));
    }
}

/// Two user rows of a well-formed table sharing an id are the same row.
pub proof fn lemma_user_id_unique(s: StoreV, i: int, j: int)
    requires
        s.users_wf(),
        0 <= i < s.users.len(),
        0 <= j < s.users.len(),
        s.users[i].id == s.users[j].id,
    ensures
        i == j,
{
}

/// Two user rows of a well-formed table sharing a username are the same row.
pub proof fn lemma_username_unique(s: StoreV, i: int, j: int)
    requires
        s.users_wf(),
        0 <= i < s.users.len(),
        0 <= j < s.users.len(),
        s.users[i].username == s.users[j].username,
    ensures
        i == j,
{
}

/// Two user rows of a well-formed table sharing an email are the same row.
pub proof fn lemma_email_unique(s: StoreV, i: int, j: int)
    requires
        s.users_wf(),
        0 <= i < s.users.len(),
        0 <= j < s.users.len(),
        s.users[i].email == s.users[j].email,
    ensures
        i == j,
{
}

/// Two journey rows of a well-formed table sharing an id are the same row.
pub proof fn lemma_journey_id_unique(s: StoreV, i: int, j: int)
    requires
        s.journeys_wf(),
        0 <= i < s.journeys.len(),
        0 <= j < s.journeys.len(),
        s.journeys[i].id == s.journeys[j].id,
    ensures
        i == j,
{
}

/// Two entry rows of a well-formed table sharing an id are the same row.
pub proof fn lemma_entry_id_unique(s: StoreV, i: int, j: int)
    requires
        s.entries_wf(),
        0 <= i < s.entries.len(),
        0 <= j < s.entries.len(),
        s.entries[i].id == s.entries[j].id,
    ensures
        i == j,
{
}

/// Inserts a journey into a sequence sorted by start timestamp
/// descending: after every row that starts no earlier, before the rest.
pub open spec fn insert_journey_desc(s: Seq<JourneyV>, x: JourneyV) -> Seq<JourneyV>
    decreases s.len(),
{
    if s.len() == 0 {
        seq![x]
    } else if s[0].start_date >= x.start_date {
        seq![s[0]] + insert_journey_desc(s.drop_first(), x)
    } else {
        seq![x] + s
    }
}

/// Sorts journeys by start timestamp descending; rows with equal starts
/// keep their stored order.
pub open spec fn sort_journeys_desc(s: Seq<JourneyV>) -> Seq<JourneyV>
    decreases s.len(),
{
    if s.len() == 0 {
        Seq::empty()
    } else {
        insert_journey_desc(sort_journeys_desc(s.drop_last()), s.last())
    }
}

/// Journeys ordered by start timestamp descending.
pub open spec fn journeys_sorted_desc(s: Seq<JourneyV>) -> bool {
    forall|i: int, j: int|
        0 <= i < j < s.len() ==> (#[trigger] s[i]).start_date >= (#[trigger] s[j]).start_date
}

/// Where the first `p` rows start no earlier than `x` and row `p` (if
/// any) starts strictly earlier, the sorted insertion puts `x` exactly at
/// position `p`.
pub proof fn lemma_insert_journey_desc_at(s: Seq<JourneyV>, x: JourneyV, p: int)
    requires
        0 <= p <= s.len(),
        forall|k: int| 0 <= k < p ==> (#[trigger] s[k]).start_date >= x.start_date,
        p < s.len() ==> s[p].start_date < x.start_date,
    ensures
        insert_journey_desc(s, x) == s.take(p).push(x) + s.skip(p),
    decreases s.len(),
{
    if p == 0 {
        if s.len() == 0 {
            assert(insert_journey_desc(s, x) =~= s.take(0).push(x) + s.skip(0));
        } else {
            assert(insert_journey_desc(s, x) =~= s.take(0).push(x) + s.skip(0));
        }
    } else {
        let s0 = s.drop_first();
        assert(s[0].start_date >= x.start_date);
        assert forall|k: int| 0 <= k < p - 1 implies (#[trigger] s0[k]).start_date
            >= x.start_date by {
            assert(s0[k] == s[k + 1]);
        }
        lemma_insert_journey_desc_at(s0, x, p - 1);
        assert(insert_journey_desc(s, x) =~= s.take(p).push(x) + s.skip(p));
    }
}

/// Sorted insertion keeps the order, grows the length by one, and adds
/// exactly the new row to the contents.
pub proof fn lemma_insert_journey_desc_props(s: Seq<JourneyV>, x: JourneyV)
    requires
        journeys_sorted_desc(s),
    ensures
        journeys_sorted_desc(insert_journey_desc(s, x)),
        insert_journey_desc(s, x).len() == s.len() + 1,
        insert_journey_desc(s, x).to_multiset() == s.to_multiset().insert(x),
    decreases s.len(),
{
    broadcast use vstd::seq_lib::group_to_multiset_ensures;
    broadcast use vstd::multiset::group_multiset_axioms;

    let out = insert_journey_desc(s, x);
    if s.len() == 0 {
        assert(out =~= Seq::empty().push(x));
        assert(s.to_multiset() =~= Multiset::empty());
        assert(out.to_multiset() =~= s.to_multiset().insert(x));
    } else if s[0].start_date >= x.start_date {
        let s0 = s.drop_first();
        assert forall|i: int, j: int|
            0 <= i < j < s0.len() implies (#[trigger] s0[i]).start_date
            >= (#[trigger] s0[j]).start_date by {
            assert(s0[i] == s[i + 1] && s0[j] == s[j + 1]);
        }
        lemma_insert_journey_desc_props(s0, x);
        let inner = insert_journey_desc(s0, x);
        assert(out =~= seq![s[0]] + inner);
        assert forall|i: int, j: int|
            0 <= i < j < out.len() implies (#[trigger] out[i]).start_date
            >= (#[trigger] out[j]).start_date by {
            if i == 0 {
                // the head starts no earlier than x and than every row of s
                if inner.len() > 0 {
                    assert(out[j] == inner[j - 1]);
                    assert(inner.to_multiset().contains(inner[j - 1]));
                    if inner[j - 1] == x {
                    } else {
                        assert(s0.to_multiset().count(inner[j - 1]) > 0);
                        let k = choose|k: int|
                            0 <= k < s0.len() && #[trigger] s0[k] == inner[j - 1];
                        assert(s0.contains(inner[j - 1])) by {
                            if s0.to_multiset().count(inner[j - 1]) > 0 {
                            }
                        }
                        let k2 = choose|k2: int|
                            0 <= k2 < s0.len() && #[trigger] s0[k2] == inner[j - 1];
                        assert(s[k2 + 1] == inner[j - 1]);
                    }
                }
            } else {
                assert(out[i] == inner[i - 1] && out[j] == inner[j - 1]);
            }
        }
        assert(out.to_multiset() =~= s.to_multiset().insert(x)) by {
            vstd::seq_lib::lemma_multiset_commutative(seq![s[0]], inner);
            vstd::seq_lib::lemma_multiset_commutative(seq![s[0]], s0);
            assert(s =~= seq![s[0]] + s0);
            assert(seq![s[0]].to_multiset() =~= Multiset::empty().insert(s[0]));
        }
    } else {
        assert(out =~= seq![x] + s);
        assert forall|i: int, j: int|
            0 <= i < j < out.len() implies (#[trigger] out[i]).start_date
            >= (#[trigger] out[j]).start_date by {
            if i == 0 {
                assert(out[j] == s[j - 1]);
                if j - 1 > 0 {
                    assert(s[0].start_date >= s[j - 1].start_date);
                }
            } else {
                assert(out[i] == s[i - 1] && out[j] == s[j - 1]);
            }
        }
        assert(out.to_multiset() =~= s.to_multiset().insert(x)) by {
            vstd::seq_lib::lemma_multiset_commutative(seq![x], s);
            assert(seq![x].to_multiset() =~= Multiset::empty().insert(x));
        }
    }
}

/// The journey sort orders by start timestamp descending and keeps
/// exactly the rows it was given.
pub proof fn lemma_sort_journeys_desc_props(s: Seq<JourneyV>)
    ensures
        journeys_sorted_desc(sort_journeys_desc(s)),
        sort_journeys_desc(s).len() == s.len(),
        sort_journeys_desc(s).to_multiset() == s.to_multiset(),
    decreases s.len(),
{
    broadcast use vstd::seq_lib::group_to_multiset_ensures;
    broadcast use vstd::multiset::group_multiset_axioms;

    if s.len() == 0 {
        assert(sort_journeys_desc(s).to_multiset() =~= s.to_multiset());
    } else {
        let s0 = s.drop_last();
        lemma_sort_journeys_desc_props(s0);
        lemma_insert_journey_desc_props(sort_journeys_desc(s0), s.last());
        assert(s0.push(s.last()) =~= s);
        assert(s0.push(s.last()).to_multiset() =~= s0.to_multiset().insert(s.last()));
    }
}

/// Inserts an entry into a sequence sorted by creation timestamp
/// descending: after every row created no earlier, before the rest.
pub open spec fn insert_entry_desc(s: Seq<EntryV>, x: EntryV) -> Seq<EntryV>
    decreases s.len(),
{
    if s.len() == 0 {
        seq![x]
    } else if s[0].created >= x.created {
        seq![s[0]] + insert_entry_desc(s.drop_first(), x)
    } else {
        seq![x] + s
    }
}

/// Sorts entries by creation timestamp descending; rows created at the
/// same time keep their stored order.
pub open spec fn sort_entries_desc(s: Seq<EntryV>) -> Seq<EntryV>
    decreases s.len(),
{
    if s.len() == 0 {
        Seq::empty()
    } else {
        insert_entry_desc(sort_entries_desc(s.drop_last()), s.last())
    }
}

/// Entries ordered by creation timestamp descending.
pub open spec fn entries_sorted_desc(s: Seq<EntryV>) -> bool {
    forall|i: int, j: int|
        0 <= i < j < s.len() ==> (#[trigger] s[i]).created >= (#[trigger] s[j]).created
}

/// Where the first `p` rows were created no earlier than `x` and row `p`
/// (if any) strictly earlier, the sorted insertion puts `x` exactly at
/// position `p`.
pub proof fn lemma_insert_entry_desc_at(s: Seq<EntryV>, x: EntryV, p: int)
    requires
        0 <= p <= s.len(),
        forall|k: int| 0 <= k < p ==> (#[trigger] s[k]).created >= x.created,
        p < s.len() ==> s[p].created < x.created,
    ensures
        insert_entry_desc(s, x) == s.take(p).push(x) + s.skip(p),
    decreases s.len(),
{
    if p == 0 {
        assert(insert_entry_desc(s, x) =~= s.take(0).push(x) + s.skip(0));
    } else {
        let s0 = s.drop_first();
        assert(s[0].created >= x.created);
        assert forall|k: int| 0 <= k < p - 1 implies (#[trigger] s0[k]).created >= x.created by {
            assert(s0[k] == s[k + 1]);
        }
        lemma_insert_entry_desc_at(s0, x, p - 1);
        assert(insert_entry_desc(s, x) =~= s.take(p).push(x) + s.skip(p));
    }
}

/// Sorted insertion keeps the order, grows the length by one, and adds
/// exactly the new row to the contents.
pub proof fn lemma_insert_entry_desc_props(s: Seq<EntryV>, x: EntryV)
    requires
        entries_sorted_desc(s),
    ensures
        entries_sorted_desc(insert_entry_desc(s, x)),
        insert_entry_desc(s, x).len() == s.len() + 1,
        insert_entry_desc(s, x).to_multiset() == s.to_multiset().insert(x),
    decreases s.len(),
{
    broadcast use vstd::seq_lib::group_to_multiset_ensures;
    broadcast use vstd::multiset::group_multiset_axioms;

    let out = insert_entry_desc(s, x);
    if s.len() == 0 {
        assert(out =~= Seq::empty().push(x));
        assert(s.to_multiset() =~= Multiset::empty());
        assert(out.to_multiset() =~= s.to_multiset().insert(x));
    } else if s[0].created >= x.created {
        let s0 = s.drop_first();
        assert forall|i: int, j: int|
            0 <= i < j < s0.len() implies (#[trigger] s0[i]).created
            >= (#[trigger] s0[j]).created by {
            assert(s0[i] == s[i + 1] && s0[j] == s[j + 1]);
        }
        lemma_insert_entry_desc_props(s0, x);
        let inner = insert_entry_desc(s0, x);
        assert(out =~= seq![s[0]] + inner);
        assert forall|i: int, j: int|
            0 <= i < j < out.len() implies (#[trigger] out[i]).created
            >= (#[trigger] out[j]).created by {
            if i == 0 {
                assert(out[j] == inner[j - 1]);
                assert(inner.to_multiset().contains(inner[j - 1]));
                if inner[j - 1] != x {
                    assert(s0.to_multiset().count(inner[j - 1]) > 0);
                    let k = choose|k: int| 0 <= k < s0.len() && #[trigger] s0[k] == inner[j - 1];
                    assert(s[k + 1] == inner[j - 1]);
                }
            } else {
                assert(out[i] == inner[i - 1] && out[j] == inner[j - 1]);
            }
        }
        assert(out.to_multiset() =~= s.to_multiset().insert(x)) by {
            vstd::seq_lib::lemma_multiset_commutative(seq![s[0]], inner);
            vstd::seq_lib::lemma_multiset_commutative(seq![s[0]], s0);
            assert(s =~= seq![s[0]] + s0);
            assert(seq![s[0]].to_multiset() =~= Multiset::empty().insert(s[0]));
        }
    } else {
        assert(out =~= seq![x] + s);
        assert forall|i: int, j: int|
            0 <= i < j < out.len() implies (#[trigger] out[i]).created
            >= (#[trigger] out[j]).created by {
            if i == 0 {
                assert(out[j] == s[j - 1]);
                if j - 1 > 0 {
                    assert(s[0].created >= s[j - 1].created);
                }
            } else {
                assert(out[i] == s[i - 1] && out[j] == s[j - 1]);
            }
        }
        assert(out.to_multiset() =~= s.to_multiset().insert(x)) by {
            vstd::seq_lib::lemma_multiset_commutative(seq![x], s);
            assert(seq![x].to_multiset() =~= Multiset::empty().insert(x));
        }
    }
}

/// The entry sort orders by creation timestamp descending and keeps
/// exactly the rows it was given.
pub proof fn lemma_sort_entries_desc_props(s: Seq<EntryV>)
    ensures
        entries_sorted_desc(sort_entries_desc(s)),
        sort_entries_desc(s).len() == s.len(),
        sort_entries_desc(s).to_multiset() == s.to_multiset(),
    decreases s.len(),
{
    broadcast use vstd::seq_lib::group_to_multiset_ensures;
    broadcast use vstd::multiset::group_multiset_axioms;

    if s.len() == 0 {
        assert(sort_entries_desc(s).to_multiset() =~= s.to_multiset());
    } else {
        let s0 = s.drop_last();
        lemma_sort_entries_desc_props(s0);
        lemma_insert_entry_desc_props(sort_entries_desc(s0), s.last());
        assert(s0.push(s.last()) =~= s);
        assert(s0.push(s.last()).to_multiset() =~= s0.to_multiset().insert(s.last()));
    }
}

/// Sorts journey rows by start timestamp descending, rows with equal
/// starts keeping their stored order.
pub fn sorted_journeys_desc(v: &Vec<Journey>) -> (r: Vec<Journey>)
    ensures
        jviews(r@) == sort_journeys_desc(jviews(v@)),
{
    let ghost sv = jviews(v@);
    let mut out: Vec<Journey> = Vec::new();
    let mut i: usize = 0;
    while i < v.len()
        invariant
            i <= v.len(),
            sv == jviews(v@),
            jviews(out@) == sort_journeys_desc(sv.take(i as int)),
        decreases v.len() - i,
    {
        let ghost outv = jviews(out@);
        let mut p: usize = 0;
        while p < out.len() && out[p].start_date >= v[i].start_date
            invariant
                p <= out.len(),
                outv == jviews(out@),
                sv == jviews(v@),
                i < v.len(),
                forall|k: int| 0 <= k < p ==> (#[trigger] outv[k]).start_date >= sv[i as int].start_date,
            decreases out.len() - p,
        {
            p += 1;
        }
        out.insert(p, v[i].clone());
        proof {
            assert(sv.take(i + 1).drop_last() =~= sv.take(i as int));
            assert(sv.take(i + 1).last() == sv[i as int]);
            lemma_insert_journey_desc_at(outv, sv[i as int], p as int);
            assert(jviews(out@) =~= outv.take(p as int).push(sv[i as int]) + outv.skip(p as int));
        }
        i += 1;
    }
    proof {
        assert(sv.take(sv.len() as int) =~= sv);
    }
    out
}

/// Sorts entry rows by creation timestamp descending, rows created at the
/// same time keeping their stored order.
pub fn sorted_entries_desc(v: &Vec<Entry>) -> (r: Vec<Entry>)
    ensures
        eviews(r@) == sort_entries_desc(eviews(v@)),
{
    let ghost sv = eviews(v@);
    let mut out: Vec<Entry> = Vec::new();
    let mut i: usize = 0;
    while i < v.len()
        invariant
            i <= v.len(),
            sv == eviews(v@),
            eviews(out@) == sort_entries_desc(sv.take(i as int)),
        decreases v.len() - i,
    {
        let ghost outv = eviews(out@);
        let mut p: usize = 0;
        while p < out.len() && out[p].created >= v[i].created
            invariant
                p <= out.len(),
                outv == eviews(out@),
                sv == eviews(v@),
                i < v.len(),
                forall|k: int| 0 <= k < p ==> (#[trigger] outv[k]).created >= sv[i as int].created,
            decreases out.len() - p,
        {
            p += 1;
        }
        out.insert(p, v[i].clone());
        proof {
            assert(sv.take(i + 1).drop_last() =~= sv.take(i as int));
            assert(sv.take(i + 1).last() == sv[i as int]);
            lemma_insert_entry_desc_at(outv, sv[i as int], p as int);
            assert(eviews(out@) =~= outv.take(p as int).push(sv[i as int]) + outv.skip(p as int));
        }
        i += 1;
    }
    proof {
        assert(sv.take(sv.len() as int) =~= sv);
    }
    out
}

impl Store {
    /// An empty store.
    pub fn new() -> (r: Store)
        ensures
            r@.wf(),
            r@.users == Seq::<UserV>::empty(),
            r@.journeys == Seq::<JourneyV>::empty(),
            r@.entries == Seq::<EntryV>::empty(),
            r@.next_user_id == 1,
            r@.next_journey_id == 1,
            r@.next_entry_id == 1,
    {
        let r = Store {
            users: Vec::new(),
            journeys: Vec::new(),
            entries: Vec::new(),
            next_user_id: 1,
            next_journey_id: 1,
            next_entry_id: 1,
        };
        proof {
            assert(r@.users =~= Seq::<UserV>::empty());
            assert(r@.journeys =~= Seq::<JourneyV>::empty());
            assert(r@.entries =~= Seq::<EntryV>::empty());
        }
        r
    }

    /// The index of the user row with this id, if any.
    pub fn find_user_index(&self, id: i32) -> (r: Option<usize>)
        ensures
            match r {
                Some(i) => i < self@.users.len() && self@.users[i as int].id == id as int,
                None => !has_user_id(self@.users, id as int),
            },
    {
        let mut i: usize = 0;
        while i < self.users.len()
            invariant
                i <= self.users.len(),
                forall|k: int| 0 <= k < i ==> (#[trigger] self@.users[k]).id != id as int,
            decreases self.users.len() - i,
        {
            if self.users[i].id == id {
                return Some(i);
            }
            i += 1;
        }
        None
    }

    /// The index of the user row carrying this username, if any.
    pub fn find_user_index_by_username(&self, username: &String) -> (r: Option<usize>)
        ensures
            match r {
                Some(i) => i < self@.users.len() && self@.users[i as int].username == username@,
                None => !username_taken(self@.users, username@),
            },
    {
        let mut i: usize = 0;
        while i < self.users.len()
            invariant
                i <= self.users.len(),
                forall|k: int| 0 <= k < i ==> (#[trigger] self@.users[k]).username != username@,
            decreases self.users.len() - i,
        {
            if self.users[i].username == *username {
                return Some(i);
            }
            i += 1;
        }
        None
    }

    /// The index of the user row carrying this email, if any.
    pub fn find_user_index_by_email(&self, email: &String) -> (r: Option<usize>)
        ensures
            match r {
                Some(i) => i < self@.users.len() && self@.users[i as int].email == email@,
                None => !email_taken(self@.users, email@),
            },
    {
        let mut i: usize = 0;
        while i < self.users.len()
            invariant
                i <= self.users.len(),
                forall|k: int| 0 <= k < i ==> (#[trigger] self@.users[k]).email != email@,
            decreases self.users.len() - i,
        {
            if self.users[i].email == *email {
                return Some(i);
            }
            i += 1;
        }
        None
    }

    /// The index of the journey row with this id, if any.
    pub fn find_journey_index(&self, id: i32) -> (r: Option<usize>)
        ensures
            match r {
                Some(i) => i < self@.journeys.len() && self@.journeys[i as int].id == id as int,
                None => !has_journey_id(self@.journeys, id as int),
            },
    {
        let mut i: usize = 0;
        while i < self.journeys.len()
            invariant
                i <= self.journeys.len(),
                forall|k: int| 0 <= k < i ==> (#[trigger] self@.journeys[k]).id != id as int,
            decreases self.journeys.len() - i,
        {
            if self.journeys[i].id == id {
                return Some(i);
            }
            i += 1;
        }
        None
    }

    /// The index of the entry row with this id, if any.
    pub fn find_entry_index(&self, id: i32) -> (r: Option<usize>)
        ensures
            match r {
                Some(i) => i < self@.entries.len() && self@.entries[i as int].id == id as int,
                None => !has_entry_id(self@.entries, id as int),
            },
    {
        let mut i: usize = 0;
        while i < self.entries.len()
            invariant
                i <= self.entries.len(),
                forall|k: int| 0 <= k < i ==> (#[trigger] self@.entries[k]).id != id as int,
            decreases self.entries.len() - i,
        {
            if self.entries[i].id == id {
                return Some(i);
            }
            i += 1;
        }
        None
    }
}

} // verus!
