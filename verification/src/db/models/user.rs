//! The users table: identity records, and its persistence operations.

use vstd::prelude::*;

use crate::auth::{jwt_claims_of, token_decode, token_expired, TOKEN_LEEWAY_SECS};
use crate::db::store::{
    email_taken, email_taken_by_other, has_entry_id, has_journey_id, has_user_id, keeps_entry,
    keeps_journey_of, keeps_user,
    lemma_filter_elem_membership, lemma_filter_elems_keep, lemma_filter_unique_keys,
    lemma_user_id_unique, journey_owned, jviews, eviews, user_index_of, username_taken,
    username_taken_by_other, uviews, Store, StoreError, StoreV, TS_MAX,
};
use crate::db::models::entry::{Entry, EntryV};
use crate::db::models::journey::{Journey, JourneyV};
use crate::endpoints::ErrStatus;

verus! {

/// A stored user row. The password field holds only a salted bcrypt
/// hash, never the plaintext. Timestamps are non-leap seconds since the
/// Unix epoch.
#[derive(Debug)]
pub struct User {
    pub id: i32,
    pub username: String,
    pub email: String,
    pub password: String,
    pub date: i64,
}

/// The mathematical value of a stored user row.
pub struct UserV {
    pub id: int,
    pub username: Seq<char>,
    pub email: Seq<char>,
    pub password: Seq<char>,
    pub date: int,
}

impl View for User {
    type V = UserV;

    open spec fn view(&self) -> UserV {
        UserV {
            id: self.id as int,
            username: self.username@,
            email: self.email@,
            password: self.password@,
            date: self.date as int,
        }
    }
}

impl Clone for User {
    fn clone(&self) -> (r: Self)
        ensures
            r@ == self@,
    {
        User {
            id: self.id,
            username: self.username.clone(),
            email: self.email.clone(),
            password: self.password.clone(),
            date: self.date,
        }
    }
}

/// Input for creating or updating a user.
#[derive(Debug)]
pub struct NewUser {
    pub username: String,
    pub email: String,
    pub password: String,
}

/// Public identity of a user: what listings return and what a session
/// token embeds as its claims. Never carries the password.
#[derive(Debug, PartialEq, Eq)]
pub struct UserInfo {
    pub id: i32,
    pub username: String,
    pub email: String,
}

/// The mathematical value of a public identity.
pub struct UserInfoV {
    pub id: int,
    pub username: Seq<char>,
    pub email: Seq<char>,
}

impl View for UserInfo {
    type V = UserInfoV;

    open spec fn view(&self) -> UserInfoV {
        UserInfoV { id: self.id as int, username: self.username@, email: self.email@ }
    }
}

impl Clone for UserInfo {
    fn clone(&self) -> (r: Self)
        ensures
            r@ == self@,
    {
        UserInfo {
            id: self.id,
            username: self.username.clone(),
            email: self.email.clone(),
        }
    }
}

/// The public identity embedded in a stored row.
pub open spec fn info_of(u: UserV) -> UserInfoV {
    UserInfoV { id: u.id, username: u.username, email: u.email }
}

/// The values of a sequence of public identities.
pub open spec fn iviews(v: Seq<UserInfo>) -> Seq<UserInfoV> {
    v.map_values(|u: UserInfo| u@)
}

/// The public identities embedded in a sequence of stored rows.
pub open spec fn infos_of(s: Seq<UserV>) -> Seq<UserInfoV> {
    s.map_values(|u: UserV| info_of(u))
}

impl From<User> for UserInfo {
    fn from(user: User) -> (r: Self) {
        UserInfo { id: user.id, username: user.username, email: user.email }
    }
}

impl vstd::std_specs::convert::FromSpecImpl<User> for UserInfo {
    open spec fn obeys_from_spec() -> bool {
        true
    }

    open spec fn from_spec(user: User) -> Self {
        UserInfo { id: user.id, username: user.username, email: user.email }
    }
}

impl UserInfo {
    /// Request guard for user authentication: resolves the caller's
    /// identity from the bearer token of the Authorization header, and
    /// fails with `Unauthorized` where the header is absent, the token
    /// does not verify against the server secret, or the token carries an
    /// expiry claim that has passed at the given time. The failures are
    /// not distinguished to the client.
    pub fn from_request(token: Option<&str>, secret: &str, now: i64) -> (r: Result<
        UserInfo,
        ErrStatus,
    >)
        ensures
            match r {
                Ok(info) => {
                    &&& token matches Some(t)
                    &&& (jwt_claims_of(t@, secret@) matches Some(c) && {
                        &&& c.0 == info@.id
                        &&& c.1 == info@.username
                        &&& c.2 == info@.email
                        &&& !token_expired(c.3, now as int)
                    })
                },
                Err(e) => {
                    &&& e == ErrStatus::Unauthorized
                    &&& (token matches Some(t) ==> (jwt_claims_of(t@, secret@) matches Some(c)
                        ==> token_expired(c.3, now as int)))
                },
            },
    {
        let t = match token {
            Some(t) => t,
            None => {
                return Err(ErrStatus::Unauthorized);
            },
        };
        let (id, username, email, exp) = match token_decode(t, secret) {
            Some(claims) => claims,
            None => {
                return Err(ErrStatus::Unauthorized);
            },
        };
        if let Some(e) = exp {
            if now > TOKEN_LEEWAY_SECS && e < (now - TOKEN_LEEWAY_SECS) as u64 {
                return Err(ErrStatus::Unauthorized);
            }
        }
        Ok(UserInfo { id, username, email })
    }
}

/// Creates a user record in the database. The password field of the input
/// must already hold the hash to store. Fails with `Duplicate` where the
/// username or the email is already taken, and with `Full` where the
/// serial key is exhausted.
pub fn create(user: &NewUser, store: &mut Store, date: i64) -> (r: Result<UserInfo, StoreError>)
    requires
        old(store)@.wf(),
        0 <= date <= TS_MAX,
    ensures
        final(store)@.wf(),
        match r {
            Ok(info) => {
                &&& !username_taken(old(store)@.users, user.username@)
                &&& !email_taken(old(store)@.users, user.email@)
                &&& old(store)@.next_user_id < i32::MAX as int
                &&& info@ == (UserInfoV {
                    id: old(store)@.next_user_id,
                    username: user.username@,
                    email: user.email@,
                })
                &&& final(store)@.users == old(store)@.users.push(
                    UserV {
                        id: old(store)@.next_user_id,
                        username: user.username@,
                        email: user.email@,
                        password: user.password@,
                        date: date as int,
                    },
                )
                &&& final(store)@.next_user_id == old(store)@.next_user_id + 1
                &&& final(store)@.journeys == old(store)@.journeys
                &&& final(store)@.entries == old(store)@.entries
                &&& final(store)@.next_journey_id == old(store)@.next_journey_id
                &&& final(store)@.next_entry_id == old(store)@.next_entry_id
            },
            Err(StoreError::Duplicate) => {
                &&& *final(store) == *old(store)
                &&& username_taken(old(store)@.users, user.username@) || email_taken(
                    old(store)@.users,
                    user.email@,
                )
            },
            Err(StoreError::Full) => {
                &&& *final(store) == *old(store)
                &&& old(store)@.next_user_id == i32::MAX as int
            },
            _ => false,
        },
{
    match store.find_user_index_by_username(&user.username) {
        Some(_) => {
            return Err(StoreError::Duplicate);
        },
        None => {},
    }
    match store.find_user_index_by_email(&user.email) {
        Some(_) => {
            return Err(StoreError::Duplicate);
        },
        None => {},
    }
    if store.next_user_id == i32::MAX {
        return Err(StoreError::Full);
    }
    let id = store.next_user_id;
    let row = User {
        id,
        username: user.username.clone(),
        email: user.email.clone(),
        password: user.password.clone(),
        date,
    };
    let ghost rowv = row@;
    store.users.push(row);
    store.next_user_id = id + 1;
    proof {
        let olds = old(store)@;
        let news = store@;
        assert(news.users =~= olds.users.push(rowv));
        assert forall|i: int, j: int|
            #![trigger news.users[i], news.users[j]]
            0 <= i < j < news.users.len() implies {
            &&& news.users[i].id != news.users[j].id
            &&& news.users[i].username != news.users[j].username
            &&& news.users[i].email != news.users[j].email
        } by {
            if j == news.users.len() - 1 {
                assert(news.users[i] == olds.users[i]);
                assert(news.users[j] == rowv);
            }
        }
    }
    Ok(UserInfo { id, username: user.username.clone(), email: user.email.clone() })
}

/// Updates a user record in the database: username, email and the stored
/// password hash, which the input must already hold. Fails with
/// `NotFound` where no row carries the id, and with `Duplicate` where
/// another user already carries the new username or email.
pub fn update(old_user: &UserInfo, user: &NewUser, store: &mut Store) -> (r: Result<
    UserInfo,
    StoreError,
>)
    requires
        old(store)@.wf(),
    ensures
        final(store)@.wf(),
        match r {
            Ok(info) => {
                &&& has_user_id(old(store)@.users, old_user@.id)
                &&& !username_taken_by_other(old(store)@.users, user.username@, old_user@.id)
                &&& !email_taken_by_other(old(store)@.users, user.email@, old_user@.id)
                &&& {
                    let i = user_index_of(old(store)@.users, old_user@.id);
                    let u0 = old(store)@.users[i];
                    &&& info@ == (UserInfoV {
                        id: u0.id,
                        username: user.username@,
                        email: user.email@,
                    })
                    &&& final(store)@.users == old(store)@.users.update(
                        i,
                        UserV {
                            id: u0.id,
                            username: user.username@,
                            email: user.email@,
                            password: user.password@,
                            date: u0.date,
                        },
                    )
                }
                &&& final(store)@.journeys == old(store)@.journeys
                &&& final(store)@.entries == old(store)@.entries
                &&& final(store)@.next_user_id == old(store)@.next_user_id
                &&& final(store)@.next_journey_id == old(store)@.next_journey_id
                &&& final(store)@.next_entry_id == old(store)@.next_entry_id
            },
            Err(StoreError::NotFound) => {
                &&& *final(store) == *old(store)
                &&& !has_user_id(old(store)@.users, old_user@.id)
            },
            Err(StoreError::Duplicate) => {
                &&& *final(store) == *old(store)
                &&& has_user_id(old(store)@.users, old_user@.id)
                &&& username_taken_by_other(old(store)@.users, user.username@, old_user@.id)
                    || email_taken_by_other(old(store)@.users, user.email@, old_user@.id)
            },
            _ => false,
        },
{
    let ghost olds = old(store)@;
    let idx = match store.find_user_index(old_user.id) {
        Some(i) => i,
        None => {
            return Err(StoreError::NotFound);
        },
    };
    match store.find_user_index_by_username(&user.username) {
        Some(k) => {
            if store.users[k].id != old_user.id {
                return Err(StoreError::Duplicate);
            }
            proof {
                assert forall|m: int|
                    0 <= m < olds.users.len() && (#[trigger] olds.users[m]).username
                        == user.username@ implies olds.users[m].id == old_user@.id by {
                    if m != k as int {
                        assert(olds.users[m].username != olds.users[k as int].username);
                    }
                }
            }
        },
        None => {},
    }
    proof {
        assert forall|m: int|
            0 <= m < olds.users.len() && (#[trigger] olds.users[m]).username
                == user.username@ implies olds.users[m].id == old_user@.id by {}
    }
    match store.find_user_index_by_email(&user.email) {
        Some(k) => {
            if store.users[k].id != old_user.id {
                return Err(StoreError::Duplicate);
            }
            proof {
                assert forall|m: int|
                    0 <= m < olds.users.len() && (#[trigger] olds.users[m]).email
                        == user.email@ implies olds.users[m].id == old_user@.id by {
                    if m != k as int {
                        assert(olds.users[m].email != olds.users[k as int].email);
                    }
                }
            }
        },
        None => {},
    }
    proof {
        assert forall|m: int|
            0 <= m < olds.users.len() && (#[trigger] olds.users[m]).email
                == user.email@ implies olds.users[m].id == old_user@.id by {}
    }
    let date = store.users[idx].date;
    let row = User {
        id: old_user.id,
        username: user.username.clone(),
        email: user.email.clone(),
        password: user.password.clone(),
        date,
    };
    let ghost rowv = row@;
    store.users[idx] = row;
    proof {
        let news = store@;
        assert(has_user_id(olds.users, old_user@.id)) by {
            assert(olds.users[idx as int].id == old_user@.id);
        }
        let i0 = user_index_of(olds.users, old_user@.id);
        assert(0 <= i0 < olds.users.len() && olds.users[i0].id == old_user@.id);
        lemma_user_id_unique(olds, idx as int, i0);
        assert(news.users =~= olds.users.update(i0, rowv));
        assert forall|i: int, j: int|
            #![trigger news.users[i], news.users[j]]
            0 <= i < j < news.users.len() implies {
            &&& news.users[i].id != news.users[j].id
            &&& news.users[i].username != news.users[j].username
            &&& news.users[i].email != news.users[j].email
        } by {
            if i == i0 {
                assert(news.users[j] == olds.users[j]);
                assert(olds.users[j].id != olds.users[i0].id);
            } else if j == i0 {
                assert(news.users[i] == olds.users[i]);
                assert(olds.users[i].id != olds.users[i0].id);
            } else {
                assert(news.users[i] == olds.users[i] && news.users[j] == olds.users[j]);
            }
        }
    }
    Ok(UserInfo { id: old_user.id, username: user.username.clone(), email: user.email.clone() })
}

/// The journey with this id exists and is owned by this user.
fn journey_owned_exec(journeys: &Vec<Journey>, jid: i32, uid: i32) -> (r: bool)
    ensures
        r == journey_owned(jviews(journeys@), jid as int, uid as int),
{
    let mut i: usize = 0;
    while i < journeys.len()
        invariant
            i <= journeys.len(),
            forall|k: int|
                0 <= k < i ==> !((#[trigger] jviews(journeys@)[k]).id == jid as int && jviews(
                    journeys@,
                )[k].user_id == uid as int),
        decreases journeys.len() - i,
    {
        if journeys[i].id == jid && journeys[i].user_id == uid {
            proof {
                assert((#[trigger] jviews(journeys@)[i as int]).id == jid as int && jviews(
                    journeys@,
                )[i as int].user_id == uid as int);
            }
            return true;
        }
        i += 1;
    }
    false
}

/// Deletes a user, and its owned journeys and entries, as one unit of
/// work. Returns how many journeys and entries were removed with the
/// user. Deleting a user that is not stored removes nothing.
pub fn delete(user: UserInfo, store: &mut Store) -> (r: Result<(usize, usize), StoreError>)
    requires
        old(store)@.wf(),
    ensures
        final(store)@.wf(),
        match r {
            Ok(counts) => {
                &&& final(store)@.users == old(store)@.users.filter(keeps_user(user@.id))
                &&& final(store)@.journeys == old(store)@.journeys.filter(
                    keeps_journey_of(user@.id),
                )
                &&& final(store)@.entries == old(store)@.entries.filter(
                    keeps_entry(old(store)@.journeys, user@.id),
                )
                &&& counts.0 as int == old(store)@.journeys.len() - final(store)@.journeys.len()
                &&& counts.1 as int == old(store)@.entries.len() - final(store)@.entries.len()
                &&& final(store)@.next_user_id == old(store)@.next_user_id
                &&& final(store)@.next_journey_id == old(store)@.next_journey_id
                &&& final(store)@.next_entry_id == old(store)@.next_entry_id
            },
            Err(_) => false,
        },
{
    broadcast use vstd::prelude::Seq::lemma_filter_push;
    broadcast use vstd::prelude::Seq::lemma_filter_len_push;
    broadcast use vstd::prelude::Seq::lemma_filter_len;

    let uid = user.id;
    let ghost olds = old(store)@;
    let ghost keep_e = keeps_entry(olds.journeys, uid as int);
    let ghost keep_j = keeps_journey_of(uid as int);
    let ghost keep_u = keeps_user(uid as int);

    let mut kept_entries: Vec<Entry> = Vec::new();
    let mut i: usize = 0;
    while i < store.entries.len()
        invariant
            *store == *old(store),
            olds == store@,
            uid == user.id,
            i <= store.entries.len(),
            keep_e == keeps_entry(olds.journeys, uid as int),
            eviews(kept_entries@) == olds.entries.take(i as int).filter(keep_e),
        decreases store.entries.len() - i,
    {
        let jid = store.entries[i].journey_id;
        let owned = journey_owned_exec(&store.journeys, jid, uid);
        proof {
            assert(olds.entries.take(i + 1) =~= olds.entries.take(i as int).push(
                olds.entries[i as int],
            ));
            olds.entries.take(i as int).lemma_filter_push(olds.entries[i as int], keep_e);
            assert(keep_e(olds.entries[i as int]) == !owned);
        }
        if !owned {
            let ghost before = eviews(kept_entries@);
            kept_entries.push(store.entries[i].clone());
            proof {
                assert(eviews(kept_entries@) =~= before.push(olds.entries[i as int]));
            }
        }
        i += 1;
    }
    proof {
        assert(olds.entries.take(olds.entries.len() as int) =~= olds.entries);
    }

    let mut kept_journeys: Vec<Journey> = Vec::new();
    let mut j: usize = 0;
    while j < store.journeys.len()
        invariant
            *store == *old(store),
            olds == store@,
            uid == user.id,
            j <= store.journeys.len(),
            keep_j == keeps_journey_of(uid as int),
            jviews(kept_journeys@) == olds.journeys.take(j as int).filter(keep_j),
        decreases store.journeys.len() - j,
    {
        proof {
            assert(olds.journeys.take(j + 1) =~= olds.journeys.take(j as int).push(
                olds.journeys[j as int],
            ));
            olds.journeys.take(j as int).lemma_filter_push(olds.journeys[j as int], keep_j);
        }
        if store.journeys[j].user_id != uid {
            let ghost before = jviews(kept_journeys@);
            kept_journeys.push(store.journeys[j].clone());
            proof {
                assert(jviews(kept_journeys@) =~= before.push(olds.journeys[j as int]));
            }
        }
        j += 1;
    }
    proof {
        assert(olds.journeys.take(olds.journeys.len() as int) =~= olds.journeys);
    }

    let mut kept_users: Vec<User> = Vec::new();
    let mut k: usize = 0;
    while k < store.users.len()
        invariant
            *store == *old(store),
            olds == store@,
            uid == user.id,
            k <= store.users.len(),
            keep_u == keeps_user(uid as int),
            uviews(kept_users@) == olds.users.take(k as int).filter(keep_u),
        decreases store.users.len() - k,
    {
        proof {
            assert(olds.users.take(k + 1) =~= olds.users.take(k as int).push(
                olds.users[k as int],
            ));
            olds.users.take(k as int).lemma_filter_push(olds.users[k as int], keep_u);
        }
        if store.users[k].id != uid {
            let ghost before = uviews(kept_users@);
            kept_users.push(store.users[k].clone());
            proof {
                assert(uviews(kept_users@) =~= before.push(olds.users[k as int]));
            }
        }
        k += 1;
    }
    proof {
        assert(olds.users.take(olds.users.len() as int) =~= olds.users);
        assert(olds.entries.filter(keep_e).len() <= olds.entries.len());
        assert(olds.journeys.filter(keep_j).len() <= olds.journeys.len());
    }

    let del_journeys = store.journeys.len() - kept_journeys.len();
    let del_entries = store.entries.len() - kept_entries.len();
    store.users = kept_users;
    store.journeys = kept_journeys;
    store.entries = kept_entries;

    proof {
        let news = store@;
        lemma_filter_unique_keys(olds.users, keep_u, |u: UserV| u.id);
        lemma_filter_unique_keys(olds.users, keep_u, |u: UserV| u.username);
        lemma_filter_unique_keys(olds.users, keep_u, |u: UserV| u.email);
        lemma_filter_elems_keep(
            olds.users,
            keep_u,
            |u: UserV| 0 < u.id < olds.next_user_id && 0 <= u.date <= TS_MAX as int,
        );
        lemma_filter_unique_keys(olds.journeys, keep_j, |jv: JourneyV| jv.id);
        lemma_filter_elems_keep(
            olds.journeys,
            keep_j,
            |jv: JourneyV| 0 < jv.id < olds.next_journey_id && 0 <= jv.start_date <= TS_MAX as int
                && (jv.end_date matches Some(d) ==> 0 <= d <= TS_MAX as int),
        );
        lemma_filter_unique_keys(olds.entries, keep_e, |ev: EntryV| ev.id);
        lemma_filter_elems_keep(
            olds.entries,
            keep_e,
            |ev: EntryV| 0 < ev.id < olds.next_entry_id && 0 <= ev.created <= TS_MAX as int,
        );
        assert(news.users_wf());
        assert(news.journeys_wf());
        assert(news.entries_wf());
    }
    Ok((del_journeys, del_entries))
}

/// Deleting a user removes its row, all of its journeys and all of their
/// entries: a lookup of the user, of any journey it owned, or of any
/// entry of such a journey finds nothing in the new tables.
pub proof fn lemma_delete_cascade(pre: StoreV, post: StoreV, uid: int)
    requires
        pre.wf(),
        post.users == pre.users.filter(keeps_user(uid)),
        post.journeys == pre.journeys.filter(keeps_journey_of(uid)),
        post.entries == pre.entries.filter(keeps_entry(pre.journeys, uid)),
    ensures
        !has_user_id(post.users, uid),
        forall|i: int|
            0 <= i < pre.journeys.len() && (#[trigger] pre.journeys[i]).user_id == uid
                ==> !has_journey_id(post.journeys, pre.journeys[i].id),
        forall|i: int|
            0 <= i < pre.entries.len() && journey_owned(
                pre.journeys,
                (#[trigger] pre.entries[i]).journey_id,
                uid,
            ) ==> !has_entry_id(post.entries, pre.entries[i].id),
{
    broadcast use vstd::seq_lib::group_filter_ensures;

    assert(!has_user_id(post.users, uid)) by {
        if has_user_id(post.users, uid) {
            let k = choose|k: int| 0 <= k < post.users.len() && (#[trigger] post.users[k]).id == uid;
            assert(keeps_user(uid)(post.users[k]));
        }
    }
    assert forall|i: int|
        0 <= i < pre.journeys.len() && (#[trigger] pre.journeys[i]).user_id == uid implies
        !has_journey_id(post.journeys, pre.journeys[i].id) by {
        if has_journey_id(post.journeys, pre.journeys[i].id) {
            let k = choose|k: int|
                0 <= k < post.journeys.len() && (#[trigger] post.journeys[k]).id
                    == pre.journeys[i].id;
            assert(keeps_journey_of(uid)(post.journeys[k]));
            lemma_filter_elem_membership(pre.journeys, keeps_journey_of(uid), k);
            let m = choose|m: int|
                0 <= m < pre.journeys.len() && #[trigger] pre.journeys[m] == post.journeys[k];
            crate::db::store::lemma_journey_id_unique(pre, m, i);
        }
    }
    assert forall|i: int|
        0 <= i < pre.entries.len() && journey_owned(
            pre.journeys,
            (#[trigger] pre.entries[i]).journey_id,
            uid,
        ) implies !has_entry_id(post.entries, pre.entries[i].id) by {
        if has_entry_id(post.entries, pre.entries[i].id) {
            let k = choose|k: int|
                0 <= k < post.entries.len() && (#[trigger] post.entries[k]).id == pre.entries[i].id;
            assert(keeps_entry(pre.journeys, uid)(post.entries[k]));
            lemma_filter_elem_membership(pre.entries, keeps_entry(pre.journeys, uid), k);
            let m = choose|m: int|
                0 <= m < pre.entries.len() && #[trigger] pre.entries[m] == post.entries[k];
            crate::db::store::lemma_entry_id_unique(pre, m, i);
        }
    }
}

} // verus!
