//! User endpoints: signup, profile update, deletion, login, password
//! reset, lookup and listing.

use vstd::prelude::*;

use crate::auth::{
    bcrypt_check, hash_password, is_alphanumeric_char, jwt_claims_of, jwt_token_of,
    random_alphanumeric, token_encode, verify_password,
};
use crate::db::models::user::{self, info_of, infos_of, iviews, NewUser, UserInfo, UserV};
use crate::db::store::{
    email_index_of, email_taken, email_taken_by_other, has_user_id, lemma_email_unique,
    lemma_username_unique, user_index_of, username_index_of, username_taken,
    username_taken_by_other, Store, TS_MAX,
};
use crate::endpoints::{log_db_err, page_of, ErrStatus, PageQuery, PAGE_SIZE};

verus! {

/// Length of the one-time password-reset code.
pub const RESET_CODE_LEN: usize = 50;

/// Registers a new user: checks that neither the username nor the email
/// is taken, stores the user with the password hashed, and returns a
/// fresh auth token carrying the new identity.
/// If the username or email is taken, fails with a `BadRequest` status.
/// If an unexpected error occurs, fails with an `InternalServerError`
/// status, leaving the store unchanged.
pub fn signup(user: NewUser, store: &mut Store, date: i64, cost: u32, secret: &str) -> (r: Result<
    String,
    ErrStatus,
>)
    requires
        old(store)@.wf(),
        0 <= date <= TS_MAX,
    ensures
        final(store)@.wf(),
        match r {
            Ok(token) => {
                &&& !username_taken(old(store)@.users, user.username@)
                &&& !email_taken(old(store)@.users, user.email@)
                &&& (exists|h: Seq<char>|
                    {
                        &&& bcrypt_check(user.password@, h) == Some(true)
                        &&& (forall|p: Seq<char>| bcrypt_check(p, h) is Some)
                        &&& final(store)@.users == old(store)@.users.push(
                            UserV {
                                id: old(store)@.next_user_id,
                                username: user.username@,
                                email: user.email@,
                                password: h,
                                date: date as int,
                            },
                        )
                    })
                &&& token@ == jwt_token_of(
                    old(store)@.next_user_id,
                    user.username@,
                    user.email@,
                    secret@,
                )
                &&& jwt_claims_of(token@, secret@) == Some(
                    (old(store)@.next_user_id, user.username@, user.email@, None::<int>),
                )
                &&& final(store)@.next_user_id == old(store)@.next_user_id + 1
                &&& final(store)@.journeys == old(store)@.journeys
                &&& final(store)@.entries == old(store)@.entries
                &&& final(store)@.next_journey_id == old(store)@.next_journey_id
                &&& final(store)@.next_entry_id == old(store)@.next_entry_id
            },
            Err(ErrStatus::BadRequest) => {
                &&& *final(store) == *old(store)
                &&& username_taken(old(store)@.users, user.username@) || email_taken(
                    old(store)@.users,
                    user.email@,
                )
            },
            Err(ErrStatus::InternalServerError) => {
                &&& *final(store) == *old(store)
                &&& !username_taken(old(store)@.users, user.username@)
                &&& !email_taken(old(store)@.users, user.email@)
            },
            _ => false,
        },
{
    match store.find_user_index_by_username(&user.username) {
        Some(_) => {
            return Err(ErrStatus::BadRequest);
        },
        None => {},
    }
    match store.find_user_index_by_email(&user.email) {
        Some(_) => {
            return Err(ErrStatus::BadRequest);
        },
        None => {},
    }
    let hash = match hash_password(user.password.as_str(), cost) {
        Some(h) => h,
        None => {
            return Err(ErrStatus::InternalServerError);
        },
    };
    let record = NewUser { username: user.username, email: user.email, password: hash };
    let user_info = match user::create(&record, store, date) {
        Ok(info) => info,
        Err(e) => {
            return Err(log_db_err(e));
        },
    };
    issue_token(&user_info, secret)
}

/// Updates an existing user's profile: username, email and password, the
/// password stored hashed. Returns a refreshed token carrying the new
/// identity.
/// If the caller's identity matches no stored user, fails with a
/// `NotFound` status; on unexpected errors, with `InternalServerError`.
pub fn update(old_user: &UserInfo, updated_user: NewUser, store: &mut Store, cost: u32, secret: &str) -> (r: Result<
    String,
    ErrStatus,
>)
    requires
        old(store)@.wf(),
    ensures
        final(store)@.wf(),
        match r {
            Ok(token) => {
                &&& has_user_id(old(store)@.users, old_user@.id)
                &&& !username_taken_by_other(old(store)@.users, updated_user.username@, old_user@.id)
                &&& !email_taken_by_other(old(store)@.users, updated_user.email@, old_user@.id)
                &&& (exists|h: Seq<char>|
                    {
                        &&& bcrypt_check(updated_user.password@, h) == Some(true)
                        &&& (forall|p: Seq<char>| bcrypt_check(p, h) is Some)
                        &&& final(store)@.users == old(store)@.users.update(
                            user_index_of(old(store)@.users, old_user@.id),
                            UserV {
                                id: old_user@.id,
                                username: updated_user.username@,
                                email: updated_user.email@,
                                password: h,
                                date: old(store)@.users[user_index_of(
                                    old(store)@.users,
                                    old_user@.id,
                                )].date,
                            },
                        )
                    })
                &&& token@ == jwt_token_of(
                    old_user@.id,
                    updated_user.username@,
                    updated_user.email@,
                    secret@,
                )
                &&& jwt_claims_of(token@, secret@) == Some(
                    (old_user@.id, updated_user.username@, updated_user.email@, None::<int>),
                )
                &&& final(store)@.journeys == old(store)@.journeys
                &&& final(store)@.entries == old(store)@.entries
                &&& final(store)@.next_user_id == old(store)@.next_user_id
                &&& final(store)@.next_journey_id == old(store)@.next_journey_id
                &&& final(store)@.next_entry_id == old(store)@.next_entry_id
            },
            Err(ErrStatus::NotFound) => {
                &&& *final(store) == *old(store)
                &&& !has_user_id(old(store)@.users, old_user@.id)
            },
            Err(ErrStatus::InternalServerError) => *final(store) == *old(store),
            _ => false,
        },
{
    let hash = match hash_password(updated_user.password.as_str(), cost) {
        Some(h) => h,
        None => {
            return Err(ErrStatus::InternalServerError);
        },
    };
    let record = NewUser {
        username: updated_user.username,
        email: updated_user.email,
        password: hash,
    };
    let user_info = match user::update(old_user, &record, store) {
        Ok(info) => info,
        Err(e) => {
            return Err(log_db_err(e));
        },
    };
    proof {
        assert(user_info@.id == old_user@.id) by {
            let i = user_index_of(old(store)@.users, old_user@.id);
            assert(old(store)@.users[i].id == old_user@.id);
        }
    }
    issue_token(&user_info, secret)
}

/// Deletes a user, along with all its journeys and entries.
/// If an unexpected error occurs, fails with an `InternalServerError`
/// status.
pub fn delete(user: UserInfo, store: &mut Store) -> (r: Result<(), ErrStatus>)
    requires
        old(store)@.wf(),
    ensures
        final(store)@.wf(),
        match r {
            Ok(_) => {
                &&& final(store)@.users == old(store)@.users.filter(
                    crate::db::store::keeps_user(user@.id),
                )
                &&& final(store)@.journeys == old(store)@.journeys.filter(
                    crate::db::store::keeps_journey_of(user@.id),
                )
                &&& final(store)@.entries == old(store)@.entries.filter(
                    crate::db::store::keeps_entry(old(store)@.journeys, user@.id),
                )
                &&& final(store)@.next_user_id == old(store)@.next_user_id
                &&& final(store)@.next_journey_id == old(store)@.next_journey_id
                &&& final(store)@.next_entry_id == old(store)@.next_entry_id
            },
            Err(_) => false,
        },
{
    match user::delete(user, store) {
        Ok(_) => Ok(()),
        Err(e) => Err(log_db_err(e)),
    }
}

/// Login details of a user.
#[derive(Debug)]
pub struct UserLogin {
    pub username: String,
    pub password: String,
}

/// Grants an auth token to a user if the credentials match.
/// If the user does not exist, fails with a `NotFound` status.
/// If the credentials do not match, fails with an `Unauthorized` status.
/// If an unexpected error occurs, fails with an `InternalServerError`
/// status.
pub fn login(user_login: &UserLogin, store: &Store, secret: &str) -> (r: Result<String, ErrStatus>)
    requires
        store@.wf(),
    ensures
        match r {
            Ok(token) => {
                &&& username_taken(store@.users, user_login.username@)
                &&& {
                    let u = store@.users[username_index_of(store@.users, user_login.username@)];
                    &&& bcrypt_check(user_login.password@, u.password) == Some(true)
                    &&& token@ == jwt_token_of(u.id, u.username, u.email, secret@)
                    &&& jwt_claims_of(token@, secret@) == Some(
                        (u.id, u.username, u.email, None::<int>),
                    )
                }
            },
            Err(ErrStatus::NotFound) => !username_taken(store@.users, user_login.username@),
            Err(ErrStatus::Unauthorized) => {
                &&& username_taken(store@.users, user_login.username@)
                &&& bcrypt_check(
                    user_login.password@,
                    store@.users[username_index_of(store@.users, user_login.username@)].password,
                ) == Some(false)
            },
            Err(ErrStatus::InternalServerError) => {
                &&& username_taken(store@.users, user_login.username@)
                &&& bcrypt_check(
                    user_login.password@,
                    store@.users[username_index_of(store@.users, user_login.username@)].password,
                ) is None
            },
            _ => false,
        },
{
    let k = match store.find_user_index_by_username(&user_login.username) {
        Some(k) => k,
        None => {
            return Err(ErrStatus::NotFound);
        },
    };
    proof {
        assert(username_taken(store@.users, user_login.username@)) by {
            assert(store@.users[k as int].username == user_login.username@);
        }
        lemma_username_unique(
            store@,
            k as int,
            username_index_of(store@.users, user_login.username@),
        );
    }
    let u = &store.users[k];
    match verify_password(user_login.password.as_str(), u.password.as_str()) {
        Some(true) => {},
        Some(false) => {
            return Err(ErrStatus::Unauthorized);
        },
        None => {
            return Err(ErrStatus::InternalServerError);
        },
    }
    let user_info = UserInfo { id: u.id, username: u.username.clone(), email: u.email.clone() };
    issue_token(&user_info, secret)
}

/// The user carrying this email had its stored password replaced by a
/// bcrypt hash of the one-time code; nothing else changed.
pub open spec fn password_reset_to(
    pre: Seq<UserV>,
    post: Seq<UserV>,
    email: Seq<char>,
    code: Seq<char>,
) -> bool {
    exists|h: Seq<char>|
        {
            &&& bcrypt_check(code, h) == Some(true)
            &&& (forall|p: Seq<char>| bcrypt_check(p, h) is Some)
            &&& {
                let k = email_index_of(pre, email);
                let u0 = pre[k];
                post == pre.update(
                    k,
                    UserV {
                        id: u0.id,
                        username: u0.username,
                        email: u0.email,
                        password: h,
                        date: u0.date,
                    },
                )
            }
        }
}

/// Resets a user's password to a fresh one-time code, stored hashed. The
/// code is returned so the surrounding application can mail it to the
/// address out of band.
/// If the email belongs to no existing user, fails with a `NotFound`
/// status; on unexpected errors, with `InternalServerError`, leaving the
/// store unchanged.
#[verifier::rlimit(50)]
pub fn reset_password(email_address: &String, store: &mut Store, cost: u32) -> (r: Result<
    String,
    ErrStatus,
>)
    requires
        old(store)@.wf(),
    ensures
        final(store)@.wf(),
        match r {
            Ok(code) => {
                &&& email_taken(old(store)@.users, email_address@)
                &&& code@.len() == RESET_CODE_LEN as nat
                &&& (forall|i: int|
                    0 <= i < code@.len() ==> is_alphanumeric_char(#[trigger] code@[i]))
                &&& password_reset_to(
                    old(store)@.users,
                    final(store)@.users,
                    email_address@,
                    code@,
                )
                &&& final(store)@.journeys == old(store)@.journeys
                &&& final(store)@.entries == old(store)@.entries
                &&& final(store)@.next_user_id == old(store)@.next_user_id
                &&& final(store)@.next_journey_id == old(store)@.next_journey_id
                &&& final(store)@.next_entry_id == old(store)@.next_entry_id
            },
            Err(ErrStatus::NotFound) => {
                &&& *final(store) == *old(store)
                &&& !email_taken(old(store)@.users, email_address@)
            },
            Err(ErrStatus::InternalServerError) => {
                &&& *final(store) == *old(store)
                &&& email_taken(old(store)@.users, email_address@)
            },
            _ => false,
        },
{
    let ghost olds = old(store)@;
    let k = match store.find_user_index_by_email(email_address) {
        Some(k) => k,
        None => {
            return Err(ErrStatus::NotFound);
        },
    };
    proof {
        assert(email_taken(olds.users, email_address@)) by {
            assert(olds.users[k as int].email == email_address@);
        }
        lemma_email_unique(olds, k as int, email_index_of(olds.users, email_address@));
    }
    let code = random_alphanumeric(RESET_CODE_LEN);
    let hash = match hash_password(code.as_str(), cost) {
        Some(h) => h,
        None => {
            return Err(ErrStatus::InternalServerError);
        },
    };
    let ghost hv = hash@;
    let mut row = store.users[k].clone();
    row.password = hash;
    let ghost rowv = row@;
    store.users[k] = row;
    proof {
        let news = store@;
        let k0 = email_index_of(olds.users, email_address@);
        let u0 = olds.users[k0];
        assert(news.users =~= olds.users.update(k0, rowv));
        assert(rowv == (UserV {
            id: u0.id,
            username: u0.username,
            email: u0.email,
            password: hv,
            date: u0.date,
        }));
        assert(news.users == olds.users.update(
            k0,
            UserV { id: u0.id, username: u0.username, email: u0.email, password: hv, date: u0.date },
        ));
        assert(bcrypt_check(code@, hv) == Some(true));
        assert(news.journeys == olds.journeys && news.entries == olds.entries);
        assert(news.journeys_wf() && news.entries_wf());
        assert(password_reset_to(olds.users, news.users, email_address@, code@));
        assert forall|i: int, j: int|
            #![trigger news.users[i], news.users[j]]
            0 <= i < j < news.users.len() implies {
            &&& news.users[i].id != news.users[j].id
            &&& news.users[i].username != news.users[j].username
            &&& news.users[i].email != news.users[j].email
        } by {
            if i != k0 && j != k0 {
                assert(news.users[i] == olds.users[i] && news.users[j] == olds.users[j]);
            } else if i == k0 {
                assert(news.users[j] == olds.users[j]);
            } else {
                assert(news.users[i] == olds.users[i]);
            }
        }
    }
    Ok(code)
}

/// Gets a user's public identity by user id.
/// If the user does not exist, fails with a `NotFound` status. The
/// password is never part of the response.
pub fn get_by_id(user_id: i32, store: &Store) -> (r: Result<UserInfo, ErrStatus>)
    requires
        store@.wf(),
    ensures
        match r {
            Ok(info) => has_user_id(store@.users, user_id as int) && info@ == info_of(
                store@.users[user_index_of(store@.users, user_id as int)],
            ),
            Err(ErrStatus::NotFound) => !has_user_id(store@.users, user_id as int),
            _ => false,
        },
{
    let k = match store.find_user_index(user_id) {
        Some(k) => k,
        None => {
            return Err(ErrStatus::NotFound);
        },
    };
    proof {
        assert(has_user_id(store@.users, user_id as int)) by {
            assert(store@.users[k as int].id == user_id as int);
        }
        crate::db::store::lemma_user_id_unique(
            store@,
            k as int,
            user_index_of(store@.users, user_id as int),
        );
    }
    let u = &store.users[k];
    Ok(UserInfo { id: u.id, username: u.username.clone(), email: u.email.clone() })
}

/// Gets a page of global users, in stored order.
pub fn get_all(query: PageQuery, store: &Store) -> (r: Result<Vec<UserInfo>, ErrStatus>)
    requires
        store@.wf(),
        query.page.wf(),
    ensures
        match r {
            Ok(infos) => iviews(infos@) == infos_of(
                page_of(store@.users, query.page.0 as int),
            ),
            Err(_) => false,
        },
{
    let page = query.page.0;
    let n = store.users.len();
    let pu = page as u64;
    let mut out: Vec<UserInfo> = Vec::new();
    if pu > (n as u64) / (PAGE_SIZE as u64) {
        proof {
            assert(page * (PAGE_SIZE as int) >= n) by (nonlinear_arith)
                requires
                    pu > (n as u64) / (PAGE_SIZE as u64),
                    pu == page,
                    n >= 0,
                    PAGE_SIZE == 10,
            ;
            assert(iviews(out@) =~= infos_of(page_of(store@.users, page as int)));
        }
        return Ok(out);
    }
    let off = (pu * (PAGE_SIZE as u64)) as usize;
    proof {
        assert(off == page * (PAGE_SIZE as int) && off <= n) by (nonlinear_arith)
            requires
                pu <= (n as u64) / (PAGE_SIZE as u64),
                pu == page,
                off == pu * (PAGE_SIZE as u64),
                n <= u64::MAX,
                PAGE_SIZE == 10,
        ;
    }
    let end = if n - off > PAGE_SIZE as usize {
        off + PAGE_SIZE as usize
    } else {
        n
    };
    let mut t = off;
    while t < end
        invariant
            off <= t <= end <= store.users@.len(),
            store@.wf(),
            iviews(out@) == infos_of(store@.users.subrange(off as int, t as int)),
        decreases end - t,
    {
        let u = &store.users[t];
        out.push(UserInfo { id: u.id, username: u.username.clone(), email: u.email.clone() });
        proof {
            let sub = store@.users.subrange(off as int, t as int);
            assert(store@.users.subrange(off as int, t + 1) =~= sub.push(store@.users[t as int]));
            assert(infos_of(sub.push(store@.users[t as int])) =~= infos_of(sub).push(
                info_of(store@.users[t as int]),
            ));
            assert(iviews(out@) =~= infos_of(sub).push(info_of(store@.users[t as int])));
        }
        t += 1;
    }
    proof {
        assert(store@.users.subrange(off as int, end as int) =~= page_of(
            store@.users,
            page as int,
        ));
    }
    Ok(out)
}

/// Creates an auth token containing a user's account details, signed with
/// the server secret.
pub fn issue_token(user_info: &UserInfo, secret: &str) -> (r: Result<String, ErrStatus>)
    ensures
        match r {
            Ok(token) => {
                &&& token@ == jwt_token_of(
                    user_info@.id,
                    user_info@.username,
                    user_info@.email,
                    secret@,
                )
                &&& jwt_claims_of(token@, secret@) == Some(
                    (user_info@.id, user_info@.username, user_info@.email, None::<int>),
                )
            },
            Err(_) => false,
        },
{
    match token_encode(user_info.id, user_info.username.as_str(), user_info.email.as_str(), secret) {
        Some(t) => Ok(t),
        None => Err(ErrStatus::InternalServerError),
    }
}

} // verus!
