use journaloo::db::models::user::{NewUser, UserInfo};
use journaloo::db::store::Store;
use journaloo::endpoints::user::{get_all, get_by_id, reset_password, signup, UserLogin};
use journaloo::endpoints::{ErrStatus, Page, PageQuery};

const COST: u32 = 4;
const SECRET: &str = "SECRET-REDACTED";

fn new_user(username: &str, email: &str, password: &str) -> NewUser {
    NewUser {
        username: username.to_string(),
        email: email.to_string(),
        password: password.to_string(),
    }
}

fn check_signup(store: &mut Store, user: NewUser) {
    let result = signup(user, store, 0, COST, SECRET);
    assert_eq!(result.expect_err("expected signup rejection"), ErrStatus::BadRequest);
}

#[test]
fn signup_errors() {
    let mut store = Store::new();
    signup(new_user("jondoe", "jon@doe.com", "asdf"), &mut store, 0, COST, SECRET)
        .expect("failed to create user");

    // duplicate username, fresh email
    check_signup(&mut store, new_user("jondoe", "notjon@doe.com", "asdf"));

    // fresh username, duplicate email
    check_signup(&mut store, new_user("notjondoe", "jon@doe.com", "asdf"));
}

#[test]
fn signup_fresh_pair_succeeds() {
    let mut store = Store::new();
    signup(new_user("jondoe", "jon@doe.com", "asdf"), &mut store, 0, COST, SECRET)
        .expect("failed to create user");

    // a wholly novel username+email pair succeeds, and the token's
    // claims match the stored user
    let token = signup(new_user("janedoe", "jane@doe.com", "hunter2"), &mut store, 7, COST, SECRET)
        .expect("fresh signup rejected");
    let claims = UserInfo::from_request(Some(&token), SECRET, 0).expect("token did not verify");
    let stored = get_by_id(claims.id, &store).expect("signed-up user not stored");
    assert_eq!(claims, stored);
    assert_eq!(stored.username, "janedoe");
    assert_eq!(stored.email, "jane@doe.com");
}

#[test]
fn get() {
    let mut store = Store::new();
    let token = signup(new_user("JonDoe2", "jon2@doe.com", "asdf"), &mut store, 0, COST, SECRET)
        .expect("failed to create user");
    let info = UserInfo::from_request(Some(&token), SECRET, 0).expect("failed to decode auth token");

    let result = get_by_id(info.id, &store).expect("no body found");
    assert_eq!(result, info);
    assert_eq!(result.username, "JonDoe2");

    let missing = get_by_id(info.id - 1, &store);
    assert_eq!(missing.expect_err("expected no user"), ErrStatus::NotFound);
}

#[test]
fn login() {
    let mut store = Store::new();
    let signup_token =
        signup(new_user("jondoe", "jon@doe.com", "asdf"), &mut store, 0, COST, SECRET)
            .expect("failed to create user");
    let jd_info = UserInfo::from_request(Some(&signup_token), SECRET, 0)
        .expect("failed to decode auth token");

    let jd_login = UserLogin { username: "jondoe".to_string(), password: "asdf".to_string() };
    let body = journaloo::endpoints::user::login(&jd_login, &store, SECRET).expect("login with correct credentials failed");

    // the returned token must decode with the server secret, and its
    // claims must equal the stored user info
    let mut validation = jsonwebtoken::Validation::new(jsonwebtoken::Algorithm::HS256);
    validation.required_spec_claims = std::collections::HashSet::new();
    validation.validate_exp = false;
    let data = jsonwebtoken::decode::<serde_json::Value>(
        &body,
        &jsonwebtoken::DecodingKey::from_secret(SECRET.as_bytes()),
        &validation,
    )
    .expect("failed to decode auth token");
    assert_eq!(
        data.claims.get("id").and_then(serde_json::Value::as_i64),
        Some(jd_info.id as i64)
    );
    assert_eq!(
        data.claims.get("username").and_then(serde_json::Value::as_str),
        Some("jondoe")
    );
    assert_eq!(
        data.claims.get("email").and_then(serde_json::Value::as_str),
        Some("jon@doe.com")
    );

    let bad_login = UserLogin { username: "jondoe".to_string(), password: "aaaa".to_string() };
    let response = journaloo::endpoints::user::login(&bad_login, &store, SECRET);
    assert_eq!(response.expect_err("expected rejected login"), ErrStatus::Unauthorized);
}

#[test]
fn login_unknown_user() {
    let store = Store::new();
    let attempt = UserLogin { username: "nobody".to_string(), password: "asdf".to_string() };
    let response = journaloo::endpoints::user::login(&attempt, &store, SECRET);
    assert_eq!(response.expect_err("expected missing user"), ErrStatus::NotFound);
}

#[test]
fn profile_update_refreshes_token() {
    let mut store = Store::new();
    let token = signup(new_user("jondoe", "jon@doe.com", "asdf"), &mut store, 0, COST, SECRET)
        .expect("failed to create user");
    let caller = UserInfo::from_request(Some(&token), SECRET, 0).expect("failed to decode token");
    signup(new_user("janedoe", "jane@doe.com", "asdf"), &mut store, 0, COST, SECRET)
        .expect("failed to create user");

    let refreshed = journaloo::endpoints::user::update(
        &caller,
        new_user("jondoe2", "jon2@doe.com", "newpass"),
        &mut store,
        COST,
        SECRET,
    )
    .expect("profile update failed");
    let claims = UserInfo::from_request(Some(&refreshed), SECRET, 0).expect("refreshed token bad");
    assert_eq!(claims.id, caller.id);
    assert_eq!(claims.username, "jondoe2");
    assert_eq!(claims.email, "jon2@doe.com");

    // the new password is the one stored (hashed)
    let relogin = UserLogin { username: "jondoe2".to_string(), password: "newpass".to_string() };
    journaloo::endpoints::user::login(&relogin, &store, SECRET).expect("new password rejected");

    // taking another user's username violates uniqueness at the store
    let clash = journaloo::endpoints::user::update(
        &claims,
        new_user("janedoe", "jon2@doe.com", "newpass"),
        &mut store,
        COST,
        SECRET,
    );
    assert_eq!(
        clash.expect_err("expected uniqueness violation"),
        ErrStatus::InternalServerError
    );

    // updating an unknown identity reports no row
    let ghost_user = UserInfo {
        id: claims.id + 100,
        username: "ghost".to_string(),
        email: "ghost@doe.com".to_string(),
    };
    let missing = journaloo::endpoints::user::update(
        &ghost_user,
        new_user("ghost", "ghost@doe.com", "x"),
        &mut store,
        COST,
        SECRET,
    );
    assert_eq!(missing.expect_err("expected missing user"), ErrStatus::NotFound);
}

#[test]
fn reset_password_errors() {
    let mut store = Store::new();
    let response = reset_password(&"asdf***@madeup.com".to_string(), &mut store, COST);
    assert_eq!(response.expect_err("expected missing user"), ErrStatus::NotFound);
}

#[test]
fn reset_password_code_logs_in() {
    let mut store = Store::new();
    signup(new_user("jondoe", "jon@doe.com", "asdf"), &mut store, 0, COST, SECRET)
        .expect("failed to create user");

    let code = reset_password(&"jon@doe.com".to_string(), &mut store, COST)
        .expect("reset for a stored email failed");
    assert_eq!(code.len(), 50);
    assert!(code.chars().all(|c| c.is_ascii_alphanumeric()));

    // the one-time code is the new temporary password
    let with_code = UserLogin { username: "jondoe".to_string(), password: code };
    journaloo::endpoints::user::login(&with_code, &store, SECRET)
        .expect("login with the reset code failed");

    // the old password no longer matches
    let with_old = UserLogin { username: "jondoe".to_string(), password: "asdf".to_string() };
    assert_eq!(
        journaloo::endpoints::user::login(&with_old, &store, SECRET)
            .expect_err("old password still accepted"),
        ErrStatus::Unauthorized
    );
}

#[test]
fn signup_rejects_bad_hash_cost() {
    let mut store = Store::new();
    // bcrypt accepts costs between 4 and 31 only
    let response = signup(new_user("jondoe", "jon@doe.com", "asdf"), &mut store, 0, 99, SECRET);
    assert_eq!(
        response.expect_err("expected hashing failure"),
        ErrStatus::InternalServerError
    );
    assert_eq!(store.users.len(), 0);
}

#[test]
fn auth_guard_rejects_bad_tokens() {
    assert_eq!(
        UserInfo::from_request(None, SECRET, 0).expect_err("missing header accepted"),
        ErrStatus::Unauthorized
    );
    assert_eq!(
        UserInfo::from_request(Some("not.a.token"), SECRET, 0).expect_err("garbage accepted"),
        ErrStatus::Unauthorized
    );

    // a token signed with another secret must not verify
    let mut store = Store::new();
    let token = signup(new_user("jondoe", "jon@doe.com", "asdf"), &mut store, 0, COST, "other")
        .expect("failed to create user");
    assert_eq!(
        UserInfo::from_request(Some(&token), SECRET, 0).expect_err("foreign token accepted"),
        ErrStatus::Unauthorized
    );
}

fn token_with_exp(exp: u64) -> String {
    let mut claims = serde_json::Map::new();
    claims.insert("id".to_string(), serde_json::Value::from(7));
    claims.insert("username".to_string(), serde_json::Value::from("jondoe"));
    claims.insert("email".to_string(), serde_json::Value::from("jon@doe.com"));
    claims.insert("exp".to_string(), serde_json::Value::from(exp));
    jsonwebtoken::encode(
        &jsonwebtoken::Header::default(),
        &serde_json::Value::Object(claims),
        &jsonwebtoken::EncodingKey::from_secret(SECRET.as_bytes()),
    )
    .expect("failed to encode token")
}

#[test]
fn auth_guard_checks_expiry_when_present() {
    let now: i64 = 1_000_000;

    // expired beyond the leeway: rejected even though the signature holds
    let stale = token_with_exp(999_000);
    assert_eq!(
        UserInfo::from_request(Some(&stale), SECRET, now).expect_err("expired token accepted"),
        ErrStatus::Unauthorized
    );

    // expiring within the leeway: still accepted
    let closing = token_with_exp((now - 30) as u64);
    let info = UserInfo::from_request(Some(&closing), SECRET, now)
        .expect("token within leeway rejected");
    assert_eq!(info.id, 7);
    assert_eq!(info.username, "jondoe");

    // expiring in the future: accepted
    let fresh = token_with_exp((now + 600) as u64);
    UserInfo::from_request(Some(&fresh), SECRET, now).expect("future expiry rejected");

    // tokens the library mints carry no expiry and never expire
    let mut store = Store::new();
    let minted = signup(new_user("janedoe", "jane@doe.com", "asdf"), &mut store, 0, COST, SECRET)
        .expect("failed to create user");
    UserInfo::from_request(Some(&minted), SECRET, i64::MAX).expect("minted token rejected");
}

#[test]
fn paging_errors() {
    let mut store = Store::new();
    signup(new_user("jondoe", "jon@doe.com", "asdf"), &mut store, 0, COST, SECRET)
        .expect("failed to create user");

    let page = Page::from_form_value(0).expect("failed to deserialize");
    let users = get_all(PageQuery { page }, &store).expect("no body found");
    users.iter().for_each(|u| println!("{:?}", u));
    assert_eq!(users.len(), 1);

    // a negative page number is rejected, not clamped
    assert!(Page::from_form_value(-1).is_err());
}

#[test]
fn user_paging_caps_at_page_size() {
    let mut store = Store::new();
    for i in 0..12 {
        let name = format!("user{}", i);
        let email = format!("user{}@example.com", i);
        journaloo::db::models::user::create(
            &NewUser { username: name, email, password: "x".to_string() },
            &mut store,
            i as i64,
        )
        .expect("failed to create user");
    }
    let first = get_all(PageQuery { page: Page(0) }, &store).expect("no body found");
    assert_eq!(first.len(), 10);
    assert_eq!(first[0].username, "user0");
    let second = get_all(PageQuery { page: Page(1) }, &store).expect("no body found");
    assert_eq!(second.len(), 2);
    assert_eq!(second[1].username, "user11");
    let third = get_all(PageQuery { page: Page(2) }, &store).expect("no body found");
    assert_eq!(third.len(), 0);
}
