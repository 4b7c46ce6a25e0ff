use journaloo::db::models::journey::{Journey, NewJourney};
use journaloo::db::models::user::NewUser;
use journaloo::db::store::Store;
use journaloo::endpoints::journey::{
    create, delete, end, get_active_journey_by_user, get_by_id, get_journeys_by_user, update,
    JourneyQuery,
};
use journaloo::endpoints::user::signup;
use journaloo::endpoints::{ErrStatus, Page};

const COST: u32 = 4;
const SECRET: &str = "SECRET-REDACTED";

fn store_with_user(username: &str, email: &str) -> (Store, journaloo::db::models::user::UserInfo) {
    let mut store = Store::new();
    let token = signup(
        NewUser {
            username: username.to_string(),
            email: email.to_string(),
            password: "asdf".to_string(),
        },
        &mut store,
        0,
        COST,
        SECRET,
    )
    .expect("failed to create user");
    let info = journaloo::db::models::user::UserInfo::from_request(Some(&token), SECRET, 0)
        .expect("failed to decode auth token");
    (store, info)
}

#[test]
fn journey_create_and_get() {
    let (mut store, user) = store_with_user("jondoe", "jon@doe.com");
    let created = create(
        NewJourney { user_id: user.id, title: "Across the Alps".to_string() },
        &mut store,
        1000,
    )
    .expect("failed to create journey");
    assert_eq!(created.user_id, user.id);
    assert_eq!(created.title, "Across the Alps");
    assert!(!created.archived);
    assert!(created.end_date.is_none());

    let fetched = get_by_id(created.id, &store).expect("journey not found");
    assert_eq!(fetched.id, created.id);
    assert_eq!(fetched.start_date, created.start_date);

    let missing = get_by_id(created.id + 1, &store);
    assert_eq!(missing.expect_err("expected no journey"), ErrStatus::NotFound);
}

#[test]
fn journey_dates_render_at_fixed_offset() {
    let (mut store, user) = store_with_user("jondoe", "jon@doe.com");
    let created = create(
        NewJourney { user_id: user.id, title: "Epoch trip".to_string() },
        &mut store,
        0,
    )
    .expect("failed to create journey");
    assert_eq!(created.start_date, "1970-01-01T02:00:00+02:00");

    let ended = end(created.id, &user, &mut store, 86400).expect("failed to end journey");
    assert_eq!(ended.end_date.as_deref(), Some("1970-01-02T02:00:00+02:00"));
}

#[test]
fn journey_end_twice() {
    let (mut store, user) = store_with_user("jondoe", "jon@doe.com");
    let created = create(
        NewJourney { user_id: user.id, title: "Short trip".to_string() },
        &mut store,
        1000,
    )
    .expect("failed to create journey");

    let ended = end(created.id, &user, &mut store, 2000).expect("first end failed");
    assert!(ended.end_date.is_some());

    // the second call matches no open row
    let again = end(created.id, &user, &mut store, 3000);
    assert_eq!(again.expect_err("expected no open journey"), ErrStatus::NotFound);
}

#[test]
fn journey_create_needs_a_stored_user() {
    let (mut store, user) = store_with_user("jondoe", "jon@doe.com");
    let response = create(
        NewJourney { user_id: user.id + 1, title: "Orphan trip".to_string() },
        &mut store,
        1000,
    );
    assert_eq!(
        response.expect_err("expected foreign key violation"),
        ErrStatus::InternalServerError
    );
    assert_eq!(store.journeys.len(), 0);
}

#[test]
fn journey_end_missing() {
    let (mut store, user) = store_with_user("jondoe", "jon@doe.com");
    let response = end(42, &user, &mut store, 2000);
    assert_eq!(response.expect_err("expected no journey"), ErrStatus::NotFound);
}

#[test]
fn journey_archive_is_owner_scoped() {
    let (mut store, owner) = store_with_user("jondoe", "jon@doe.com");
    let token = signup(
        NewUser {
            username: "janedoe".to_string(),
            email: "jane@doe.com".to_string(),
            password: "asdf".to_string(),
        },
        &mut store,
        0,
        COST,
        SECRET,
    )
    .expect("failed to create user");
    let intruder = journaloo::db::models::user::UserInfo::from_request(Some(&token), SECRET, 0)
        .expect("failed to decode auth token");

    let created = create(
        NewJourney { user_id: owner.id, title: "Private trip".to_string() },
        &mut store,
        1000,
    )
    .expect("failed to create journey");

    // another caller cannot archive it
    let foreign = delete(created.id, &intruder, &mut store);
    assert_eq!(foreign.expect_err("expected ownership check"), ErrStatus::NotFound);
    assert!(!get_by_id(created.id, &store).expect("journey lost").archived);

    // the owner can
    delete(created.id, &owner, &mut store).expect("owner archive failed");
    assert!(get_by_id(created.id, &store).expect("journey lost").archived);
}

#[test]
fn journey_title_update() {
    let (mut store, user) = store_with_user("jondoe", "jon@doe.com");
    let created = create(
        NewJourney { user_id: user.id, title: "Working title".to_string() },
        &mut store,
        1000,
    )
    .expect("failed to create journey");

    update(
        &Journey {
            id: created.id,
            user_id: user.id,
            title: "Final title".to_string(),
            archived: false,
            start_date: 1000,
            end_date: None,
        },
        &mut store,
    )
    .expect("title update failed");
    assert_eq!(get_by_id(created.id, &store).expect("journey lost").title, "Final title");

    // updating a journey that is not stored changes nothing
    update(
        &Journey {
            id: created.id + 7,
            user_id: user.id,
            title: "Ghost town".to_string(),
            archived: false,
            start_date: 1000,
            end_date: None,
        },
        &mut store,
    )
    .expect("update of a missing journey must be a no-op");
    assert_eq!(store.journeys.len(), 1);
}

#[test]
fn journey_listing_pages_and_order() {
    let (mut store, user) = store_with_user("jondoe", "jon@doe.com");
    // twelve journeys with distinct starts, plus one archived
    for i in 0..12 {
        create(
            NewJourney { user_id: user.id, title: format!("trip {}", i) },
            &mut store,
            (i * 100) as i64,
        )
        .expect("failed to create journey");
    }
    let extra = create(
        NewJourney { user_id: user.id, title: "hidden".to_string() },
        &mut store,
        5000,
    )
    .expect("failed to create journey");
    delete(extra.id, &user, &mut store).expect("archive failed");

    // page 0: at most ten rows, ordered by start timestamp descending
    let first = get_journeys_by_user(user.id, JourneyQuery { page: Page(0) }, &store)
        .expect("listing failed");
    assert_eq!(first.len(), 10);
    assert_eq!(first[0].title, "trip 11");
    assert_eq!(first[9].title, "trip 2");
    assert!(first.iter().all(|j| j.title != "hidden"));

    let second = get_journeys_by_user(user.id, JourneyQuery { page: Page(1) }, &store)
        .expect("listing failed");
    assert_eq!(second.len(), 2);
    assert_eq!(second[0].title, "trip 1");
    assert_eq!(second[1].title, "trip 0");

    let third = get_journeys_by_user(user.id, JourneyQuery { page: Page(2) }, &store)
        .expect("listing failed");
    assert_eq!(third.len(), 0);
}

#[test]
fn journey_listing_keeps_stored_order_on_ties() {
    let (mut store, user) = store_with_user("jondoe", "jon@doe.com");
    for i in 0..3 {
        create(
            NewJourney { user_id: user.id, title: format!("tie {}", i) },
            &mut store,
            500,
        )
        .expect("failed to create journey");
    }
    let listed = get_journeys_by_user(user.id, JourneyQuery { page: Page(0) }, &store)
        .expect("listing failed");
    assert_eq!(listed.len(), 3);
    assert_eq!(listed[0].title, "tie 0");
    assert_eq!(listed[1].title, "tie 1");
    assert_eq!(listed[2].title, "tie 2");
}

#[test]
fn active_journey_is_most_recent_open_one() {
    let (mut store, user) = store_with_user("jondoe", "jon@doe.com");

    let none_yet = get_active_journey_by_user(user.id, &store);
    assert_eq!(none_yet.expect_err("expected no open journey"), ErrStatus::NotFound);

    let older = create(
        NewJourney { user_id: user.id, title: "older".to_string() },
        &mut store,
        100,
    )
    .expect("failed to create journey");
    let newer = create(
        NewJourney { user_id: user.id, title: "newer".to_string() },
        &mut store,
        200,
    )
    .expect("failed to create journey");

    let active = get_active_journey_by_user(user.id, &store).expect("no active journey");
    assert_eq!(active.id, newer.id);

    end(newer.id, &user, &mut store, 300).expect("end failed");
    let active = get_active_journey_by_user(user.id, &store).expect("no active journey");
    assert_eq!(active.id, older.id);
}
