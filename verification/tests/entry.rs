use journaloo::db::models::entry::NewEntry;
use journaloo::db::models::journey::NewJourney;
use journaloo::db::models::user::{NewUser, UserInfo};
use journaloo::db::store::Store;
use journaloo::endpoints::entry::{
    create, create_image, delete, get_all, get_by_id, image_key, log_blob_err, update, BlobError,
    EntryQuery,
};
use journaloo::endpoints::journey;
use journaloo::endpoints::user::signup;
use journaloo::endpoints::{ErrStatus, Page};

const COST: u32 = 4;
const SECRET: &str = "SECRET-REDACTED";

fn store_with_journey() -> (Store, UserInfo, i32) {
    let mut store = Store::new();
    let token = signup(
        NewUser {
            username: "jondoe".to_string(),
            email: "jon@doe.com".to_string(),
            password: "asdf".to_string(),
        },
        &mut store,
        0,
        COST,
        SECRET,
    )
    .expect("failed to create user");
    let user = UserInfo::from_request(Some(&token), SECRET, 0).expect("failed to decode auth token");
    let created = journey::create(
        NewJourney { user_id: user.id, title: "On the road".to_string() },
        &mut store,
        1000,
    )
    .expect("failed to create journey");
    let jid = created.id;
    (store, user, jid)
}

fn note(journey_id: i32, text: &str) -> NewEntry {
    NewEntry {
        journey_id,
        description: Some(text.to_string()),
        coordinates: None,
        location: None,
    }
}

#[test]
fn entry_create_against_open_journey() {
    let (mut store, user, jid) = store_with_journey();
    let created = create(note(jid, "first note"), &user, &mut store, 1500)
        .expect("entry against an open journey rejected");
    assert_eq!(created.journey_id, jid);
    assert!(!created.archived);
    assert_eq!(created.description.as_deref(), Some("first note"));

    let fetched = get_by_id(created.id, &store).expect("entry not found");
    assert_eq!(fetched.journey_id, jid);
    assert_eq!(fetched.created, "1970-01-01T02:25:00+02:00");

    let missing = get_by_id(created.id + 1, &store);
    assert_eq!(missing.expect_err("expected no entry"), ErrStatus::NotFound);
}

#[test]
fn entry_create_against_ended_journey() {
    let (mut store, user, jid) = store_with_journey();
    journey::end(jid, &user, &mut store, 2000).expect("end failed");

    let response = create(note(jid, "too late"), &user, &mut store, 2500);
    assert_eq!(response.expect_err("expected rejection"), ErrStatus::BadRequest);
    assert_eq!(store.entries.len(), 0);
}

#[test]
fn entry_create_against_missing_journey() {
    let (mut store, user, jid) = store_with_journey();
    let response = create(note(jid + 1, "nowhere"), &user, &mut store, 2500);
    assert_eq!(response.expect_err("expected missing journey"), ErrStatus::NotFound);
}

#[test]
fn entry_description_update() {
    let (mut store, user, jid) = store_with_journey();
    let created = create(note(jid, "draft"), &user, &mut store, 1500).expect("create failed");

    update(created.id, note(jid, "redacted"), &user, &mut store).expect("update failed");
    let fetched = get_by_id(created.id, &store).expect("entry not found");
    assert_eq!(fetched.description.as_deref(), Some("redacted"));

    // updating an entry that is not stored changes nothing
    update(created.id + 9, note(jid, "ghost"), &user, &mut store)
        .expect("update of a missing entry must be a no-op");
    assert_eq!(store.entries.len(), 1);
}

#[test]
fn entry_archive_hides_from_listing() {
    let (mut store, user, jid) = store_with_journey();
    let kept = create(note(jid, "kept"), &user, &mut store, 1500).expect("create failed");
    let dropped = create(note(jid, "dropped"), &user, &mut store, 1600).expect("create failed");

    delete(dropped.id, &mut store).expect("archive failed");

    // still stored, but archived and hidden from listings
    assert!(get_by_id(dropped.id, &store).expect("entry lost").archived);
    let listed = get_all(EntryQuery { page: Page(0), journey: None }, &store)
        .expect("listing failed");
    assert_eq!(listed.len(), 1);
    assert_eq!(listed[0].id, kept.id);

    // archiving an entry that is not stored changes nothing
    delete(dropped.id + 9, &mut store).expect("archive of a missing entry must be a no-op");
}

#[test]
fn entry_listing_pages_filter_and_order() {
    let (mut store, user, jid) = store_with_journey();
    let other = journey::create(
        NewJourney { user_id: user.id, title: "Side trip".to_string() },
        &mut store,
        1100,
    )
    .expect("failed to create journey");

    for i in 0..12 {
        create(note(jid, &format!("note {}", i)), &user, &mut store, 2000 + i as i64)
            .expect("create failed");
    }
    create(note(other.id, "elsewhere"), &user, &mut store, 9000).expect("create failed");

    // unfiltered: newest first, at most ten rows
    let first = get_all(EntryQuery { page: Page(0), journey: None }, &store)
        .expect("listing failed");
    assert_eq!(first.len(), 10);
    assert_eq!(first[0].description.as_deref(), Some("elsewhere"));
    assert_eq!(first[1].description.as_deref(), Some("note 11"));

    let second = get_all(EntryQuery { page: Page(1), journey: None }, &store)
        .expect("listing failed");
    assert_eq!(second.len(), 3);
    assert_eq!(second[2].description.as_deref(), Some("note 0"));

    // restricted to one journey
    let only_side = get_all(EntryQuery { page: Page(0), journey: Some(other.id) }, &store)
        .expect("listing failed");
    assert_eq!(only_side.len(), 1);
    assert_eq!(only_side[0].journey_id, other.id);
}

#[test]
fn image_keys_are_decimal_ids() {
    assert_eq!(image_key(0), "0");
    assert_eq!(image_key(123), "123");
    assert_eq!(image_key(-45), "-45");
    assert_eq!(image_key(i32::MAX), "2147483647");
    assert_eq!(image_key(i32::MIN), "-2147483648");
}

#[test]
fn image_upload_needs_a_stored_entry() {
    let (mut store, user, jid) = store_with_journey();
    let created = create(note(jid, "photo spot"), &user, &mut store, 1500).expect("create failed");

    let key = create_image(created.id, &user, &store).expect("image target rejected");
    assert_eq!(key, created.id.to_string());

    let missing = create_image(created.id + 1, &user, &store);
    assert_eq!(missing.expect_err("expected missing entry"), ErrStatus::NotFound);
}

#[test]
fn blob_errors_map_to_statuses() {
    assert_eq!(log_blob_err(BlobError::NoSuchKey), ErrStatus::NotFound);
    assert_eq!(log_blob_err(BlobError::Other), ErrStatus::InternalServerError);
}
