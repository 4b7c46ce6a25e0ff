use journaloo::db::models::entry::NewEntry;
use journaloo::db::models::journey::NewJourney;
use journaloo::db::models::user::{delete, NewUser, UserInfo};
use journaloo::db::store::Store;
use journaloo::endpoints::user::signup;
use journaloo::endpoints::{entry, journey, ErrStatus};

const COST: u32 = 4;
const SECRET: &str = "SECRET-REDACTED";

fn add_user(store: &mut Store, username: &str, email: &str) -> UserInfo {
    let token = signup(
        NewUser {
            username: username.to_string(),
            email: email.to_string(),
            password: "asdf".to_string(),
        },
        store,
        0,
        COST,
        SECRET,
    )
    .expect("failed to create user");
    UserInfo::from_request(Some(&token), SECRET, 0).expect("failed to decode auth token")
}

fn add_entry(store: &mut Store, user: &UserInfo, jid: i32, created: i64) -> i32 {
    entry::create(
        NewEntry { journey_id: jid, description: None, coordinates: None, location: None },
        user,
        store,
        created,
    )
    .expect("failed to create entry")
    .id
}

#[test]
fn delete_user_cascades() {
    let mut store = Store::new();
    let doomed = add_user(&mut store, "jondoe", "jon@doe.com");
    let bystander = add_user(&mut store, "janedoe", "jane@doe.com");

    let j1 = journey::create(
        NewJourney { user_id: doomed.id, title: "first".to_string() },
        &mut store,
        100,
    )
    .expect("failed to create journey")
    .id;
    let j2 = journey::create(
        NewJourney { user_id: doomed.id, title: "second".to_string() },
        &mut store,
        200,
    )
    .expect("failed to create journey")
    .id;
    let safe_journey = journey::create(
        NewJourney { user_id: bystander.id, title: "untouched".to_string() },
        &mut store,
        300,
    )
    .expect("failed to create journey")
    .id;

    let e1 = add_entry(&mut store, &doomed, j1, 150);
    let e2 = add_entry(&mut store, &doomed, j1, 160);
    let e3 = add_entry(&mut store, &doomed, j2, 250);
    let safe_entry = add_entry(&mut store, &bystander, safe_journey, 350);

    let doomed_id = doomed.id;
    let (del_journeys, del_entries) = delete(doomed, &mut store).expect("failed to delete user");

    // the reported counts match the rows actually removed
    assert_eq!(del_journeys, 2);
    assert_eq!(del_entries, 3);

    // post-delete lookups for the user and everything it owned find nothing
    assert_eq!(
        journaloo::endpoints::user::get_by_id(doomed_id, &store).expect_err("user survived"),
        ErrStatus::NotFound
    );
    for jid in [j1, j2] {
        assert_eq!(
            journey::get_by_id(jid, &store).expect_err("journey survived"),
            ErrStatus::NotFound
        );
    }
    for eid in [e1, e2, e3] {
        assert_eq!(
            entry::get_by_id(eid, &store).expect_err("entry survived"),
            ErrStatus::NotFound
        );
    }

    // the other user's data is intact
    journaloo::endpoints::user::get_by_id(bystander.id, &store).expect("bystander lost");
    journey::get_by_id(safe_journey, &store).expect("bystander journey lost");
    entry::get_by_id(safe_entry, &store).expect("bystander entry lost");
}
