use journaloo::db::models::user::{create, delete, update, NewUser, UserInfo};
use journaloo::db::store::Store;

fn test_user() -> NewUser {
    NewUser {
        username: "foo".to_string(),
        email: "foo@bar.com".to_string(),
        password: "asdf".to_string(),
    }
}

#[test]
fn create_user() {
    let mut store = Store::new();
    let new_user = test_user();

    let expected = create(&new_user, &mut store, 0).expect("failed to create user");
    let row = store
        .find_user_index_by_username(&new_user.username)
        .map(|i| store.users[i].clone())
        .expect("error getting result");
    let result: UserInfo = row.into();

    assert_eq!(expected, result);
}

#[test]
fn update_user() {
    let mut store = Store::new();
    let mut new_user = test_user();

    let user = create(&new_user, &mut store, 0).expect("failed to create user");

    new_user.username = "bar".to_string();
    let expected = update(&user, &new_user, &mut store).expect("failed to update user");
    let row = store
        .find_user_index_by_username(&new_user.username)
        .map(|i| store.users[i].clone())
        .expect("error getting result");
    let result: UserInfo = row.into();

    assert_eq!(expected, result);
}

#[test]
fn delete_user() {
    let mut store = Store::new();
    let new_user = test_user();

    let user = create(&new_user, &mut store, 0).expect("failed to create user");
    let uid = user.id;
    delete(user, &mut store).expect("failed to delete user");

    match store.find_user_index(uid) {
        None => (),
        Some(_) => panic!("user not deleted"),
    }
}
