#[test]
fn index() {
    assert_eq!(journaloo::index(), "Hello, world!");
}
