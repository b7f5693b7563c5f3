use worker_pool::plant::Vegetable;

#[test]
fn new_vegetable_keeps_name_and_initial_id() {
    let mut v = Vegetable::new("squash");
    assert_eq!(v.name, "squash");
    assert_eq!(v.id(), 1);

    v.name = String::from("butternut squash");
    assert_eq!(v.name, "butternut squash");
    assert_eq!(v.id(), 1);
}
