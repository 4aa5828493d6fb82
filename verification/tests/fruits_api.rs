use correlation_bridge::fruits::{Fruit, FruitList};

fn seeded() -> FruitList {
    let mut list = FruitList::new();
    list.update_fruit(Fruit { id: 5, name: "pear".to_string() });
    list
}

#[test]
fn get_fruit_finds_by_id() {
    let list = seeded();
    let found = list.get_fruit(5).unwrap();
    assert_eq!(found.id, 5);
    assert_eq!(found.name.as_str(), "pear");
    assert!(list.get_fruit(1).is_none());
}

#[test]
fn update_fruit_replaces_or_appends() {
    let mut list = seeded();
    list.update_fruit(Fruit { id: 5, name: "quince".to_string() });
    assert_eq!(list.get_fruits().len(), 1);
    assert_eq!(list.get_fruit(5).unwrap().name.as_str(), "quince");
    list.update_fruit(Fruit { id: 8, name: "fig".to_string() });
    assert_eq!(list.get_fruits().len(), 2);
    assert_eq!(list.get_fruit(8).unwrap().name.as_str(), "fig");
    assert_eq!(list.get_fruits()[0].id, 5);
    assert_eq!(list.get_fruits()[1].id, 8);
}

#[test]
fn delete_fruit_removes_only_its_target() {
    let mut list = seeded();
    list.update_fruit(Fruit { id: 8, name: "fig".to_string() });
    list.delete_fruit(5);
    assert!(list.get_fruit(5).is_none());
    assert_eq!(list.get_fruit(8).unwrap().name.as_str(), "fig");
    list.delete_fruit(99);
    assert_eq!(list.get_fruits().len(), 1);
}
