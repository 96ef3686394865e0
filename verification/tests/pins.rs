use factory_calc::data::materials::MaterialPrototype;
use factory_calc::pins::{position, Pins};

fn item(name: &str) -> MaterialPrototype {
    MaterialPrototype::Item(name.to_string())
}

#[test]
fn new_pins_are_empty() {
    let pins = Pins::new();
    assert!(pins.is_empty());
    assert_eq!(pins.len(), 0);
    assert_eq!(pins.get(&item("a")), None);
    assert!(Pins::default().is_empty());
}

#[test]
fn insert_keeps_the_order_of_first_pinning() {
    let mut pins = Pins::new();
    assert_eq!(pins.insert(item("a"), 1), None);
    assert_eq!(pins.insert(item("b"), 2), None);
    assert_eq!(pins.insert(MaterialPrototype::Fluid("a".to_string()), 3), None);
    assert_eq!(pins.insert(item("a"), 4), Some(1));
    assert_eq!(pins.len(), 3);
    assert_eq!(pins.key(0), &item("a"));
    assert_eq!(pins.amount(0), 4);
    assert_eq!(pins.key(1), &item("b"));
    assert_eq!(pins.amount(1), 2);
    assert_eq!(pins.key(2), &MaterialPrototype::Fluid("a".to_string()));
    assert_eq!(pins.amount(2), 3);
    assert_eq!(pins.position(&item("b")), Some(1));
    assert_eq!(pins.position(&item("c")), None);
    assert!(pins.contains_key(&item("a")));
    assert!(!pins.contains_key(&item("c")));
    assert_eq!(pins.get_key_value(&item("b")), Some((item("b"), 2)));
    assert_eq!(pins.get_key_value(&item("c")), None);
}

#[test]
fn remove_moves_the_rest_up() {
    let mut pins = Pins::new();
    pins.insert(item("a"), 1);
    pins.insert(item("b"), 2);
    pins.insert(item("c"), 3);
    assert_eq!(pins.remove(&item("b")), Some(2));
    assert_eq!(pins.remove(&item("b")), None);
    assert_eq!(pins.len(), 2);
    assert_eq!(pins.key(1), &item("c"));
    assert_eq!(pins.get(&item("c")), Some(3));
    assert_eq!(pins.get(&item("b")), None);
    assert!(!pins.is_empty());
}

#[test]
fn clone_holds_the_same_pins() {
    let mut pins = Pins::new();
    pins.insert(item("a"), 1);
    pins.insert(item("b"), -2);
    let copy = pins.clone();
    pins.insert(item("a"), 9);
    assert_eq!(copy.len(), 2);
    assert_eq!(copy.get(&item("a")), Some(1));
    assert_eq!(copy.get(&item("b")), Some(-2));
}

#[test]
fn position_finds_the_first_match() {
    let list = vec![item("a"), item("b"), item("a")];
    assert_eq!(position(&list, &item("a")), Some(0));
    assert_eq!(position(&list, &item("b")), Some(1));
    assert_eq!(position(&list, &item("c")), None);
    assert_eq!(position(&vec![], &item("a")), None);
}
