use factory_calc::data::materials::MaterialPrototype;

#[test]
fn item_identifier_is_prefixed_name() {
    let key = MaterialPrototype::Item("iron-plate".to_string());
    assert_eq!(key.to_id(), "item:iron-plate");
}

#[test]
fn fluid_identifier_is_prefixed_name() {
    let key = MaterialPrototype::Fluid("water".to_string());
    assert_eq!(key.to_id(), "fluid:water");
}

#[test]
fn identifier_reads_back_to_the_key() {
    let keys = vec![
        MaterialPrototype::Item("iron-gear-wheel".to_string()),
        MaterialPrototype::Fluid("crude-oil".to_string()),
        MaterialPrototype::Item(String::new()),
        MaterialPrototype::Fluid("a:b".to_string()),
        MaterialPrototype::Item("fluid:x".to_string()),
        MaterialPrototype::Item("caf\u{e9}-\u{1f600}".to_string()),
    ];
    for key in keys {
        assert_eq!(MaterialPrototype::from_id(&key.to_id()), Ok(key.clone()));
    }
}

#[test]
fn identifier_without_known_variant_is_rejected() {
    assert_eq!(
        MaterialPrototype::from_id("gas:steam"),
        Err("Invalid material type 'gas:steam'".to_string())
    );
    assert_eq!(
        MaterialPrototype::from_id("item"),
        Err("Invalid material type 'item'".to_string())
    );
    assert_eq!(
        MaterialPrototype::from_id(""),
        Err("Invalid material type ''".to_string())
    );
    assert_eq!(
        MaterialPrototype::from_id(":item:x"),
        Err("Invalid material type ':item:x'".to_string())
    );
}

#[test]
fn identifier_splits_at_the_first_colon() {
    assert_eq!(
        MaterialPrototype::from_id("item:a:b"),
        Ok(MaterialPrototype::Item("a:b".to_string()))
    );
    assert_eq!(
        MaterialPrototype::from_id("fluid:"),
        Ok(MaterialPrototype::Fluid(String::new()))
    );
}
