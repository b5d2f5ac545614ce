use directive_validation::ast::{DirectiveDefinition, DirectiveLocation};
use directive_validation::schema::{
    ExtendedType, InterfaceType, NameMap, Named, ObjectType, ScalarType, Schema, UnionType,
};

fn definition(name: &str, repeatable: bool) -> DirectiveDefinition {
    DirectiveDefinition {
        name: name.to_string(),
        arguments: Vec::new(),
        repeatable,
        locations: vec![DirectiveLocation::Field],
        location: None,
    }
}

fn scalar(name: &str) -> ExtendedType {
    ExtendedType::Scalar(ScalarType { name: name.to_string(), directives: Vec::new() })
}

#[test]
fn new_schema_defines_nothing() {
    let schema = Schema::new();
    assert_eq!(schema.types.len(), 0);
    assert_eq!(schema.directive_definitions.len(), 0);
    assert!(schema.types.get(&"Int".to_string()).is_none());
    assert!(schema.directive_definitions.get(&"skip".to_string()).is_none());
    assert!(schema.directive_definitions.values().is_empty());
}

#[test]
fn items_are_found_by_name_and_walked_in_the_order_added() {
    let mut map: NameMap<DirectiveDefinition> = NameMap::new();
    for name in ["skip", "include", "deprecated"] {
        assert!(map.insert(definition(name, false)).is_none());
    }
    assert_eq!(map.len(), 3);
    let order: Vec<&str> = map.values().iter().map(|def| def.name.as_str()).collect();
    assert_eq!(order, vec!["skip", "include", "deprecated"]);
    assert_eq!(map.get(&"include".to_string()).unwrap().name, "include");
    assert!(map.get(&"Include".to_string()).is_none());
    assert!(map.get(&"".to_string()).is_none());
}

#[test]
fn a_name_that_is_taken_is_refused_and_the_item_handed_back() {
    let mut map: NameMap<DirectiveDefinition> = NameMap::new();
    assert!(map.insert(definition("once", false)).is_none());
    let refused = map.insert(definition("once", true));
    assert_eq!(refused, Some(definition("once", true)));
    assert_eq!(map.len(), 1);
    assert!(!map.get(&"once".to_string()).unwrap().repeatable);
}

#[test]
fn every_kind_of_type_knows_its_name_and_its_directives() {
    let types = vec![
        scalar("S"),
        ExtendedType::Object(ObjectType { name: "O".to_string(), directives: Vec::new() }),
        ExtendedType::Interface(InterfaceType { name: "I".to_string(), directives: Vec::new() }),
        ExtendedType::Union(UnionType { name: "U".to_string(), directives: Vec::new() }),
    ];
    let names: Vec<&str> = types.iter().map(|ty| ty.name().as_str()).collect();
    assert_eq!(names, vec!["S", "O", "I", "U"]);
    assert!(types.iter().all(|ty| ty.directives().is_empty()));
    assert_eq!(definition("d", false).name(), "d");
}

#[test]
fn types_and_directives_do_not_share_their_names() {
    let mut schema = Schema::new();
    assert!(schema.types.insert(scalar("same")).is_none());
    assert!(schema.directive_definitions.insert(definition("same", false)).is_none());
    assert!(schema.types.insert(scalar("same")).is_some());
    assert_eq!(schema.types.len(), 1);
    assert_eq!(schema.directive_definitions.len(), 1);
}
