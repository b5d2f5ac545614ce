use directive_validation::ast::{
    Argument, Directive, DirectiveDefinition, DirectiveLocation, InputValueDefinition, Type, Value,
};

fn named(name: &str) -> Type {
    Type::Named(name.to_string())
}

fn non_null(name: &str) -> Type {
    Type::NonNullNamed(name.to_string())
}

fn input_value(name: &str, ty: Type, default_value: Option<Value>) -> InputValueDefinition {
    InputValueDefinition {
        name: name.to_string(),
        ty,
        default_value,
        directives: Vec::new(),
        location: None,
    }
}

fn argument(name: &str, value: Value) -> Argument {
    Argument { name: name.to_string(), value, location: None }
}

#[test]
fn the_inner_name_lies_under_every_list_layer() {
    assert_eq!(named("Int").inner_named_type(), "Int");
    assert_eq!(non_null("Int").inner_named_type(), "Int");
    assert_eq!(Type::List(Box::new(non_null("ID"))).inner_named_type(), "ID");
    let deep = Type::NonNullList(Box::new(Type::List(Box::new(Type::NonNullList(Box::new(
        named("Leaf"),
    ))))));
    assert_eq!(deep.inner_named_type(), "Leaf");
}

#[test]
fn only_the_outermost_layer_decides_whether_a_type_excludes_null() {
    assert!(!named("Int").is_non_null());
    assert!(non_null("Int").is_non_null());
    assert!(!Type::List(Box::new(non_null("Int"))).is_non_null());
    assert!(Type::NonNullList(Box::new(named("Int"))).is_non_null());
}

#[test]
fn only_null_is_null() {
    assert!(Value::Null.is_null());
    for value in [
        Value::Enum("NULL".to_string()),
        Value::Variable("null".to_string()),
        Value::String("null".to_string()),
        Value::Float("0.0".to_string()),
        Value::Int("0".to_string()),
        Value::Boolean(false),
        Value::List(vec![]),
        Value::List(vec![Value::Null]),
        Value::Object(vec![("a".to_string(), Value::Null)]),
    ] {
        assert!(!value.is_null(), "{value:?}");
    }
}

#[test]
fn required_means_non_null_and_without_default() {
    assert!(input_value("a", non_null("Int"), None).is_required());
    assert!(input_value("a", Type::NonNullList(Box::new(named("Int"))), None).is_required());
    assert!(!input_value("a", named("Int"), None).is_required());
    assert!(!input_value("a", non_null("Int"), Some(Value::Int("1".to_string()))).is_required());
    assert!(!input_value("a", non_null("Int"), Some(Value::Null)).is_required());
    assert!(!input_value("a", named("Int"), Some(Value::Null)).is_required());
}

#[test]
fn the_first_of_several_arguments_of_one_name_is_found() {
    let directive = Directive {
        name: "d".to_string(),
        arguments: vec![
            argument("a", Value::Int("1".to_string())),
            argument("b", Value::Int("2".to_string())),
            argument("a", Value::Int("3".to_string())),
        ],
        location: None,
    };
    assert_eq!(
        directive.argument_by_name(&"a".to_string()),
        Some(&argument("a", Value::Int("1".to_string())))
    );
    assert_eq!(
        directive.argument_by_name(&"b".to_string()),
        Some(&argument("b", Value::Int("2".to_string())))
    );
    assert_eq!(directive.argument_by_name(&"c".to_string()), None);
    assert_eq!(directive.argument_by_name(&"A".to_string()), None);
}

#[test]
fn the_first_of_several_argument_definitions_of_one_name_is_found() {
    let definition = DirectiveDefinition {
        name: "d".to_string(),
        arguments: vec![
            input_value("x", named("Int"), None),
            input_value("y", named("Int"), None),
            input_value("x", non_null("String"), None),
        ],
        repeatable: false,
        locations: vec![DirectiveLocation::Field, DirectiveLocation::Query],
        location: None,
    };
    assert_eq!(
        definition.argument_by_name(&"x".to_string()),
        Some(&input_value("x", named("Int"), None))
    );
    assert_eq!(definition.argument_by_name(&"z".to_string()), None);
    assert!(definition.allows(DirectiveLocation::Field));
    assert!(definition.allows(DirectiveLocation::Query));
    assert!(!definition.allows(DirectiveLocation::Mutation));
    assert!(!definition.allows(DirectiveLocation::FieldDefinition));
}

#[test]
fn a_definition_without_places_allows_none() {
    let definition = DirectiveDefinition {
        name: "nowhere".to_string(),
        arguments: Vec::new(),
        repeatable: true,
        locations: Vec::new(),
        location: None,
    };
    assert!(!definition.allows(DirectiveLocation::Field));
}
