use directive_validation::ast::{
    Argument, Directive, DirectiveDefinition, DirectiveLocation, EnumValueDefinition,
    InputValueDefinition, SourceSpan, Type, Value,
};
use directive_validation::cycle::{CycleError, FindRecursiveDirective};
use directive_validation::definition::{
    validate_directive_definition, validate_directive_definitions,
};
use directive_validation::diagnostics::{Diagnostic, DiagnosticData, DiagnosticList};
use directive_validation::recursion::{RecursionLimitError, RecursionStack};
use directive_validation::rules::Permissive;
use directive_validation::schema::{
    EnumType, ExtendedType, InputObjectType, ObjectType, ScalarType, Schema,
};

fn span(start: usize, end: usize) -> Option<SourceSpan> {
    Some(SourceSpan { file_id: 7, start, end })
}

/// `@name`, written at `start`.
fn applied(name: &str, start: usize) -> Directive {
    Directive { name: name.to_string(), arguments: Vec::new(), location: span(start, start + 1) }
}

fn input_value(name: &str, ty: &str, directives: Vec<Directive>) -> InputValueDefinition {
    InputValueDefinition {
        name: name.to_string(),
        ty: Type::Named(ty.to_string()),
        default_value: None,
        directives,
        location: None,
    }
}

fn definition(name: &str, arguments: Vec<InputValueDefinition>) -> DirectiveDefinition {
    DirectiveDefinition {
        name: name.to_string(),
        arguments,
        repeatable: false,
        locations: vec![DirectiveLocation::ArgumentDefinition],
        location: span(5000, 5010),
    }
}

fn input_object(name: &str, fields: Vec<InputValueDefinition>) -> ExtendedType {
    ExtendedType::InputObject(InputObjectType {
        name: name.to_string(),
        directives: Vec::new(),
        fields,
    })
}

fn schema_of(types: Vec<ExtendedType>, definitions: Vec<DirectiveDefinition>) -> Schema {
    let mut schema = Schema::new();
    for ty in types {
        assert!(schema.types.insert(ty).is_none());
    }
    for def in definitions {
        assert!(schema.directive_definitions.insert(def).is_none());
    }
    schema
}

fn get<'a>(schema: &'a Schema, name: &str) -> &'a DirectiveDefinition {
    schema.directive_definitions.get(&name.to_string()).unwrap()
}

fn validate_one<'a>(schema: &'a Schema, name: &str) -> DiagnosticList<'a> {
    let mut diagnostics = DiagnosticList::new();
    validate_directive_definition(&mut diagnostics, schema, &Permissive, get(schema, name));
    diagnostics
}

fn validate_all(schema: &Schema) -> DiagnosticList<'_> {
    let mut diagnostics = DiagnosticList::new();
    validate_directive_definitions(&mut diagnostics, schema, &Permissive);
    diagnostics
}

fn names_reported(diagnostics: &DiagnosticList<'_>) -> Vec<(String, &'static str)> {
    (0..diagnostics.len())
        .map(|i| match &diagnostics.get(i).unwrap().data {
            DiagnosticData::RecursiveDirectiveDefinition { name, .. } => (name.clone(), "recursive"),
            DiagnosticData::DeeplyNestedType { name, .. } => (name.clone(), "deep"),
            other => panic!("unexpected {other:?}"),
        })
        .collect()
}

#[test]
fn cycle_through_the_field_of_an_input_object_is_reported_once() {
    // directive @cycle(x: In) on ARGUMENT_DEFINITION
    // input In { v: Int @cycle(x: 1) }
    let closing = Directive {
        name: "cycle".to_string(),
        arguments: vec![Argument {
            name: "x".to_string(),
            value: Value::Int("1".to_string()),
            location: None,
        }],
        location: span(40, 52),
    };
    let expected = Directive {
        name: "cycle".to_string(),
        arguments: vec![Argument {
            name: "x".to_string(),
            value: Value::Int("1".to_string()),
            location: None,
        }],
        location: span(40, 52),
    };
    let schema = schema_of(
        vec![
            ExtendedType::Scalar(ScalarType { name: "Int".to_string(), directives: Vec::new() }),
            input_object("In", vec![input_value("v", "Int", vec![closing])]),
        ],
        vec![definition("cycle", vec![input_value("x", "In", vec![])])],
    );
    let diagnostics = validate_one(&schema, "cycle");
    assert_eq!(diagnostics.len(), 1);
    assert_eq!(
        diagnostics.get(0).unwrap(),
        &Diagnostic {
            location: span(5000, 5010),
            data: DiagnosticData::RecursiveDirectiveDefinition {
                name: "cycle".to_string(),
                trace: vec![&expected],
            },
        }
    );
}

#[test]
fn directive_applied_to_its_own_argument_is_a_cycle() {
    let schema =
        schema_of(vec![], vec![definition("a", vec![input_value("x", "Int", vec![applied("a", 1)])])]);
    let result = FindRecursiveDirective::check(&schema, get(&schema, "a"));
    assert_eq!(result, Err(CycleError::Recursed(vec![&applied("a", 1)])));
}

#[test]
fn trace_lists_applications_from_the_closing_one_outwards() {
    // @a uses @b, @b uses @c, @c uses @a.
    let schema = schema_of(
        vec![],
        vec![
            definition("a", vec![input_value("x", "Int", vec![applied("b", 10)])]),
            definition("b", vec![input_value("y", "Int", vec![applied("c", 20)])]),
            definition("c", vec![input_value("z", "Int", vec![applied("a", 30)])]),
        ],
    );
    assert_eq!(
        FindRecursiveDirective::check(&schema, get(&schema, "a")),
        Err(CycleError::Recursed(vec![&applied("a", 30), &applied("c", 20), &applied("b", 10)]))
    );
    assert_eq!(
        FindRecursiveDirective::check(&schema, get(&schema, "b")),
        Err(CycleError::Recursed(vec![&applied("b", 10), &applied("a", 30), &applied("c", 20)]))
    );
    // Each definition of the cycle is reported, each once.
    let diagnostics = validate_all(&schema);
    assert_eq!(
        names_reported(&diagnostics),
        vec![
            ("a".to_string(), "recursive"),
            ("b".to_string(), "recursive"),
            ("c".to_string(), "recursive"),
        ]
    );
}

#[test]
fn directive_that_uses_a_recursive_one_is_not_reported() {
    // @a leads back to itself; @b only uses @a.
    let schema = schema_of(
        vec![],
        vec![
            definition("a", vec![input_value("x", "Int", vec![applied("a", 1)])]),
            definition("b", vec![input_value("y", "Int", vec![applied("a", 2)])]),
        ],
    );
    assert_eq!(FindRecursiveDirective::check(&schema, get(&schema, "b")), Ok(()));
    assert!(validate_one(&schema, "b").is_empty());
    assert_eq!(names_reported(&validate_one(&schema, "a")), vec![("a".to_string(), "recursive")]);
    assert_eq!(names_reported(&validate_all(&schema)), vec![("a".to_string(), "recursive")]);
}

#[test]
fn directive_that_uses_a_cycle_it_is_not_part_of_is_not_reported() {
    // @a and @b lead to each other; @c uses @a.
    let schema = schema_of(
        vec![],
        vec![
            definition("a", vec![input_value("x", "Int", vec![applied("b", 1)])]),
            definition("b", vec![input_value("y", "Int", vec![applied("a", 2)])]),
            definition("c", vec![input_value("z", "Int", vec![applied("a", 3)])]),
        ],
    );
    assert_eq!(FindRecursiveDirective::check(&schema, get(&schema, "c")), Ok(()));
    assert_eq!(
        names_reported(&validate_all(&schema)),
        vec![("a".to_string(), "recursive"), ("b".to_string(), "recursive")]
    );
}

#[test]
fn definitions_without_a_cycle_are_clear() {
    let schema = schema_of(
        vec![
            input_object("Outer", vec![input_value("inner", "Inner", vec![applied("c", 1)])]),
            input_object("Inner", vec![input_value("leaf", "Int", vec![])]),
        ],
        vec![
            definition("a", vec![input_value("x", "Outer", vec![applied("b", 2)])]),
            definition("b", vec![input_value("y", "Inner", vec![applied("c", 3)])]),
            definition("c", vec![]),
        ],
    );
    for name in ["a", "b", "c"] {
        assert_eq!(FindRecursiveDirective::check(&schema, get(&schema, name)), Ok(()));
    }
    assert!(validate_all(&schema).is_empty());
}

#[test]
fn application_of_an_undefined_directive_is_passed_over() {
    let schema = schema_of(
        vec![],
        vec![definition("a", vec![input_value("x", "Missing", vec![applied("nowhere", 1)])])],
    );
    assert_eq!(FindRecursiveDirective::check(&schema, get(&schema, "a")), Ok(()));
}

#[test]
fn cycle_through_the_directives_of_a_type_is_found() {
    for ty in [
        ExtendedType::Scalar(ScalarType { name: "T".to_string(), directives: vec![applied("t", 1)] }),
        ExtendedType::Object(ObjectType { name: "T".to_string(), directives: vec![applied("t", 1)] }),
        ExtendedType::Enum(EnumType {
            name: "T".to_string(),
            directives: vec![applied("t", 1)],
            values: Vec::new(),
        }),
        ExtendedType::InputObject(InputObjectType {
            name: "T".to_string(),
            directives: vec![applied("t", 1)],
            fields: Vec::new(),
        }),
    ] {
        let schema = schema_of(vec![ty], vec![definition("t", vec![input_value("x", "T", vec![])])]);
        assert_eq!(
            FindRecursiveDirective::check(&schema, get(&schema, "t")),
            Err(CycleError::Recursed(vec![&applied("t", 1)]))
        );
    }
}

#[test]
fn cycle_through_an_enum_value_is_found() {
    let schema = schema_of(
        vec![ExtendedType::Enum(EnumType {
            name: "E".to_string(),
            directives: Vec::new(),
            values: vec![
                EnumValueDefinition {
                    value: "A".to_string(),
                    directives: Vec::new(),
                    location: None,
                },
                EnumValueDefinition {
                    value: "B".to_string(),
                    directives: vec![applied("e", 9)],
                    location: None,
                },
            ],
        })],
        vec![definition("e", vec![input_value("x", "E", vec![])])],
    );
    assert_eq!(
        FindRecursiveDirective::check(&schema, get(&schema, "e")),
        Err(CycleError::Recursed(vec![&applied("e", 9)]))
    );
}

#[test]
fn type_under_list_layers_is_followed() {
    let nested = InputValueDefinition {
        name: "x".to_string(),
        ty: Type::NonNullList(Box::new(Type::List(Box::new(Type::NonNullNamed("In".to_string()))))),
        default_value: None,
        directives: Vec::new(),
        location: None,
    };
    let schema = schema_of(
        vec![input_object("In", vec![input_value("v", "Int", vec![applied("l", 4)])])],
        vec![definition("l", vec![nested])],
    );
    assert_eq!(
        FindRecursiveDirective::check(&schema, get(&schema, "l")),
        Err(CycleError::Recursed(vec![&applied("l", 4)]))
    );
}

/// `In0 { next: In1 }`, `In1 { next: In2 }`, and so on; the last one has a
/// field of a type that the schema does not define.
fn input_chain(length: usize) -> Vec<ExtendedType> {
    (0..length)
        .map(|i| input_object(&format!("In{i}"), vec![input_value("next", &format!("In{}", i + 1), vec![])]))
        .collect()
}

#[test]
fn input_objects_nested_twice_as_deep_as_the_limit_are_reported() {
    let schema = schema_of(input_chain(64), vec![definition("deep", vec![input_value("x", "In0", vec![])])]);
    assert_eq!(
        FindRecursiveDirective::check(&schema, get(&schema, "deep")),
        Err(CycleError::Limit(RecursionLimitError {}))
    );
    let diagnostics = validate_one(&schema, "deep");
    assert_eq!(diagnostics.len(), 1);
    assert_eq!(
        diagnostics.get(0).unwrap(),
        &Diagnostic {
            location: span(5000, 5010),
            data: DiagnosticData::DeeplyNestedType {
                name: "deep".to_string(),
                describe_type: "directive",
            },
        }
    );
}

#[test]
fn the_limit_counts_the_root_and_every_type_entered() {
    // With the root on the path, thirty-one types can be entered.
    let fits = schema_of(input_chain(31), vec![definition("d", vec![input_value("x", "In0", vec![])])]);
    assert_eq!(FindRecursiveDirective::check(&fits, get(&fits, "d")), Ok(()));
    let too_deep =
        schema_of(input_chain(32), vec![definition("d", vec![input_value("x", "In0", vec![])])]);
    assert_eq!(
        FindRecursiveDirective::check(&too_deep, get(&too_deep, "d")),
        Err(CycleError::Limit(RecursionLimitError {}))
    );
}

/// `@d0` uses `@d1`, which uses `@d2`, and so on; the last one uses nothing.
fn directive_chain(length: usize) -> Vec<DirectiveDefinition> {
    (0..length)
        .map(|i| {
            let uses = if i + 1 < length { vec![applied(&format!("d{}", i + 1), i)] } else { vec![] };
            definition(&format!("d{i}"), vec![input_value("x", "Int", uses)])
        })
        .collect()
}

#[test]
fn the_limit_counts_every_directive_on_the_path() {
    let fits = schema_of(vec![], directive_chain(32));
    assert!(validate_all(&fits).is_empty());
    let too_long = schema_of(vec![], directive_chain(34));
    // Only the definitions from which the chain is longer than the limit.
    assert_eq!(
        names_reported(&validate_all(&too_long)),
        vec![("d0".to_string(), "deep"), ("d1".to_string(), "deep")]
    );
}

#[test]
fn input_type_that_contains_itself_is_cut_off_at_the_limit() {
    // input Filter { and: Filter }
    let schema = schema_of(
        vec![input_object("Filter", vec![input_value("and", "Filter", vec![])])],
        vec![
            definition("filtered", vec![input_value("by", "Filter", vec![])]),
            definition("plain", vec![input_value("n", "Int", vec![])]),
        ],
    );
    assert_eq!(names_reported(&validate_all(&schema)), vec![("filtered".to_string(), "deep")]);
}

#[test]
fn a_cycle_met_before_the_limit_is_reported_as_a_cycle() {
    // The first field closes the cycle; the second would nest without end.
    let schema = schema_of(
        vec![input_object(
            "In",
            vec![input_value("v", "Int", vec![applied("c", 1)]), input_value("again", "In", vec![])],
        )],
        vec![definition("c", vec![input_value("x", "In", vec![])])],
    );
    assert_eq!(names_reported(&validate_one(&schema, "c")), vec![("c".to_string(), "recursive")]);
}

#[test]
fn the_limit_met_before_a_cycle_is_reported_as_nesting() {
    // The first field nests without end; the second would close the cycle.
    let schema = schema_of(
        vec![input_object(
            "In",
            vec![input_value("again", "In", vec![]), input_value("v", "Int", vec![applied("c", 1)])],
        )],
        vec![definition("c", vec![input_value("x", "In", vec![])])],
    );
    assert_eq!(names_reported(&validate_one(&schema, "c")), vec![("c".to_string(), "deep")]);
}

#[test]
fn one_definition_at_fault_does_not_keep_the_others_from_being_checked() {
    let mut definitions = vec![definition("self", vec![input_value("x", "Int", vec![applied("self", 1)])])];
    definitions.push(definition("fine", vec![]));
    definitions.push(definition("deep", vec![input_value("x", "In0", vec![])]));
    definitions.push(definition("other", vec![input_value("x", "Int", vec![applied("other", 2)])]));
    let schema = schema_of(input_chain(40), definitions);
    assert_eq!(
        names_reported(&validate_all(&schema)),
        vec![
            ("self".to_string(), "recursive"),
            ("deep".to_string(), "deep"),
            ("other".to_string(), "recursive"),
        ]
    );
}

#[test]
fn the_search_leaves_the_stack_as_it_found_it() {
    let schema = schema_of(
        input_chain(40),
        vec![
            definition("a", vec![input_value("x", "Int", vec![applied("b", 1)])]),
            definition("b", vec![input_value("y", "Int", vec![applied("root", 2)])]),
            definition("deep", vec![input_value("x", "In0", vec![])]),
            definition("clear", vec![]),
        ],
    );
    let finder = FindRecursiveDirective { schema: &schema };
    let mut stack = RecursionStack::with_root("root".to_string());
    let cases = [
        (applied("a", 10), "recursed"),
        (applied("deep", 11), "limit"),
        (applied("clear", 12), "clear"),
        (applied("root", 13), "recursed"),
        (applied("undefined", 14), "clear"),
    ];
    for (directive, expected) in &cases {
        let found = match finder.directive(&mut stack, directive) {
            Ok(()) => "clear",
            Err(CycleError::Recursed(_)) => "recursed",
            Err(CycleError::Limit(_)) => "limit",
        };
        assert_eq!(found, *expected);
        assert_eq!(stack.depth(), 1);
        assert_eq!(stack.first(), Some(&"root".to_string()));
        assert!(!stack.contains(&directive.name) || directive.name == "root");
    }
}

#[test]
fn the_search_honours_the_limit_of_the_stack_it_is_given() {
    let schema = schema_of(vec![], directive_chain(5));
    let finder = FindRecursiveDirective { schema: &schema };
    // Room for the root and three more names.
    let mut stack = RecursionStack::with_root("d0".to_string()).with_limit(4);
    assert_eq!(
        finder.directive_definition(&mut stack, get(&schema, "d0")),
        Err(CycleError::Limit(RecursionLimitError {}))
    );
    let mut stack = RecursionStack::with_root("d1".to_string()).with_limit(4);
    assert_eq!(finder.directive_definition(&mut stack, get(&schema, "d1")), Ok(()));
}

#[test]
fn methods_of_the_search_agree_on_what_they_are_shown() {
    let schema = schema_of(
        vec![input_object("In", vec![input_value("v", "Int", vec![applied("root", 3)])])],
        vec![definition("root", vec![input_value("x", "In", vec![])])],
    );
    let finder = FindRecursiveDirective { schema: &schema };
    let mut stack = RecursionStack::with_root("root".to_string());
    let closing = applied("root", 3);
    let expected = Err(CycleError::Recursed(vec![&closing]));

    let in_type = schema.types.get(&"In".to_string()).unwrap();
    assert_eq!(finder.type_definition(&mut stack, in_type), expected);
    let field = input_value("v", "Int", vec![applied("root", 3)]);
    assert_eq!(finder.input_value(&mut stack, &field), expected);
    let applications = vec![applied("other", 1), applied("root", 3), applied("root", 4)];
    assert_eq!(
        finder.directives(&mut stack, &applications),
        Err(CycleError::Recursed(vec![&applications[1]]))
    );
    let value = EnumValueDefinition {
        value: "A".to_string(),
        directives: vec![applied("root", 3)],
        location: None,
    };
    assert_eq!(finder.enum_value(&mut stack, &value), expected);
    assert_eq!(stack.depth(), 1);
}

#[test]
fn tracing_an_error_adds_to_a_cycle_and_leaves_a_limit_alone() {
    let inner = applied("a", 1);
    let outer = applied("b", 2);
    assert_eq!(
        CycleError::Recursed(vec![&inner]).trace(&outer),
        CycleError::Recursed(vec![&inner, &outer])
    );
    assert_eq!(
        CycleError::Limit(RecursionLimitError {}).trace(&outer),
        CycleError::Limit(RecursionLimitError {})
    );
}
