//! Validation of the directives applied at one place.
//!
//! Each application is held against the definition of its directive: that
//! a definition exists, that the place is one the definition allows, that a
//! directive which may not repeat is applied once, that every argument
//! passed is one the definition has, and that every required argument is
//! passed a value other than `null`.
//!
//! `directives_reports` says, for any list of applications, which reports
//! the pass adds; `validate_directives` adds exactly those.

use crate::ast::{
    first_argument_named, first_definition_named, Argument, Directive, DirectiveDefinition,
    DirectiveLocation, SourceSpan, VariableDefinition,
};
use crate::diagnostics::{
    finding_reports, DiagnosticData, DiagnosticList, DirectiveArgumentCoordinate,
    DirectiveCoordinate, Report, ReportKind,
};
use crate::rules::ArgumentRules;
use crate::schema::{Schema, SchemaView};
use vstd::hash_map::StringHashMap;
use vstd::prelude::*;

verus! {

/// Application `i` is called `name`, and none before it is.
pub open spec fn is_first_application_named(
    directives: Seq<Directive>,
    name: Seq<char>,
    i: int,
) -> bool {
    &&& 0 <= i < directives.len()
    &&& directives[i].name@ == name
    &&& forall|j: int| 0 <= j < i ==> directives[j].name@ != name
}

/// The position of the first application called `name`, if any.
pub open spec fn first_application_named(directives: Seq<Directive>, name: Seq<char>) -> Option<
    int,
> {
    if exists|i: int| is_first_application_named(directives, name, i) {
        Some(choose|i: int| is_first_application_named(directives, name, i))
    } else {
        None
    }
}

/// There is one first application of a name at most.
pub proof fn lemma_first_application_named(directives: Seq<Directive>, name: Seq<char>, i: int)
    requires
        is_first_application_named(directives, name, i),
    ensures
        first_application_named(directives, name) == Some(i),
{
}

/// The view of a schema that may be absent.
pub open spec fn schema_view(schema: Option<&Schema>) -> Option<SchemaView> {
    match schema {
        Some(schema) => Some(schema@),
        None => None,
    }
}

/// The definition of the directive called `name`, where a schema is at hand
/// and defines one.
pub open spec fn known_definition(schema: Option<SchemaView>, name: Seq<char>) -> Option<
    DirectiveDefinition,
> {
    match schema {
        Some(schema) => schema.directive_definitions.get(name),
        None => None,
    }
}

/// What the rule on repetition reports for application `i`: one report if
/// an earlier application has the same name and the directive is known not
/// to be repeatable. The report cites the first application of that name. A
/// directive without a known definition counts as repeatable.
pub open spec fn uniqueness_reports(
    schema: Option<SchemaView>,
    directives: Seq<Directive>,
    i: int,
) -> Seq<Report> {
    let directive = directives[i];
    match (
        first_application_named(directives, directive.name@),
        known_definition(schema, directive.name@),
    ) {
        (Some(first), Some(definition)) => if first < i && !definition.repeatable {
            seq![
                Report {
                    location: directive.location,
                    kind: ReportKind::UniqueDirective {
                        name: directive.name@,
                        original_application: directives[first].location,
                    },
                },
            ]
        } else {
            Seq::empty()
        },
        _ => Seq::empty(),
    }
}

/// What the rule on places reports: one report if `location` is not among
/// the places that the definition allows.
pub open spec fn location_reports(
    definition: DirectiveDefinition,
    directive: Directive,
    location: DirectiveLocation,
) -> Seq<Report> {
    if definition.locations@.contains(location) {
        Seq::empty()
    } else {
        seq![
            Report {
                location: directive.location,
                kind: ReportKind::UnsupportedLocation {
                    name: directive.name@,
                    location,
                    valid_locations: definition.locations@,
                    definition_location: definition.location,
                },
            },
        ]
    }
}

/// What is reported for argument `j` of an application. Where the
/// definition has no argument of that name, one report says so. Where it
/// has one, the rule on variable usage is heard, and the rule on values
/// only if the first accepted the argument.
pub open spec fn supplied_argument_reports<R: ArgumentRules>(
    rules: &R,
    schema: SchemaView,
    definition: DirectiveDefinition,
    directive: Directive,
    variables: Seq<VariableDefinition>,
    j: int,
) -> Seq<Report> {
    let argument = directive.arguments@[j];
    match first_definition_named(definition.arguments@, argument.name@) {
        Some(k) => {
            let input_value = definition.arguments@[k];
            finding_reports(rules.usage_findings(input_value, variables, argument)) + (
            if rules.usage_accepted(input_value, variables, argument) {
                finding_reports(rules.value_findings(schema, input_value.ty, argument, variables))
            } else {
                Seq::empty()
            })
        },
        None => seq![
            Report {
                location: argument.location,
                kind: ReportKind::UndefinedArgument {
                    name: argument.name@,
                    directive: directive.name@,
                    definition_location: directive.location,
                },
            },
        ],
    }
}

/// What is reported for the first `upto` arguments of an application.
pub open spec fn supplied_arguments_reports<R: ArgumentRules>(
    rules: &R,
    schema: SchemaView,
    definition: DirectiveDefinition,
    directive: Directive,
    variables: Seq<VariableDefinition>,
    upto: nat,
) -> Seq<Report>
    decreases upto,
{
    if upto == 0 {
        Seq::empty()
    } else {
        supplied_arguments_reports(
            rules,
            schema,
            definition,
            directive,
            variables,
            (upto - 1) as nat,
        ) + supplied_argument_reports(rules, schema, definition, directive, variables, upto - 1)
    }
}

/// Whether an application passes nothing, or `null`, for the argument
/// called `name`. A variable is something, whatever it may hold.
pub open spec fn passes_no_value(directive: Directive, name: Seq<char>) -> bool {
    match first_argument_named(directive.arguments@, name) {
        Some(j) => directive.arguments@[j].value is Null,
        None => true,
    }
}

/// What is reported for argument definition `k`: one report if the
/// argument is required and the application passes no value for it.
pub open spec fn required_argument_reports(
    definition: DirectiveDefinition,
    directive: Directive,
    k: int,
) -> Seq<Report> {
    let input_value = definition.arguments@[k];
    if input_value.required() && passes_no_value(directive, input_value.name@) {
        seq![
            Report {
                location: directive.location,
                kind: ReportKind::RequiredArgument {
                    name: input_value.name@,
                    expected_type: input_value.ty,
                    directive: definition.name@,
                    argument: input_value.name@,
                    definition_location: input_value.location,
                },
            },
        ]
    } else {
        Seq::empty()
    }
}

/// What is reported for the first `upto` argument definitions.
pub open spec fn required_arguments_reports(
    definition: DirectiveDefinition,
    directive: Directive,
    upto: nat,
) -> Seq<Report>
    decreases upto,
{
    if upto == 0 {
        Seq::empty()
    } else {
        required_arguments_reports(definition, directive, (upto - 1) as nat)
            + required_argument_reports(definition, directive, upto - 1)
    }
}

/// What is reported for an application once its definition is known.
pub open spec fn defined_application_reports<R: ArgumentRules>(
    rules: &R,
    schema: SchemaView,
    definition: DirectiveDefinition,
    directive: Directive,
    location: DirectiveLocation,
    variables: Seq<VariableDefinition>,
) -> Seq<Report> {
    location_reports(definition, directive, location) + supplied_arguments_reports(
        rules,
        schema,
        definition,
        directive,
        variables,
        directive.arguments@.len(),
    ) + required_arguments_reports(definition, directive, definition.arguments@.len())
}

/// What depends on the schema for application `i`. Without a schema there
/// is nothing to hold the application against, and nothing is reported.
/// With one, either the definition is found and the application is checked
/// against it, or one report says that the directive is not defined.
pub open spec fn schema_reports<R: ArgumentRules>(
    rules: &R,
    schema: Option<SchemaView>,
    directive: Directive,
    location: DirectiveLocation,
    variables: Seq<VariableDefinition>,
) -> Seq<Report> {
    match schema {
        Some(schema) => match schema.directive_definitions.get(directive.name@) {
            Some(definition) => defined_application_reports(
                rules,
                schema,
                definition,
                directive,
                location,
                variables,
            ),
            None => seq![
                Report {
                    location: directive.location,
                    kind: ReportKind::UndefinedDirective { name: directive.name@ },
                },
            ],
        },
        None => Seq::empty(),
    }
}

/// What is reported for application `i`, in order: the findings on how its
/// arguments are written, then the rule on repetition, then what depends on
/// the schema.
pub open spec fn application_reports<R: ArgumentRules>(
    rules: &R,
    schema: Option<SchemaView>,
    directives: Seq<Directive>,
    i: int,
    location: DirectiveLocation,
    variables: Seq<VariableDefinition>,
) -> Seq<Report> {
    finding_reports(rules.argument_findings(directives[i].arguments@)) + uniqueness_reports(
        schema,
        directives,
        i,
    ) + schema_reports(rules, schema, directives[i], location, variables)
}

/// What is reported for the first `upto` applications of a list.
pub open spec fn directives_reports<R: ArgumentRules>(
    rules: &R,
    schema: Option<SchemaView>,
    directives: Seq<Directive>,
    upto: nat,
    location: DirectiveLocation,
    variables: Seq<VariableDefinition>,
) -> Seq<Report>
    decreases upto,
{
    if upto == 0 {
        Seq::empty()
    } else {
        directives_reports(rules, schema, directives, (upto - 1) as nat, location, variables)
            + application_reports(rules, schema, directives, upto - 1, location, variables)
    }
}

/// Reports on each argument that an application passes.
fn check_supplied_arguments<'a, R: ArgumentRules>(
    diagnostics: &mut DiagnosticList<'a>,
    schema: &'a Schema,
    definition: &'a DirectiveDefinition,
    directive: &'a Directive,
    variables: &Vec<VariableDefinition>,
    rules: &R,
)
    ensures
        final(diagnostics)@ == old(diagnostics)@ + supplied_arguments_reports(
            rules,
            schema@,
            *definition,
            *directive,
            variables@,
            directive.arguments@.len(),
        ),
{
    let mut j: usize = 0;
    while j < directive.arguments.len()
        invariant
            j <= directive.arguments.len(),
            diagnostics@ == old(diagnostics)@ + supplied_arguments_reports(
                rules,
                schema@,
                *definition,
                *directive,
                variables@,
                j as nat,
            ),
        decreases directive.arguments.len() - j,
    {
        let argument = &directive.arguments[j];
        match definition.argument_by_name(&argument.name) {
            Some(input_value) => {
                let usage = rules.validate_variable_usage(input_value, variables, argument);
                diagnostics.report(&usage.findings);
                if usage.accepted {
                    let findings = rules.validate_values(
                        schema,
                        &input_value.ty,
                        argument,
                        variables,
                    );
                    diagnostics.report(&findings);
                }
            },
            None => {
                diagnostics.push(
                    argument.location,
                    DiagnosticData::UndefinedArgument {
                        name: argument.name.clone(),
                        coordinate: DirectiveCoordinate { directive: directive.name.clone() },
                        definition_location: directive.location,
                    },
                );
            },
        }
        j += 1;
    }
}

/// Reports each required argument that an application does not pass.
fn check_required_arguments<'a>(
    diagnostics: &mut DiagnosticList<'a>,
    definition: &'a DirectiveDefinition,
    directive: &'a Directive,
)
    ensures
        final(diagnostics)@ == old(diagnostics)@ + required_arguments_reports(
            *definition,
            *directive,
            definition.arguments@.len(),
        ),
{
    let mut k: usize = 0;
    while k < definition.arguments.len()
        invariant
            k <= definition.arguments.len(),
            diagnostics@ == old(diagnostics)@ + required_arguments_reports(
                *definition,
                *directive,
                k as nat,
            ),
        decreases definition.arguments.len() - k,
    {
        let ghost before = diagnostics@;
        let input_value = &definition.arguments[k];
        let is_null = match directive.argument_by_name(&input_value.name) {
            None => true,
            Some(argument) => argument.value.is_null(),
        };
        if input_value.is_required() && is_null {
            diagnostics.push(
                directive.location,
                DiagnosticData::RequiredArgument {
                    name: input_value.name.clone(),
                    expected_type: &input_value.ty,
                    coordinate: DirectiveArgumentCoordinate {
                        directive: definition.name.clone(),
                        argument: input_value.name.clone(),
                    },
                    definition_location: input_value.location,
                },
            );
        }
        k += 1;
    }
}

/// What the pass has seen after `upto` applications: each name applied so
/// far, with the place of its first application.
spec fn seen_so_far(
    seen: Map<Seq<char>, Option<SourceSpan>>,
    directives: Seq<Directive>,
    upto: int,
) -> bool {
    &&& forall|j: int| 0 <= j < upto ==> seen.contains_key(#[trigger] directives[j].name@)
    &&& forall|name: Seq<char>| #[trigger]
        seen.contains_key(name) ==> match first_application_named(directives, name) {
            Some(first) => first < upto && seen[name] == directives[first].location,
            None => false,
        }
}

/// Validates the directives applied at one place, in order, and appends what
/// it finds to `diagnostics`.
///
/// `schema` is absent where a document is validated on its own; then only
/// what needs no definition is checked. `dir_loc` says what kind of place
/// the directives are attached to, and `var_defs` which variables are in
/// scope there.
pub fn validate_directives<'a, R: ArgumentRules>(
    diagnostics: &mut DiagnosticList<'a>,
    schema: Option<&'a Schema>,
    dirs: &'a Vec<Directive>,
    dir_loc: DirectiveLocation,
    var_defs: &Vec<VariableDefinition>,
    rules: &R,
)
    ensures
        final(diagnostics)@ == old(diagnostics)@ + directives_reports(
            rules,
            schema_view(schema),
            dirs@,
            dirs@.len(),
            dir_loc,
            var_defs@,
        ),
{
    let mut seen_directives: StringHashMap<Option<SourceSpan>> = StringHashMap::new();
    let mut i: usize = 0;
    while i < dirs.len()
        invariant
            i <= dirs.len(),
            seen_so_far(seen_directives@, dirs@, i as int),
            diagnostics@ == old(diagnostics)@ + directives_reports(
                rules,
                schema_view(schema),
                dirs@,
                i as nat,
                dir_loc,
                var_defs@,
            ),
        decreases dirs.len() - i,
    {
        let ghost added = application_reports(
            rules,
            schema_view(schema),
            dirs@,
            i as int,
            dir_loc,
            var_defs@,
        );
        let dir = &dirs[i];

        let findings = rules.validate_arguments(&dir.arguments);
        diagnostics.report(&findings);

        let name = &dir.name;
        let loc = dir.location;
        let directive_definition = match schema {
            Some(schema) => schema.directive_definitions.get(name),
            None => None,
        };

        match seen_directives.get(name.as_str()) {
            Some(original_loc) => {
                // A directive that nothing is known of is taken to be
                // repeatable, so that one unknown name is reported once.
                let is_repeatable = match directive_definition {
                    Some(definition) => definition.repeatable,
                    None => true,
                };
                if !is_repeatable {
                    diagnostics.push(
                        loc,
                        DiagnosticData::UniqueDirective {
                            name: name.clone(),
                            original_application: *original_loc,
                        },
                    );
                }
            },
            None => {
                proof {
                    lemma_first_application_named(dirs@, name@, i as int);
                }
                seen_directives.insert(name.clone(), loc);
            },
        }

        match schema {
            Some(schema) => match directive_definition {
                Some(definition) => {
                    if !definition.allows(dir_loc) {
                        diagnostics.push(
                            loc,
                            DiagnosticData::UnsupportedLocation {
                                name: name.clone(),
                                location: dir_loc,
                                valid_locations: &definition.locations,
                                definition_location: definition.location,
                            },
                        );
                    }
                    check_supplied_arguments(
                        diagnostics,
                        schema,
                        definition,
                        dir,
                        var_defs,
                        rules,
                    );
                    check_required_arguments(diagnostics, definition, dir);
                },
                None => {
                    diagnostics.push(
                        loc,
                        DiagnosticData::UndefinedDirective { name: name.clone() },
                    );
                },
            },
            None => {},
        }
        i += 1;
    }
}

} // verus!
