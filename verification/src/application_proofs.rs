//! What follows from the reports of `validate_directives`, for every set of
//! rules on arguments, every schema and every list of applications.

use crate::application::{
    application_reports, defined_application_reports, directives_reports,
    first_application_named, is_first_application_named, lemma_first_application_named,
    location_reports, passes_no_value, required_argument_reports, required_arguments_reports,
    schema_reports, supplied_argument_reports, supplied_arguments_reports, uniqueness_reports,
};
use crate::ast::{
    first_definition_named, Directive, DirectiveDefinition, DirectiveLocation,
    VariableDefinition,
};
use crate::diagnostics::{finding_reports, Report, ReportKind};
use crate::rules::ArgumentRules;
use crate::schema::SchemaView;
use vstd::prelude::*;

verus! {

/// A report is in a concatenation exactly when it is in one of the parts.
proof fn lemma_contains_add(a: Seq<Report>, b: Seq<Report>, report: Report)
    ensures
        (a + b).contains(report) <==> a.contains(report) || b.contains(report),
{
    if a.contains(report) {
        let i: int = choose|i: int| 0 <= i < a.len() && a[i] == report;
        assert((a + b)[i] == report);
    }
    if b.contains(report) {
        let i: int = choose|i: int| 0 <= i < b.len() && b[i] == report;
        assert((a + b)[a.len() + i] == report);
    }
    if (a + b).contains(report) {
        let i: int = choose|i: int| 0 <= i < (a + b).len() && (a + b)[i] == report;
        if i < a.len() {
            assert(a[i] == report);
        } else {
            assert(b[i - a.len()] == report);
        }
    }
}

/// What is reported for the arguments that an application passes is a
/// finding or an undefined argument.
proof fn lemma_supplied_arguments_kinds<R: ArgumentRules>(
    rules: &R,
    schema: SchemaView,
    definition: DirectiveDefinition,
    directive: Directive,
    variables: Seq<VariableDefinition>,
    upto: nat,
    report: Report,
)
    requires
        supplied_arguments_reports(rules, schema, definition, directive, variables, upto).contains(
            report,
        ),
    ensures
        report.kind is ArgumentFinding || report.kind is UndefinedArgument,
    decreases upto,
{
    if upto > 0 {
        let before = supplied_arguments_reports(
            rules,
            schema,
            definition,
            directive,
            variables,
            (upto - 1) as nat,
        );
        let last = supplied_argument_reports(
            rules,
            schema,
            definition,
            directive,
            variables,
            upto - 1,
        );
        lemma_contains_add(before, last, report);
        if before.contains(report) {
            lemma_supplied_arguments_kinds(
                rules,
                schema,
                definition,
                directive,
                variables,
                (upto - 1) as nat,
                report,
            );
        } else {
            let argument = directive.arguments@[upto - 1];
            match first_definition_named(definition.arguments@, argument.name@) {
                Some(k) => {
                    let input_value = definition.arguments@[k];
                    let usage = finding_reports(
                        rules.usage_findings(input_value, variables, argument),
                    );
                    let values = if rules.usage_accepted(input_value, variables, argument) {
                        finding_reports(
                            rules.value_findings(schema, input_value.ty, argument, variables),
                        )
                    } else {
                        Seq::empty()
                    };
                    lemma_contains_add(usage, values, report);
                },
                None => {},
            }
        }
    }
}

/// Every report on a required argument names a required argument of the
/// definition for which the application passes no value.
proof fn lemma_required_arguments_reports(
    definition: DirectiveDefinition,
    directive: Directive,
    upto: nat,
    report: Report,
)
    requires
        required_arguments_reports(definition, directive, upto).contains(report),
        upto <= definition.arguments@.len(),
    ensures
        exists|k: int|
            0 <= k < upto && (#[trigger] definition.arguments@[k]).required() && passes_no_value(
                directive,
                definition.arguments@[k].name@,
            ) && required_argument_reports(definition, directive, k) == seq![report],
    decreases upto,
{
    if upto > 0 {
        let before = required_arguments_reports(definition, directive, (upto - 1) as nat);
        let last = required_argument_reports(definition, directive, upto - 1);
        lemma_contains_add(before, last, report);
        if before.contains(report) {
            lemma_required_arguments_reports(definition, directive, (upto - 1) as nat, report);
        } else {
            assert(last =~= seq![report]);
            assert(definition.arguments@[upto - 1].required());
        }
    }
}

/// The report on argument definition `k` is among the reports on the first
/// `upto` argument definitions, if `k` is one of them.
proof fn lemma_required_argument_reported(
    definition: DirectiveDefinition,
    directive: Directive,
    k: int,
    upto: nat,
    report: Report,
)
    requires
        0 <= k < upto,
        required_argument_reports(definition, directive, k).contains(report),
    ensures
        required_arguments_reports(definition, directive, upto).contains(report),
    decreases upto,
{
    let before = required_arguments_reports(definition, directive, (upto - 1) as nat);
    let last = required_argument_reports(definition, directive, upto - 1);
    lemma_contains_add(before, last, report);
    if k < upto - 1 {
        lemma_required_argument_reported(definition, directive, k, (upto - 1) as nat, report);
    }
}

/// The reports on argument `j` are among the reports on the first `upto`
/// arguments, if `j` is one of them.
proof fn lemma_supplied_argument_reported<R: ArgumentRules>(
    rules: &R,
    schema: SchemaView,
    definition: DirectiveDefinition,
    directive: Directive,
    variables: Seq<VariableDefinition>,
    j: int,
    upto: nat,
    report: Report,
)
    requires
        0 <= j < upto,
        supplied_argument_reports(rules, schema, definition, directive, variables, j).contains(
            report,
        ),
    ensures
        supplied_arguments_reports(rules, schema, definition, directive, variables, upto).contains(
            report,
        ),
    decreases upto,
{
    let before = supplied_arguments_reports(
        rules,
        schema,
        definition,
        directive,
        variables,
        (upto - 1) as nat,
    );
    let last = supplied_argument_reports(
        rules,
        schema,
        definition,
        directive,
        variables,
        upto - 1,
    );
    lemma_contains_add(before, last, report);
    if j < upto - 1 {
        lemma_supplied_argument_reported(
            rules,
            schema,
            definition,
            directive,
            variables,
            j,
            (upto - 1) as nat,
            report,
        );
    }
}

/// The reports on application `i` are among the reports on the first `upto`
/// applications, if `i` is one of them.
proof fn lemma_application_reported<R: ArgumentRules>(
    rules: &R,
    schema: Option<SchemaView>,
    directives: Seq<Directive>,
    i: int,
    upto: nat,
    location: DirectiveLocation,
    variables: Seq<VariableDefinition>,
    report: Report,
)
    requires
        0 <= i < upto,
        application_reports(rules, schema, directives, i, location, variables).contains(report),
    ensures
        directives_reports(rules, schema, directives, upto, location, variables).contains(report),
    decreases upto,
{
    let before = directives_reports(
        rules,
        schema,
        directives,
        (upto - 1) as nat,
        location,
        variables,
    );
    let last = application_reports(rules, schema, directives, upto - 1, location, variables);
    lemma_contains_add(before, last, report);
    if i < upto - 1 {
        lemma_application_reported(
            rules,
            schema,
            directives,
            i,
            (upto - 1) as nat,
            location,
            variables,
            report,
        );
    }
}

/// What is reported for an application whose definition is known is made
/// of three parts, and a report is among it exactly when it is in one.
proof fn lemma_defined_application_parts<R: ArgumentRules>(
    rules: &R,
    schema: SchemaView,
    definition: DirectiveDefinition,
    directive: Directive,
    location: DirectiveLocation,
    variables: Seq<VariableDefinition>,
    report: Report,
)
    ensures
        defined_application_reports(
            rules,
            schema,
            definition,
            directive,
            location,
            variables,
        ).contains(report) <==> {
            ||| location_reports(definition, directive, location).contains(report)
            ||| supplied_arguments_reports(
                rules,
                schema,
                definition,
                directive,
                variables,
                directive.arguments@.len(),
            ).contains(report)
            ||| required_arguments_reports(
                definition,
                directive,
                definition.arguments@.len(),
            ).contains(report)
        },
{
    let places = location_reports(definition, directive, location);
    let supplied = supplied_arguments_reports(
        rules,
        schema,
        definition,
        directive,
        variables,
        directive.arguments@.len(),
    );
    let required = required_arguments_reports(definition, directive, definition.arguments@.len());
    lemma_contains_add(places, supplied, report);
    lemma_contains_add(places + supplied, required, report);
}

/// What is reported for one application is made of three parts, and a
/// report is among it exactly when it is in one.
proof fn lemma_application_parts<R: ArgumentRules>(
    rules: &R,
    schema: Option<SchemaView>,
    directives: Seq<Directive>,
    i: int,
    location: DirectiveLocation,
    variables: Seq<VariableDefinition>,
    report: Report,
)
    ensures
        application_reports(rules, schema, directives, i, location, variables).contains(report)
            <==> {
            ||| finding_reports(rules.argument_findings(directives[i].arguments@)).contains(
                report,
            )
            ||| uniqueness_reports(schema, directives, i).contains(report)
            ||| schema_reports(rules, schema, directives[i], location, variables).contains(
                report,
            )
        },
{
    let written = finding_reports(rules.argument_findings(directives[i].arguments@));
    let repeated = uniqueness_reports(schema, directives, i);
    let held = schema_reports(rules, schema, directives[i], location, variables);
    lemma_contains_add(written, repeated, report);
    lemma_contains_add(written + repeated, held, report);
}

/// The reports of a list that say that a directive was repeated.
pub open spec fn repetitions_in(reports: Seq<Report>) -> Seq<Report>
    decreases reports.len(),
{
    if reports.len() == 0 {
        Seq::empty()
    } else if reports.last().kind is UniqueDirective {
        repetitions_in(reports.drop_last()).push(reports.last())
    } else {
        repetitions_in(reports.drop_last())
    }
}

/// What the rule on repetition reports for the first `upto` applications.
pub open spec fn repetition_reports(
    schema: Option<SchemaView>,
    directives: Seq<Directive>,
    upto: nat,
) -> Seq<Report>
    decreases upto,
{
    if upto == 0 {
        Seq::empty()
    } else {
        repetition_reports(schema, directives, (upto - 1) as nat) + uniqueness_reports(
            schema,
            directives,
            upto - 1,
        )
    }
}

proof fn lemma_repetitions_in_add(a: Seq<Report>, b: Seq<Report>)
    ensures
        repetitions_in(a + b) == repetitions_in(a) + repetitions_in(b),
    decreases b.len(),
{
    if b.len() == 0 {
        assert(a + b =~= a);
        assert(repetitions_in(a) + repetitions_in(b) =~= repetitions_in(a));
    } else {
        assert((a + b).drop_last() =~= a + b.drop_last());
        assert((a + b).last() == b.last());
        lemma_repetitions_in_add(a, b.drop_last());
        if b.last().kind is UniqueDirective {
            assert(repetitions_in(a + b) =~= repetitions_in(a) + repetitions_in(b));
        }
    }
}

/// A list without a report of a repetition.
proof fn lemma_repetitions_in_none(reports: Seq<Report>)
    requires
        forall|report: Report| reports.contains(report) ==> !(report.kind is UniqueDirective),
    ensures
        repetitions_in(reports) == Seq::<Report>::empty(),
    decreases reports.len(),
{
    if reports.len() > 0 {
        assert(reports.contains(reports.last())) by {
            assert(reports[reports.len() - 1] == reports.last());
        }
        assert forall|report: Report| reports.drop_last().contains(report) implies !(report.kind
            is UniqueDirective) by {
            let i: int = choose|i: int|
                0 <= i < reports.drop_last().len() && reports.drop_last()[i] == report;
            assert(reports[i] == report);
            assert(reports.contains(report));
        }
        lemma_repetitions_in_none(reports.drop_last());
    }
}

/// A list of nothing but reports of repetitions.
proof fn lemma_repetitions_in_all(reports: Seq<Report>)
    requires
        forall|i: int| 0 <= i < reports.len() ==> (#[trigger] reports[i]).kind is UniqueDirective,
    ensures
        repetitions_in(reports) == reports,
    decreases reports.len(),
{
    if reports.len() > 0 {
        lemma_repetitions_in_all(reports.drop_last());
        assert(reports.drop_last().push(reports.last()) =~= reports);
    } else {
        assert(reports =~= Seq::<Report>::empty());
    }
}

/// Among everything reported for a list of applications, the reports of a
/// repetition are those of the rule on repetition, in the order of the
/// applications. No rule on arguments can add to them or take from them.
pub proof fn lemma_repetitions_reported<R: ArgumentRules>(
    rules: &R,
    schema: Option<SchemaView>,
    directives: Seq<Directive>,
    upto: nat,
    location: DirectiveLocation,
    variables: Seq<VariableDefinition>,
)
    requires
        upto <= directives.len(),
    ensures
        repetitions_in(directives_reports(rules, schema, directives, upto, location, variables))
            == repetition_reports(schema, directives, upto),
    decreases upto,
{
    if upto > 0 {
        let i: int = upto - 1;
        let before = directives_reports(
            rules,
            schema,
            directives,
            (upto - 1) as nat,
            location,
            variables,
        );
        lemma_repetitions_reported(
            rules,
            schema,
            directives,
            (upto - 1) as nat,
            location,
            variables,
        );
        let written = finding_reports(rules.argument_findings(directives[i].arguments@));
        let repeated = uniqueness_reports(schema, directives, i);
        let held = schema_reports(rules, schema, directives[i], location, variables);
        lemma_repetitions_in_none(written);
        lemma_repetitions_in_all(repeated);
        assert forall|report: Report| held.contains(report) implies !(report.kind
            is UniqueDirective) by {
            match schema {
                Some(schema) => match schema.directive_definitions.get(directives[i].name@) {
                    Some(definition) => {
                        lemma_defined_application_parts(
                            rules,
                            schema,
                            definition,
                            directives[i],
                            location,
                            variables,
                            report,
                        );
                        let places = location_reports(definition, directives[i], location);
                        if places.contains(report) {
                            assert(places[0] == report);
                        }
                        if supplied_arguments_reports(
                            rules,
                            schema,
                            definition,
                            directives[i],
                            variables,
                            directives[i].arguments@.len(),
                        ).contains(report) {
                            lemma_supplied_arguments_kinds(
                                rules,
                                schema,
                                definition,
                                directives[i],
                                variables,
                                directives[i].arguments@.len(),
                                report,
                            );
                        }
                        if required_arguments_reports(
                            definition,
                            directives[i],
                            definition.arguments@.len(),
                        ).contains(report) {
                            lemma_required_arguments_reports(
                                definition,
                                directives[i],
                                definition.arguments@.len(),
                                report,
                            );
                            let k: int = choose|k: int|
                                0 <= k < definition.arguments@.len() && (
                                #[trigger] definition.arguments@[k]).required()
                                    && passes_no_value(
                                    directives[i],
                                    definition.arguments@[k].name@,
                                ) && required_argument_reports(definition, directives[i], k)
                                    == seq![report];
                            assert(required_argument_reports(definition, directives[i], k)[0]
                                == report);
                        }
                    },
                    None => {
                        assert(held[0] == report);
                    },
                },
                None => {},
            }
        }
        lemma_repetitions_in_none(held);
        lemma_repetitions_in_add(written, repeated);
        lemma_repetitions_in_add(written + repeated, held);
        lemma_repetitions_in_add(before, written + repeated + held);
        assert(repetitions_in(written + repeated + held) =~= repeated);
    }
}

/// A directive that may not repeat, applied twice at one place, is reported
/// as repeated exactly once: at the second application, with the place of
/// the first as evidence. A repeatable directive applied twice is not
/// reported as repeated, and neither is one that the schema does not
/// define, or any directive where no schema is at hand.
pub proof fn lemma_applied_twice<R: ArgumentRules>(
    rules: &R,
    schema: Option<SchemaView>,
    first: Directive,
    second: Directive,
    location: DirectiveLocation,
    variables: Seq<VariableDefinition>,
)
    requires
        first.name@ == second.name@,
    ensures
        repetitions_in(
            directives_reports(rules, schema, seq![first, second], 2, location, variables),
        ) == (match schema {
            Some(schema) => match schema.directive_definitions.get(first.name@) {
                Some(definition) => if definition.repeatable {
                    Seq::<Report>::empty()
                } else {
                    seq![
                        Report {
                            location: second.location,
                            kind: ReportKind::UniqueDirective {
                                name: second.name@,
                                original_application: first.location,
                            },
                        },
                    ]
                },
                None => Seq::<Report>::empty(),
            },
            None => Seq::<Report>::empty(),
        }),
{
    let directives = seq![first, second];
    lemma_repetitions_reported(rules, schema, directives, 2, location, variables);
    assert(is_first_application_named(directives, first.name@, 0));
    lemma_first_application_named(directives, first.name@, 0);
    assert(first_application_named(directives, second.name@) == Some(0int));
    reveal_with_fuel(repetition_reports, 3);
    assert(uniqueness_reports(schema, directives, 0) =~= Seq::<Report>::empty());
    assert(repetition_reports(schema, directives, 2) =~= uniqueness_reports(
        schema,
        directives,
        1,
    ));
}

/// An argument that the definition of its directive does not have is
/// reported as undefined, whatever its value is and whatever the rules on
/// arguments find.
pub proof fn lemma_undefined_argument_reported<R: ArgumentRules>(
    rules: &R,
    schema: SchemaView,
    directives: Seq<Directive>,
    i: int,
    j: int,
    location: DirectiveLocation,
    variables: Seq<VariableDefinition>,
)
    requires
        0 <= i < directives.len(),
        0 <= j < directives[i].arguments@.len(),
        schema.directive_definitions.by_name.contains_key(directives[i].name@),
        first_definition_named(
            schema.directive_definitions.by_name[directives[i].name@].arguments@,
            directives[i].arguments@[j].name@,
        ) is None,
    ensures
        directives_reports(
            rules,
            Some(schema),
            directives,
            directives.len(),
            location,
            variables,
        ).contains(
            Report {
                location: directives[i].arguments@[j].location,
                kind: ReportKind::UndefinedArgument {
                    name: directives[i].arguments@[j].name@,
                    directive: directives[i].name@,
                    definition_location: directives[i].location,
                },
            },
        ),
{
    let directive = directives[i];
    let definition = schema.directive_definitions.by_name[directive.name@];
    let report = Report {
        location: directive.arguments@[j].location,
        kind: ReportKind::UndefinedArgument {
            name: directive.arguments@[j].name@,
            directive: directive.name@,
            definition_location: directive.location,
        },
    };
    let one = supplied_argument_reports(rules, schema, definition, directive, variables, j);
    assert(one[0] == report);
    lemma_supplied_argument_reported(
        rules,
        schema,
        definition,
        directive,
        variables,
        j,
        directive.arguments@.len(),
        report,
    );
    lemma_defined_application_parts(
        rules,
        schema,
        definition,
        directive,
        location,
        variables,
        report,
    );
    lemma_application_parts(rules, Some(schema), directives, i, location, variables, report);
    lemma_application_reported(
        rules,
        Some(schema),
        directives,
        i,
        directives.len(),
        location,
        variables,
        report,
    );
}

/// A required argument for which an application passes nothing, or `null`,
/// is reported as missing.
pub proof fn lemma_missing_argument_reported<R: ArgumentRules>(
    rules: &R,
    schema: SchemaView,
    directives: Seq<Directive>,
    i: int,
    k: int,
    location: DirectiveLocation,
    variables: Seq<VariableDefinition>,
)
    requires
        0 <= i < directives.len(),
        schema.directive_definitions.by_name.contains_key(directives[i].name@),
        0 <= k < schema.directive_definitions.by_name[directives[i].name@].arguments@.len(),
        schema.directive_definitions.by_name[directives[i].name@].arguments@[k].required(),
        passes_no_value(
            directives[i],
            schema.directive_definitions.by_name[directives[i].name@].arguments@[k].name@,
        ),
    ensures
        ({
            let definition = schema.directive_definitions.by_name[directives[i].name@];
            let input_value = definition.arguments@[k];
            directives_reports(
                rules,
                Some(schema),
                directives,
                directives.len(),
                location,
                variables,
            ).contains(
                Report {
                    location: directives[i].location,
                    kind: ReportKind::RequiredArgument {
                        name: input_value.name@,
                        expected_type: input_value.ty,
                        directive: definition.name@,
                        argument: input_value.name@,
                        definition_location: input_value.location,
                    },
                },
            )
        }),
{
    let directive = directives[i];
    let definition = schema.directive_definitions.by_name[directive.name@];
    let input_value = definition.arguments@[k];
    let report = Report {
        location: directive.location,
        kind: ReportKind::RequiredArgument {
            name: input_value.name@,
            expected_type: input_value.ty,
            directive: definition.name@,
            argument: input_value.name@,
            definition_location: input_value.location,
        },
    };
    let one = required_argument_reports(definition, directive, k);
    assert(one[0] == report);
    lemma_required_argument_reported(
        definition,
        directive,
        k,
        definition.arguments@.len(),
        report,
    );
    lemma_defined_application_parts(
        rules,
        schema,
        definition,
        directive,
        location,
        variables,
        report,
    );
    lemma_application_parts(rules, Some(schema), directives, i, location, variables, report);
    lemma_application_reported(
        rules,
        Some(schema),
        directives,
        i,
        directives.len(),
        location,
        variables,
        report,
    );
}

/// An argument for which an application passes a value other than `null`
/// is not reported as missing by that application, whatever kind of
/// argument it is. A variable is such a value, whatever type it was
/// declared with and whatever it may hold.
pub proof fn lemma_passed_argument_not_reported<R: ArgumentRules>(
    rules: &R,
    schema: Option<SchemaView>,
    directives: Seq<Directive>,
    i: int,
    argument: Seq<char>,
    location: DirectiveLocation,
    variables: Seq<VariableDefinition>,
    report: Report,
)
    requires
        0 <= i < directives.len(),
        !passes_no_value(directives[i], argument),
        application_reports(rules, schema, directives, i, location, variables).contains(report),
    ensures
        !(report.kind matches ReportKind::RequiredArgument { argument: missing, .. } && missing
            == argument),
{
    lemma_application_parts(rules, schema, directives, i, location, variables, report);
    match schema {
        Some(schema) => match schema.directive_definitions.get(directives[i].name@) {
            Some(definition) => {
                lemma_defined_application_parts(
                    rules,
                    schema,
                    definition,
                    directives[i],
                    location,
                    variables,
                    report,
                );
                if supplied_arguments_reports(
                    rules,
                    schema,
                    definition,
                    directives[i],
                    variables,
                    directives[i].arguments@.len(),
                ).contains(report) {
                    lemma_supplied_arguments_kinds(
                        rules,
                        schema,
                        definition,
                        directives[i],
                        variables,
                        directives[i].arguments@.len(),
                        report,
                    );
                }
                if required_arguments_reports(
                    definition,
                    directives[i],
                    definition.arguments@.len(),
                ).contains(report) {
                    lemma_required_arguments_reports(
                        definition,
                        directives[i],
                        definition.arguments@.len(),
                        report,
                    );
                    let k: int = choose|k: int|
                        0 <= k < definition.arguments@.len() && (
                        #[trigger] definition.arguments@[k]).required() && passes_no_value(
                            directives[i],
                            definition.arguments@[k].name@,
                        ) && required_argument_reports(definition, directives[i], k) == seq![
                            report,
                        ];
                    assert(required_argument_reports(definition, directives[i], k)[0] == report);
                }
            },
            None => {},
        },
        None => {},
    }
}

/// A directive that the schema does not define is reported as undefined,
/// and beside that nothing that would need its definition: no report on the
/// place it stands at, none on an argument that it has or lacks.
pub proof fn lemma_undefined_directive_reported<R: ArgumentRules>(
    rules: &R,
    schema: SchemaView,
    directive: Directive,
    location: DirectiveLocation,
    variables: Seq<VariableDefinition>,
)
    requires
        !schema.directive_definitions.by_name.contains_key(directive.name@),
    ensures
        application_reports(rules, Some(schema), seq![directive], 0, location, variables)
            == finding_reports(rules.argument_findings(directive.arguments@)).push(
            Report {
                location: directive.location,
                kind: ReportKind::UndefinedDirective { name: directive.name@ },
            },
        ),
{
    let directives = seq![directive];
    assert(is_first_application_named(directives, directive.name@, 0));
    lemma_first_application_named(directives, directive.name@, 0);
    assert(uniqueness_reports(Some(schema), directives, 0) =~= Seq::<Report>::empty());
    assert(application_reports(rules, Some(schema), directives, 0, location, variables)
        =~= finding_reports(rules.argument_findings(directive.arguments@)).push(
        Report {
            location: directive.location,
            kind: ReportKind::UndefinedDirective { name: directive.name@ },
        },
    ));
}

} // verus!
