//! Validation of directive definitions.
//!
//! A definition is checked on its own: the rule on argument definitions is
//! heard, then the definition is searched for a way back to itself. What
//! one definition gives rise to does not depend on what another did.

use crate::ast::{DirectiveDefinition, DirectiveLocation};
use crate::cycle::{search_from, CycleError, FindRecursiveDirective, Search};
use crate::diagnostics::{finding_reports, DiagnosticData, DiagnosticList, Report, ReportKind};
use crate::rules::ArgumentRules;
use crate::schema::{Schema, SchemaView};
use vstd::prelude::*;

verus! {

/// What the search for a cycle reports for one definition: nothing if the
/// search is clear, else one report at the definition. A cycle is reported
/// with its trace; a search cut off at the depth limit is reported as a
/// definition nested too deep, which claims no cycle.
pub open spec fn cycle_reports(schema: SchemaView, definition: DirectiveDefinition) -> Seq<Report> {
    match search_from(schema, definition) {
        Search::Clear => Seq::empty(),
        Search::Recursed(trace) => seq![
            Report {
                location: definition.location,
                kind: ReportKind::RecursiveDirectiveDefinition { name: definition.name@, trace },
            },
        ],
        Search::LimitExceeded => seq![
            Report {
                location: definition.location,
                kind: ReportKind::DeeplyNestedType {
                    name: definition.name@,
                    describe_type: "directive"@,
                },
            },
        ],
    }
}

/// What is reported for one definition: the findings on its argument
/// definitions, then what the search for a cycle reports.
pub open spec fn definition_reports<R: ArgumentRules>(
    rules: &R,
    schema: SchemaView,
    definition: DirectiveDefinition,
) -> Seq<Report> {
    finding_reports(
        rules.definition_findings(
            schema,
            definition.arguments@,
            DirectiveLocation::ArgumentDefinition,
        ),
    ) + cycle_reports(schema, definition)
}

/// What is reported for the first `upto` definitions of a list.
pub open spec fn definitions_reports<R: ArgumentRules>(
    rules: &R,
    schema: SchemaView,
    definitions: Seq<DirectiveDefinition>,
    upto: nat,
) -> Seq<Report>
    decreases upto,
{
    if upto == 0 {
        Seq::empty()
    } else {
        definitions_reports(rules, schema, definitions, (upto - 1) as nat) + definition_reports(
            rules,
            schema,
            definitions[upto - 1],
        )
    }
}

/// Validates one directive definition and appends what it finds to
/// `diagnostics`.
pub fn validate_directive_definition<'a, R: ArgumentRules>(
    diagnostics: &mut DiagnosticList<'a>,
    schema: &'a Schema,
    rules: &R,
    def: &'a DirectiveDefinition,
)
    ensures
        final(diagnostics)@ == old(diagnostics)@ + definition_reports(rules, schema@, *def),
{
    let findings = rules.validate_argument_definitions(
        schema,
        &def.arguments,
        DirectiveLocation::ArgumentDefinition,
    );
    diagnostics.report(&findings);

    let head_location = def.location;

    // A directive definition must not lead back to itself through the
    // directives and types that its arguments use.
    match FindRecursiveDirective::check(schema, def) {
        Ok(()) => {},
        Err(CycleError::Recursed(trace)) => {
            diagnostics.push(
                head_location,
                DiagnosticData::RecursiveDirectiveDefinition { name: def.name.clone(), trace },
            );
        },
        Err(CycleError::Limit(_)) => {
            diagnostics.push(
                head_location,
                DiagnosticData::DeeplyNestedType {
                    name: def.name.clone(),
                    describe_type: "directive",
                },
            );
        },
    }
}

/// Validates every directive definition of a schema, in the order in which
/// the schema holds them.
pub fn validate_directive_definitions<'a, R: ArgumentRules>(
    diagnostics: &mut DiagnosticList<'a>,
    schema: &'a Schema,
    rules: &R,
)
    ensures
        final(diagnostics)@ == old(diagnostics)@ + definitions_reports(
            rules,
            schema@,
            schema@.directive_definitions.in_order,
            schema@.directive_definitions.in_order.len(),
        ),
{
    let definitions = schema.directive_definitions.values();
    let mut i: usize = 0;
    while i < definitions.len()
        invariant
            i <= definitions.len(),
            definitions@ == schema@.directive_definitions.in_order,
            diagnostics@ == old(diagnostics)@ + definitions_reports(
                rules,
                schema@,
                definitions@,
                i as nat,
            ),
        decreases definitions.len() - i,
    {
        validate_directive_definition(diagnostics, schema, rules, &definitions[i]);
        i += 1;
    }
}

} // verus!
