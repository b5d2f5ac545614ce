//! The rules on arguments that directive validation consults but does not
//! own: whether argument definitions are sound, whether the arguments of an
//! application are well written, whether a variable may stand where it is
//! used, and whether a value fits the type it is given to.
//!
//! Each rule answers with findings. What a rule finds is a function of what
//! it is shown, so that the diagnostics of a pass can be stated exactly.

use crate::ast::{Argument, DirectiveLocation, InputValueDefinition, Type, VariableDefinition};
use crate::diagnostics::{finding_views, Finding, FindingView};
use crate::schema::{Schema, SchemaView};
use vstd::prelude::*;

verus! {

/// The answer of the rule on variable usage: its findings, and whether the
/// value may go on to be checked against its type.
#[derive(Debug, PartialEq, Eq)]
pub struct UsageReport {
    pub findings: Vec<Finding>,
    pub accepted: bool,
}

/// The rules on arguments. Each rule is a method, and beside it stands the
/// function that says what the method finds. Unless a set of rules says
/// otherwise, that is nothing: every argument passes.
pub trait ArgumentRules {
    /// What is wrong with the argument definitions of something declared at
    /// `location`.
    open spec fn definition_findings(
        &self,
        schema: SchemaView,
        arguments: Seq<InputValueDefinition>,
        location: DirectiveLocation,
    ) -> Seq<FindingView> {
        Seq::empty()
    }

    /// What is wrong with the arguments of one application, whatever the
    /// schema says.
    open spec fn argument_findings(&self, arguments: Seq<Argument>) -> Seq<FindingView> {
        Seq::empty()
    }

    /// What is wrong with the variables that `argument` uses, given the
    /// definition that it is passed to.
    open spec fn usage_findings(
        &self,
        definition: InputValueDefinition,
        variables: Seq<VariableDefinition>,
        argument: Argument,
    ) -> Seq<FindingView> {
        Seq::empty()
    }

    /// Whether `argument` uses variables as `definition` allows.
    open spec fn usage_accepted(
        &self,
        definition: InputValueDefinition,
        variables: Seq<VariableDefinition>,
        argument: Argument,
    ) -> bool {
        true
    }

    /// What is wrong with the value of `argument` as a value of type `ty`.
    open spec fn value_findings(
        &self,
        schema: SchemaView,
        ty: Type,
        argument: Argument,
        variables: Seq<VariableDefinition>,
    ) -> Seq<FindingView> {
        Seq::empty()
    }

    fn validate_argument_definitions(
        &self,
        schema: &Schema,
        arguments: &Vec<InputValueDefinition>,
        location: DirectiveLocation,
    ) -> (findings: Vec<Finding>)
        ensures
            finding_views(findings@) == self.definition_findings(schema@, arguments@, location),
    ;

    fn validate_arguments(&self, arguments: &Vec<Argument>) -> (findings: Vec<Finding>)
        ensures
            finding_views(findings@) == self.argument_findings(arguments@),
    ;

    fn validate_variable_usage(
        &self,
        definition: &InputValueDefinition,
        variables: &Vec<VariableDefinition>,
        argument: &Argument,
    ) -> (report: UsageReport)
        ensures
            finding_views(report.findings@) == self.usage_findings(
                *definition,
                variables@,
                *argument,
            ),
            report.accepted == self.usage_accepted(*definition, variables@, *argument),
    ;

    fn validate_values(
        &self,
        schema: &Schema,
        ty: &Type,
        argument: &Argument,
        variables: &Vec<VariableDefinition>,
    ) -> (findings: Vec<Finding>)
        ensures
            finding_views(findings@) == self.value_findings(schema@, *ty, *argument, variables@),
    ;
}

/// An empty list of findings.
fn no_findings() -> (findings: Vec<Finding>)
    ensures
        finding_views(findings@) == Seq::<FindingView>::empty(),
{
    Vec::new()
}

/// Rules that find nothing wrong with any argument.
#[derive(Debug, Clone, Copy, PartialEq, Eq, Structural)]
pub struct Permissive;

impl ArgumentRules for Permissive {
    fn validate_argument_definitions(
        &self,
        schema: &Schema,
        arguments: &Vec<InputValueDefinition>,
        location: DirectiveLocation,
    ) -> (findings: Vec<Finding>) {
        no_findings()
    }

    fn validate_arguments(&self, arguments: &Vec<Argument>) -> (findings: Vec<Finding>) {
        no_findings()
    }

    fn validate_variable_usage(
        &self,
        definition: &InputValueDefinition,
        variables: &Vec<VariableDefinition>,
        argument: &Argument,
    ) -> (report: UsageReport) {
        UsageReport { findings: no_findings(), accepted: true }
    }

    fn validate_values(
        &self,
        schema: &Schema,
        ty: &Type,
        argument: &Argument,
        variables: &Vec<VariableDefinition>,
    ) -> (findings: Vec<Finding>) {
        no_findings()
    }
}

} // verus!
