//! What validation reports: an ordered list that only grows.
//!
//! A diagnostic borrows what it cites from the schema or document that was
//! validated. Contracts speak of its view, a `Report`, in which every name
//! is a character sequence and every list a sequence.

use crate::ast::{Directive, DirectiveLocation, SourceSpan, Type};
use vstd::prelude::*;

verus! {

/// Something that a rule on arguments found wrong, in that rule's words.
#[derive(Debug, PartialEq, Eq)]
pub struct Finding {
    pub location: Option<SourceSpan>,
    pub message: String,
}

pub struct FindingView {
    pub location: Option<SourceSpan>,
    pub message: Seq<char>,
}

impl View for Finding {
    type V = FindingView;

    open spec fn view(&self) -> FindingView {
        FindingView { location: self.location, message: self.message@ }
    }
}

/// The views of a list of findings.
pub open spec fn finding_views(findings: Seq<Finding>) -> Seq<FindingView> {
    findings.map_values(|finding: Finding| finding@)
}

/// Names a directive: `@directive`.
#[derive(Debug, PartialEq, Eq)]
pub struct DirectiveCoordinate {
    pub directive: String,
}

/// Names an argument of a directive: `@directive(argument:)`.
#[derive(Debug, PartialEq, Eq)]
pub struct DirectiveArgumentCoordinate {
    pub directive: String,
    pub argument: String,
}

/// The kinds of diagnostic, each with what it cites.
#[derive(Debug, PartialEq, Eq)]
#[allow(inconsistent_fields)]
pub enum DiagnosticData<'a> {
    /// A directive definition leads back to itself. The trace lists the
    /// applications on the way, from the one that closes the cycle outwards.
    RecursiveDirectiveDefinition { name: String, trace: Vec<&'a Directive> },
    /// A definition nests deeper than the search for cycles will follow.
    DeeplyNestedType { name: String, describe_type: &'static str },
    /// A directive that may not repeat was applied again at one place.
    UniqueDirective { name: String, original_application: Option<SourceSpan> },
    /// A directive was applied where its definition does not allow it.
    UnsupportedLocation {
        name: String,
        location: DirectiveLocation,
        valid_locations: &'a Vec<DirectiveLocation>,
        definition_location: Option<SourceSpan>,
    },
    /// An application passes an argument that the definition does not have.
    UndefinedArgument {
        name: String,
        coordinate: DirectiveCoordinate,
        definition_location: Option<SourceSpan>,
    },
    /// An application leaves out a required argument, or passes `null`.
    RequiredArgument {
        name: String,
        expected_type: &'a Type,
        coordinate: DirectiveArgumentCoordinate,
        definition_location: Option<SourceSpan>,
    },
    /// An application names a directive that the schema does not define.
    UndefinedDirective { name: String },
    /// A rule on arguments reported a finding.
    ArgumentFinding { message: String },
}

/// The view of `DiagnosticData`.
pub enum ReportKind {
    RecursiveDirectiveDefinition { name: Seq<char>, trace: Seq<Directive> },
    DeeplyNestedType { name: Seq<char>, describe_type: Seq<char> },
    UniqueDirective { name: Seq<char>, original_application: Option<SourceSpan> },
    UnsupportedLocation {
        name: Seq<char>,
        location: DirectiveLocation,
        valid_locations: Seq<DirectiveLocation>,
        definition_location: Option<SourceSpan>,
    },
    UndefinedArgument {
        name: Seq<char>,
        directive: Seq<char>,
        definition_location: Option<SourceSpan>,
    },
    RequiredArgument {
        name: Seq<char>,
        expected_type: Type,
        directive: Seq<char>,
        argument: Seq<char>,
        definition_location: Option<SourceSpan>,
    },
    UndefinedDirective { name: Seq<char> },
    ArgumentFinding { message: Seq<char> },
}

/// The directives that a list of references points to.
pub open spec fn referents(trace: Seq<&Directive>) -> Seq<Directive> {
    trace.map_values(|directive: &Directive| *directive)
}

impl View for DiagnosticData<'_> {
    type V = ReportKind;

    open spec fn view(&self) -> ReportKind {
        match self {
            DiagnosticData::RecursiveDirectiveDefinition { name, trace } => {
                ReportKind::RecursiveDirectiveDefinition { name: name@, trace: referents(trace@) }
            },
            DiagnosticData::DeeplyNestedType { name, describe_type } => {
                ReportKind::DeeplyNestedType { name: name@, describe_type: describe_type@ }
            },
            DiagnosticData::UniqueDirective { name, original_application } => {
                ReportKind::UniqueDirective {
                    name: name@,
                    original_application: *original_application,
                }
            },
            DiagnosticData::UnsupportedLocation {
                name,
                location,
                valid_locations,
                definition_location,
            } => ReportKind::UnsupportedLocation {
                name: name@,
                location: *location,
                valid_locations: valid_locations@,
                definition_location: *definition_location,
            },
            DiagnosticData::UndefinedArgument { name, coordinate, definition_location } => {
                ReportKind::UndefinedArgument {
                    name: name@,
                    directive: coordinate.directive@,
                    definition_location: *definition_location,
                }
            },
            DiagnosticData::RequiredArgument {
                name,
                expected_type,
                coordinate,
                definition_location,
            } => ReportKind::RequiredArgument {
                name: name@,
                expected_type: **expected_type,
                directive: coordinate.directive@,
                argument: coordinate.argument@,
                definition_location: *definition_location,
            },
            DiagnosticData::UndefinedDirective { name } => {
                ReportKind::UndefinedDirective { name: name@ }
            },
            DiagnosticData::ArgumentFinding { message } => {
                ReportKind::ArgumentFinding { message: message@ }
            },
        }
    }
}

/// One diagnostic: where it points, and what it says.
#[derive(Debug, PartialEq, Eq)]
pub struct Diagnostic<'a> {
    pub location: Option<SourceSpan>,
    pub data: DiagnosticData<'a>,
}

/// The view of a `Diagnostic`.
pub struct Report {
    pub location: Option<SourceSpan>,
    pub kind: ReportKind,
}

impl View for Diagnostic<'_> {
    type V = Report;

    open spec fn view(&self) -> Report {
        Report { location: self.location, kind: self.data@ }
    }
}

/// The report that stands for a finding.
pub open spec fn finding_report(finding: FindingView) -> Report {
    Report {
        location: finding.location,
        kind: ReportKind::ArgumentFinding { message: finding.message },
    }
}

/// The reports that stand for a list of findings, in the same order.
pub open spec fn finding_reports(findings: Seq<FindingView>) -> Seq<Report> {
    findings.map_values(|finding: FindingView| finding_report(finding))
}

/// The diagnostics of a validation pass, in the order in which they were
/// reported. Nothing is ever taken out of the list.
#[derive(Debug, PartialEq, Eq)]
pub struct DiagnosticList<'a> {
    items: Vec<Diagnostic<'a>>,
}

impl View for DiagnosticList<'_> {
    type V = Seq<Report>;

    closed spec fn view(&self) -> Seq<Report> {
        self.items@.map_values(|diagnostic: Diagnostic| diagnostic@)
    }
}

impl<'a> DiagnosticList<'a> {
    pub fn new() -> (list: DiagnosticList<'a>)
        ensures
            list@ == Seq::<Report>::empty(),
    {
        let list = DiagnosticList { items: Vec::new() };
        list
    }

    /// Appends one diagnostic.
    pub fn push(&mut self, location: Option<SourceSpan>, data: DiagnosticData<'a>)
        ensures
            final(self)@ == old(self)@.push(Report { location, kind: data@ }),
    {
        self.items.push(Diagnostic { location, data });
    }

    /// Appends one diagnostic for each finding, in order.
    pub fn report(&mut self, findings: &Vec<Finding>)
        ensures
            final(self)@ == old(self)@ + finding_reports(finding_views(findings@)),
    {
        let ghost reports = finding_reports(finding_views(findings@));
        let mut i: usize = 0;
        while i < findings.len()
            invariant
                i <= findings.len(),
                reports == finding_reports(finding_views(findings@)),
                self@ == old(self)@ + reports.take(i as int),
            decreases findings.len() - i,
        {
            let finding = &findings[i];
            self.push(
                finding.location,
                DiagnosticData::ArgumentFinding { message: finding.message.clone() },
            );
            i += 1;
        }
    }

    pub fn len(&self) -> (len: usize)
        ensures
            len == self@.len(),
    {
        self.items.len()
    }

    pub fn is_empty(&self) -> (empty: bool)
        ensures
            empty == (self@.len() == 0),
    {
        self.items.len() == 0
    }

    /// The diagnostic at `position`, counted from the first one reported.
    pub fn get(&self, position: usize) -> (found: Option<&Diagnostic<'a>>)
        ensures
            match found {
                Some(diagnostic) => position < self@.len() && diagnostic@ == self@[position as int],
                None => position >= self@.len(),
            },
    {
        if position < self.items.len() {
            Some(&self.items[position])
        } else {
            None
        }
    }
}

} // verus!
