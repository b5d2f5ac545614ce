//! Validation of directives.
//!
//! Two passes over a schema and the documents written against it:
//!
//! * [`definition`] checks every directive definition, and with [`cycle`]
//!   finds those whose arguments lead back to the definition itself;
//! * [`application`] checks the directives applied at one place against the
//!   definitions of the schema.
//!
//! Both report into a [`diagnostics::DiagnosticList`] and never fail: what is
//! wrong with one definition or one application is reported, and the pass
//! goes on to the next. What each pass reports is stated as a function of
//! what it is given, and [`cycle_proofs`] and [`application_proofs`] prove
//! what follows from that.
//!
//! [`ast`] and [`schema`] hold what is validated, [`recursion`] the bounded
//! path of the search for cycles, [`rules`] the rules on arguments that the
//! passes consult, and [`token_kind`] the kinds of token of the lexer.

pub mod application;
pub mod application_proofs;
pub mod ast;
pub mod cycle;
pub mod cycle_proofs;
pub mod definition;
pub mod diagnostics;
pub mod recursion;
pub mod rules;
pub mod schema;
pub mod token_kind;
