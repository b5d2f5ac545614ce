//! The search for directive definitions that lead back to themselves.
//!
//! A directive definition has arguments; an argument has directives applied
//! to it and a type; a type has directives applied to it, to its values and
//! to its fields, and its fields have types again. The search walks all of
//! this depth first from one definition, the root, and fails when it meets
//! an application of the root.
//!
//! The walk keeps a `RecursionStack`: the names of the directives whose
//! definitions it is inside of, root first, and a count of the type
//! definitions it is inside of. A directive that is on the path but is not
//! the root is not entered again. The depth of the walk is bounded, so it
//! ends on every schema, also on one whose input types contain themselves.
//!
//! The `search_*` functions say what the walk finds; the methods of
//! `FindRecursiveDirective` compute exactly that and leave the stack as
//! they found it.

use crate::ast::{Directive, DirectiveDefinition, EnumValueDefinition, InputValueDefinition};
use crate::diagnostics::referents;
use crate::recursion::{RecursionLimitError, RecursionStack, Trail, DEFAULT_RECURSION_LIMIT};
use crate::schema::{ExtendedType, Schema, SchemaView};
use vstd::prelude::*;

verus! {

/// Why a search for a cycle failed.
#[derive(Debug, PartialEq, Eq)]
pub enum CycleError<'a> {
    /// The root was met again. The applications on the way are listed from
    /// the one that closed the cycle outwards.
    Recursed(Vec<&'a Directive>),
    /// The search went as deep as it may before it met the root again.
    Limit(RecursionLimitError),
}

/// What a search finds.
pub enum Search {
    /// Nothing leads back to the root.
    Clear,
    /// An application of the root was met; the trace lists it first, then
    /// the applications through which the search had come to it, innermost
    /// first.
    Recursed(Seq<Directive>),
    /// The search was cut off at the depth limit.
    LimitExceeded,
}

impl Search {
    /// The same finding seen from one application further out.
    pub open spec fn traced(self, directive: Directive) -> Search {
        match self {
            Search::Recursed(trace) => Search::Recursed(trace.push(directive)),
            other => other,
        }
    }
}

/// The finding that a result stands for.
pub open spec fn search_outcome(result: Result<(), CycleError>) -> Search {
    match result {
        Ok(()) => Search::Clear,
        Err(CycleError::Recursed(trace)) => Search::Recursed(referents(trace@)),
        Err(CycleError::Limit(_)) => Search::LimitExceeded,
    }
}

impl<'a> CycleError<'a> {
    /// Adds to the trace of a cycle the application through which the search
    /// had come to it.
    pub fn trace(self, node: &'a Directive) -> (error: CycleError<'a>)
        ensures
            search_outcome(Err(error)) == search_outcome(Err(self)).traced(*node),
    {
        match self {
            CycleError::Recursed(mut trace) => {
                let ghost before = referents(trace@);
                trace.push(node);
                assert(referents(trace@) =~= before.push(*node));
                CycleError::Recursed(trace)
            },
            CycleError::Limit(error) => CycleError::Limit(error),
        }
    }
}

/// What the search finds at one application. A directive that is not on
/// the path is entered, if it is defined and the limit allows. One that is
/// on the path closes a cycle if it is the root, and is passed over if not.
pub open spec fn search_directive(schema: SchemaView, trail: Trail, directive: Directive) -> Search
    decreases trail.budget(), 0nat, 0nat,
{
    if !trail.contains(directive.name@) {
        match schema.directive_definitions.get(directive.name@) {
            Some(definition) => if trail.has_room() {
                search_definition(schema, trail.push(directive.name@), definition).traced(
                    directive,
                )
            } else {
                Search::LimitExceeded
            },
            None => Search::Clear,
        }
    } else if trail.first() == Some(directive.name@) {
        Search::Recursed(seq![directive])
    } else {
        Search::Clear
    }
}

/// What the search finds in a list of applications from position `from`
/// on: the first finding that is not clear.
pub open spec fn search_directives(
    schema: SchemaView,
    trail: Trail,
    directives: Seq<Directive>,
    from: nat,
) -> Search
    decreases trail.budget(), 1nat, directives.len() - from,
{
    if from >= directives.len() {
        Search::Clear
    } else {
        match search_directive(schema, trail, directives[from as int]) {
            Search::Clear => search_directives(schema, trail, directives, from + 1),
            found => found,
        }
    }
}

/// What the search finds at one enum value: what it finds in the directives
/// applied to the value.
pub open spec fn search_enum_value(
    schema: SchemaView,
    trail: Trail,
    value: EnumValueDefinition,
) -> Search
    decreases trail.budget(), 2nat, 0nat,
{
    search_directives(schema, trail, value.directives@, 0)
}

pub open spec fn search_enum_values(
    schema: SchemaView,
    trail: Trail,
    values: Seq<EnumValueDefinition>,
    from: nat,
) -> Search
    decreases trail.budget(), 3nat, values.len() - from,
{
    if from >= values.len() {
        Search::Clear
    } else {
        match search_enum_value(schema, trail, values[from as int]) {
            Search::Clear => search_enum_values(schema, trail, values, from + 1),
            found => found,
        }
    }
}

/// What the search finds at one argument or field: first in the directives
/// applied to it, then in the definition of its type, if the schema has one
/// and the limit allows entering it.
pub open spec fn search_input_value(
    schema: SchemaView,
    trail: Trail,
    input_value: InputValueDefinition,
) -> Search
    decreases trail.budget(), 2nat, 0nat,
{
    match search_directives(schema, trail, input_value.directives@, 0) {
        Search::Clear => match schema.types.get(input_value.ty.inner_name()) {
            Some(definition) => if trail.has_room() {
                search_type(schema, trail.enter(), definition)
            } else {
                Search::LimitExceeded
            },
            None => Search::Clear,
        },
        found => found,
    }
}

pub open spec fn search_input_values(
    schema: SchemaView,
    trail: Trail,
    input_values: Seq<InputValueDefinition>,
    from: nat,
) -> Search
    decreases trail.budget(), 3nat, input_values.len() - from,
{
    if from >= input_values.len() {
        Search::Clear
    } else {
        match search_input_value(schema, trail, input_values[from as int]) {
            Search::Clear => search_input_values(schema, trail, input_values, from + 1),
            found => found,
        }
    }
}

/// What the search finds in a type definition: first in the directives
/// applied to the type, then for an enum in its values, for an input object
/// in its fields.
pub open spec fn search_type(schema: SchemaView, trail: Trail, definition: ExtendedType) -> Search
    decreases trail.budget(), 4nat, 0nat,
{
    match search_directives(schema, trail, definition.own_directives(), 0) {
        Search::Clear => match definition {
            ExtendedType::Enum(enum_type) => search_enum_values(
                schema,
                trail,
                enum_type.values@,
                0,
            ),
            ExtendedType::InputObject(input_type) => search_input_values(
                schema,
                trail,
                input_type.fields@,
                0,
            ),
            _ => Search::Clear,
        },
        found => found,
    }
}

/// What the search finds in a directive definition: what it finds in the
/// arguments.
pub open spec fn search_definition(
    schema: SchemaView,
    trail: Trail,
    definition: DirectiveDefinition,
) -> Search
    decreases trail.budget(), 4nat, 0nat,
{
    search_input_values(schema, trail, definition.arguments@, 0)
}

/// What the search finds when it starts at `definition` with the default
/// limit on its depth.
pub open spec fn search_from(schema: SchemaView, definition: DirectiveDefinition) -> Search {
    search_definition(
        schema,
        Trail::rooted(definition.name@, DEFAULT_RECURSION_LIMIT as nat),
        definition,
    )
}

/// The search for a cycle through one directive definition. Start it with
/// `FindRecursiveDirective::check`.
pub struct FindRecursiveDirective<'s> {
    pub schema: &'s Schema,
}

impl<'s> FindRecursiveDirective<'s> {
    /// Searches a type definition: the directives applied to the type, then
    /// its values or fields.
    pub fn type_definition(&self, seen: &mut RecursionStack, def: &'s ExtendedType) -> (result:
        Result<(), CycleError<'s>>)
        ensures
            final(seen)@ == old(seen)@,
            search_outcome(result) == search_type(self.schema@, old(seen)@, *def),
        decreases old(seen)@.budget(), 4nat, 0nat,
    {
        match self.directives(seen, def.directives()) {
            Ok(()) => {},
            Err(error) => {
                return Err(error);
            },
        }
        match def {
            ExtendedType::Enum(enum_type_definition) => {
                let values = &enum_type_definition.values;
                let mut i: usize = 0;
                while i < values.len()
                    invariant
                        i <= values.len(),
                        seen@ == old(seen)@,
                        search_type(self.schema@, seen@, *def) == search_enum_values(
                            self.schema@,
                            seen@,
                            values@,
                            i as nat,
                        ),
                    decreases values.len() - i,
                {
                    match self.enum_value(seen, &values[i]) {
                        Ok(()) => {},
                        Err(error) => {
                            return Err(error);
                        },
                    }
                    i += 1;
                }
            },
            ExtendedType::InputObject(input_type_definition) => {
                let fields = &input_type_definition.fields;
                let mut i: usize = 0;
                while i < fields.len()
                    invariant
                        i <= fields.len(),
                        seen@ == old(seen)@,
                        search_type(self.schema@, seen@, *def) == search_input_values(
                            self.schema@,
                            seen@,
                            fields@,
                            i as nat,
                        ),
                    decreases fields.len() - i,
                {
                    match self.input_value(seen, &fields[i]) {
                        Ok(()) => {},
                        Err(error) => {
                            return Err(error);
                        },
                    }
                    i += 1;
                }
            },
            _ => {},
        }
        Ok(())
    }

    /// Searches an argument or field: the directives applied to it, then
    /// the definition of its type.
    pub fn input_value(
        &self,
        seen: &mut RecursionStack,
        input_value: &'s InputValueDefinition,
    ) -> (result: Result<(), CycleError<'s>>)
        ensures
            final(seen)@ == old(seen)@,
            search_outcome(result) == search_input_value(self.schema@, old(seen)@, *input_value),
        decreases old(seen)@.budget(), 2nat, 0nat,
    {
        match self.directives(seen, &input_value.directives) {
            Ok(()) => {},
            Err(error) => {
                return Err(error);
            },
        }
        let named = input_value.ty.inner_named_type();
        match self.schema.types.get(named) {
            Some(type_def) => match seen.enter() {
                Ok(()) => {
                    let result = self.type_definition(seen, type_def);
                    seen.leave();
                    result
                },
                Err(error) => Err(CycleError::Limit(error)),
            },
            None => Ok(()),
        }
    }

    /// Searches the directives applied to an enum value.
    pub fn enum_value(&self, seen: &mut RecursionStack, enum_value: &'s EnumValueDefinition) -> (result:
        Result<(), CycleError<'s>>)
        ensures
            final(seen)@ == old(seen)@,
            search_outcome(result) == search_enum_value(self.schema@, old(seen)@, *enum_value),
        decreases old(seen)@.budget(), 2nat, 0nat,
    {
        self.directives(seen, &enum_value.directives)
    }

    /// Searches a list of applications and stops at the first that is not
    /// clear.
    pub fn directives(&self, seen: &mut RecursionStack, directives: &'s Vec<Directive>) -> (result:
        Result<(), CycleError<'s>>)
        ensures
            final(seen)@ == old(seen)@,
            search_outcome(result) == search_directives(self.schema@, old(seen)@, directives@, 0),
        decreases old(seen)@.budget(), 1nat, directives@.len(),
    {
        let mut i: usize = 0;
        while i < directives.len()
            invariant
                i <= directives.len(),
                seen@ == old(seen)@,
                search_directives(self.schema@, seen@, directives@, 0) == search_directives(
                    self.schema@,
                    seen@,
                    directives@,
                    i as nat,
                ),
            decreases directives.len() - i,
        {
            match self.directive(seen, &directives[i]) {
                Ok(()) => {},
                Err(error) => {
                    return Err(error);
                },
            }
            i += 1;
        }
        Ok(())
    }

    /// Searches one application: enters the definition of its directive, or
    /// closes a cycle, or passes over it.
    pub fn directive(&self, seen: &mut RecursionStack, directive: &'s Directive) -> (result: Result<
        (),
        CycleError<'s>,
    >)
        ensures
            final(seen)@ == old(seen)@,
            search_outcome(result) == search_directive(self.schema@, old(seen)@, *directive),
        decreases old(seen)@.budget(), 0nat, 0nat,
    {
        if !seen.contains(&directive.name) {
            match self.schema.directive_definitions.get(&directive.name) {
                Some(def) => match seen.push(&directive.name) {
                    Ok(()) => {
                        let result = self.directive_definition(seen, def);
                        seen.pop();
                        assert(seen@.names =~= old(seen)@.names);
                        match result {
                            Ok(()) => Ok(()),
                            Err(error) => Err(error.trace(directive)),
                        }
                    },
                    Err(error) => Err(CycleError::Limit(error)),
                },
                None => Ok(()),
            }
        } else {
            let is_root = match seen.first() {
                Some(root) => *root == directive.name,
                None => false,
            };
            if is_root {
                // Only the root closes a cycle. A directive that uses a
                // self-referential one is not at fault for it: that one is
                // reported where it is defined.
                let mut trace: Vec<&'s Directive> = Vec::new();
                trace.push(directive);
                assert(referents(trace@) =~= seq![*directive]);
                Err(CycleError::Recursed(trace))
            } else {
                Ok(())
            }
        }
    }

    /// Searches the arguments of a directive definition. The name of the
    /// directive is on the path already.
    pub fn directive_definition(
        &self,
        seen: &mut RecursionStack,
        def: &'s DirectiveDefinition,
    ) -> (result: Result<(), CycleError<'s>>)
        ensures
            final(seen)@ == old(seen)@,
            search_outcome(result) == search_definition(self.schema@, old(seen)@, *def),
        decreases old(seen)@.budget(), 4nat, 0nat,
    {
        let arguments = &def.arguments;
        let mut i: usize = 0;
        while i < arguments.len()
            invariant
                i <= arguments.len(),
                seen@ == old(seen)@,
                search_definition(self.schema@, seen@, *def) == search_input_values(
                    self.schema@,
                    seen@,
                    arguments@,
                    i as nat,
                ),
            decreases arguments.len() - i,
        {
            match self.input_value(seen, &arguments[i]) {
                Ok(()) => {},
                Err(error) => {
                    return Err(error);
                },
            }
            i += 1;
        }
        Ok(())
    }

    /// Searches for a cycle through `directive_def`, to the default depth.
    pub fn check(schema: &'s Schema, directive_def: &'s DirectiveDefinition) -> (result: Result<
        (),
        CycleError<'s>,
    >)
        ensures
            search_outcome(result) == search_from(schema@, *directive_def),
    {
        let mut recursion_stack = RecursionStack::with_root(directive_def.name.clone());
        FindRecursiveDirective { schema }.directive_definition(&mut recursion_stack, directive_def)
    }
}

} // verus!
