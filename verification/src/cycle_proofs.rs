//! What follows from the search for cycles, for every schema.
//!
//! Four facts are proved of the search, each by following it step by step:
//! it reports no cycle where the root cannot be reached; it is not cut off
//! where the schema is shallow; it is not clear where a way leads back to
//! the root; and it is not clear where input types nest deeper than it may
//! go. The statements at the end of the file put them together.

use crate::ast::{Directive, DirectiveDefinition, EnumValueDefinition, InputValueDefinition};
use crate::cycle::{
    search_definition, search_directive, search_directives, search_enum_value,
    search_enum_values, search_from, search_input_value, search_input_values, search_type,
    Search,
};
use crate::definition::cycle_reports;
use crate::diagnostics::{Report, ReportKind};
use crate::recursion::{Trail, DEFAULT_RECURSION_LIMIT};
use crate::schema::{ExtendedType, Named, SchemaView};
use vstd::prelude::*;

verus! {

/// A part of a schema: some directive names and some type names.
pub struct Region {
    pub directives: Set<Seq<char>>,
    pub types: Set<Seq<char>>,
}

impl Region {
    /// Every directive applied is in the region.
    pub open spec fn holds_directives(self, directives: Seq<Directive>) -> bool {
        forall|i: int|
            0 <= i < directives.len() ==> self.directives.contains(#[trigger] directives[i].name@)
    }

    /// The directives applied to the input value and its type are in the
    /// region.
    pub open spec fn holds_input_value(self, input_value: InputValueDefinition) -> bool {
        &&& self.holds_directives(input_value.directives@)
        &&& self.types.contains(input_value.ty.inner_name())
    }

    pub open spec fn holds_input_values(self, input_values: Seq<InputValueDefinition>) -> bool {
        forall|i: int|
            0 <= i < input_values.len() ==> self.holds_input_value(#[trigger] input_values[i])
    }

    pub open spec fn holds_enum_values(self, values: Seq<EnumValueDefinition>) -> bool {
        forall|i: int|
            0 <= i < values.len() ==> self.holds_directives((#[trigger] values[i]).directives@)
    }

    /// Everything that the type definition applies or refers to is in the
    /// region.
    pub open spec fn holds_type(self, definition: ExtendedType) -> bool {
        &&& self.holds_directives(definition.own_directives())
        &&& match definition {
            ExtendedType::Enum(enum_type) => self.holds_enum_values(enum_type.values@),
            ExtendedType::InputObject(input_type) => self.holds_input_values(input_type.fields@),
            _ => true,
        }
    }

    /// Nothing leads out of the region: what the definition of one of its
    /// directives or types applies or refers to is in the region again.
    pub open spec fn closed(self, schema: SchemaView) -> bool {
        &&& forall|name: Seq<char>|
            self.directives.contains(name)
                && #[trigger] schema.directive_definitions.by_name.contains_key(name)
                ==> self.holds_input_values(schema.directive_definitions.by_name[name].arguments@)
        &&& forall|name: Seq<char>|
            self.types.contains(name) && #[trigger] schema.types.by_name.contains_key(name)
                ==> self.holds_type(schema.types.by_name[name])
    }

    /// The search is inside a closed region that its root is not part of.
    pub open spec fn encloses(self, schema: SchemaView, trail: Trail) -> bool {
        &&& self.closed(schema)
        &&& trail.names.len() > 0
        &&& !self.directives.contains(trail.names[0])
    }
}

proof fn lemma_enclosed_directive(
    schema: SchemaView,
    region: Region,
    trail: Trail,
    directive: Directive,
)
    requires
        region.encloses(schema, trail),
        region.directives.contains(directive.name@),
    ensures
        !(search_directive(schema, trail, directive) is Recursed),
    decreases trail.budget(), 0nat, 0nat,
{
    if !trail.contains(directive.name@) {
        match schema.directive_definitions.get(directive.name@) {
            Some(definition) => {
                if trail.has_room() {
                    let deeper = trail.push(directive.name@);
                    assert(deeper.names[0] == trail.names[0]);
                    lemma_enclosed_input_values(schema, region, deeper, definition.arguments@, 0);
                }
            },
            None => {},
        }
    }
}

proof fn lemma_enclosed_directives(
    schema: SchemaView,
    region: Region,
    trail: Trail,
    directives: Seq<Directive>,
    from: nat,
)
    requires
        region.encloses(schema, trail),
        region.holds_directives(directives),
    ensures
        !(search_directives(schema, trail, directives, from) is Recursed),
    decreases trail.budget(), 1nat, directives.len() - from,
{
    if from < directives.len() {
        lemma_enclosed_directive(schema, region, trail, directives[from as int]);
        lemma_enclosed_directives(schema, region, trail, directives, from + 1);
    }
}

proof fn lemma_enclosed_enum_values(
    schema: SchemaView,
    region: Region,
    trail: Trail,
    values: Seq<EnumValueDefinition>,
    from: nat,
)
    requires
        region.encloses(schema, trail),
        region.holds_enum_values(values),
    ensures
        !(search_enum_values(schema, trail, values, from) is Recursed),
    decreases trail.budget(), 3nat, values.len() - from,
{
    if from < values.len() {
        let value = values[from as int];
        lemma_enclosed_directives(schema, region, trail, value.directives@, 0);
        assert(search_enum_value(schema, trail, value) == search_directives(
            schema,
            trail,
            value.directives@,
            0,
        ));
        lemma_enclosed_enum_values(schema, region, trail, values, from + 1);
    }
}

proof fn lemma_enclosed_input_value(
    schema: SchemaView,
    region: Region,
    trail: Trail,
    input_value: InputValueDefinition,
)
    requires
        region.encloses(schema, trail),
        region.holds_input_value(input_value),
    ensures
        !(search_input_value(schema, trail, input_value) is Recursed),
    decreases trail.budget(), 2nat, 0nat,
{
    lemma_enclosed_directives(schema, region, trail, input_value.directives@, 0);
    match schema.types.get(input_value.ty.inner_name()) {
        Some(definition) => {
            if trail.has_room() {
                lemma_enclosed_type(schema, region, trail.enter(), definition);
            }
        },
        None => {},
    }
}

proof fn lemma_enclosed_input_values(
    schema: SchemaView,
    region: Region,
    trail: Trail,
    input_values: Seq<InputValueDefinition>,
    from: nat,
)
    requires
        region.encloses(schema, trail),
        region.holds_input_values(input_values),
    ensures
        !(search_input_values(schema, trail, input_values, from) is Recursed),
    decreases trail.budget(), 3nat, input_values.len() - from,
{
    if from < input_values.len() {
        lemma_enclosed_input_value(schema, region, trail, input_values[from as int]);
        lemma_enclosed_input_values(schema, region, trail, input_values, from + 1);
    }
}

proof fn lemma_enclosed_type(
    schema: SchemaView,
    region: Region,
    trail: Trail,
    definition: ExtendedType,
)
    requires
        region.encloses(schema, trail),
        region.holds_type(definition),
    ensures
        !(search_type(schema, trail, definition) is Recursed),
    decreases trail.budget(), 4nat, 0nat,
{
    lemma_enclosed_directives(schema, region, trail, definition.own_directives(), 0);
    match definition {
        ExtendedType::Enum(enum_type) => {
            lemma_enclosed_enum_values(schema, region, trail, enum_type.values@, 0);
        },
        ExtendedType::InputObject(input_type) => {
            lemma_enclosed_input_values(schema, region, trail, input_type.fields@, 0);
        },
        _ => {},
    }
}

/// No cycle is reported for a definition that nothing leads back to: if
/// all that its arguments apply and refer to lies in a region that nothing
/// leads out of, and the definition's own name is not in that region, the
/// search from the definition does not end in a cycle. The region may well
/// hold other directives that lead back to themselves: they are reported
/// where they are defined, not where they are used.
pub proof fn lemma_no_cycle_without_way_back(
    schema: SchemaView,
    definition: DirectiveDefinition,
    region: Region,
)
    requires
        region.closed(schema),
        region.holds_input_values(definition.arguments@),
        !region.directives.contains(definition.name@),
    ensures
        !(search_from(schema, definition) is Recursed),
        forall|report: Report| #[trigger]
            cycle_reports(schema, definition).contains(report) ==> !(report.kind
                is RecursiveDirectiveDefinition),
{
    let trail = Trail::rooted(definition.name@, DEFAULT_RECURSION_LIMIT as nat);
    lemma_enclosed_input_values(schema, region, trail, definition.arguments@, 0);
}


/// A rank for every directive name and every type name.
pub struct Ranking {
    pub directive_rank: spec_fn(Seq<char>) -> nat,
    pub type_rank: spec_fn(Seq<char>) -> nat,
}

impl Ranking {
    /// The directive applied has a rank below `bound`, unless it is the one
    /// that is exempt.
    pub open spec fn directive_below(
        self,
        directive: Directive,
        bound: nat,
        exempt: Option<Seq<char>>,
    ) -> bool {
        exempt == Some(directive.name@) || (self.directive_rank)(directive.name@) < bound
    }

    pub open spec fn directives_below(
        self,
        directives: Seq<Directive>,
        bound: nat,
        exempt: Option<Seq<char>>,
    ) -> bool {
        forall|i: int|
            0 <= i < directives.len() ==> self.directive_below(
                #[trigger] directives[i],
                bound,
                exempt,
            )
    }

    pub open spec fn input_value_below(
        self,
        input_value: InputValueDefinition,
        bound: nat,
        exempt: Option<Seq<char>>,
    ) -> bool {
        &&& self.directives_below(input_value.directives@, bound, exempt)
        &&& (self.type_rank)(input_value.ty.inner_name()) < bound
    }

    pub open spec fn input_values_below(
        self,
        input_values: Seq<InputValueDefinition>,
        bound: nat,
        exempt: Option<Seq<char>>,
    ) -> bool {
        forall|i: int|
            0 <= i < input_values.len() ==> self.input_value_below(
                #[trigger] input_values[i],
                bound,
                exempt,
            )
    }

    pub open spec fn enum_values_below(
        self,
        values: Seq<EnumValueDefinition>,
        bound: nat,
        exempt: Option<Seq<char>>,
    ) -> bool {
        forall|i: int|
            0 <= i < values.len() ==> self.directives_below(
                (#[trigger] values[i]).directives@,
                bound,
                exempt,
            )
    }

    pub open spec fn type_below(
        self,
        definition: ExtendedType,
        bound: nat,
        exempt: Option<Seq<char>>,
    ) -> bool {
        &&& self.directives_below(definition.own_directives(), bound, exempt)
        &&& match definition {
            ExtendedType::Enum(enum_type) => self.enum_values_below(
                enum_type.values@,
                bound,
                exempt,
            ),
            ExtendedType::InputObject(input_type) => self.input_values_below(
                input_type.fields@,
                bound,
                exempt,
            ),
            _ => true,
        }
    }

    /// Every definition applies and refers only to what ranks below it.
    /// Applications of the exempt directive may stand anywhere.
    pub open spec fn descends(self, schema: SchemaView, exempt: Option<Seq<char>>) -> bool {
        &&& forall|name: Seq<char>| #[trigger]
            schema.directive_definitions.by_name.contains_key(name) ==> self.input_values_below(
                schema.directive_definitions.by_name[name].arguments@,
                (self.directive_rank)(name),
                exempt,
            )
        &&& forall|name: Seq<char>| #[trigger]
            schema.types.by_name.contains_key(name) ==> self.type_below(
                schema.types.by_name[name],
                (self.type_rank)(name),
                exempt,
            )
    }

    /// The search is where the ranking allows it to be: the exempt
    /// directive is on its path, and what ranks below `bound` fits under
    /// its limit.
    pub open spec fn fits(
        self,
        schema: SchemaView,
        trail: Trail,
        bound: nat,
        exempt: Option<Seq<char>>,
    ) -> bool {
        &&& self.descends(schema, exempt)
        &&& trail.depth() + bound <= trail.limit
        &&& exempt matches Some(name) ==> trail.contains(name)
    }
}

proof fn lemma_push_keeps(trail: Trail, pushed: Seq<char>, name: Seq<char>)
    requires
        trail.contains(name),
    ensures
        trail.push(pushed).contains(name),
{
    let i: int = choose|i: int| 0 <= i < trail.names.len() && trail.names[i] == name;
    assert(trail.push(pushed).names[i] == name);
}

proof fn lemma_ranked_directive(
    schema: SchemaView,
    ranking: Ranking,
    trail: Trail,
    bound: nat,
    exempt: Option<Seq<char>>,
    directive: Directive,
)
    requires
        ranking.fits(schema, trail, bound, exempt),
        ranking.directive_below(directive, bound, exempt),
    ensures
        !(search_directive(schema, trail, directive) is LimitExceeded),
    decreases trail.budget(), 0nat, 0nat,
{
    if !trail.contains(directive.name@) {
        match schema.directive_definitions.get(directive.name@) {
            Some(definition) => {
                let deeper = trail.push(directive.name@);
                match exempt {
                    Some(name) => {
                        lemma_push_keeps(trail, directive.name@, name);
                    },
                    None => {},
                }
                lemma_ranked_input_values(
                    schema,
                    ranking,
                    deeper,
                    (ranking.directive_rank)(directive.name@),
                    exempt,
                    definition.arguments@,
                    0,
                );
            },
            None => {},
        }
    }
}

proof fn lemma_ranked_directives(
    schema: SchemaView,
    ranking: Ranking,
    trail: Trail,
    bound: nat,
    exempt: Option<Seq<char>>,
    directives: Seq<Directive>,
    from: nat,
)
    requires
        ranking.fits(schema, trail, bound, exempt),
        ranking.directives_below(directives, bound, exempt),
    ensures
        !(search_directives(schema, trail, directives, from) is LimitExceeded),
    decreases trail.budget(), 1nat, directives.len() - from,
{
    if from < directives.len() {
        lemma_ranked_directive(schema, ranking, trail, bound, exempt, directives[from as int]);
        lemma_ranked_directives(schema, ranking, trail, bound, exempt, directives, from + 1);
    }
}

proof fn lemma_ranked_enum_values(
    schema: SchemaView,
    ranking: Ranking,
    trail: Trail,
    bound: nat,
    exempt: Option<Seq<char>>,
    values: Seq<EnumValueDefinition>,
    from: nat,
)
    requires
        ranking.fits(schema, trail, bound, exempt),
        ranking.enum_values_below(values, bound, exempt),
    ensures
        !(search_enum_values(schema, trail, values, from) is LimitExceeded),
    decreases trail.budget(), 3nat, values.len() - from,
{
    if from < values.len() {
        let value = values[from as int];
        lemma_ranked_directives(schema, ranking, trail, bound, exempt, value.directives@, 0);
        assert(search_enum_value(schema, trail, value) == search_directives(
            schema,
            trail,
            value.directives@,
            0,
        ));
        lemma_ranked_enum_values(schema, ranking, trail, bound, exempt, values, from + 1);
    }
}

proof fn lemma_ranked_input_value(
    schema: SchemaView,
    ranking: Ranking,
    trail: Trail,
    bound: nat,
    exempt: Option<Seq<char>>,
    input_value: InputValueDefinition,
)
    requires
        ranking.fits(schema, trail, bound, exempt),
        ranking.input_value_below(input_value, bound, exempt),
    ensures
        !(search_input_value(schema, trail, input_value) is LimitExceeded),
    decreases trail.budget(), 2nat, 0nat,
{
    lemma_ranked_directives(schema, ranking, trail, bound, exempt, input_value.directives@, 0);
    match schema.types.get(input_value.ty.inner_name()) {
        Some(definition) => {
            lemma_ranked_type(
                schema,
                ranking,
                trail.enter(),
                (ranking.type_rank)(input_value.ty.inner_name()),
                exempt,
                definition,
            );
        },
        None => {},
    }
}

proof fn lemma_ranked_input_values(
    schema: SchemaView,
    ranking: Ranking,
    trail: Trail,
    bound: nat,
    exempt: Option<Seq<char>>,
    input_values: Seq<InputValueDefinition>,
    from: nat,
)
    requires
        ranking.fits(schema, trail, bound, exempt),
        ranking.input_values_below(input_values, bound, exempt),
    ensures
        !(search_input_values(schema, trail, input_values, from) is LimitExceeded),
    decreases trail.budget(), 3nat, input_values.len() - from,
{
    if from < input_values.len() {
        lemma_ranked_input_value(
            schema,
            ranking,
            trail,
            bound,
            exempt,
            input_values[from as int],
        );
        lemma_ranked_input_values(schema, ranking, trail, bound, exempt, input_values, from + 1);
    }
}

proof fn lemma_ranked_type(
    schema: SchemaView,
    ranking: Ranking,
    trail: Trail,
    bound: nat,
    exempt: Option<Seq<char>>,
    definition: ExtendedType,
)
    requires
        ranking.fits(schema, trail, bound, exempt),
        ranking.type_below(definition, bound, exempt),
    ensures
        !(search_type(schema, trail, definition) is LimitExceeded),
    decreases trail.budget(), 4nat, 0nat,
{
    lemma_ranked_directives(schema, ranking, trail, bound, exempt, definition.own_directives(), 0);
    match definition {
        ExtendedType::Enum(enum_type) => {
            lemma_ranked_enum_values(schema, ranking, trail, bound, exempt, enum_type.values@, 0);
        },
        ExtendedType::InputObject(input_type) => {
            lemma_ranked_input_values(
                schema,
                ranking,
                trail,
                bound,
                exempt,
                input_type.fields@,
                0,
            );
        },
        _ => {},
    }
}

/// A clear list has nothing but clear members.
proof fn lemma_clear_directives(
    schema: SchemaView,
    trail: Trail,
    directives: Seq<Directive>,
    from: nat,
    i: int,
)
    requires
        search_directives(schema, trail, directives, from) is Clear,
        from <= i < directives.len(),
    ensures
        search_directive(schema, trail, directives[i]) is Clear,
    decreases i - from,
{
    if from < i {
        lemma_clear_directives(schema, trail, directives, from + 1, i);
    }
}

proof fn lemma_clear_enum_values(
    schema: SchemaView,
    trail: Trail,
    values: Seq<EnumValueDefinition>,
    from: nat,
    i: int,
)
    requires
        search_enum_values(schema, trail, values, from) is Clear,
        from <= i < values.len(),
    ensures
        search_directives(schema, trail, values[i].directives@, 0) is Clear,
    decreases i - from,
{
    assert(search_enum_value(schema, trail, values[from as int]) == search_directives(
        schema,
        trail,
        values[from as int].directives@,
        0,
    ));
    if from < i {
        lemma_clear_enum_values(schema, trail, values, from + 1, i);
    }
}

proof fn lemma_clear_input_values(
    schema: SchemaView,
    trail: Trail,
    input_values: Seq<InputValueDefinition>,
    from: nat,
    i: int,
)
    requires
        search_input_values(schema, trail, input_values, from) is Clear,
        from <= i < input_values.len(),
    ensures
        search_input_value(schema, trail, input_values[i]) is Clear,
    decreases i - from,
{
    if from < i {
        lemma_clear_input_values(schema, trail, input_values, from + 1, i);
    }
}

/// A way of at most `steps` definitions leads from this application back to
/// the root, the first of `names`, and enters no directive that is among
/// `names` already.
pub open spec fn leads_directive(
    schema: SchemaView,
    names: Seq<Seq<char>>,
    directive: Directive,
    steps: nat,
) -> bool
    decreases steps, 0nat,
{
    &&& names.len() > 0
    &&& {
        ||| directive.name@ == names[0]
        ||| {
            &&& steps > 0
            &&& !names.contains(directive.name@)
            &&& schema.directive_definitions.by_name.contains_key(directive.name@)
            &&& leads_input_values(
                schema,
                names.push(directive.name@),
                schema.directive_definitions.by_name[directive.name@].arguments@,
                (steps - 1) as nat,
            )
        }
    }
}

pub open spec fn leads_directives(
    schema: SchemaView,
    names: Seq<Seq<char>>,
    directives: Seq<Directive>,
    steps: nat,
) -> bool
    decreases steps, 1nat,
{
    exists|i: int|
        0 <= i < directives.len() && leads_directive(schema, names, #[trigger] directives[i], steps)
}

pub open spec fn leads_input_value(
    schema: SchemaView,
    names: Seq<Seq<char>>,
    input_value: InputValueDefinition,
    steps: nat,
) -> bool
    decreases steps, 2nat,
{
    ||| leads_directives(schema, names, input_value.directives@, steps)
    ||| {
        &&& steps > 0
        &&& schema.types.by_name.contains_key(input_value.ty.inner_name())
        &&& leads_type(
            schema,
            names,
            schema.types.by_name[input_value.ty.inner_name()],
            (steps - 1) as nat,
        )
    }
}

pub open spec fn leads_input_values(
    schema: SchemaView,
    names: Seq<Seq<char>>,
    input_values: Seq<InputValueDefinition>,
    steps: nat,
) -> bool
    decreases steps, 3nat,
{
    exists|i: int|
        0 <= i < input_values.len() && leads_input_value(
            schema,
            names,
            #[trigger] input_values[i],
            steps,
        )
}

pub open spec fn leads_enum_values(
    schema: SchemaView,
    names: Seq<Seq<char>>,
    values: Seq<EnumValueDefinition>,
    steps: nat,
) -> bool
    decreases steps, 3nat,
{
    exists|i: int|
        0 <= i < values.len() && leads_directives(
            schema,
            names,
            (#[trigger] values[i]).directives@,
            steps,
        )
}

pub open spec fn leads_type(
    schema: SchemaView,
    names: Seq<Seq<char>>,
    definition: ExtendedType,
    steps: nat,
) -> bool
    decreases steps, 4nat,
{
    ||| leads_directives(schema, names, definition.own_directives(), steps)
    ||| match definition {
        ExtendedType::Enum(enum_type) => leads_enum_values(schema, names, enum_type.values@, steps),
        ExtendedType::InputObject(input_type) => leads_input_values(
            schema,
            names,
            input_type.fields@,
            steps,
        ),
        _ => false,
    }
}

proof fn lemma_way_back_directive(
    schema: SchemaView,
    trail: Trail,
    directive: Directive,
    steps: nat,
)
    requires
        leads_directive(schema, trail.names, directive, steps),
    ensures
        !(search_directive(schema, trail, directive) is Clear),
    decreases steps, 0nat,
{
    if directive.name@ == trail.names[0] {
        assert(trail.contains(directive.name@));
    } else {
        if trail.has_room() {
            lemma_way_back_input_values(
                schema,
                trail.push(directive.name@),
                schema.directive_definitions.by_name[directive.name@].arguments@,
                (steps - 1) as nat,
            );
        }
    }
}

proof fn lemma_way_back_directives(
    schema: SchemaView,
    trail: Trail,
    directives: Seq<Directive>,
    steps: nat,
)
    requires
        leads_directives(schema, trail.names, directives, steps),
    ensures
        !(search_directives(schema, trail, directives, 0) is Clear),
    decreases steps, 1nat,
{
    let i: int = choose|i: int|
        0 <= i < directives.len() && leads_directive(
            schema,
            trail.names,
            #[trigger] directives[i],
            steps,
        );
    lemma_way_back_directive(schema, trail, directives[i], steps);
    if search_directives(schema, trail, directives, 0) is Clear {
        lemma_clear_directives(schema, trail, directives, 0, i);
    }
}

proof fn lemma_way_back_input_value(
    schema: SchemaView,
    trail: Trail,
    input_value: InputValueDefinition,
    steps: nat,
)
    requires
        leads_input_value(schema, trail.names, input_value, steps),
    ensures
        !(search_input_value(schema, trail, input_value) is Clear),
    decreases steps, 2nat,
{
    if leads_directives(schema, trail.names, input_value.directives@, steps) {
        lemma_way_back_directives(schema, trail, input_value.directives@, steps);
    } else {
        if trail.has_room() {
            lemma_way_back_type(
                schema,
                trail.enter(),
                schema.types.by_name[input_value.ty.inner_name()],
                (steps - 1) as nat,
            );
        }
    }
}

proof fn lemma_way_back_input_values(
    schema: SchemaView,
    trail: Trail,
    input_values: Seq<InputValueDefinition>,
    steps: nat,
)
    requires
        leads_input_values(schema, trail.names, input_values, steps),
    ensures
        !(search_input_values(schema, trail, input_values, 0) is Clear),
    decreases steps, 3nat,
{
    let i: int = choose|i: int|
        0 <= i < input_values.len() && leads_input_value(
            schema,
            trail.names,
            #[trigger] input_values[i],
            steps,
        );
    lemma_way_back_input_value(schema, trail, input_values[i], steps);
    if search_input_values(schema, trail, input_values, 0) is Clear {
        lemma_clear_input_values(schema, trail, input_values, 0, i);
    }
}

proof fn lemma_way_back_enum_values(
    schema: SchemaView,
    trail: Trail,
    values: Seq<EnumValueDefinition>,
    steps: nat,
)
    requires
        leads_enum_values(schema, trail.names, values, steps),
    ensures
        !(search_enum_values(schema, trail, values, 0) is Clear),
    decreases steps, 3nat,
{
    let i: int = choose|i: int|
        0 <= i < values.len() && leads_directives(
            schema,
            trail.names,
            (#[trigger] values[i]).directives@,
            steps,
        );
    lemma_way_back_directives(schema, trail, values[i].directives@, steps);
    if search_enum_values(schema, trail, values, 0) is Clear {
        lemma_clear_enum_values(schema, trail, values, 0, i);
    }
}

proof fn lemma_way_back_type(
    schema: SchemaView,
    trail: Trail,
    definition: ExtendedType,
    steps: nat,
)
    requires
        leads_type(schema, trail.names, definition, steps),
    ensures
        !(search_type(schema, trail, definition) is Clear),
    decreases steps, 4nat,
{
    if leads_directives(schema, trail.names, definition.own_directives(), steps) {
        lemma_way_back_directives(schema, trail, definition.own_directives(), steps);
    } else {
        match definition {
            ExtendedType::Enum(enum_type) => {
                lemma_way_back_enum_values(schema, trail, enum_type.values@, steps);
            },
            ExtendedType::InputObject(input_type) => {
                lemma_way_back_input_values(schema, trail, input_type.fields@, steps);
            },
            _ => {},
        }
    }
}

/// Input objects nest `depth` deep from the type called `name`: the type
/// is an input object with a field whose type is an input object with a
/// field, and so on, `depth` times.
pub open spec fn nests(schema: SchemaView, name: Seq<char>, depth: nat) -> bool
    decreases depth,
{
    depth == 0 || {
        &&& schema.types.by_name.contains_key(name)
        &&& schema.types.by_name[name] matches ExtendedType::InputObject(input_type)
        &&& exists|i: int|
            0 <= i < input_type.fields@.len() && nests(
                schema,
                (#[trigger] input_type.fields@[i]).ty.inner_name(),
                (depth - 1) as nat,
            )
    }
}

/// Where the search is clear, input objects nest no deeper than it could
/// go.
proof fn lemma_clear_nesting(
    schema: SchemaView,
    trail: Trail,
    input_value: InputValueDefinition,
    depth: nat,
)
    requires
        search_input_value(schema, trail, input_value) is Clear,
        nests(schema, input_value.ty.inner_name(), depth),
    ensures
        depth <= trail.budget(),
    decreases depth,
{
    if depth > 0 {
        let definition = schema.types.by_name[input_value.ty.inner_name()];
        match definition {
            ExtendedType::InputObject(input_type) => {
                let i: int = choose|i: int|
                    0 <= i < input_type.fields@.len() && nests(
                        schema,
                        (#[trigger] input_type.fields@[i]).ty.inner_name(),
                        (depth - 1) as nat,
                    );
                assert(search_type(schema, trail.enter(), definition) is Clear);
                lemma_clear_input_values(schema, trail.enter(), input_type.fields@, 0, i);
                lemma_clear_nesting(
                    schema,
                    trail.enter(),
                    input_type.fields@[i],
                    (depth - 1) as nat,
                );
            },
            _ => {},
        }
    }
}

/// The region of all that ranks below `bound`.
pub open spec fn region_below(ranking: Ranking, bound: nat) -> Region {
    Region {
        directives: Set::new(|name: Seq<char>| (ranking.directive_rank)(name) < bound),
        types: Set::new(|name: Seq<char>| (ranking.type_rank)(name) < bound),
    }
}

proof fn lemma_region_below_closed(schema: SchemaView, ranking: Ranking, bound: nat)
    requires
        ranking.descends(schema, None),
    ensures
        region_below(ranking, bound).closed(schema),
{
    let region = region_below(ranking, bound);
    assert forall|name: Seq<char>|
        region.directives.contains(name)
            && #[trigger] schema.directive_definitions.by_name.contains_key(
            name,
        ) implies region.holds_input_values(
        schema.directive_definitions.by_name[name].arguments@,
    ) by {
        lemma_below_input_values_held(
            ranking,
            schema.directive_definitions.by_name[name].arguments@,
            (ranking.directive_rank)(name),
            bound,
        );
    }
    assert forall|name: Seq<char>|
        region.types.contains(name) && #[trigger] schema.types.by_name.contains_key(
            name,
        ) implies region.holds_type(schema.types.by_name[name]) by {
        let definition = schema.types.by_name[name];
        let rank: nat = (ranking.type_rank)(name);
        lemma_below_directives_held(ranking, definition.own_directives(), rank, bound);
        match definition {
            ExtendedType::Enum(enum_type) => {
                assert forall|i: int| 0 <= i < enum_type.values@.len() implies region.holds_directives(
                    (#[trigger] enum_type.values@[i]).directives@,
                ) by {
                    lemma_below_directives_held(
                        ranking,
                        enum_type.values@[i].directives@,
                        rank,
                        bound,
                    );
                }
            },
            ExtendedType::InputObject(input_type) => {
                lemma_below_input_values_held(ranking, input_type.fields@, rank, bound);
            },
            _ => {},
        }
    }
}

proof fn lemma_below_directives_held(
    ranking: Ranking,
    directives: Seq<Directive>,
    rank: nat,
    bound: nat,
)
    requires
        ranking.directives_below(directives, rank, None),
        rank <= bound,
    ensures
        region_below(ranking, bound).holds_directives(directives),
{
    assert forall|i: int| 0 <= i < directives.len() implies region_below(
        ranking,
        bound,
    ).directives.contains(#[trigger] directives[i].name@) by {
        assert(ranking.directive_below(directives[i], rank, None));
    }
}

proof fn lemma_below_input_values_held(
    ranking: Ranking,
    input_values: Seq<InputValueDefinition>,
    rank: nat,
    bound: nat,
)
    requires
        ranking.input_values_below(input_values, rank, None),
        rank <= bound,
    ensures
        region_below(ranking, bound).holds_input_values(input_values),
{
    assert forall|i: int| 0 <= i < input_values.len() implies region_below(
        ranking,
        bound,
    ).holds_input_value(#[trigger] input_values[i]) by {
        assert(ranking.input_value_below(input_values[i], rank, None));
        lemma_below_directives_held(ranking, input_values[i].directives@, rank, bound);
    }
}

/// The search from a definition is clear, and nothing is reported, where
/// the schema is free of cycles and shallow: if directives and types can be
/// ranked so that every definition applies and refers only to what ranks
/// below it, and the rank of the definition is below the depth limit.
pub proof fn lemma_ranked_definition_clear(
    schema: SchemaView,
    definition: DirectiveDefinition,
    ranking: Ranking,
)
    requires
        ranking.descends(schema, None),
        ranking.input_values_below(
            definition.arguments@,
            (ranking.directive_rank)(definition.name@),
            None,
        ),
        (ranking.directive_rank)(definition.name@) < DEFAULT_RECURSION_LIMIT,
    ensures
        search_from(schema, definition) is Clear,
        cycle_reports(schema, definition) == Seq::<Report>::empty(),
{
    let rank: nat = (ranking.directive_rank)(definition.name@);
    let trail = Trail::rooted(definition.name@, DEFAULT_RECURSION_LIMIT as nat);
    lemma_region_below_closed(schema, ranking, rank);
    lemma_below_input_values_held(ranking, definition.arguments@, rank, rank);
    lemma_no_cycle_without_way_back(schema, definition, region_below(ranking, rank));
    lemma_ranked_input_values(schema, ranking, trail, rank, None, definition.arguments@, 0);
}

/// In a schema that is free of cycles and shallow, the search is clear from
/// every directive definition: if directives and types can be ranked so
/// that every definition applies and refers only to what ranks below it,
/// and every directive that the schema defines ranks below the depth limit.
pub proof fn lemma_ranked_schema_clear(schema: SchemaView, ranking: Ranking)
    requires
        schema.directive_definitions.coherent(),
        ranking.descends(schema, None),
        forall|name: Seq<char>| #[trigger]
            schema.directive_definitions.by_name.contains_key(name) ==> (ranking.directive_rank)(
                name,
            ) < DEFAULT_RECURSION_LIMIT,
    ensures
        forall|i: int|
            0 <= i < schema.directive_definitions.in_order.len() ==> cycle_reports(
                schema,
                #[trigger] schema.directive_definitions.in_order[i],
            ) == Seq::<Report>::empty(),
{
    assert forall|i: int| 0 <= i < schema.directive_definitions.in_order.len() implies cycle_reports(
        schema,
        #[trigger] schema.directive_definitions.in_order[i],
    ) == Seq::<Report>::empty() by {
        let definition = schema.directive_definitions.in_order[i];
        assert(schema.directive_definitions.by_name.contains_key(definition.name_view()));
        assert(schema.directive_definitions.by_name[definition.name@] == definition);
        lemma_ranked_definition_clear(schema, definition, ranking);
    }
}

/// A definition that leads back to itself is reported as recursive, once,
/// where the schema is otherwise free of cycles and shallow: if a way leads
/// from the arguments of the definition back to an application of it, and
/// directives and types can be ranked so that every definition applies and
/// refers only to what ranks below it, applications of this definition
/// aside, and the rank of the definition is below the depth limit.
pub proof fn lemma_cycle_reported(
    schema: SchemaView,
    definition: DirectiveDefinition,
    ranking: Ranking,
    steps: nat,
)
    requires
        leads_input_values(schema, seq![definition.name@], definition.arguments@, steps),
        ranking.descends(schema, Some(definition.name@)),
        ranking.input_values_below(
            definition.arguments@,
            (ranking.directive_rank)(definition.name@),
            Some(definition.name@),
        ),
        (ranking.directive_rank)(definition.name@) < DEFAULT_RECURSION_LIMIT,
    ensures
        search_from(schema, definition) matches Search::Recursed(trace) && cycle_reports(
            schema,
            definition,
        ) == seq![
            Report {
                location: definition.location,
                kind: ReportKind::RecursiveDirectiveDefinition { name: definition.name@, trace },
            },
        ],
{
    let rank: nat = (ranking.directive_rank)(definition.name@);
    let trail = Trail::rooted(definition.name@, DEFAULT_RECURSION_LIMIT as nat);
    assert(trail.names[0] == definition.name@);
    assert(trail.contains(definition.name@));
    lemma_way_back_input_values(schema, trail, definition.arguments@, steps);
    lemma_ranked_input_values(
        schema,
        ranking,
        trail,
        rank,
        Some(definition.name@),
        definition.arguments@,
        0,
    );
}

/// A way back to the definition is found or the search is cut off, but the
/// definition never passes as clear: one report is made of it.
pub proof fn lemma_way_back_reported(
    schema: SchemaView,
    definition: DirectiveDefinition,
    steps: nat,
)
    requires
        leads_input_values(schema, seq![definition.name@], definition.arguments@, steps),
    ensures
        !(search_from(schema, definition) is Clear),
        cycle_reports(schema, definition).len() == 1,
{
    let trail = Trail::rooted(definition.name@, DEFAULT_RECURSION_LIMIT as nat);
    lemma_way_back_input_values(schema, trail, definition.arguments@, steps);
}

/// Input objects that nest as deep as the depth limit, or deeper, are
/// reported as nested too deep where nothing leads back to the definition:
/// if the type of argument `i` nests at least that deep, and all that the
/// arguments apply and refer to lies in a region that nothing leads out of
/// and that the definition's own name is not in.
pub proof fn lemma_deep_nesting_reported(
    schema: SchemaView,
    definition: DirectiveDefinition,
    region: Region,
    i: int,
    depth: nat,
)
    requires
        region.closed(schema),
        region.holds_input_values(definition.arguments@),
        !region.directives.contains(definition.name@),
        0 <= i < definition.arguments@.len(),
        nests(schema, definition.arguments@[i].ty.inner_name(), depth),
        depth >= DEFAULT_RECURSION_LIMIT,
    ensures
        search_from(schema, definition) is LimitExceeded,
        cycle_reports(schema, definition) == seq![
            Report {
                location: definition.location,
                kind: ReportKind::DeeplyNestedType {
                    name: definition.name@,
                    describe_type: "directive"@,
                },
            },
        ],
{
    let trail = Trail::rooted(definition.name@, DEFAULT_RECURSION_LIMIT as nat);
    lemma_no_cycle_without_way_back(schema, definition, region);
    if search_from(schema, definition) is Clear {
        lemma_clear_input_values(schema, trail, definition.arguments@, 0, i);
        lemma_clear_nesting(schema, trail, definition.arguments@[i], depth);
    }
}

} // verus!
