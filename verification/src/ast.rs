//! The syntax that directive validation reads: names, types, values,
//! directive applications and the definitions they refer to.
//!
//! These are plain trees. Contracts speak of them directly, and of the
//! character sequence `name@` wherever two names are compared.

use vstd::prelude::*;

verus! {

/// A region of one source file.
#[derive(Debug, Clone, Copy, PartialEq, Eq, Structural)]
pub struct SourceSpan {
    pub file_id: u64,
    pub start: usize,
    pub end: usize,
}

/// The syntactic places a directive can be attached to.
#[derive(Debug, Clone, Copy, PartialEq, Eq, Structural)]
pub enum DirectiveLocation {
    Query,
    Mutation,
    Subscription,
    Field,
    FragmentDefinition,
    FragmentSpread,
    InlineFragment,
    VariableDefinition,
    Schema,
    Scalar,
    Object,
    FieldDefinition,
    ArgumentDefinition,
    Interface,
    Union,
    Enum,
    EnumValue,
    InputObject,
    InputFieldDefinition,
}

/// A reference to a type: a name, possibly wrapped in lists, each layer
/// nullable or not.
#[derive(Debug, PartialEq, Eq)]
pub enum Type {
    Named(String),
    NonNullNamed(String),
    List(Box<Type>),
    NonNullList(Box<Type>),
}

impl Type {
    /// The name at the core of the type, under every list layer.
    pub open spec fn inner_name(&self) -> Seq<char>
        decreases self,
    {
        match self {
            Type::Named(name) => name@,
            Type::NonNullNamed(name) => name@,
            Type::List(inner) => inner.inner_name(),
            Type::NonNullList(inner) => inner.inner_name(),
        }
    }

    /// Whether the outermost layer of the type excludes `null`.
    pub open spec fn non_null(&self) -> bool {
        self is NonNullNamed || self is NonNullList
    }

    pub fn inner_named_type(&self) -> (name: &String)
        ensures
            name@ == self.inner_name(),
        decreases self,
    {
        match self {
            Type::Named(name) => name,
            Type::NonNullNamed(name) => name,
            Type::List(inner) => inner.inner_named_type(),
            Type::NonNullList(inner) => inner.inner_named_type(),
        }
    }

    pub fn is_non_null(&self) -> (non_null: bool)
        ensures
            non_null == self.non_null(),
    {
        match self {
            Type::NonNullNamed(_) => true,
            Type::NonNullList(_) => true,
            _ => false,
        }
    }
}

/// A value as written in a document. Numbers keep their source text.
#[derive(Debug, PartialEq, Eq)]
pub enum Value {
    Null,
    Enum(String),
    Variable(String),
    String(String),
    Float(String),
    Int(String),
    Boolean(bool),
    List(Vec<Value>),
    Object(Vec<(String, Value)>),
}

impl Value {
    pub fn is_null(&self) -> (null: bool)
        ensures
            null == (self is Null),
    {
        match self {
            Value::Null => true,
            _ => false,
        }
    }
}

/// One `name: value` pair of a directive application.
#[derive(Debug, PartialEq, Eq)]
pub struct Argument {
    pub name: String,
    pub value: Value,
    pub location: Option<SourceSpan>,
}

/// A directive applied at some place: `@name(arguments)`.
#[derive(Debug, PartialEq, Eq)]
pub struct Directive {
    pub name: String,
    pub arguments: Vec<Argument>,
    pub location: Option<SourceSpan>,
}

/// An argument of a directive definition, or a field of an input object.
#[derive(Debug, PartialEq, Eq)]
pub struct InputValueDefinition {
    pub name: String,
    pub ty: Type,
    pub default_value: Option<Value>,
    pub directives: Vec<Directive>,
    pub location: Option<SourceSpan>,
}

impl InputValueDefinition {
    /// An input value is required when its type excludes `null` and it has
    /// no default to fall back on.
    pub open spec fn required(&self) -> bool {
        self.ty.non_null() && self.default_value is None
    }

    pub fn is_required(&self) -> (required: bool)
        ensures
            required == self.required(),
    {
        self.ty.is_non_null() && self.default_value.is_none()
    }
}

/// One value of an enum type.
#[derive(Debug, PartialEq, Eq)]
pub struct EnumValueDefinition {
    pub value: String,
    pub directives: Vec<Directive>,
    pub location: Option<SourceSpan>,
}

/// A variable declared by an operation.
#[derive(Debug, PartialEq, Eq)]
pub struct VariableDefinition {
    pub name: String,
    pub ty: Type,
    pub default_value: Option<Value>,
    pub directives: Vec<Directive>,
    pub location: Option<SourceSpan>,
}

/// The declaration of a directive: its arguments, where it may be
/// attached, and whether it may be attached more than once at one place.
#[derive(Debug, PartialEq, Eq)]
pub struct DirectiveDefinition {
    pub name: String,
    pub arguments: Vec<InputValueDefinition>,
    pub repeatable: bool,
    pub locations: Vec<DirectiveLocation>,
    pub location: Option<SourceSpan>,
}

/// The position of the first argument definition called `name`, if any.
pub open spec fn first_definition_named(
    definitions: Seq<InputValueDefinition>,
    name: Seq<char>,
) -> Option<int> {
    if exists|i: int| is_first_definition_named(definitions, name, i) {
        Some(choose|i: int| is_first_definition_named(definitions, name, i))
    } else {
        None
    }
}

pub open spec fn is_first_definition_named(
    definitions: Seq<InputValueDefinition>,
    name: Seq<char>,
    i: int,
) -> bool {
    &&& 0 <= i < definitions.len()
    &&& definitions[i].name@ == name
    &&& forall|j: int| 0 <= j < i ==> definitions[j].name@ != name
}

/// The position of the first argument called `name`, if any.
pub open spec fn first_argument_named(arguments: Seq<Argument>, name: Seq<char>) -> Option<int> {
    if exists|i: int| is_first_argument_named(arguments, name, i) {
        Some(choose|i: int| is_first_argument_named(arguments, name, i))
    } else {
        None
    }
}

pub open spec fn is_first_argument_named(
    arguments: Seq<Argument>,
    name: Seq<char>,
    i: int,
) -> bool {
    &&& 0 <= i < arguments.len()
    &&& arguments[i].name@ == name
    &&& forall|j: int| 0 <= j < i ==> arguments[j].name@ != name
}

impl DirectiveDefinition {
    /// The first argument definition called `name`.
    pub fn argument_by_name(&self, name: &String) -> (found: Option<&InputValueDefinition>)
        ensures
            match first_definition_named(self.arguments@, name@) {
                Some(i) => found == Some(&self.arguments@[i]),
                None => found is None,
            },
    {
        let mut i: usize = 0;
        while i < self.arguments.len()
            invariant
                i <= self.arguments.len(),
                forall|j: int| 0 <= j < i ==> self.arguments@[j].name@ != name@,
            decreases self.arguments.len() - i,
        {
            if self.arguments[i].name == *name {
                assert(is_first_definition_named(self.arguments@, name@, i as int));
                return Some(&self.arguments[i]);
            }
            i += 1;
        }
        None
    }

    /// Whether the directive may be attached at `location`.
    pub fn allows(&self, location: DirectiveLocation) -> (allowed: bool)
        ensures
            allowed == self.locations@.contains(location),
    {
        let mut i: usize = 0;
        while i < self.locations.len()
            invariant
                i <= self.locations.len(),
                forall|j: int| 0 <= j < i ==> self.locations@[j] != location,
            decreases self.locations.len() - i,
        {
            if self.locations[i] == location {
                return true;
            }
            i += 1;
        }
        false
    }
}

impl Directive {
    /// The first argument called `name`.
    pub fn argument_by_name(&self, name: &String) -> (found: Option<&Argument>)
        ensures
            match first_argument_named(self.arguments@, name@) {
                Some(i) => found == Some(&self.arguments@[i]),
                None => found is None,
            },
    {
        let mut i: usize = 0;
        while i < self.arguments.len()
            invariant
                i <= self.arguments.len(),
                forall|j: int| 0 <= j < i ==> self.arguments@[j].name@ != name@,
            decreases self.arguments.len() - i,
        {
            if self.arguments[i].name == *name {
                assert(is_first_argument_named(self.arguments@, name@, i as int));
                return Some(&self.arguments[i]);
            }
            i += 1;
        }
        None
    }
}

} // verus!
