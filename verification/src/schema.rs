//! The schema that directives are validated against: type definitions and
//! directive definitions, each found by name and kept in the order in
//! which they were added.

use crate::ast::{Directive, DirectiveDefinition, EnumValueDefinition, InputValueDefinition};
use vstd::hash_map::StringHashMap;
use vstd::prelude::*;

verus! {

/// Something that a `NameMap` can hold: it knows its own name.
pub trait Named {
    spec fn name_view(&self) -> Seq<char>;

    fn name(&self) -> (name: &String)
        ensures
            name@ == self.name_view(),
    ;
}

#[derive(Debug, PartialEq, Eq)]
pub struct ScalarType {
    pub name: String,
    pub directives: Vec<Directive>,
}

#[derive(Debug, PartialEq, Eq)]
pub struct ObjectType {
    pub name: String,
    pub directives: Vec<Directive>,
}

#[derive(Debug, PartialEq, Eq)]
pub struct InterfaceType {
    pub name: String,
    pub directives: Vec<Directive>,
}

#[derive(Debug, PartialEq, Eq)]
pub struct UnionType {
    pub name: String,
    pub directives: Vec<Directive>,
}

#[derive(Debug, PartialEq, Eq)]
pub struct EnumType {
    pub name: String,
    pub directives: Vec<Directive>,
    pub values: Vec<EnumValueDefinition>,
}

#[derive(Debug, PartialEq, Eq)]
pub struct InputObjectType {
    pub name: String,
    pub directives: Vec<Directive>,
    pub fields: Vec<InputValueDefinition>,
}

/// A type definition, with what directive validation reads of it: the
/// directives attached to the type, and for enums and input objects those
/// attached to their values and fields.
#[derive(Debug, PartialEq, Eq)]
pub enum ExtendedType {
    Scalar(ScalarType),
    Object(ObjectType),
    Interface(InterfaceType),
    Union(UnionType),
    Enum(EnumType),
    InputObject(InputObjectType),
}

impl ExtendedType {
    /// The directives attached to the type itself.
    pub open spec fn own_directives(&self) -> Seq<Directive> {
        match self {
            ExtendedType::Scalar(def) => def.directives@,
            ExtendedType::Object(def) => def.directives@,
            ExtendedType::Interface(def) => def.directives@,
            ExtendedType::Union(def) => def.directives@,
            ExtendedType::Enum(def) => def.directives@,
            ExtendedType::InputObject(def) => def.directives@,
        }
    }

    pub fn directives(&self) -> (directives: &Vec<Directive>)
        ensures
            directives@ == self.own_directives(),
    {
        match self {
            ExtendedType::Scalar(def) => &def.directives,
            ExtendedType::Object(def) => &def.directives,
            ExtendedType::Interface(def) => &def.directives,
            ExtendedType::Union(def) => &def.directives,
            ExtendedType::Enum(def) => &def.directives,
            ExtendedType::InputObject(def) => &def.directives,
        }
    }
}

impl Named for ExtendedType {
    open spec fn name_view(&self) -> Seq<char> {
        match self {
            ExtendedType::Scalar(def) => def.name@,
            ExtendedType::Object(def) => def.name@,
            ExtendedType::Interface(def) => def.name@,
            ExtendedType::Union(def) => def.name@,
            ExtendedType::Enum(def) => def.name@,
            ExtendedType::InputObject(def) => def.name@,
        }
    }

    fn name(&self) -> (name: &String) {
        match self {
            ExtendedType::Scalar(def) => &def.name,
            ExtendedType::Object(def) => &def.name,
            ExtendedType::Interface(def) => &def.name,
            ExtendedType::Union(def) => &def.name,
            ExtendedType::Enum(def) => &def.name,
            ExtendedType::InputObject(def) => &def.name,
        }
    }
}

impl Named for DirectiveDefinition {
    open spec fn name_view(&self) -> Seq<char> {
        self.name@
    }

    fn name(&self) -> (name: &String) {
        &self.name
    }
}

/// What a `NameMap` stands for: a map from names to items, and the items in
/// the order in which they were added.
pub struct Entries<T> {
    pub by_name: Map<Seq<char>, T>,
    pub in_order: Seq<T>,
}

impl<T: Named> Entries<T> {
    /// The map and the sequence hold the same items: every item of the
    /// sequence is found under its own name, every name leads to an item of
    /// the sequence, and no two items share a name.
    pub open spec fn coherent(self) -> bool {
        &&& forall|i: int|
            0 <= i < self.in_order.len() ==> {
                &&& self.by_name.contains_key(#[trigger] self.in_order[i].name_view())
                &&& self.by_name[self.in_order[i].name_view()] == self.in_order[i]
            }
        &&& forall|name: Seq<char>| #[trigger]
            self.by_name.contains_key(name) ==> {
                &&& self.by_name[name].name_view() == name
                &&& self.in_order.contains(self.by_name[name])
            }
        &&& forall|i: int, j: int|
            0 <= i < j < self.in_order.len() ==> self.in_order[i].name_view()
                != self.in_order[j].name_view()
    }

    pub open spec fn get(self, name: Seq<char>) -> Option<T> {
        if self.by_name.contains_key(name) {
            Some(self.by_name[name])
        } else {
            None
        }
    }
}

/// Items found by name in constant time and walked in insertion order.
pub struct NameMap<T: Named> {
    items: Vec<T>,
    index: StringHashMap<usize>,
}

/// The index leads from each item's name to the item's position, and to
/// nothing else.
spec fn indexed<T: Named>(items: Seq<T>, index: Map<Seq<char>, usize>) -> bool {
    &&& forall|i: int|
        0 <= i < items.len() ==> {
            &&& index.contains_key(#[trigger] items[i].name_view())
            &&& index[items[i].name_view()] == i
        }
    &&& forall|name: Seq<char>| #[trigger]
        index.contains_key(name) ==> {
            &&& index[name] < items.len()
            &&& items[index[name] as int].name_view() == name
        }
}

spec fn entries_of<T: Named>(items: Seq<T>, index: Map<Seq<char>, usize>) -> Entries<T> {
    Entries {
        by_name: Map::new(
            |name: Seq<char>| index.contains_key(name),
            |name: Seq<char>| items[index[name] as int],
        ),
        in_order: items,
    }
}

impl<T: Named> View for NameMap<T> {
    type V = Entries<T>;

    closed spec fn view(&self) -> Entries<T> {
        entries_of(self.items@, self.index@)
    }
}

impl<T: Named> NameMap<T> {
    #[verifier::type_invariant]
    spec fn well_formed(&self) -> bool {
        indexed(self.items@, self.index@)
    }

    pub fn new() -> (map: NameMap<T>)
        ensures
            map@.by_name == Map::<Seq<char>, T>::empty(),
            map@.in_order == Seq::<T>::empty(),
    {
        let items: Vec<T> = Vec::new();
        let index: StringHashMap<usize> = StringHashMap::new();
        NameMap { items, index }
    }

    /// Adds `item` under its own name, unless that name is taken: then the
    /// map stays as it is and `item` is handed back.
    pub fn insert(&mut self, item: T) -> (refused: Option<T>)
        ensures
            final(self)@.coherent(),
            match refused {
                Some(back) => {
                    &&& old(self)@.by_name.contains_key(item.name_view())
                    &&& back == item
                    &&& final(self)@ == old(self)@
                },
                None => {
                    &&& !old(self)@.by_name.contains_key(item.name_view())
                    &&& final(self)@.by_name == old(self)@.by_name.insert(item.name_view(), item)
                    &&& final(self)@.in_order == old(self)@.in_order.push(item)
                },
            },
    {
        proof {
            use_type_invariant(&*self);
        }
        if self.index.contains_key(item.name().as_str()) {
            return Some(item);
        }
        let mut taken = NameMap::new();
        std::mem::swap(self, &mut taken);
        let NameMap { mut items, mut index } = taken;
        let position: usize = items.len();
        index.insert(item.name().clone(), position);
        items.push(item);
        *self = NameMap { items, index };
        None
    }

    /// The item called `name`.
    pub fn get(&self, name: &String) -> (found: Option<&T>)
        ensures
            self@.coherent(),
            match found {
                Some(item) => self@.get(name@) == Some(*item),
                None => self@.get(name@) is None,
            },
    {
        proof {
            use_type_invariant(self);
        }
        match self.index.get(name.as_str()) {
            Some(position) => Some(&self.items[*position]),
            None => None,
        }
    }

    /// The items in the order in which they were added.
    pub fn values(&self) -> (items: &Vec<T>)
        ensures
            self@.coherent(),
            items@ == self@.in_order,
    {
        proof {
            use_type_invariant(self);
        }
        &self.items
    }

    pub fn len(&self) -> (len: usize)
        ensures
            len == self@.in_order.len(),
    {
        self.items.len()
    }
}

/// Type definitions and directive definitions, each by name.
pub struct Schema {
    pub types: NameMap<ExtendedType>,
    pub directive_definitions: NameMap<DirectiveDefinition>,
}

/// What a `Schema` stands for.
pub struct SchemaView {
    pub types: Entries<ExtendedType>,
    pub directive_definitions: Entries<DirectiveDefinition>,
}

impl View for Schema {
    type V = SchemaView;

    open spec fn view(&self) -> SchemaView {
        SchemaView { types: self.types@, directive_definitions: self.directive_definitions@ }
    }
}

impl Schema {
    /// A schema without any definition.
    pub fn new() -> (schema: Schema)
        ensures
            schema@.types.by_name == Map::<Seq<char>, ExtendedType>::empty(),
            schema@.types.in_order == Seq::<ExtendedType>::empty(),
            schema@.directive_definitions.by_name == Map::<Seq<char>, DirectiveDefinition>::empty(),
            schema@.directive_definitions.in_order == Seq::<DirectiveDefinition>::empty(),
    {
        Schema { types: NameMap::new(), directive_definitions: NameMap::new() }
    }
}

} // verus!
