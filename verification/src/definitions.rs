//! The typed definitions that a pass produces, and their mathematical values.

use crate::field_type::{TypeDescriptor, TypeShape};
use crate::sequences::{optional_view, views};
use vstd::prelude::*;

verus! {

/// What a definition is for.
#[derive(Clone, Copy, Debug, PartialEq, Eq, Hash, Structural)]
pub enum DefinitionCategory {
    Scalar,
    Enum,
    Input,
    Fragment,
    ResponseObject,
    Variables,
}

/// One field of a record.
#[derive(Debug, PartialEq, Eq)]
pub struct RecordField {
    /// The field's name in the record.
    pub name: String,
    /// The name it has on the wire, where that differs.
    pub rename: Option<String>,
    pub ty: TypeDescriptor,
    /// Whether the fields of `ty` sit on the wire beside this record's own
    /// fields instead of under `name`.
    pub flatten: bool,
}

/// The mathematical value of a [`RecordField`].
pub struct RecordFieldView {
    pub name: Seq<char>,
    pub rename: Option<Seq<char>>,
    pub ty: TypeShape,
    pub flatten: bool,
}

impl View for RecordField {
    type V = RecordFieldView;

    open spec fn view(&self) -> RecordFieldView {
        RecordFieldView {
            name: self.name@,
            rename: optional_view(self.rename),
            ty: self.ty@,
            flatten: self.flatten,
        }
    }
}

/// A named constructor of a record's default for one field. Only its name
/// and type are settled here; what it returns is supplied later.
#[derive(Debug, PartialEq, Eq)]
pub struct Accessor {
    pub name: String,
    pub ty: TypeDescriptor,
}

/// The mathematical value of an [`Accessor`].
pub struct AccessorView {
    pub name: Seq<char>,
    pub ty: TypeShape,
}

impl View for Accessor {
    type V = AccessorView;

    open spec fn view(&self) -> AccessorView {
        AccessorView { name: self.name@, ty: self.ty@ }
    }
}

/// One variant of a tagged union: the runtime type's name and the record
/// that holds what was selected on it.
#[derive(Debug, PartialEq, Eq)]
pub struct UnionVariant {
    pub name: String,
    pub payload: String,
}

/// The mathematical value of an [`UnionVariant`].
pub struct UnionVariantView {
    pub name: Seq<char>,
    pub payload: Seq<char>,
}

impl View for UnionVariant {
    type V = UnionVariantView;

    open spec fn view(&self) -> UnionVariantView {
        UnionVariantView { name: self.name@, payload: self.payload@ }
    }
}

/// One variant of an enum: a value the schema declares, or the catch-all
/// that stands for any value a later schema may add.
#[derive(Debug, PartialEq, Eq)]
pub enum EnumVariant {
    Value(String),
    Other,
}

/// The mathematical value of an [`EnumVariant`].
pub enum EnumVariantView {
    Value(Seq<char>),
    Other,
}

impl View for EnumVariant {
    type V = EnumVariantView;

    open spec fn view(&self) -> EnumVariantView {
        match self {
            EnumVariant::Value(name) => EnumVariantView::Value(name@),
            EnumVariant::Other => EnumVariantView::Other,
        }
    }
}

/// What a definition consists of.
#[derive(Debug, PartialEq, Eq)]
pub enum DefinitionBody {
    /// Another name for a representation supplied from outside; `None` where
    /// none was supplied and the name stands for itself in the enclosing
    /// scope.
    Alias { target: Option<String> },
    Enumeration { variants: Vec<EnumVariant> },
    Record { fields: Vec<RecordField>, accessors: Vec<Accessor> },
    /// A sum type told apart on the wire by the field named `tag`.
    TaggedUnion { tag: String, variants: Vec<UnionVariant> },
}

/// The mathematical value of a [`DefinitionBody`].
pub enum DefinitionBodyView {
    Alias { target: Option<Seq<char>> },
    Enumeration { variants: Seq<EnumVariantView> },
    Record { fields: Seq<RecordFieldView>, accessors: Seq<AccessorView> },
    TaggedUnion { tag: Seq<char>, variants: Seq<UnionVariantView> },
}

impl View for DefinitionBody {
    type V = DefinitionBodyView;

    open spec fn view(&self) -> DefinitionBodyView {
        match self {
            DefinitionBody::Alias { target } => DefinitionBodyView::Alias {
                target: optional_view(*target),
            },
            DefinitionBody::Enumeration { variants } => DefinitionBodyView::Enumeration {
                variants: views(variants@),
            },
            DefinitionBody::Record { fields, accessors } => DefinitionBodyView::Record {
                fields: views(fields@),
                accessors: views(accessors@),
            },
            DefinitionBody::TaggedUnion { tag, variants } => DefinitionBodyView::TaggedUnion {
                tag: tag@,
                variants: views(variants@),
            },
        }
    }
}

/// A named type definition.
#[derive(Debug, PartialEq, Eq)]
pub struct Definition {
    pub category: DefinitionCategory,
    pub name: String,
    /// The annotations to attach, passed through as given.
    pub derives: Vec<String>,
    pub body: DefinitionBody,
}

/// The mathematical value of a [`Definition`].
pub struct DefinitionView {
    pub category: DefinitionCategory,
    pub name: Seq<char>,
    pub derives: Seq<Seq<char>>,
    pub body: DefinitionBodyView,
}

impl View for Definition {
    type V = DefinitionView;

    open spec fn view(&self) -> DefinitionView {
        DefinitionView {
            category: self.category,
            name: self.name@,
            derives: views(self.derives@),
            body: self.body@,
        }
    }
}

} // verus!
