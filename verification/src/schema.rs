//! The schema: a graph of named types, each known by its place in the table.

use crate::field_type::GraphqlTypeQualifier;
use crate::sequences::views;
use vstd::prelude::*;

verus! {

/// A field of an object, an interface or an input object.
#[derive(Debug, Clone, PartialEq, Eq)]
pub struct SchemaField {
    pub name: String,
    /// The place of the field's named type in the schema's table.
    pub target: usize,
    /// The wrappers around that type, outermost first.
    pub qualifiers: Vec<GraphqlTypeQualifier>,
}

/// The mathematical value of a [`SchemaField`].
pub struct SchemaFieldView {
    pub name: Seq<char>,
    pub target: usize,
    pub qualifiers: Seq<GraphqlTypeQualifier>,
}

impl View for SchemaField {
    type V = SchemaFieldView;

    open spec fn view(&self) -> SchemaFieldView {
        SchemaFieldView { name: self.name@, target: self.target, qualifiers: self.qualifiers@ }
    }
}

/// What kind of type a schema type is, with what that kind declares.
#[derive(Debug, Clone, PartialEq, Eq)]
pub enum TypeKind {
    /// `builtin` marks the scalars every schema has.
    Scalar { builtin: bool },
    /// The declared values, in the schema's order.
    Enum { values: Vec<String> },
    InputObject { fields: Vec<SchemaField> },
    Object { fields: Vec<SchemaField> },
    /// `members` are the object types that implement the interface.
    Interface { fields: Vec<SchemaField>, members: Vec<usize> },
    Union { members: Vec<usize> },
}

/// The mathematical value of a [`TypeKind`].
pub enum TypeKindView {
    Scalar { builtin: bool },
    Enum { values: Seq<Seq<char>> },
    InputObject { fields: Seq<SchemaFieldView> },
    Object { fields: Seq<SchemaFieldView> },
    Interface { fields: Seq<SchemaFieldView>, members: Seq<usize> },
    Union { members: Seq<usize> },
}

impl View for TypeKind {
    type V = TypeKindView;

    open spec fn view(&self) -> TypeKindView {
        match self {
            TypeKind::Scalar { builtin } => TypeKindView::Scalar { builtin: *builtin },
            TypeKind::Enum { values } => TypeKindView::Enum { values: views(values@) },
            TypeKind::InputObject { fields } => TypeKindView::InputObject { fields: views(fields@) },
            TypeKind::Object { fields } => TypeKindView::Object { fields: views(fields@) },
            TypeKind::Interface { fields, members } => TypeKindView::Interface {
                fields: views(fields@),
                members: members@,
            },
            TypeKind::Union { members } => TypeKindView::Union { members: members@ },
        }
    }
}

/// A named type of the schema.
#[derive(Debug, Clone, PartialEq, Eq)]
pub struct SchemaType {
    pub name: String,
    pub kind: TypeKind,
}

/// The mathematical value of a [`SchemaType`].
pub struct SchemaTypeView {
    pub name: Seq<char>,
    pub kind: TypeKindView,
}

impl View for SchemaType {
    type V = SchemaTypeView;

    open spec fn view(&self) -> SchemaTypeView {
        SchemaTypeView { name: self.name@, kind: self.kind@ }
    }
}

/// A schema. A type's identity is its index in `types`; two types of one
/// name are still two types.
#[derive(Debug, Clone, PartialEq, Eq)]
pub struct Schema {
    pub types: Vec<SchemaType>,
    /// The field that carries an object's runtime type name on the wire.
    pub discriminant: String,
}

/// The mathematical value of a [`Schema`].
pub struct SchemaView {
    pub types: Seq<SchemaTypeView>,
    pub discriminant: Seq<char>,
}

impl View for Schema {
    type V = SchemaView;

    open spec fn view(&self) -> SchemaView {
        SchemaView { types: views(self.types@), discriminant: self.discriminant@ }
    }
}

impl TypeKindView {
    /// The fields this kind declares; none for a kind without fields.
    pub open spec fn fields(self) -> Seq<SchemaFieldView> {
        match self {
            TypeKindView::InputObject { fields } => fields,
            TypeKindView::Object { fields } => fields,
            TypeKindView::Interface { fields, members } => fields,
            _ => Seq::empty(),
        }
    }

    /// The concrete types behind an interface or a union; none otherwise.
    pub open spec fn members(self) -> Seq<usize> {
        match self {
            TypeKindView::Interface { fields, members } => members,
            TypeKindView::Union { members } => members,
            _ => Seq::empty(),
        }
    }

    /// The values an enum declares, in order; none for another kind.
    pub open spec fn values(self) -> Seq<Seq<char>> {
        match self {
            TypeKindView::Enum { values } => values,
            _ => Seq::empty(),
        }
    }

    /// Whether this is a scalar that every schema has.
    pub open spec fn is_builtin(self) -> bool {
        match self {
            TypeKindView::Scalar { builtin } => builtin,
            _ => false,
        }
    }

    /// Whether values of this kind are selected into: objects, interfaces
    /// and unions.
    pub open spec fn is_composite(self) -> bool {
        self is Object || self is Interface || self is Union
    }

    /// Whether a use of this kind goes into the catalog of used types:
    /// custom scalars, enums and input objects.
    pub open spec fn is_recorded(self) -> bool {
        match self {
            TypeKindView::Scalar { builtin } => !builtin,
            TypeKindView::Enum { .. } => true,
            TypeKindView::InputObject { .. } => true,
            _ => false,
        }
    }
}

impl TypeKind {
    /// The declared fields, if this kind has any.
    pub fn field_list(&self) -> (r: Option<&Vec<SchemaField>>)
        ensures
            r matches Some(fields) ==> views(fields@) == self@.fields() && (self@ is InputObject
                || self@ is Object || self@ is Interface),
            r is None ==> self@.fields().len() == 0 && (self@ is Scalar || self@ is Enum || self@
                is Union),
    {
        match self {
            TypeKind::InputObject { fields } => Some(fields),
            TypeKind::Object { fields } => Some(fields),
            TypeKind::Interface { fields, members } => Some(fields),
            _ => None,
        }
    }

    /// The declared values, if this kind is an enum.
    pub fn value_list(&self) -> (r: Option<&Vec<String>>)
        ensures
            r matches Some(values) ==> views(values@) == self@.values() && self@ is Enum,
            r is None ==> self@.values().len() == 0 && !(self@ is Enum),
    {
        match self {
            TypeKind::Enum { values } => Some(values),
            _ => None,
        }
    }

    /// The member list, if this kind has one.
    pub fn member_list(&self) -> (r: Option<&Vec<usize>>)
        ensures
            r matches Some(members) ==> members@ == self@.members() && (self@ is Interface
                || self@ is Union),
            r is None ==> self@.members().len() == 0 && !(self@ is Interface || self@ is Union),
    {
        match self {
            TypeKind::Interface { fields, members } => Some(members),
            TypeKind::Union { members } => Some(members),
            _ => None,
        }
    }

    /// Tests [`TypeKindView::is_builtin`].
    pub fn builtin_scalar(&self) -> (r: bool)
        ensures
            r == self@.is_builtin(),
    {
        match self {
            TypeKind::Scalar { builtin } => *builtin,
            _ => false,
        }
    }

    /// Tests [`TypeKindView::is_composite`].
    pub fn composite(&self) -> (r: bool)
        ensures
            r == self@.is_composite(),
    {
        match self {
            TypeKind::Object { .. } => true,
            TypeKind::Interface { .. } => true,
            TypeKind::Union { .. } => true,
            _ => false,
        }
    }
}

/// Whether every type that `kind` refers to has a place among `count` types.
pub open spec fn refers_within(kind: TypeKindView, count: nat) -> bool {
    &&& forall|f: int| 0 <= f < kind.fields().len() ==> (#[trigger] kind.fields()[f]).target < count
    &&& forall|m: int| 0 <= m < kind.members().len() ==> (#[trigger] kind.members()[m]) < count
}

/// The first place at or after `from` where `fields` holds a field named
/// `name`, if there is one.
pub open spec fn field_position(
    fields: Seq<SchemaFieldView>,
    name: Seq<char>,
    from: int,
) -> Option<int>
    decreases fields.len() - from,
{
    if from < 0 || from >= fields.len() {
        None
    } else if fields[from].name == name {
        Some(from)
    } else {
        field_position(fields, name, from + 1)
    }
}

/// A found position holds the name, and no earlier one from `from` on does.
pub proof fn lemma_field_position(fields: Seq<SchemaFieldView>, name: Seq<char>, from: int)
    requires
        0 <= from,
    ensures
        match field_position(fields, name, from) {
            Some(at) => from <= at < fields.len() && fields[at].name == name && forall|k: int|
                from <= k < at ==> (#[trigger] fields[k]).name != name,
            None => forall|k: int| from <= k < fields.len() ==> (#[trigger] fields[k]).name != name,
        },
    decreases fields.len() - from,
{
    if from < fields.len() && fields[from].name != name {
        lemma_field_position(fields, name, from + 1);
    }
}

impl SchemaView {
    /// Whether every reference from one type to another stays in the table.
    pub open spec fn well_formed(self) -> bool {
        forall|t: int|
            0 <= t < self.types.len() ==> refers_within(
                (#[trigger] self.types[t]).kind,
                self.types.len(),
            )
    }

    /// The field named `name` of the type at `on`: the first one, should the
    /// type declare the name twice.
    pub open spec fn field_named(self, on: int, name: Seq<char>) -> Option<SchemaFieldView> {
        match field_position(self.types[on].kind.fields(), name, 0) {
            Some(at) => Some(self.types[on].kind.fields()[at]),
            None => None,
        }
    }
}

/// In a well-formed schema a field found by name has its type in the table.
pub proof fn lemma_field_named_within(schema: SchemaView, on: int, name: Seq<char>)
    requires
        schema.well_formed(),
        0 <= on < schema.types.len(),
    ensures
        schema.field_named(on, name) matches Some(field) ==> field.target < schema.types.len(),
{
    lemma_field_position(schema.types[on].kind.fields(), name, 0);
}

impl Schema {
    /// Tests [`SchemaView::well_formed`].
    #[verifier::loop_isolation(false)]
    pub fn is_well_formed(&self) -> (r: bool)
        ensures
            r == self@.well_formed(),
    {
        let count = self.types.len();
        let mut t: usize = 0;
        while t < count
            invariant
                count == self.types@.len(),
                t <= count,
                forall|k: int| 0 <= k < t ==> refers_within((#[trigger] self@.types[k]).kind, count as nat),
            decreases count - t,
        {
            let kind = &self.types[t].kind;
            assert(self@.types[t as int].kind == kind@);
            if let Some(fields) = kind.field_list() {
                let mut f: usize = 0;
                while f < fields.len()
                    invariant
                        f <= fields.len(),
                        forall|k: int| 0 <= k < f ==> (#[trigger] kind@.fields()[k]).target < count,
                    decreases fields.len() - f,
                {
                    assert(kind@.fields()[f as int] == fields@[f as int]@);
                    if fields[f].target >= count {
                        proof {
                            assert(!refers_within(self@.types[t as int].kind, count as nat));
                        }
                        return false;
                    }
                    f = f + 1;
                }
            }
            if let Some(members) = kind.member_list() {
                let mut m: usize = 0;
                while m < members.len()
                    invariant
                        m <= members.len(),
                        forall|k: int| 0 <= k < m ==> (#[trigger] kind@.members()[k]) < count,
                    decreases members.len() - m,
                {
                    if members[m] >= count {
                        proof {
                            assert(kind@.members()[m as int] >= count);
                            assert(!refers_within(self@.types[t as int].kind, count as nat));
                        }
                        return false;
                    }
                    m = m + 1;
                }
            }
            t = t + 1;
        }
        true
    }

    /// Looks up the field named `name` on the type at `on`.
    #[verifier::loop_isolation(false)]
    pub fn find_field(&self, on: usize, name: &String) -> (r: Option<&SchemaField>)
        requires
            on < self@.types.len(),
        ensures
            r matches Some(field) ==> self@.field_named(on as int, name@) == Some(field@),
            r is None ==> self@.field_named(on as int, name@) is None,
    {
        assert(self@.types[on as int].kind == self.types@[on as int].kind@);
        match self.types[on].kind.field_list() {
            None => None,
            Some(fields) => {
                let mut i: usize = 0;
                while i < fields.len()
                    invariant
                        i <= fields.len(),
                        field_position(views(fields@), name@, 0) == field_position(
                            views(fields@),
                            name@,
                            i as int,
                        ),
                    decreases fields.len() - i,
                {
                    assert(views(fields@)[i as int] == fields@[i as int]@);
                    if fields[i].name == *name {
                        return Some(&fields[i]);
                    }
                    i = i + 1;
                }
                None
            },
        }
    }
}

} // verus!
