//! Type qualifiers and the nested container types they stand for.

use crate::error::CodegenError;
use crate::sequences::copy_string;
use vstd::prelude::*;

verus! {

/// One wrapper around a named type, as written in a type reference.
///
/// A reference is held as its qualifiers from the outermost to the innermost:
/// `[T!]!` is `[Required, List, Required]`.
#[derive(Clone, Copy, Debug, PartialEq, Eq, Hash, Structural)]
pub enum GraphqlTypeQualifier {
    Required,
    List,
}

/// A named type inside its containers.
#[derive(Debug, PartialEq, Eq)]
pub enum TypeDescriptor {
    /// The type of that name, never absent.
    Named(String),
    /// The inner type, or nothing.
    Optional(Box<TypeDescriptor>),
    /// Any number of values of the inner type.
    List(Box<TypeDescriptor>),
}

/// The mathematical value of a [`TypeDescriptor`].
pub enum TypeShape {
    Named(Seq<char>),
    Optional(Box<TypeShape>),
    List(Box<TypeShape>),
}

impl TypeDescriptor {
    /// The value of this descriptor, container by container.
    pub open spec fn shape(&self) -> TypeShape
        decreases self,
    {
        match self {
            TypeDescriptor::Named(name) => TypeShape::Named(name@),
            TypeDescriptor::Optional(inner) => TypeShape::Optional(Box::new(inner.shape())),
            TypeDescriptor::List(inner) => TypeShape::List(Box::new(inner.shape())),
        }
    }
}

impl View for TypeDescriptor {
    type V = TypeShape;

    open spec fn view(&self) -> TypeShape {
        self.shape()
    }
}

/// Whether a `Required` stands at `at` and another one directly behind it.
pub open spec fn required_pair(qualifiers: Seq<GraphqlTypeQualifier>, at: int) -> bool {
    &&& 0 <= at
    &&& at + 1 < qualifiers.len()
    &&& qualifiers[at] == GraphqlTypeQualifier::Required
    &&& qualifiers[at + 1] == GraphqlTypeQualifier::Required
}

/// Whether some `Required` directly follows another one.
pub open spec fn double_required(qualifiers: Seq<GraphqlTypeQualifier>) -> bool {
    exists|at: int| required_pair(qualifiers, at)
}

/// The type that `qualifiers`, read from the outside in, make of `base`: a
/// reference is nullable unless a `Required` stands in front of it.
pub open spec fn decorated(base: Seq<char>, qualifiers: Seq<GraphqlTypeQualifier>) -> TypeShape
    decreases qualifiers.len(), 1int,
{
    if qualifiers.len() > 0 && qualifiers[0] == GraphqlTypeQualifier::Required {
        non_null(base, qualifiers.skip(1))
    } else {
        TypeShape::Optional(Box::new(non_null(base, qualifiers)))
    }
}

/// The type that `qualifiers` make of `base` once its nullability is settled:
/// the name itself, or a list of whatever the rest describes.
pub open spec fn non_null(base: Seq<char>, qualifiers: Seq<GraphqlTypeQualifier>) -> TypeShape
    decreases qualifiers.len(), 0int,
{
    if qualifiers.len() == 0 {
        TypeShape::Named(base)
    } else if qualifiers[0] == GraphqlTypeQualifier::List {
        TypeShape::List(Box::new(decorated(base, qualifiers.skip(1))))
    } else {
        non_null(base, qualifiers.skip(1))
    }
}

/// How one more qualifier in front changes what the rest describes.
proof fn lemma_decorated_step(base: Seq<char>, qualifiers: Seq<GraphqlTypeQualifier>)
    requires
        qualifiers.len() > 0,
    ensures
        qualifiers[0] == GraphqlTypeQualifier::List ==> non_null(base, qualifiers)
            == TypeShape::List(Box::new(decorated(base, qualifiers.skip(1)))),
        qualifiers[0] == GraphqlTypeQualifier::Required ==> decorated(base, qualifiers)
            == non_null(base, qualifiers.skip(1)),
        qualifiers[0] == GraphqlTypeQualifier::List ==> decorated(base, qualifiers)
            == TypeShape::Optional(Box::new(non_null(base, qualifiers))),
{
}

/// What no qualifier at all makes of a name.
proof fn lemma_decorated_empty(base: Seq<char>, qualifiers: Seq<GraphqlTypeQualifier>)
    requires
        qualifiers.len() == 0,
    ensures
        non_null(base, qualifiers) == TypeShape::Named(base),
        decorated(base, qualifiers) == TypeShape::Optional(Box::new(TypeShape::Named(base))),
{
}

/// Wraps the type named `name` as `qualifiers` say.
///
/// Fails exactly when two `Required` stand in a row; otherwise the result is
/// [`decorated`].
pub fn decorate_type(name: &str, qualifiers: &[GraphqlTypeQualifier]) -> (r: Result<
    TypeDescriptor,
    CodegenError,
>)
    ensures
        r is Ok <==> !double_required(qualifiers@),
        r matches Ok(t) ==> t@ == decorated(name@, qualifiers@),
        r matches Err(e) ==> e == CodegenError::MalformedQualifiers,
{
    let mut qualified = TypeDescriptor::Named(copy_string(name));
    let mut non_null_context = false;
    let mut i: usize = qualifiers.len();
    let ghost all = qualifiers@;
    proof {
        lemma_decorated_empty(name@, all.skip(i as int));
    }
    // The qualifiers are read from the innermost to the outermost.
    while i > 0
        invariant
            i <= all.len(),
            all == qualifiers@,
            non_null_context <==> (i < all.len() && all[i as int]
                == GraphqlTypeQualifier::Required),
            forall|k: int| i <= k ==> !required_pair(all, k),
            !non_null_context ==> qualified@ == non_null(name@, all.skip(i as int)),
            non_null_context ==> qualified@ == decorated(name@, all.skip(i as int)),
        decreases i,
    {
        let ghost rest = all.skip(i as int);
        i = i - 1;
        let ghost here = all.skip(i as int);
        proof {
            assert(here.skip(1) =~= rest);
            assert(here[0] == all[i as int]);
            lemma_decorated_step(name@, here);
            if rest.len() > 0 {
                assert(rest[0] == all[i as int + 1]);
                lemma_decorated_step(name@, rest);
            }
        }
        match qualifiers[i] {
            GraphqlTypeQualifier::List => {
                if non_null_context {
                    qualified = TypeDescriptor::List(Box::new(qualified));
                    non_null_context = false;
                } else {
                    proof {
                        if rest.len() == 0 {
                            lemma_decorated_empty(name@, rest);
                        }
                    }
                    let element = TypeDescriptor::Optional(Box::new(qualified));
                    assert(element@ == decorated(name@, rest));
                    qualified = TypeDescriptor::List(Box::new(element));
                }
            },
            GraphqlTypeQualifier::Required => {
                if non_null_context {
                    proof {
                        assert(required_pair(all, i as int));
                    }
                    return Err(CodegenError::MalformedQualifiers);
                }
                non_null_context = true;
            },
        }
    }
    proof {
        assert(all.skip(0) =~= all);
        if all.len() > 0 {
            lemma_decorated_step(name@, all);
        } else {
            lemma_decorated_empty(name@, all);
        }
    }
    if !non_null_context {
        qualified = TypeDescriptor::Optional(Box::new(qualified));
    }
    Ok(qualified)
}

} // verus!
