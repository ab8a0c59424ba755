use graphql_shapes::error::CodegenError;
use graphql_shapes::field_type::{decorate_type, GraphqlTypeQualifier, TypeDescriptor};

fn named(name: &str) -> TypeDescriptor {
    TypeDescriptor::Named(name.to_string())
}

fn optional(inner: TypeDescriptor) -> TypeDescriptor {
    TypeDescriptor::Optional(Box::new(inner))
}

fn list(inner: TypeDescriptor) -> TypeDescriptor {
    TypeDescriptor::List(Box::new(inner))
}

use GraphqlTypeQualifier::{List, Required};

#[test]
fn no_qualifier_is_optional() {
    assert_eq!(decorate_type("T", &[]), Ok(optional(named("T"))));
}

#[test]
fn required_alone_is_the_name() {
    assert_eq!(decorate_type("T", &[Required]), Ok(named("T")));
}

#[test]
fn double_required_is_malformed() {
    assert_eq!(decorate_type("T", &[Required, Required]), Err(CodegenError::MalformedQualifiers));
}

#[test]
fn list_alone_is_optional_list_of_optional() {
    assert_eq!(decorate_type("T", &[List]), Ok(optional(list(optional(named("T"))))));
}

#[test]
fn list_then_required_is_optional_list_of_required() {
    // `[T!]`: the list is nullable, its items are not.
    assert_eq!(decorate_type("T", &[List, Required]), Ok(optional(list(named("T")))));
}

#[test]
fn required_then_list_is_required_list_of_optional() {
    // `[T]!`: the list is not nullable, its items are.
    assert_eq!(decorate_type("T", &[Required, List]), Ok(list(optional(named("T")))));
}

#[test]
fn required_list_required_is_required_list_of_required() {
    assert_eq!(decorate_type("T", &[Required, List, Required]), Ok(list(named("T"))));
}

#[test]
fn nested_lists_keep_each_level() {
    // `[[T!]]!`
    assert_eq!(
        decorate_type("T", &[Required, List, List, Required]),
        Ok(list(optional(list(named("T")))))
    );
}

#[test]
fn double_required_inside_is_malformed() {
    assert_eq!(
        decorate_type("T", &[List, Required, Required]),
        Err(CodegenError::MalformedQualifiers)
    );
    assert_eq!(
        decorate_type("T", &[Required, Required, List]),
        Err(CodegenError::MalformedQualifiers)
    );
}

#[test]
fn decoration_is_repeatable() {
    let qualifiers = [List, Required, List];
    assert_eq!(decorate_type("Item", &qualifiers), decorate_type("Item", &qualifiers));
}
