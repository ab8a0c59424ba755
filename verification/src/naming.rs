//! Names of the definitions and of their fields.

use crate::definitions::{RecordField, RecordFieldView};
use crate::field_type::{TypeDescriptor, TypeShape};
use crate::sequences::{copy_string, views};
use vstd::prelude::*;
use vstd::string::StringExecFns;

verus! {

/// `name` in snake case, as `heck` writes it.
pub uninterp spec fn snake_case(name: Seq<char>) -> Seq<char>;

/// `name` in camel case with a leading capital, as `heck` writes it.
pub uninterp spec fn camel_case(name: Seq<char>) -> Seq<char>;

/// Calls `heck::SnakeCase::to_snake_case` on `name`.
///
/// Trusted: the result is taken to depend on the characters of `name` alone,
/// which is all that [`snake_case`] says of it.
#[verifier::external_body]
pub(crate) fn to_snake_case(name: &str) -> (r: String)
    ensures
        r@ == snake_case(name@),
{
    heck::SnakeCase::to_snake_case(name)
}

/// Calls `heck::CamelCase::to_camel_case` on `name`.
///
/// Trusted: the result is taken to depend on the characters of `name` alone,
/// which is all that [`camel_case`] says of it.
#[verifier::external_body]
pub(crate) fn to_camel_case(name: &str) -> (r: String)
    ensures
        r@ == camel_case(name@),
{
    heck::CamelCase::to_camel_case(name)
}

/// `name`, with an underscore behind it where `reserved` holds it: a name
/// that the target language keeps for itself cannot name a field.
pub open spec fn keyword_replaced(name: Seq<char>, reserved: Seq<Seq<char>>) -> Seq<char> {
    if reserved.contains(name) {
        name + "_"@
    } else {
        name
    }
}

/// Builds [`keyword_replaced`].
pub fn keyword_replace(name: String, reserved: &Vec<String>) -> (r: String)
    ensures
        r@ == keyword_replaced(name@, views(reserved@)),
{
    let mut i: usize = 0;
    while i < reserved.len()
        invariant
            i <= reserved.len(),
            forall|k: int| 0 <= k < i ==> views(reserved@)[k] != name@,
        decreases reserved.len() - i,
    {
        assert(views(reserved@)[i as int] == reserved@[i as int]@);
        if reserved[i] == name {
            return name.concat("_");
        }
        i = i + 1;
    }
    name
}

/// The record field that carries the wire field `wire`, whose name in
/// snake case is `local`: it is named `local`, made safe against
/// `reserved`, and the wire name is kept beside it exactly where it differs
/// from `local`.
pub open spec fn renamed_field(
    local: Seq<char>,
    wire: Seq<char>,
    reserved: Seq<Seq<char>>,
    ty: TypeShape,
) -> RecordFieldView {
    RecordFieldView {
        name: keyword_replaced(local, reserved),
        rename: if local == wire {
            None
        } else {
            Some(wire)
        },
        ty,
        flatten: false,
    }
}

/// Builds [`renamed_field`].
pub fn rename_field(local: String, wire: &String, reserved: &Vec<String>, ty: TypeDescriptor) -> (r:
    RecordField)
    ensures
        r@ == renamed_field(local@, wire@, views(reserved@), ty@),
{
    let rename = if local == *wire {
        None
    } else {
        Some(wire.clone())
    };
    RecordField { name: keyword_replace(local, reserved), rename, ty, flatten: false }
}

/// The field for the wire field `wire`, named in snake case.
pub fn wire_field(wire: &String, reserved: &Vec<String>, ty: TypeDescriptor) -> (r: RecordField)
    ensures
        r@ == renamed_field(snake_case(wire@), wire@, views(reserved@), ty@),
{
    rename_field(to_snake_case(wire.as_str()), wire, reserved, ty)
}

/// `front` followed by `back`.
pub fn join(front: &str, back: &str) -> (r: String)
    ensures
        r@ == front@ + back@,
{
    copy_string(front).concat(back)
}

/// The name of the record for what is selected on the field `output` of the
/// record `parent`.
pub fn nested_name(parent: &str, output: &str) -> (r: String)
    ensures
        r@ == parent@ + camel_case(output@),
{
    let camel = to_camel_case(output);
    join(parent, camel.as_str())
}

} // verus!
