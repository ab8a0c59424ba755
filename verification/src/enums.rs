//! Sum types for the enums in use.

use crate::codegen::render_derives;
use crate::definitions::{
    Definition, DefinitionBody, DefinitionBodyView, DefinitionCategory, DefinitionView,
    EnumVariant, EnumVariantView,
};
use crate::options::{GraphQLClientCodegenOptions, OptionsView};
use crate::schema::{Schema, SchemaView};
use crate::sequences::{lemma_views_push, views};
use crate::used_types::{distinct_within, of_kind, UsedKind, UsedTypes};
use vstd::prelude::*;

verus! {

/// The variants for the declared `values`: each value in the schema's
/// order, then the catch-all. The catch-all is always there, so that a value
/// added to the schema later still has a variant to land in.
pub open spec fn enum_variants(values: Seq<Seq<char>>) -> Seq<EnumVariantView> {
    values.map_values(|value: Seq<char>| EnumVariantView::Value(value)).push(EnumVariantView::Other)
}

/// The sum type for the enum at `id`.
pub open spec fn enum_definition(
    schema: SchemaView,
    options: OptionsView,
    id: usize,
) -> DefinitionView {
    DefinitionView {
        category: DefinitionCategory::Enum,
        name: schema.types[id as int].name,
        derives: options.response_derives,
        body: DefinitionBodyView::Enumeration {
            variants: enum_variants(schema.types[id as int].kind.values()),
        },
    }
}

/// Builds [`enum_definition`].
#[verifier::loop_isolation(false)]
pub fn render_enum(schema: &Schema, options: &GraphQLClientCodegenOptions, id: usize) -> (r:
    Definition)
    requires
        id < schema@.types.len(),
    ensures
        r@ == enum_definition(schema@, options@, id),
{
    let named = &schema.types[id];
    assert(schema@.types[id as int] == named@);
    let mut variants: Vec<EnumVariant> = Vec::new();
    let ghost declared = named@.kind.values();
    let ghost as_value = |value: Seq<char>| EnumVariantView::Value(value);
    if let Some(values) = named.kind.value_list() {
        let mut i: usize = 0;
        while i < values.len()
            invariant
                i <= values.len(),
                views(variants@) =~= declared.take(i as int).map_values(as_value),
            decreases values.len() - i,
        {
            let variant = EnumVariant::Value(values[i].clone());
            proof {
                lemma_views_push(variants@, variant);
                assert(declared[i as int] == values@[i as int]@);
                assert(declared.take(i as int + 1) =~= declared.take(i as int).push(
                    declared[i as int],
                ));
            }
            variants.push(variant);
            i = i + 1;
        }
        proof {
            assert(declared.take(i as int) =~= declared);
        }
    }
    proof {
        assert(views(variants@) =~= declared.map_values(as_value));
        lemma_views_push(variants@, EnumVariant::Other);
    }
    variants.push(EnumVariant::Other);
    Definition {
        category: DefinitionCategory::Enum,
        name: named.name.clone(),
        derives: render_derives(options.all_response_derives()),
        body: DefinitionBody::Enumeration { variants },
    }
}

/// One sum type for each enum in use, in the catalog's order.
#[verifier::loop_isolation(false)]
pub fn generate_enum_definitions(
    schema: &Schema,
    options: &GraphQLClientCodegenOptions,
    all_used_types: &UsedTypes,
) -> (r: Vec<Definition>)
    requires
        distinct_within(all_used_types.types@, schema@.types.len()),
    ensures
        views(r@) == all_used_types.types@.filter(of_kind(schema@, UsedKind::Enum)).map_values(
            |id: usize| enum_definition(schema@, options@, id),
        ),
{
    let enums = all_used_types.enums(schema);
    let ghost definition_of = |id: usize| enum_definition(schema@, options@, id);
    let mut out: Vec<Definition> = Vec::new();
    let mut i: usize = 0;
    while i < enums.len()
        invariant
            i <= enums.len(),
            views(out@) =~= enums@.take(i as int).map_values(definition_of),
        decreases enums.len() - i,
    {
        let definition = render_enum(schema, options, enums[i]);
        proof {
            assert(definition@ == definition_of(enums@[i as int]));
            lemma_views_push(out@, definition);
            assert(enums@.take(i as int + 1) =~= enums@.take(i as int).push(enums@[i as int]));
        }
        out.push(definition);
        i = i + 1;
    }
    proof {
        assert(enums@.take(i as int) =~= enums@);
    }
    out
}

} // verus!
