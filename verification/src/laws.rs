//! What holds of every schema and every operation.

use crate::codegen::{fragment_shapes, on_field};
use crate::definitions::{DefinitionBodyView, DefinitionCategory, DefinitionView};
use crate::field_type::{
    decorated, double_required, non_null, required_pair, GraphqlTypeQualifier, TypeShape,
};
use crate::options::OptionsView;
use crate::query::{OperationView, SelectionView, VariableView};
use crate::schema::{SchemaFieldView, SchemaView, TypeKindView};
use crate::selection::{entries_shape, entry_shape, selection_shape, ShapePartsView};
use crate::coverage::{
    covers, extends, fields_covered, fragment_covered, fragments_closed, inputs_closed, recordable,
    selection_covered, selections_covered,
};
use crate::used_types::{
    used_types_of, with_fields, with_selection, with_selections, with_type, with_variables,
    UsedTypes, UsedTypesView,
};
use vstd::prelude::*;

verus! {

/// A bare name is nullable.
pub proof fn lemma_bare_name_is_optional(base: Seq<char>)
    ensures
        decorated(base, Seq::empty()) == TypeShape::Optional(Box::new(TypeShape::Named(base))),
{
}

/// `Required` in front of a reference that does not itself begin with
/// `Required` takes away its outermost optional layer and nothing else.
pub proof fn lemma_required_strips_optional(
    base: Seq<char>,
    qualifiers: Seq<GraphqlTypeQualifier>,
)
    requires
        qualifiers.len() == 0 || qualifiers[0] != GraphqlTypeQualifier::Required,
    ensures
        decorated(base, qualifiers) == TypeShape::Optional(
            Box::new(decorated(base, seq![GraphqlTypeQualifier::Required] + qualifiers)),
        ),
{
    let required = seq![GraphqlTypeQualifier::Required] + qualifiers;
    assert(required.skip(1) =~= qualifiers);
}

/// `List` in front of a reference makes a nullable list of what the
/// reference describes.
pub proof fn lemma_list_wraps(base: Seq<char>, qualifiers: Seq<GraphqlTypeQualifier>)
    ensures
        decorated(base, seq![GraphqlTypeQualifier::List] + qualifiers) == TypeShape::Optional(
            Box::new(TypeShape::List(Box::new(decorated(base, qualifiers)))),
        ),
{
    let listed = seq![GraphqlTypeQualifier::List] + qualifiers;
    assert(listed.skip(1) =~= qualifiers);
    assert(non_null(base, listed) == TypeShape::List(Box::new(decorated(base, listed.skip(1)))));
}

/// A qualifier in front makes a sequence malformed exactly where it puts a
/// `Required` before a `Required`.
pub proof fn lemma_malformed_by_prefix(
    qualifier: GraphqlTypeQualifier,
    qualifiers: Seq<GraphqlTypeQualifier>,
)
    ensures
        double_required(seq![qualifier] + qualifiers) <==> double_required(qualifiers) || (
        qualifier == GraphqlTypeQualifier::Required && qualifiers.len() > 0 && qualifiers[0]
            == GraphqlTypeQualifier::Required),
{
    let longer = seq![qualifier] + qualifiers;
    if double_required(qualifiers) {
        let at = choose|at: int| required_pair(qualifiers, at);
        assert(longer[at + 1] == qualifiers[at]);
        assert(longer[at + 2] == qualifiers[at + 1]);
        assert(required_pair(longer, at + 1));
    }
    if qualifier == GraphqlTypeQualifier::Required && qualifiers.len() > 0 && qualifiers[0]
        == GraphqlTypeQualifier::Required {
        assert(longer[1] == qualifiers[0]);
        assert(required_pair(longer, 0));
    }
    if double_required(longer) {
        let at = choose|at: int| required_pair(longer, at);
        if at > 0 {
            assert(longer[at] == qualifiers[at - 1]);
            assert(longer[at + 1] == qualifiers[at]);
            assert(required_pair(qualifiers, at - 1));
        } else {
            assert(longer[1] == qualifiers[0]);
        }
    }
}

/// Collecting twice gives the same catalog, in content and in order: any
/// two results of the collection for one schema and one operation agree.
pub proof fn lemma_collection_is_idempotent(
    schema: SchemaView,
    operation: OperationView,
    first: UsedTypes,
    second: UsedTypes,
)
    requires
        first@ == used_types_of(schema, operation),
        second@ == used_types_of(schema, operation),
    ensures
        first.types@ == second.types@,
        first.fragments@ == second.fragments@,
{
}

/// A spread adds no definition to the shape it stands in, on whatever type
/// it is made: the fragment's record is referred to by name.
pub proof fn lemma_spread_adds_no_definition(
    schema: SchemaView,
    operation: OperationView,
    options: OptionsView,
    category: DefinitionCategory,
    record: Seq<char>,
    fragment: usize,
    on: usize,
    parts: ShapePartsView,
)
    ensures
        entry_shape(
            schema,
            operation,
            options,
            category,
            record,
            SelectionView::FragmentSpread { fragment },
            on,
            parts,
        ) matches Ok(after) ==> after.nested == parts.nested,
{
}

/// Where the catalog names no fragment twice, no two of the fragment shapes
/// are for the same fragment: however often a fragment is spread, it has
/// one shape.
pub proof fn lemma_one_shape_for_each_fragment(
    schema: SchemaView,
    operation: OperationView,
    options: OptionsView,
    ids: Seq<usize>,
    first: int,
    second: int,
)
    requires
        ids.no_duplicates(),
        0 <= first < ids.len(),
        0 <= second < ids.len(),
        fragment_shapes(schema, operation, options, ids)[first].fragment == fragment_shapes(
            schema,
            operation,
            options,
            ids,
        )[second].fragment,
    ensures
        first == second,
        fragment_shapes(schema, operation, options, ids).len() == ids.len(),
{
}

/// Whether `selection`, made on the type at `on`, is type-conditioned: an
/// inline fragment, or a spread of a fragment on another type.
pub open spec fn is_branch(operation: OperationView, selection: SelectionView, on: usize) -> bool {
    match selection {
        SelectionView::Field { .. } => false,
        SelectionView::FragmentSpread { fragment } => fragment < operation.fragments.len()
            && operation.fragments[fragment as int].on != on,
        SelectionView::InlineFragment { .. } => true,
    }
}

/// Whether some entry of `selections` from `from` on is type-conditioned.
pub open spec fn has_branch(
    operation: OperationView,
    selections: Seq<SelectionView>,
    from: int,
    on: usize,
) -> bool {
    exists|i: int| from <= i < selections.len() && is_branch(operation, #[trigger] selections[i], on)
}

/// Whether `definitions` is empty or begins with a record.
pub open spec fn record_first(definitions: Seq<DefinitionView>) -> bool {
    definitions.len() == 0 || definitions[0].body is Record
}

/// What the entries from `from` on add: variants exactly where one of them
/// is type-conditioned, and nested definitions that begin with a record.
proof fn lemma_entries_variants(
    schema: SchemaView,
    operation: OperationView,
    options: OptionsView,
    category: DefinitionCategory,
    record: Seq<char>,
    selections: Seq<SelectionView>,
    from: nat,
    on: usize,
    parts: ShapePartsView,
)
    requires
        record_first(parts.nested),
    ensures
        entries_shape(schema, operation, options, category, record, selections, from, on, parts)
            matches Ok(after) ==> record_first(after.nested) && (after.variants.len() > 0 <==> (
        parts.variants.len() > 0 || has_branch(operation, selections, from as int, on))),
    decreases selections.len() - from,
{
    if from < selections.len() {
        let selection = selections[from as int];
        match entry_shape(schema, operation, options, category, record, selection, on, parts) {
            Err(_) => {},
            Ok(more) => {
                assert(record_first(more.nested));
                assert(more.variants.len() > 0 <==> (parts.variants.len() > 0 || is_branch(
                    operation,
                    selection,
                    on,
                )));
                lemma_entries_variants(
                    schema,
                    operation,
                    options,
                    category,
                    record,
                    selections,
                    from + 1,
                    on,
                    more,
                );
                if has_branch(operation, selections, from as int, on) {
                    let i = choose|i: int|
                        from <= i < selections.len() && is_branch(
                            operation,
                            #[trigger] selections[i],
                            on,
                        );
                    if i != from {
                        assert(has_branch(operation, selections, from as int + 1, on));
                    }
                }
            },
        }
    }
}

/// The shape of a selection set begins with its record, and a tagged union
/// follows the record exactly where some entry of the set is
/// type-conditioned: never without one, always with one.
pub proof fn lemma_union_exactly_for_branches(
    schema: SchemaView,
    operation: OperationView,
    options: OptionsView,
    category: DefinitionCategory,
    record: Seq<char>,
    selections: Seq<SelectionView>,
    on: usize,
)
    ensures
        selection_shape(schema, operation, options, category, record, selections, on) matches Ok(
            definitions,
        ) ==> definitions.len() >= 1 && definitions[0].body is Record && definitions[0].name
            == record && (has_branch(operation, selections, 0, on) <==> definitions.len() >= 2
            && definitions[1].body is TaggedUnion),
{
    lemma_entries_variants(
        schema,
        operation,
        options,
        category,
        record,
        selections,
        0,
        on,
        ShapePartsView::empty(),
    );
}

/// How many entries of `selections` from `from` on are type-conditioned.
pub open spec fn branch_count(
    operation: OperationView,
    selections: Seq<SelectionView>,
    from: int,
    on: usize,
) -> nat
    decreases selections.len() - from,
{
    if from < 0 || from >= selections.len() {
        0
    } else {
        let here: nat = if is_branch(operation, selections[from], on) {
            1
        } else {
            0
        };
        here + branch_count(operation, selections, from + 1, on)
    }
}

/// No more entries are type-conditioned than there are entries.
proof fn lemma_branch_count_bound(
    operation: OperationView,
    selections: Seq<SelectionView>,
    from: int,
    on: usize,
)
    requires
        0 <= from <= selections.len(),
    ensures
        branch_count(operation, selections, from, on) <= selections.len() - from,
    decreases selections.len() - from,
{
    if from < selections.len() {
        lemma_branch_count_bound(operation, selections, from + 1, on);
    }
}

/// Each entry from `from` on adds one variant if it is type-conditioned and
/// one field if it is not.
proof fn lemma_entries_count(
    schema: SchemaView,
    operation: OperationView,
    options: OptionsView,
    category: DefinitionCategory,
    record: Seq<char>,
    selections: Seq<SelectionView>,
    from: nat,
    on: usize,
    parts: ShapePartsView,
)
    requires
        from <= selections.len(),
    ensures
        entries_shape(schema, operation, options, category, record, selections, from, on, parts)
            matches Ok(after) ==> after.variants.len() == parts.variants.len() + branch_count(
            operation,
            selections,
            from as int,
            on,
        ) && after.fields.len() + branch_count(operation, selections, from as int, on)
            == parts.fields.len() + selections.len() - from,
    decreases selections.len() - from,
{
    if from < selections.len() {
        let selection = selections[from as int];
        match entry_shape(schema, operation, options, category, record, selection, on, parts) {
            Err(_) => {},
            Ok(more) => {
                lemma_entries_count(
                    schema,
                    operation,
                    options,
                    category,
                    record,
                    selections,
                    from + 1,
                    on,
                    more,
                );
            },
        }
    }
}

/// Every entry of a selection set makes exactly one member of its shape:
/// a type-conditioned entry one variant of the tagged union, any other
/// entry one field of the record. Beside these the record has only the
/// field that holds the union, where there is one, and the union is told
/// apart by the schema's discriminant.
pub proof fn lemma_one_member_for_each_entry(
    schema: SchemaView,
    operation: OperationView,
    options: OptionsView,
    category: DefinitionCategory,
    record: Seq<char>,
    selections: Seq<SelectionView>,
    on: usize,
)
    ensures
        selection_shape(schema, operation, options, category, record, selections, on) matches Ok(
            definitions,
        ) ==> {
            let branches = branch_count(operation, selections, 0, on);
            &&& branches <= selections.len()
            &&& definitions.len() >= 1
            &&& definitions[0].category == category
            &&& definitions[0].body matches DefinitionBodyView::Record { fields, accessors }
            &&& accessors.len() == 0
            &&& fields.len() == selections.len() - branches + if branches > 0 {
                1int
            } else {
                0int
            }
            &&& branches > 0 ==> {
                &&& definitions.len() >= 2
                &&& fields.last() == on_field(record)
                &&& definitions[1].name == record + "On"@
                &&& definitions[1].category == category
                &&& definitions[1].body matches DefinitionBodyView::TaggedUnion { tag, variants }
                &&& tag == schema.discriminant
                &&& variants.len() == branches
            }
        },
{
    lemma_branch_count_bound(operation, selections, 0, on);
    lemma_entries_count(
        schema,
        operation,
        options,
        category,
        record,
        selections,
        0,
        on,
        ShapePartsView::empty(),
    );
}

/// Whether `least` holds all of `ids`.
pub open spec fn within(ids: Seq<usize>, least: Seq<usize>) -> bool {
    forall|id: usize| ids.contains(id) ==> least.contains(id)
}

/// One more item that `least` holds keeps a sequence within `least`.
proof fn lemma_push_within(ids: Seq<usize>, id: usize, least: Seq<usize>)
    requires
        within(ids, least),
        least.contains(id),
    ensures
        within(ids.push(id), least),
{
    assert forall|other: usize| ids.push(id).contains(other) implies least.contains(other) by {
        let at = choose|at: int| 0 <= at < ids.push(id).len() && ids.push(id)[at] == other;
        if at < ids.len() {
            assert(ids[at] == other);
        }
    }
}

/// Walking from a type that `least` accounts for adds only what `least`
/// holds, where `least` holds what its input objects use.
proof fn lemma_with_type_least(
    schema: SchemaView,
    target: usize,
    types: Seq<usize>,
    fuel: nat,
    least: Seq<usize>,
)
    requires
        within(types, least),
        inputs_closed(schema, least, Set::empty()),
        recordable(schema, target) ==> least.contains(target),
    ensures
        within(with_type(schema, target, types, fuel), least),
    decreases fuel, 0nat, 0nat,
{
    if !types.contains(target) && target < schema.types.len() {
        match schema.types[target as int].kind {
            TypeKindView::Scalar { builtin } => {
                if !builtin {
                    lemma_push_within(types, target, least);
                }
            },
            TypeKindView::Enum { values } => {
                lemma_push_within(types, target, least);
            },
            TypeKindView::InputObject { fields } => {
                lemma_push_within(types, target, least);
                if fuel > 0 {
                    let at = choose|at: int| 0 <= at < least.len() && least[at] == target;
                    assert(fields_covered(schema, least[at], least));
                    lemma_with_fields_least(
                        schema,
                        fields,
                        0,
                        types.push(target),
                        (fuel - 1) as nat,
                        least,
                    );
                }
            },
            _ => {},
        }
    }
}

/// Walking the fields of an input object that `least` accounts for adds
/// only what `least` holds.
proof fn lemma_with_fields_least(
    schema: SchemaView,
    fields: Seq<SchemaFieldView>,
    from: nat,
    types: Seq<usize>,
    fuel: nat,
    least: Seq<usize>,
)
    requires
        within(types, least),
        inputs_closed(schema, least, Set::empty()),
        forall|f: int|
            from <= f < fields.len() && recordable(schema, (#[trigger] fields[f]).target)
                ==> least.contains(fields[f].target),
    ensures
        within(with_fields(schema, fields, from, types, fuel), least),
    decreases fuel, 1nat, fields.len() - from,
{
    if from < fields.len() {
        lemma_with_type_least(schema, fields[from as int].target, types, fuel, least);
        lemma_with_fields_least(
            schema,
            fields,
            from + 1,
            with_type(schema, fields[from as int].target, types, fuel),
            fuel,
            least,
        );
    }
}

/// Whether `least` holds what an operation's fragments and input objects
/// use in turn.
pub open spec fn closed(schema: SchemaView, operation: OperationView, least: UsedTypesView) -> bool {
    &&& fragments_closed(schema, operation, least, Set::empty())
    &&& inputs_closed(schema, least.types, Set::empty())
}

/// Walking a selection that `least` covers adds only what `least` holds.
proof fn lemma_with_selection_least(
    schema: SchemaView,
    operation: OperationView,
    selection: SelectionView,
    on: usize,
    used: UsedTypesView,
    fuel: nat,
    least: UsedTypesView,
)
    requires
        extends(used, least),
        closed(schema, operation, least),
        selection_covered(schema, operation, selection, on, least),
    ensures
        extends(with_selection(schema, operation, selection, on, used, fuel), least),
    decreases fuel, selection, 0nat,
{
    match selection {
        SelectionView::Field { name, alias, selection_set } => {
            if on < schema.types.len() {
                match schema.field_named(on as int, name) {
                    None => {},
                    Some(field) => {
                        if field.target < schema.types.len() {
                            if schema.types[field.target as int].kind.is_composite() {
                                lemma_with_selections_least(
                                    schema,
                                    operation,
                                    selection_set,
                                    0,
                                    field.target,
                                    used,
                                    fuel,
                                    least,
                                );
                            } else {
                                lemma_with_type_least(
                                    schema,
                                    field.target,
                                    used.types,
                                    schema.types.len(),
                                    least.types,
                                );
                            }
                        }
                    },
                }
            }
        },
        SelectionView::FragmentSpread { fragment } => {
            if fragment < operation.fragments.len() && !used.fragments.contains(fragment) {
                let entered = UsedTypesView {
                    types: used.types,
                    fragments: used.fragments.push(fragment),
                };
                lemma_push_within(used.fragments, fragment, least.fragments);
                if fuel > 0 {
                    let at = choose|at: int|
                        0 <= at < least.fragments.len() && least.fragments[at] == fragment;
                    assert(fragment_covered(schema, operation, least.fragments[at], least));
                    lemma_with_selections_least(
                        schema,
                        operation,
                        operation.fragments[fragment as int].selection_set,
                        0,
                        operation.fragments[fragment as int].on,
                        entered,
                        (fuel - 1) as nat,
                        least,
                    );
                }
            }
        },
        SelectionView::InlineFragment { on: condition, selection_set } => {
            lemma_with_selections_least(
                schema,
                operation,
                selection_set,
                0,
                condition,
                used,
                fuel,
                least,
            );
        },
    }
}

/// Walking a selection set that `least` covers adds only what `least`
/// holds.
proof fn lemma_with_selections_least(
    schema: SchemaView,
    operation: OperationView,
    selections: Seq<SelectionView>,
    from: nat,
    on: usize,
    used: UsedTypesView,
    fuel: nat,
    least: UsedTypesView,
)
    requires
        extends(used, least),
        closed(schema, operation, least),
        selections_covered(schema, operation, selections, from, on, least),
    ensures
        extends(with_selections(schema, operation, selections, from, on, used, fuel), least),
    decreases fuel, selections, selections.len() - from,
{
    if from < selections.len() {
        lemma_with_selection_least(
            schema,
            operation,
            selections[from as int],
            on,
            used,
            fuel,
            least,
        );
        lemma_with_selections_least(
            schema,
            operation,
            selections,
            from + 1,
            on,
            with_selection(schema, operation, selections[from as int], on, used, fuel),
            fuel,
            least,
        );
    }
}

/// Walking the variables that `least` accounts for adds only what `least`
/// holds.
proof fn lemma_with_variables_least(
    schema: SchemaView,
    variables: Seq<VariableView>,
    from: nat,
    types: Seq<usize>,
    least: Seq<usize>,
)
    requires
        within(types, least),
        inputs_closed(schema, least, Set::empty()),
        forall|v: int|
            from <= v < variables.len() && recordable(schema, (#[trigger] variables[v]).target)
                ==> least.contains(variables[v].target),
    ensures
        within(with_variables(schema, variables, from, types), least),
    decreases variables.len() - from,
{
    if from < variables.len() {
        lemma_with_type_least(
            schema,
            variables[from as int].target,
            types,
            schema.types.len(),
            least,
        );
        lemma_with_variables_least(
            schema,
            variables,
            from + 1,
            with_type(schema, variables[from as int].target, types, schema.types.len()),
            least,
        );
    }
}

/// The catalog holds nothing that the operation does not use: whatever
/// lacks nothing that the operation uses holds all of the catalog. With
/// what the collection ensures, the catalog is the least such set.
pub proof fn lemma_catalog_is_least(schema: SchemaView, operation: OperationView, other: UsedTypesView)
    requires
        covers(schema, operation, other),
    ensures
        extends(used_types_of(schema, operation), other),
{
    let nothing = UsedTypesView { types: Seq::empty(), fragments: Seq::empty() };
    lemma_with_selections_least(
        schema,
        operation,
        operation.selection_set,
        0,
        operation.root,
        nothing,
        operation.fragments.len(),
        other,
    );
    let selected = with_selections(
        schema,
        operation,
        operation.selection_set,
        0,
        operation.root,
        nothing,
        operation.fragments.len(),
    );
    lemma_with_variables_least(schema, operation.variables, 0, selected.types, other.types);
}

} // verus!
