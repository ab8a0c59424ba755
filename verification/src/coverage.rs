//! What it means for a catalog to lack nothing that an operation uses.

use crate::query::{OperationView, SelectionView};
use crate::schema::SchemaView;
use crate::used_types::UsedTypesView;
use vstd::prelude::*;

verus! {

/// Whether a use of the type at `id` belongs in the catalog.
pub open spec fn recordable(schema: SchemaView, id: usize) -> bool {
    id < schema.types.len() && schema.types[id as int].kind.is_recorded()
}

/// Whether `types` holds the type of every field of the type at `id` that
/// belongs in the catalog.
pub open spec fn fields_covered(schema: SchemaView, id: usize, types: Seq<usize>) -> bool {
    forall|f: int|
        0 <= f < schema.types[id as int].kind.fields().len() && recordable(
            schema,
            (#[trigger] schema.types[id as int].kind.fields()[f]).target,
        ) ==> types.contains(schema.types[id as int].kind.fields()[f].target)
}

/// Whether `types` holds, for each input object in it but those in
/// `pending`, what the fields of that input object use.
pub open spec fn inputs_closed(schema: SchemaView, types: Seq<usize>, pending: Set<usize>) -> bool {
    forall|i: int|
        0 <= i < types.len() && (#[trigger] types[i]) < schema.types.len()
            && schema.types[types[i] as int].kind is InputObject && !pending.contains(types[i])
            ==> fields_covered(schema, types[i], types)
}

/// Whether `used` holds what `selection`, made on the type at `on`, uses:
/// the type of a leaf field if it belongs in the catalog, the fragment of a
/// spread, and what the entries below a composite field or an inline
/// fragment use. A field that `on` lacks and a spread of no fragment use
/// nothing.
pub open spec fn selection_covered(
    schema: SchemaView,
    operation: OperationView,
    selection: SelectionView,
    on: usize,
    used: UsedTypesView,
) -> bool
    decreases selection, 0nat,
{
    match selection {
        SelectionView::Field { name, alias, selection_set } => {
            on < schema.types.len() ==> match schema.field_named(on as int, name) {
                None => true,
                Some(field) => if field.target >= schema.types.len() {
                    true
                } else if schema.types[field.target as int].kind.is_composite() {
                    selections_covered(schema, operation, selection_set, 0, field.target, used)
                } else {
                    recordable(schema, field.target) ==> used.types.contains(field.target)
                },
            }
        },
        SelectionView::FragmentSpread { fragment } => fragment < operation.fragments.len()
            ==> used.fragments.contains(fragment),
        SelectionView::InlineFragment { on: condition, selection_set } => selections_covered(
            schema,
            operation,
            selection_set,
            0,
            condition,
            used,
        ),
    }
}

/// [`selection_covered`] of every entry from `from` on.
pub open spec fn selections_covered(
    schema: SchemaView,
    operation: OperationView,
    selections: Seq<SelectionView>,
    from: nat,
    on: usize,
    used: UsedTypesView,
) -> bool
    decreases selections, selections.len() - from,
{
    if from >= selections.len() {
        true
    } else {
        selection_covered(schema, operation, selections[from as int], on, used)
            && selections_covered(schema, operation, selections, from + 1, on, used)
    }
}

/// Whether `used` holds what the selection set of the fragment at
/// `fragment` uses.
pub open spec fn fragment_covered(
    schema: SchemaView,
    operation: OperationView,
    fragment: usize,
    used: UsedTypesView,
) -> bool {
    selections_covered(
        schema,
        operation,
        operation.fragments[fragment as int].selection_set,
        0,
        operation.fragments[fragment as int].on,
        used,
    )
}

/// Whether `used` holds, for each fragment in it but those in `pending`,
/// what that fragment uses.
pub open spec fn fragments_closed(
    schema: SchemaView,
    operation: OperationView,
    used: UsedTypesView,
    pending: Set<usize>,
) -> bool {
    forall|i: int|
        0 <= i < used.fragments.len() && (#[trigger] used.fragments[i]) < operation.fragments.len()
            && !pending.contains(used.fragments[i]) ==> fragment_covered(
            schema,
            operation,
            used.fragments[i],
            used,
        )
}

/// Whether `used` lacks nothing that `operation` uses: it holds what the
/// root selection set uses, what each variable's type is if that belongs
/// in the catalog, and with each fragment and each input object also what
/// these in turn use.
pub open spec fn covers(schema: SchemaView, operation: OperationView, used: UsedTypesView) -> bool {
    &&& selections_covered(schema, operation, operation.selection_set, 0, operation.root, used)
    &&& forall|v: int|
        0 <= v < operation.variables.len() && recordable(
            schema,
            (#[trigger] operation.variables[v]).target,
        ) ==> used.types.contains(operation.variables[v].target)
    &&& fragments_closed(schema, operation, used, Set::empty())
    &&& inputs_closed(schema, used.types, Set::empty())
}

/// Whether `more` holds all that `used` holds.
pub open spec fn extends(used: UsedTypesView, more: UsedTypesView) -> bool {
    &&& forall|id: usize| used.types.contains(id) ==> more.types.contains(id)
    &&& forall|id: usize| used.fragments.contains(id) ==> more.fragments.contains(id)
}

/// What a catalog covers, a larger one covers too.
pub proof fn lemma_selection_covered_grows(
    schema: SchemaView,
    operation: OperationView,
    selection: SelectionView,
    on: usize,
    used: UsedTypesView,
    more: UsedTypesView,
)
    requires
        selection_covered(schema, operation, selection, on, used),
        extends(used, more),
    ensures
        selection_covered(schema, operation, selection, on, more),
    decreases selection, 0nat,
{
    match selection {
        SelectionView::Field { name, alias, selection_set } => {
            if on < schema.types.len() {
                match schema.field_named(on as int, name) {
                    None => {},
                    Some(field) => {
                        if field.target < schema.types.len() && schema.types[field.target as int].kind.is_composite() {
                            lemma_selections_covered_grow(
                                schema,
                                operation,
                                selection_set,
                                0,
                                field.target,
                                used,
                                more,
                            );
                        }
                    },
                }
            }
        },
        SelectionView::FragmentSpread { fragment } => {},
        SelectionView::InlineFragment { on: condition, selection_set } => {
            lemma_selections_covered_grow(
                schema,
                operation,
                selection_set,
                0,
                condition,
                used,
                more,
            );
        },
    }
}

/// What a catalog covers, a larger one covers too.
pub proof fn lemma_selections_covered_grow(
    schema: SchemaView,
    operation: OperationView,
    selections: Seq<SelectionView>,
    from: nat,
    on: usize,
    used: UsedTypesView,
    more: UsedTypesView,
)
    requires
        selections_covered(schema, operation, selections, from, on, used),
        extends(used, more),
    ensures
        selections_covered(schema, operation, selections, from, on, more),
    decreases selections, selections.len() - from,
{
    if from < selections.len() {
        lemma_selection_covered_grows(schema, operation, selections[from as int], on, used, more);
        lemma_selections_covered_grow(schema, operation, selections, from + 1, on, used, more);
    }
}

/// Fragments that were covered stay covered as the catalog grows.
pub proof fn lemma_fragments_closed_grow(
    schema: SchemaView,
    operation: OperationView,
    used: UsedTypesView,
    more: UsedTypesView,
    pending: Set<usize>,
)
    requires
        fragments_closed(schema, operation, used, pending),
        extends(used, more),
        forall|id: usize|
            more.fragments.contains(id) && !used.fragments.contains(id) ==> pending.contains(id),
    ensures
        fragments_closed(schema, operation, more, pending),
{
    assert forall|i: int|
        0 <= i < more.fragments.len() && (#[trigger] more.fragments[i]) < operation.fragments.len()
            && !pending.contains(more.fragments[i]) implies fragment_covered(
        schema,
        operation,
        more.fragments[i],
        more,
    ) by {
        let id = more.fragments[i];
        assert(more.fragments.contains(id));
        assert(used.fragments.contains(id));
        let j = choose|j: int| 0 <= j < used.fragments.len() && used.fragments[j] == id;
        assert(fragment_covered(schema, operation, used.fragments[j], used));
        lemma_selections_covered_grow(
            schema,
            operation,
            operation.fragments[id as int].selection_set,
            0,
            operation.fragments[id as int].on,
            used,
            more,
        );
    }
}

/// Input objects that were covered stay covered as the catalog grows.
pub proof fn lemma_inputs_closed_grow(
    schema: SchemaView,
    types: Seq<usize>,
    more: Seq<usize>,
    pending: Set<usize>,
)
    requires
        inputs_closed(schema, types, pending),
        forall|id: usize| types.contains(id) ==> more.contains(id),
        forall|id: usize| more.contains(id) && !types.contains(id) ==> pending.contains(id) || !(
        id < schema.types.len() && schema.types[id as int].kind is InputObject),
    ensures
        inputs_closed(schema, more, pending),
{
    assert forall|i: int|
        0 <= i < more.len() && (#[trigger] more[i]) < schema.types.len()
            && schema.types[more[i] as int].kind is InputObject && !pending.contains(
            more[i],
        ) implies fields_covered(schema, more[i], more) by {
        let id = more[i];
        assert(more.contains(id));
        assert(types.contains(id));
        let j = choose|j: int| 0 <= j < types.len() && types[j] == id;
        assert(fields_covered(schema, types[j], types));
    }
}

} // verus!
