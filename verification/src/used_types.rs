//! The catalog of what an operation uses: every custom scalar, enum, input
//! object and fragment that its selections and variables reach.

use crate::coverage::{
    covers, extends, fields_covered, fragment_covered, fragments_closed, inputs_closed,
    lemma_fragments_closed_grow, lemma_inputs_closed_grow, lemma_selection_covered_grows,
    lemma_selections_covered_grow, recordable, selection_covered, selections_covered,
};
use crate::query::{
    lemma_fragments_within, lemma_selection_view, lemma_selections_within, selection_within,
    selections_within, Operation, OperationView, Selection, SelectionView, VariableView,
};
use crate::schema::{
    lemma_field_named_within, Schema, SchemaFieldView, SchemaView, TypeKind, TypeKindView,
};
use crate::sequences::{holds, views};
use vstd::prelude::*;

verus! {

/// The types and fragments that an operation uses, each once, in the order
/// in which the traversal first met them.
#[derive(Debug, Clone, PartialEq, Eq)]
pub struct UsedTypes {
    pub types: Vec<usize>,
    pub fragments: Vec<usize>,
}

/// The mathematical value of an [`UsedTypes`].
pub struct UsedTypesView {
    pub types: Seq<usize>,
    pub fragments: Seq<usize>,
}

impl View for UsedTypes {
    type V = UsedTypesView;

    open spec fn view(&self) -> UsedTypesView {
        UsedTypesView { types: self.types@, fragments: self.fragments@ }
    }
}

/// Whether `ids` names places among `count` items, none of them twice.
pub open spec fn distinct_within(ids: Seq<usize>, count: nat) -> bool {
    &&& ids.no_duplicates()
    &&& forall|i: int| 0 <= i < ids.len() ==> (#[trigger] ids[i]) < count
}

/// No more than `count` distinct places exist among `count` items.
pub proof fn lemma_distinct_within_len(ids: Seq<usize>, count: nat)
    requires
        distinct_within(ids, count),
    ensures
        ids.len() <= count,
{
    let places = ids.map_values(|id: usize| id as int);
    assert(places.no_duplicates()) by {
        assert forall|i: int, j: int|
            0 <= i < places.len() && 0 <= j < places.len() && i != j implies places[i]
            != places[j] by {
            assert(ids[i] != ids[j]);
        }
    }
    places.unique_seq_to_set();
    vstd::set_lib::lemma_int_range(0, count as int);
    assert(places.to_set().subset_of(vstd::set_lib::set_int_range(0, count as int))) by {
        assert forall|p: int| places.to_set().contains(p) implies vstd::set_lib::set_int_range(
            0,
            count as int,
        ).contains(p) by {
            let i = choose|i: int| 0 <= i < places.len() && places[i] == p;
            assert(ids[i] < count);
        }
    }
    vstd::set_lib::lemma_len_subset(
        places.to_set(),
        vstd::set_lib::set_int_range(0, count as int),
    );
}

/// A place not yet named can be added.
pub proof fn lemma_distinct_within_push(ids: Seq<usize>, id: usize, count: nat)
    requires
        distinct_within(ids, count),
        !ids.contains(id),
        id < count,
    ensures
        distinct_within(ids.push(id), count),
        ids.len() < count,
{
    let more = ids.push(id);
    assert forall|i: int, j: int| 0 <= i < more.len() && 0 <= j < more.len() && i != j implies more[i]
        != more[j] by {
        if i < ids.len() {
            assert(ids.contains(more[i]));
        }
        if j < ids.len() {
            assert(ids.contains(more[j]));
        }
    }
    lemma_distinct_within_len(more, count);
}

/// Whether every type that `ids` names is of a kind that the catalog
/// records: a custom scalar, an enum or an input object.
pub open spec fn recorded_only(schema: SchemaView, ids: Seq<usize>) -> bool {
    forall|i: int|
        0 <= i < ids.len() ==> (#[trigger] ids[i]) < schema.types.len()
            && schema.types[ids[i] as int].kind.is_recorded()
}

/// `types` with the type at `target` and what that type's input fields
/// reach, each added where the walk first meets it. A type already in
/// `types` is not entered again, so the walk ends on types that contain
/// themselves. `fuel` bounds the nesting of input objects; the number of
/// types the schema has is always enough.
pub open spec fn with_type(schema: SchemaView, target: usize, types: Seq<usize>, fuel: nat) -> Seq<
    usize,
>
    decreases fuel, 0nat, 0nat,
{
    if types.contains(target) || target >= schema.types.len() {
        types
    } else {
        match schema.types[target as int].kind {
            TypeKindView::Scalar { builtin } => if builtin {
                types
            } else {
                types.push(target)
            },
            TypeKindView::Enum { values } => types.push(target),
            TypeKindView::InputObject { fields } => if fuel == 0 {
                types.push(target)
            } else {
                with_fields(schema, fields, 0, types.push(target), (fuel - 1) as nat)
            },
            _ => types,
        }
    }
}

/// [`with_type`] of the type of each field from `from` on, in order.
pub open spec fn with_fields(
    schema: SchemaView,
    fields: Seq<SchemaFieldView>,
    from: nat,
    types: Seq<usize>,
    fuel: nat,
) -> Seq<usize>
    decreases fuel, 1nat, fields.len() - from,
{
    if from >= fields.len() {
        types
    } else {
        with_fields(
            schema,
            fields,
            from + 1,
            with_type(schema, fields[from as int].target, types, fuel),
            fuel,
        )
    }
}

/// `used` with what `selection`, made on the type at `on`, reaches: the type
/// of a leaf field, what is selected below a composite field or an inline
/// fragment, and for a spread the fragment and what it selects. A fragment
/// already in `used` is not entered again. A field that `on` lacks and a
/// spread of no fragment add nothing. `fuel` bounds the nesting of spreads;
/// the number of fragments is always enough.
pub open spec fn with_selection(
    schema: SchemaView,
    operation: OperationView,
    selection: SelectionView,
    on: usize,
    used: UsedTypesView,
    fuel: nat,
) -> UsedTypesView
    decreases fuel, selection, 0nat,
{
    match selection {
        SelectionView::Field { name, alias, selection_set } => {
            if on >= schema.types.len() {
                used
            } else {
                match schema.field_named(on as int, name) {
                    None => used,
                    Some(field) => if field.target >= schema.types.len() {
                        used
                    } else if schema.types[field.target as int].kind.is_composite() {
                        with_selections(
                            schema,
                            operation,
                            selection_set,
                            0,
                            field.target,
                            used,
                            fuel,
                        )
                    } else {
                        UsedTypesView {
                            types: with_type(
                                schema,
                                field.target,
                                used.types,
                                schema.types.len(),
                            ),
                            fragments: used.fragments,
                        }
                    },
                }
            }
        },
        SelectionView::FragmentSpread { fragment } => {
            if fragment >= operation.fragments.len() || used.fragments.contains(fragment) {
                used
            } else {
                let entered = UsedTypesView {
                    types: used.types,
                    fragments: used.fragments.push(fragment),
                };
                if fuel == 0 {
                    entered
                } else {
                    with_selections(
                        schema,
                        operation,
                        operation.fragments[fragment as int].selection_set,
                        0,
                        operation.fragments[fragment as int].on,
                        entered,
                        (fuel - 1) as nat,
                    )
                }
            }
        },
        SelectionView::InlineFragment { on: condition, selection_set } => with_selections(
            schema,
            operation,
            selection_set,
            0,
            condition,
            used,
            fuel,
        ),
    }
}

/// [`with_selection`] of each entry from `from` on, in order.
pub open spec fn with_selections(
    schema: SchemaView,
    operation: OperationView,
    selections: Seq<SelectionView>,
    from: nat,
    on: usize,
    used: UsedTypesView,
    fuel: nat,
) -> UsedTypesView
    decreases fuel, selections, selections.len() - from,
{
    if from >= selections.len() {
        used
    } else {
        with_selections(
            schema,
            operation,
            selections,
            from + 1,
            on,
            with_selection(schema, operation, selections[from as int], on, used, fuel),
            fuel,
        )
    }
}

/// [`with_type`] of the type of each variable from `from` on, in order.
pub open spec fn with_variables(
    schema: SchemaView,
    variables: Seq<VariableView>,
    from: nat,
    types: Seq<usize>,
) -> Seq<usize>
    decreases variables.len() - from,
{
    if from >= variables.len() {
        types
    } else {
        with_variables(
            schema,
            variables,
            from + 1,
            with_type(schema, variables[from as int].target, types, schema.types.len()),
        )
    }
}

/// The catalog of `operation`: what its root selection set reaches, then
/// what its variables reach.
pub open spec fn used_types_of(schema: SchemaView, operation: OperationView) -> UsedTypesView {
    let selected = with_selections(
        schema,
        operation,
        operation.selection_set,
        0,
        operation.root,
        UsedTypesView { types: Seq::empty(), fragments: Seq::empty() },
        operation.fragments.len(),
    );
    UsedTypesView {
        types: with_variables(schema, operation.variables, 0, selected.types),
        fragments: selected.fragments,
    }
}

/// The kinds of type that the catalog records.
#[derive(Clone, Copy, Debug, PartialEq, Eq, Structural)]
pub enum UsedKind {
    Scalar,
    Enum,
    InputObject,
}

/// Whether `kind` is the kind that `which` names.
pub open spec fn kind_is(kind: TypeKindView, which: UsedKind) -> bool {
    match which {
        UsedKind::Scalar => kind is Scalar,
        UsedKind::Enum => kind is Enum,
        UsedKind::InputObject => kind is InputObject,
    }
}

/// The test for a type of `schema` being of the kind `which`.
pub open spec fn of_kind(schema: SchemaView, which: UsedKind) -> spec_fn(usize) -> bool {
    |id: usize| id < schema.types.len() && kind_is(schema.types[id as int].kind, which)
}

/// Tests [`kind_is`].
pub fn kind_matches(kind: &TypeKind, which: UsedKind) -> (r: bool)
    ensures
        r == kind_is(kind@, which),
{
    match which {
        UsedKind::Scalar => match kind {
            TypeKind::Scalar { .. } => true,
            _ => false,
        },
        UsedKind::Enum => match kind {
            TypeKind::Enum { .. } => true,
            _ => false,
        },
        UsedKind::InputObject => match kind {
            TypeKind::InputObject { .. } => true,
            _ => false,
        },
    }
}

impl UsedTypesView {
    /// Whether the catalog names only types of `schema` that belong in it
    /// and fragments of `operation`, each once.
    pub open spec fn well_formed(self, schema: SchemaView, operation: OperationView) -> bool {
        &&& distinct_within(self.types, schema.types.len())
        &&& recorded_only(schema, self.types)
        &&& distinct_within(self.fragments, operation.fragments.len())
    }
}

impl UsedTypes {
    /// The used types of the kind `which`, in the catalog's order.
    pub fn select(&self, schema: &Schema, which: UsedKind) -> (r: Vec<usize>)
        requires
            distinct_within(self.types@, schema@.types.len()),
        ensures
            r@ == self.types@.filter(of_kind(schema@, which)),
            forall|i: int|
                0 <= i < r@.len() ==> (#[trigger] r@[i]) < schema@.types.len() && kind_is(
                    schema@.types[r@[i] as int].kind,
                    which,
                ) && self.types@.contains(r@[i]),
    {
        let ghost wanted = of_kind(schema@, which);
        let mut out: Vec<usize> = Vec::new();
        let mut i: usize = 0;
        proof {
            assert(self.types@.take(0) =~= Seq::<usize>::empty());
            assert(Seq::<usize>::empty().filter(wanted) =~= Seq::<usize>::empty()) by {
                reveal(Seq::filter);
            }
        }
        while i < self.types.len()
            invariant
                i <= self.types.len(),
                wanted == of_kind(schema@, which),
                distinct_within(self.types@, schema@.types.len()),
                out@ == self.types@.take(i as int).filter(wanted),
                forall|k: int|
                    0 <= k < out@.len() ==> (#[trigger] out@[k]) < schema@.types.len() && kind_is(
                        schema@.types[out@[k] as int].kind,
                        which,
                    ) && self.types@.contains(out@[k]),
            decreases self.types.len() - i,
        {
            let id = self.types[i];
            proof {
                assert(self.types@.take(i as int + 1) =~= self.types@.take(i as int).push(id));
                self.types@.take(i as int).lemma_filter_push(id, wanted);
                assert(self.types@[i as int] < schema@.types.len());
                assert(schema@.types[id as int] == schema.types@[id as int]@);
            }
            if kind_matches(&schema.types[id].kind, which) {
                out.push(id);
            }
            i = i + 1;
        }
        proof {
            assert(self.types@.take(i as int) =~= self.types@);
        }
        out
    }

    /// The custom scalars in use.
    pub fn scalars(&self, schema: &Schema) -> (r: Vec<usize>)
        requires
            distinct_within(self.types@, schema@.types.len()),
        ensures
            r@ == self.types@.filter(of_kind(schema@, UsedKind::Scalar)),
            forall|i: int|
                0 <= i < r@.len() ==> (#[trigger] r@[i]) < schema@.types.len()
                    && schema@.types[r@[i] as int].kind is Scalar,
    {
        self.select(schema, UsedKind::Scalar)
    }

    /// The enums in use.
    pub fn enums(&self, schema: &Schema) -> (r: Vec<usize>)
        requires
            distinct_within(self.types@, schema@.types.len()),
        ensures
            r@ == self.types@.filter(of_kind(schema@, UsedKind::Enum)),
            forall|i: int|
                0 <= i < r@.len() ==> (#[trigger] r@[i]) < schema@.types.len()
                    && schema@.types[r@[i] as int].kind is Enum,
    {
        self.select(schema, UsedKind::Enum)
    }

    /// The input objects in use.
    pub fn inputs(&self, schema: &Schema) -> (r: Vec<usize>)
        requires
            distinct_within(self.types@, schema@.types.len()),
        ensures
            r@ == self.types@.filter(of_kind(schema@, UsedKind::InputObject)),
            forall|i: int|
                0 <= i < r@.len() ==> (#[trigger] r@[i]) < schema@.types.len()
                    && schema@.types[r@[i] as int].kind is InputObject,
    {
        self.select(schema, UsedKind::InputObject)
    }

    /// The fragments in use.
    pub fn fragment_ids(&self) -> (r: &Vec<usize>)
        ensures
            r@ == self.fragments@,
    {
        &self.fragments
    }

    /// How many fragments are in use.
    pub fn fragments_len(&self) -> (r: usize)
        ensures
            r == self.fragments@.len(),
    {
        self.fragments.len()
    }
}

/// Adds the type at `target`, and what it reaches, to `types`. `pending`
/// holds the input objects whose fields are still being walked.
#[verifier::loop_isolation(false)]
fn record_type(
    schema: &Schema,
    target: usize,
    types: &mut Vec<usize>,
    Ghost(fuel): Ghost<nat>,
    Ghost(pending): Ghost<Set<usize>>,
)
    requires
        schema@.well_formed(),
        target < schema@.types.len(),
        distinct_within(old(types)@, schema@.types.len()),
        recorded_only(schema@, old(types)@),
        inputs_closed(schema@, old(types)@, pending),
        fuel + old(types)@.len() >= schema@.types.len(),
    ensures
        final(types)@ == with_type(schema@, target, old(types)@, fuel),
        distinct_within(final(types)@, schema@.types.len()),
        recorded_only(schema@, final(types)@),
        inputs_closed(schema@, final(types)@, pending),
        old(types)@.len() <= final(types)@.len(),
        forall|id: usize| old(types)@.contains(id) ==> final(types)@.contains(id),
        recordable(schema@, target) ==> final(types)@.contains(target),
    decreases schema@.types.len() - old(types)@.len(),
{
    if holds(types, target) {
        return ;
    }
    proof {
        lemma_distinct_within_push(types@, target, schema@.types.len());
        lemma_pushed(types@, target);
        assert(schema@.types[target as int] == schema.types@[target as int]@);
    }
    match &schema.types[target].kind {
        TypeKind::Scalar { builtin } => {
            if !*builtin {
                types.push(target);
                proof {
                    lemma_inputs_closed_grow(schema@, old(types)@, types@, pending);
                }
            }
        },
        TypeKind::Enum { values } => {
            types.push(target);
            proof {
                lemma_inputs_closed_grow(schema@, old(types)@, types@, pending);
            }
        },
        TypeKind::InputObject { fields } => {
            types.push(target);
            let ghost inner = (fuel - 1) as nat;
            let ghost walking = pending.insert(target);
            let ghost declared = views(fields@);
            proof {
                assert(inputs_closed(schema@, old(types)@, walking));
                lemma_inputs_closed_grow(schema@, old(types)@, types@, walking);
            }
            let mut i: usize = 0;
            while i < fields.len()
                invariant
                    i <= fields.len(),
                    fuel >= 1,
                    inner == fuel - 1,
                    walking == pending.insert(target),
                    declared == views(fields@),
                    declared == schema@.types[target as int].kind.fields(),
                    distinct_within(types@, schema@.types.len()),
                    recorded_only(schema@, types@),
                    inputs_closed(schema@, types@, walking),
                    types@.len() > old(types)@.len(),
                    types@.contains(target),
                    forall|id: usize| old(types)@.contains(id) ==> types@.contains(id),
                    forall|k: int|
                        0 <= k < i && recordable(schema@, (#[trigger] declared[k]).target)
                            ==> types@.contains(declared[k].target),
                    with_fields(schema@, declared, i as nat, types@, inner) == with_type(
                        schema@,
                        target,
                        old(types)@,
                        fuel,
                    ),
                decreases fields.len() - i,
            {
                proof {
                    assert(declared[i as int] == fields@[i as int]@);
                    assert(schema@.types[target as int].kind.fields()[i as int].target
                        < schema@.types.len());
                    lemma_distinct_within_len(types@, schema@.types.len());
                }
                record_type(schema, fields[i].target, types, Ghost(inner), Ghost(walking));
                i = i + 1;
            }
            proof {
                assert(fields_covered(schema@, target, types@));
                assert forall|k: int|
                    0 <= k < types@.len() && (#[trigger] types@[k]) < schema@.types.len()
                        && schema@.types[types@[k] as int].kind is InputObject
                        && !pending.contains(types@[k]) implies fields_covered(
                    schema@,
                    types@[k],
                    types@,
                ) by {
                    if types@[k] != target {
                        assert(!walking.contains(types@[k]));
                    }
                }
            }
        },
        _ => {},
    }
}

/// What a sequence holds once one more item is added.
proof fn lemma_pushed(ids: Seq<usize>, id: usize)
    ensures
        ids.push(id).contains(id),
        forall|other: usize| ids.contains(other) ==> ids.push(id).contains(other),
        forall|other: usize| ids.push(id).contains(other) ==> ids.contains(other) || other == id,
{
    assert(ids.push(id)[ids.len() as int] == id);
    assert forall|other: usize| ids.contains(other) implies ids.push(id).contains(other) by {
        let at = choose|at: int| 0 <= at < ids.len() && ids[at] == other;
        assert(ids.push(id)[at] == other);
    }
}

/// Adds what `selection`, made on the type at `on`, reaches to `used`.
/// `pending` holds the fragments whose selection sets are still being
/// walked.
#[verifier::loop_isolation(false)]
fn record_selection(
    schema: &Schema,
    operation: &Operation,
    selection: &Selection,
    on: usize,
    used: &mut UsedTypes,
    Ghost(fuel): Ghost<nat>,
    Ghost(pending): Ghost<Set<usize>>,
)
    requires
        schema@.well_formed(),
        operation@.well_formed(schema@),
        selection_within(selection@, schema@.types.len()),
        on < schema@.types.len(),
        old(used)@.well_formed(schema@, operation@),
        fragments_closed(schema@, operation@, old(used)@, pending),
        inputs_closed(schema@, old(used)@.types, Set::empty()),
        fuel + old(used)@.fragments.len() >= operation@.fragments.len(),
    ensures
        final(used)@ == with_selection(schema@, operation@, selection@, on, old(used)@, fuel),
        final(used)@.well_formed(schema@, operation@),
        fragments_closed(schema@, operation@, final(used)@, pending),
        inputs_closed(schema@, final(used)@.types, Set::empty()),
        extends(old(used)@, final(used)@),
        selection_covered(schema@, operation@, selection@, on, final(used)@),
        old(used)@.fragments.len() <= final(used)@.fragments.len(),
    decreases operation@.fragments.len() - old(used)@.fragments.len(), selection, 0nat,
{
    proof {
        lemma_selection_view(selection);
    }
    match selection {
        Selection::Field { name, alias, selection_set } => {
            match schema.find_field(on, name) {
                None => {},
                Some(field) => {
                    proof {
                        lemma_field_named_within(schema@, on as int, name@);
                    }
                    let target = field.target;
                    assert(schema@.types[target as int] == schema.types@[target as int]@);
                    if schema.types[target].kind.composite() {
                        record_selections(
                            schema,
                            operation,
                            selection_set,
                            target,
                            used,
                            Ghost(fuel),
                            Ghost(pending),
                        );
                    } else {
                        record_type(
                            schema,
                            target,
                            &mut used.types,
                            Ghost(schema@.types.len()),
                            Ghost(Set::empty()),
                        );
                        proof {
                            lemma_fragments_closed_grow(
                                schema@,
                                operation@,
                                old(used)@,
                                used@,
                                pending,
                            );
                        }
                    }
                },
            }
        },
        Selection::FragmentSpread { fragment } => {
            let fragment = *fragment;
            if fragment < operation.fragments.len() && !holds(&used.fragments, fragment) {
                let ghost walking = pending.insert(fragment);
                proof {
                    lemma_distinct_within_push(
                        used.fragments@,
                        fragment,
                        operation@.fragments.len(),
                    );
                    lemma_fragments_within(
                        operation@.fragments,
                        0,
                        schema@.types.len(),
                        fragment as int,
                    );
                    lemma_pushed(used.fragments@, fragment);
                    assert(operation@.fragments[fragment as int]
                        == operation.fragments@[fragment as int]@);
                }
                used.fragments.push(fragment);
                let ghost entered = used@;
                proof {
                    assert(fragments_closed(schema@, operation@, old(used)@, walking));
                    lemma_fragments_closed_grow(schema@, operation@, old(used)@, entered, walking);
                }
                record_selections(
                    schema,
                    operation,
                    &operation.fragments[fragment].selection_set,
                    operation.fragments[fragment].on,
                    used,
                    Ghost((fuel - 1) as nat),
                    Ghost(walking),
                );
                proof {
                    assert(fragment_covered(schema@, operation@, fragment, used@));
                    assert forall|k: int|
                        0 <= k < used@.fragments.len() && (#[trigger] used@.fragments[k])
                            < operation@.fragments.len() && !pending.contains(
                            used@.fragments[k],
                        ) implies fragment_covered(schema@, operation@, used@.fragments[k], used@) by {
                        if used@.fragments[k] != fragment {
                            assert(!walking.contains(used@.fragments[k]));
                        }
                    }
                }
            }
        },
        Selection::InlineFragment { on: condition, selection_set } => {
            record_selections(
                schema,
                operation,
                selection_set,
                *condition,
                used,
                Ghost(fuel),
                Ghost(pending),
            );
        },
    }
}

/// Adds what each entry of `selections`, made on the type at `on`, reaches
/// to `used`.
#[verifier::loop_isolation(false)]
fn record_selections(
    schema: &Schema,
    operation: &Operation,
    selections: &Vec<Selection>,
    on: usize,
    used: &mut UsedTypes,
    Ghost(fuel): Ghost<nat>,
    Ghost(pending): Ghost<Set<usize>>,
)
    requires
        schema@.well_formed(),
        operation@.well_formed(schema@),
        selections_within(views(selections@), 0, schema@.types.len()),
        on < schema@.types.len(),
        old(used)@.well_formed(schema@, operation@),
        fragments_closed(schema@, operation@, old(used)@, pending),
        inputs_closed(schema@, old(used)@.types, Set::empty()),
        fuel + old(used)@.fragments.len() >= operation@.fragments.len(),
    ensures
        final(used)@ == with_selections(
            schema@,
            operation@,
            views(selections@),
            0,
            on,
            old(used)@,
            fuel,
        ),
        final(used)@.well_formed(schema@, operation@),
        fragments_closed(schema@, operation@, final(used)@, pending),
        inputs_closed(schema@, final(used)@.types, Set::empty()),
        extends(old(used)@, final(used)@),
        selections_covered(schema@, operation@, views(selections@), 0, on, final(used)@),
        old(used)@.fragments.len() <= final(used)@.fragments.len(),
    decreases operation@.fragments.len() - old(used)@.fragments.len(), selections, 1nat,
{
    let ghost entries = views(selections@);
    let mut done: usize = 0;
    while done < selections.len()
        invariant
            done <= selections.len(),
            entries == views(selections@),
            used@.well_formed(schema@, operation@),
            fragments_closed(schema@, operation@, used@, pending),
            inputs_closed(schema@, used@.types, Set::empty()),
            extends(old(used)@, used@),
            old(used)@.fragments.len() <= used@.fragments.len(),
            forall|k: int|
                0 <= k < done ==> selection_covered(
                    schema@,
                    operation@,
                    #[trigger] entries[k],
                    on,
                    used@,
                ),
            with_selections(schema@, operation@, entries, done as nat, on, used@, fuel)
                == with_selections(schema@, operation@, entries, 0, on, old(used)@, fuel),
        decreases selections.len() - done,
    {
        let ghost before = used@;
        proof {
            assert(entries[done as int] == selections@[done as int]@);
            lemma_selections_within(entries, 0, schema@.types.len(), done as int);
            lemma_distinct_within_len(used@.fragments, operation@.fragments.len());
        }
        record_selection(
            schema,
            operation,
            &selections[done],
            on,
            used,
            Ghost(fuel),
            Ghost(pending),
        );
        proof {
            assert forall|k: int| 0 <= k < done implies selection_covered(
                schema@,
                operation@,
                #[trigger] entries[k],
                on,
                used@,
            ) by {
                lemma_selection_covered_grows(schema@, operation@, entries[k], on, before, used@);
            }
        }
        done = done + 1;
    }
    proof {
        lemma_all_covered(schema@, operation@, entries, 0, on, used@);
    }
}

/// A set whose every entry is covered is covered.
proof fn lemma_all_covered(
    schema: SchemaView,
    operation: OperationView,
    selections: Seq<SelectionView>,
    from: nat,
    on: usize,
    used: UsedTypesView,
)
    requires
        forall|k: int|
            from <= k < selections.len() ==> selection_covered(
                schema,
                operation,
                #[trigger] selections[k],
                on,
                used,
            ),
    ensures
        selections_covered(schema, operation, selections, from, on, used),
    decreases selections.len() - from,
{
    if from < selections.len() {
        lemma_all_covered(schema, operation, selections, from + 1, on, used);
    }
}

/// Collects what `operation` uses.
///
/// The result is [`used_types_of`]: it depends on the schema and the
/// operation alone. It names nothing twice, so it is no longer than the
/// schema and the fragment table are, and it lacks nothing that the
/// operation uses ([`covers`]). The walk ends on input objects that contain
/// themselves and on fragments that spread each other, since what the
/// catalog already holds is not entered again.
#[verifier::loop_isolation(false)]
pub fn all_used_types(schema: &Schema, operation: &Operation) -> (r: UsedTypes)
    requires
        schema@.well_formed(),
        operation@.well_formed(schema@),
    ensures
        r@ == used_types_of(schema@, operation@),
        r@.well_formed(schema@, operation@),
        r@.types.len() <= schema@.types.len(),
        r@.fragments.len() <= operation@.fragments.len(),
        covers(schema@, operation@, r@),
{
    let mut used = UsedTypes { types: Vec::new(), fragments: Vec::new() };
    record_selections(
        schema,
        operation,
        &operation.selection_set,
        operation.root,
        &mut used,
        Ghost(operation@.fragments.len()),
        Ghost(Set::empty()),
    );
    let ghost selected = used@;
    let ghost variables = operation@.variables;
    let mut v: usize = 0;
    while v < operation.variables.len()
        invariant
            v <= operation.variables.len(),
            variables == operation@.variables,
            used@.well_formed(schema@, operation@),
            used@.fragments == selected.fragments,
            extends(selected, used@),
            inputs_closed(schema@, used@.types, Set::empty()),
            forall|k: int|
                0 <= k < v && recordable(schema@, (#[trigger] variables[k]).target)
                    ==> used@.types.contains(variables[k].target),
            with_variables(schema@, variables, v as nat, used@.types) == with_variables(
                schema@,
                variables,
                0,
                selected.types,
            ),
        decreases operation.variables.len() - v,
    {
        proof {
            assert(variables[v as int] == operation.variables@[v as int]@);
        }
        record_type(
            schema,
            operation.variables[v].target,
            &mut used.types,
            Ghost(schema@.types.len()),
            Ghost(Set::empty()),
        );
        v = v + 1;
    }
    proof {
        lemma_distinct_within_len(used@.types, schema@.types.len());
        lemma_distinct_within_len(used@.fragments, operation@.fragments.len());
        lemma_selections_covered_grow(
            schema@,
            operation@,
            operation@.selection_set,
            0,
            operation@.root,
            selected,
            used@,
        );
        lemma_fragments_closed_grow(schema@, operation@, selected, used@, Set::empty());
    }
    used
}

} // verus!
