//! The shape of a selection set: its record, the tagged union of its
//! type-conditioned branches, and the shapes nested in it.

use crate::codegen::{base_name, object_like, render_object_like_struct, type_reference};
use crate::definitions::{
    Definition, DefinitionCategory, DefinitionView, RecordField, RecordFieldView, UnionVariant,
    UnionVariantView,
};
use crate::error::{CodegenError, CodegenErrorView};
use crate::field_type::{decorate_type, decorated, double_required, TypeDescriptor, TypeShape};
use crate::naming::{
    camel_case, join, nested_name, rename_field, renamed_field, snake_case, to_snake_case,
};
use crate::options::{GraphQLClientCodegenOptions, OptionsView};
use crate::query::{
    lemma_fragments_within, lemma_selection_view, lemma_selections_within, selection_within,
    selections_within, Operation, OperationView, Selection, SelectionView,
};
use crate::schema::{lemma_field_named_within, Schema, SchemaView, TypeKindView};
use crate::sequences::{
    holds, lemma_views_add, lemma_views_empty, lemma_views_push, views,
};
use vstd::prelude::*;

verus! {

/// The concrete types that a value matching the type condition `on` can
/// have: the members of an interface or a union, the type itself otherwise.
pub open spec fn concrete_types(schema: SchemaView, on: usize) -> Seq<usize> {
    match schema.types[on as int].kind {
        TypeKindView::Interface { fields, members } => members,
        TypeKindView::Union { members } => members,
        _ => seq![on],
    }
}

/// Whether one value can match both type conditions.
pub open spec fn overlap(schema: SchemaView, first: usize, second: usize) -> bool {
    exists|concrete: usize|
        #![trigger concrete_types(schema, first).contains(concrete)]
        concrete_types(schema, first).contains(concrete) && concrete_types(
            schema,
            second,
        ).contains(concrete)
}

/// Whether the condition at `at` overlaps one before it.
pub open spec fn clashes(schema: SchemaView, conditions: Seq<usize>, at: int) -> bool {
    exists|earlier: int|
        0 <= earlier < at && #[trigger] overlap(schema, conditions[earlier], conditions[at])
}

/// The first place at or after `from` whose condition overlaps an earlier
/// one.
pub open spec fn first_clash(schema: SchemaView, conditions: Seq<usize>, from: int) -> Option<int>
    decreases conditions.len() - from,
{
    if from < 0 || from >= conditions.len() {
        None
    } else if clashes(schema, conditions, from) {
        Some(from)
    } else {
        first_clash(schema, conditions, from + 1)
    }
}

/// Whether a value of the concrete type `concrete` matches `condition`.
pub fn can_be(schema: &Schema, condition: usize, concrete: usize) -> (r: bool)
    requires
        condition < schema@.types.len(),
    ensures
        r == concrete_types(schema@, condition).contains(concrete),
{
    match schema.types[condition].kind.member_list() {
        Some(members) => holds(members, concrete),
        None => {
            proof {
                assert(concrete_types(schema@, condition) =~= seq![condition]);
                assert(seq![condition][0] == condition);
            }
            condition == concrete
        },
    }
}

/// Tests [`overlap`].
#[verifier::loop_isolation(false)]
pub fn overlaps(schema: &Schema, first: usize, second: usize) -> (r: bool)
    requires
        first < schema@.types.len(),
        second < schema@.types.len(),
    ensures
        r == overlap(schema@, first, second),
{
    match schema.types[first].kind.member_list() {
        Some(members) => {
            let mut m: usize = 0;
            while m < members.len()
                invariant
                    m <= members.len(),
                    members@ == concrete_types(schema@, first),
                    forall|k: int|
                        0 <= k < m ==> !concrete_types(schema@, second).contains(
                            #[trigger] members@[k],
                        ),
                decreases members.len() - m,
            {
                if can_be(schema, second, members[m]) {
                    proof {
                        assert(concrete_types(schema@, first).contains(members@[m as int]));
                    }
                    return true;
                }
                m = m + 1;
            }
            false
        },
        None => {
            proof {
                assert(concrete_types(schema@, first) =~= seq![first]);
                assert(seq![first][0] == first);
                assert(concrete_types(schema@, first).contains(first));
            }
            can_be(schema, second, first)
        },
    }
}

/// Computes [`first_clash`] from the first condition on.
#[verifier::loop_isolation(false)]
pub fn find_clash(schema: &Schema, conditions: &Vec<usize>) -> (r: Option<usize>)
    requires
        forall|i: int| 0 <= i < conditions@.len() ==> (#[trigger] conditions@[i]) < schema@.types.len(),
    ensures
        match first_clash(schema@, conditions@, 0) {
            Some(at) => r == Some(at as usize) && 0 <= at < conditions@.len(),
            None => r is None,
        },
{
    let mut at: usize = 0;
    while at < conditions.len()
        invariant
            at <= conditions.len(),
            first_clash(schema@, conditions@, 0) == first_clash(schema@, conditions@, at as int),
        decreases conditions.len() - at,
    {
        let mut earlier: usize = 0;
        while earlier < at
            invariant
                earlier <= at,
                at < conditions.len(),
                forall|k: int|
                    0 <= k < earlier ==> !(#[trigger] overlap(
                        schema@,
                        conditions@[k],
                        conditions@[at as int],
                    )),
            decreases at - earlier,
        {
            if overlaps(schema, conditions[earlier], conditions[at]) {
                proof {
                    assert(clashes(schema@, conditions@, at as int));
                }
                return Some(at);
            }
            earlier = earlier + 1;
        }
        proof {
            assert(!clashes(schema@, conditions@, at as int));
        }
        at = at + 1;
    }
    None
}

/// What the entries of a selection set have contributed so far.
pub struct ShapeParts {
    /// The record's fields.
    pub fields: Vec<RecordField>,
    /// The variants of the record's tagged union.
    pub variants: Vec<UnionVariant>,
    /// The type condition behind each variant.
    pub conditions: Vec<usize>,
    /// The definitions of the shapes nested in the record.
    pub nested: Vec<Definition>,
}

/// The mathematical value of a [`ShapeParts`].
pub struct ShapePartsView {
    pub fields: Seq<RecordFieldView>,
    pub variants: Seq<UnionVariantView>,
    pub conditions: Seq<usize>,
    pub nested: Seq<DefinitionView>,
}

impl View for ShapeParts {
    type V = ShapePartsView;

    open spec fn view(&self) -> ShapePartsView {
        ShapePartsView {
            fields: views(self.fields@),
            variants: views(self.variants@),
            conditions: self.conditions@,
            nested: views(self.nested@),
        }
    }
}

impl ShapePartsView {
    pub open spec fn empty() -> ShapePartsView {
        ShapePartsView {
            fields: Seq::empty(),
            variants: Seq::empty(),
            conditions: Seq::empty(),
            nested: Seq::empty(),
        }
    }

    pub open spec fn with_field(self, field: RecordFieldView) -> ShapePartsView {
        ShapePartsView {
            fields: self.fields.push(field),
            variants: self.variants,
            conditions: self.conditions,
            nested: self.nested,
        }
    }

    pub open spec fn with_variant(self, variant: UnionVariantView, condition: usize) -> ShapePartsView {
        ShapePartsView {
            fields: self.fields,
            variants: self.variants.push(variant),
            conditions: self.conditions.push(condition),
            nested: self.nested,
        }
    }

    pub open spec fn with_nested(self, definitions: Seq<DefinitionView>) -> ShapePartsView {
        ShapePartsView {
            fields: self.fields,
            variants: self.variants,
            conditions: self.conditions,
            nested: self.nested + definitions,
        }
    }
}

/// The name under which a field comes back: its alias, or its own name.
pub open spec fn output_name(name: Seq<char>, alias: Option<Seq<char>>) -> Seq<char> {
    match alias {
        Some(alias) => alias,
        None => name,
    }
}

/// The field through which a record takes in the fields of the fragment
/// called `fragment`, spread on the record's own type.
pub open spec fn spread_field(fragment: Seq<char>) -> RecordFieldView {
    RecordFieldView {
        name: snake_case(fragment),
        rename: None,
        ty: TypeShape::Named(fragment),
        flatten: true,
    }
}

/// `parts` with what `selection` contributes to the record called `record`
/// for a selection on the type at `on`.
///
/// A field adds a record field; one of a composite type is typed by the
/// record nested for what is selected on it, whose definitions are added
/// too. A spread of a fragment on `on` itself adds [`spread_field`]; a
/// spread of a fragment on another type adds a variant that holds the
/// fragment's record. An inline fragment adds a variant that holds the
/// record nested for it. A spread never adds a definition: the fragment's
/// own is referred to by name.
pub open spec fn entry_shape(
    schema: SchemaView,
    operation: OperationView,
    options: OptionsView,
    category: DefinitionCategory,
    record: Seq<char>,
    selection: SelectionView,
    on: usize,
    parts: ShapePartsView,
) -> Result<ShapePartsView, CodegenErrorView>
    decreases selection, 0nat,
{
    match selection {
        SelectionView::Field { name, alias, selection_set } => {
            match schema.field_named(on as int, name) {
                None => Err(
                    CodegenErrorView::UnknownField {
                        field: name,
                        enclosing: schema.types[on as int].name,
                    },
                ),
                Some(field) => {
                    let output = output_name(name, alias);
                    if double_required(field.qualifiers) {
                        Err(CodegenErrorView::MalformedQualifiers)
                    } else if schema.types[field.target as int].kind.is_composite() {
                        let nested = record + camel_case(output);
                        match selection_shape(
                            schema,
                            operation,
                            options,
                            category,
                            nested,
                            selection_set,
                            field.target,
                        ) {
                            Err(e) => Err(e),
                            Ok(definitions) => Ok(
                                parts.with_field(
                                    renamed_field(
                                        snake_case(output),
                                        output,
                                        options.reserved,
                                        decorated(nested, field.qualifiers),
                                    ),
                                ).with_nested(definitions),
                            ),
                        }
                    } else {
                        Ok(
                            parts.with_field(
                                renamed_field(
                                    snake_case(output),
                                    output,
                                    options.reserved,
                                    decorated(
                                        base_name(schema, options, field.target),
                                        field.qualifiers,
                                    ),
                                ),
                            ),
                        )
                    }
                },
            }
        },
        SelectionView::FragmentSpread { fragment } => {
            if fragment >= operation.fragments.len() {
                Err(CodegenErrorView::UnresolvedFragment { fragment: fragment as nat })
            } else {
                let spread = operation.fragments[fragment as int];
                if spread.on == on {
                    Ok(parts.with_field(spread_field(spread.name)))
                } else {
                    Ok(
                        parts.with_variant(
                            UnionVariantView {
                                name: schema.types[spread.on as int].name,
                                payload: spread.name,
                            },
                            spread.on,
                        ),
                    )
                }
            }
        },
        SelectionView::InlineFragment { on: condition, selection_set } => {
            let variant = schema.types[condition as int].name;
            let nested = record + "On"@ + variant;
            match selection_shape(
                schema,
                operation,
                options,
                category,
                nested,
                selection_set,
                condition,
            ) {
                Err(e) => Err(e),
                Ok(definitions) => Ok(
                    parts.with_variant(
                        UnionVariantView { name: variant, payload: nested },
                        condition,
                    ).with_nested(definitions),
                ),
            }
        },
    }
}

/// [`entry_shape`] of each entry from `from` on, in order, up to the first
/// that fails.
pub open spec fn entries_shape(
    schema: SchemaView,
    operation: OperationView,
    options: OptionsView,
    category: DefinitionCategory,
    record: Seq<char>,
    selections: Seq<SelectionView>,
    from: nat,
    on: usize,
    parts: ShapePartsView,
) -> Result<ShapePartsView, CodegenErrorView>
    decreases selections, selections.len() - from,
{
    if from >= selections.len() {
        Ok(parts)
    } else {
        match entry_shape(
            schema,
            operation,
            options,
            category,
            record,
            selections[from as int],
            on,
            parts,
        ) {
            Err(e) => Err(e),
            Ok(more) => entries_shape(
                schema,
                operation,
                options,
                category,
                record,
                selections,
                from + 1,
                on,
                more,
            ),
        }
    }
}

/// The definitions for `selections` made on the type at `on`: the record
/// called `record`, its tagged union if any entry is type-conditioned, then
/// the nested shapes in the order of the entries they belong to.
///
/// Two type conditions that one value can match are an error, named after
/// the later one: they are never merged.
pub open spec fn selection_shape(
    schema: SchemaView,
    operation: OperationView,
    options: OptionsView,
    category: DefinitionCategory,
    record: Seq<char>,
    selections: Seq<SelectionView>,
    on: usize,
) -> Result<Seq<DefinitionView>, CodegenErrorView>
    decreases selections, selections.len() + 1,
{
    match entries_shape(
        schema,
        operation,
        options,
        category,
        record,
        selections,
        0,
        on,
        ShapePartsView::empty(),
    ) {
        Err(e) => Err(e),
        Ok(parts) => match first_clash(schema, parts.conditions, 0) {
            Some(at) => Err(
                CodegenErrorView::AmbiguousTypeCondition {
                    condition: schema.types[parts.conditions[at] as int].name,
                },
            ),
            None => Ok(
                object_like(
                    options.response_derives,
                    category,
                    record,
                    parts.fields,
                    parts.variants,
                    schema.discriminant,
                ) + parts.nested,
            ),
        },
    }
}

/// The mathematical value of an outcome of rendering.
pub open spec fn outcome(r: Result<Vec<Definition>, CodegenError>) -> Result<
    Seq<DefinitionView>,
    CodegenErrorView,
> {
    match r {
        Ok(definitions) => Ok(views(definitions@)),
        Err(e) => Err(e@),
    }
}

/// Adds what `selection` contributes to `parts`.
fn render_entry(
    schema: &Schema,
    operation: &Operation,
    options: &GraphQLClientCodegenOptions,
    category: DefinitionCategory,
    record: &str,
    selection: &Selection,
    on: usize,
    parts: &mut ShapeParts,
) -> (r: Result<(), CodegenError>)
    requires
        schema@.well_formed(),
        operation@.well_formed(schema@),
        selection_within(selection@, schema@.types.len()),
        on < schema@.types.len(),
        forall|i: int|
            0 <= i < old(parts).conditions@.len() ==> (#[trigger] old(parts).conditions@[i])
                < schema@.types.len(),
    ensures
        match entry_shape(
            schema@,
            operation@,
            options@,
            category,
            record@,
            selection@,
            on,
            old(parts)@,
        ) {
            Ok(after) => r is Ok && final(parts)@ == after,
            Err(e) => r matches Err(x) && x@ == e,
        },
        forall|i: int|
            0 <= i < final(parts).conditions@.len() ==> (#[trigger] final(parts).conditions@[i])
                < schema@.types.len(),
    decreases selection, 0nat,
{
    proof {
        lemma_selection_view(selection);
    }
    match selection {
        Selection::Field { name, alias, selection_set } => {
            let field = match schema.find_field(on, name) {
                Some(field) => field,
                None => {
                    return Err(
                        CodegenError::UnknownField {
                            field: name.clone(),
                            enclosing: schema.types[on].name.clone(),
                        },
                    );
                },
            };
            proof {
                lemma_field_named_within(schema@, on as int, name@);
            }
            let output: &String = match alias {
                Some(alias) => alias,
                None => name,
            };
            if schema.types[field.target].kind.composite() {
                let nested = nested_name(record, output.as_str());
                let ty = match decorate_type(nested.as_str(), field.qualifiers.as_slice()) {
                    Ok(ty) => ty,
                    Err(e) => {
                        return Err(e);
                    },
                };
                let mut definitions = match render_selection(
                    schema,
                    operation,
                    options,
                    category,
                    nested.as_str(),
                    selection_set,
                    field.target,
                ) {
                    Ok(definitions) => definitions,
                    Err(e) => {
                        return Err(e);
                    },
                };
                let entry = rename_field(
                    to_snake_case(output.as_str()),
                    output,
                    &options.reserved,
                    ty,
                );
                proof {
                    lemma_views_push(parts.fields@, entry);
                    lemma_views_add(parts.nested@, definitions@);
                }
                parts.fields.push(entry);
                parts.nested.append(&mut definitions);
                Ok(())
            } else {
                let base = type_reference(schema, options, field.target);
                let ty = match decorate_type(base.as_str(), field.qualifiers.as_slice()) {
                    Ok(ty) => ty,
                    Err(e) => {
                        return Err(e);
                    },
                };
                let entry = rename_field(
                    to_snake_case(output.as_str()),
                    output,
                    &options.reserved,
                    ty,
                );
                proof {
                    lemma_views_push(parts.fields@, entry);
                }
                parts.fields.push(entry);
                Ok(())
            }
        },
        Selection::FragmentSpread { fragment } => {
            let fragment = *fragment;
            if fragment >= operation.fragments.len() {
                return Err(CodegenError::UnresolvedFragment { fragment });
            }
            let spread = &operation.fragments[fragment];
            proof {
                lemma_fragments_within(
                    operation@.fragments,
                    0,
                    schema@.types.len(),
                    fragment as int,
                );
            }
            if spread.on == on {
                let entry = RecordField {
                    name: to_snake_case(spread.name.as_str()),
                    rename: None,
                    ty: TypeDescriptor::Named(spread.name.clone()),
                    flatten: true,
                };
                proof {
                    lemma_views_push(parts.fields@, entry);
                }
                parts.fields.push(entry);
            } else {
                let variant = UnionVariant {
                    name: schema.types[spread.on].name.clone(),
                    payload: spread.name.clone(),
                };
                proof {
                    lemma_views_push(parts.variants@, variant);
                }
                parts.variants.push(variant);
                parts.conditions.push(spread.on);
            }
            Ok(())
        },
        Selection::InlineFragment { on: condition, selection_set } => {
            let condition = *condition;
            let variant_name = &schema.types[condition].name;
            let prefix = join(record, "On");
            let nested = join(prefix.as_str(), variant_name.as_str());
            let mut definitions = match render_selection(
                schema,
                operation,
                options,
                category,
                nested.as_str(),
                selection_set,
                condition,
            ) {
                Ok(definitions) => definitions,
                Err(e) => {
                    return Err(e);
                },
            };
            let variant = UnionVariant { name: variant_name.clone(), payload: nested };
            proof {
                lemma_views_push(parts.variants@, variant);
                lemma_views_add(parts.nested@, definitions@);
            }
            parts.variants.push(variant);
            parts.conditions.push(condition);
            parts.nested.append(&mut definitions);
            Ok(())
        },
    }
}

/// Builds the shape of `selections` made on the type at `on`, as the record
/// called `record`.
///
/// The outcome is [`selection_shape`], errors included: a field that `on`
/// lacks, a spread of no fragment, two `Required` in a row on a selected
/// field, or two type conditions that one value can match.
#[verifier::loop_isolation(false)]
pub fn render_selection(
    schema: &Schema,
    operation: &Operation,
    options: &GraphQLClientCodegenOptions,
    category: DefinitionCategory,
    record: &str,
    selections: &Vec<Selection>,
    on: usize,
) -> (r: Result<Vec<Definition>, CodegenError>)
    requires
        schema@.well_formed(),
        operation@.well_formed(schema@),
        selections_within(views(selections@), 0, schema@.types.len()),
        on < schema@.types.len(),
    ensures
        outcome(r) == selection_shape(
            schema@,
            operation@,
            options@,
            category,
            record@,
            views(selections@),
            on,
        ),
    decreases selections, 1nat,
{
    let mut parts = ShapeParts {
        fields: Vec::new(),
        variants: Vec::new(),
        conditions: Vec::new(),
        nested: Vec::new(),
    };
    proof {
        lemma_views_empty(parts.fields@);
        lemma_views_empty(parts.variants@);
        lemma_views_empty(parts.nested@);
        assert(parts.conditions@ =~= Seq::empty());
    }
    let mut i: usize = 0;
    while i < selections.len()
        invariant
            i <= selections.len(),
            forall|k: int|
                0 <= k < parts.conditions@.len() ==> (#[trigger] parts.conditions@[k])
                    < schema@.types.len(),
            entries_shape(
                schema@,
                operation@,
                options@,
                category,
                record@,
                views(selections@),
                i as nat,
                on,
                parts@,
            ) == entries_shape(
                schema@,
                operation@,
                options@,
                category,
                record@,
                views(selections@),
                0,
                on,
                ShapePartsView::empty(),
            ),
        decreases selections.len() - i,
    {
        proof {
            lemma_selections_within(views(selections@), 0, schema@.types.len(), i as int);
        }
        match render_entry(
            schema,
            operation,
            options,
            category,
            record,
            &selections[i],
            on,
            &mut parts,
        ) {
            Ok(()) => {},
            Err(e) => {
                return Err(e);
            },
        }
        i = i + 1;
    }
    let ShapeParts { fields, variants, conditions, nested } = parts;
    let mut nested = nested;
    match find_clash(schema, &conditions) {
        Some(at) => {
            let condition = conditions[at];
            assert(schema@.types[condition as int] == schema.types@[condition as int]@);
            Err(
                CodegenError::AmbiguousTypeCondition {
                    condition: schema.types[condition].name.clone(),
                },
            )
        },
        None => {
            let mut out = render_object_like_struct(
                options.all_response_derives(),
                category,
                record,
                fields,
                variants,
                schema.discriminant.as_str(),
            );
            proof {
                lemma_views_add(out@, nested@);
            }
            out.append(&mut nested);
            Ok(out)
        },
    }
}

/// The definitions for the fragment at `fragment`: the shape of its
/// selection set on its own type, as the record that bears its name.
pub open spec fn fragment_shape(
    schema: SchemaView,
    operation: OperationView,
    options: OptionsView,
    fragment: usize,
) -> Result<Seq<DefinitionView>, CodegenErrorView> {
    selection_shape(
        schema,
        operation,
        options,
        DefinitionCategory::Fragment,
        operation.fragments[fragment as int].name,
        operation.fragments[fragment as int].selection_set,
        operation.fragments[fragment as int].on,
    )
}

/// Builds [`fragment_shape`].
pub fn render_fragment(
    schema: &Schema,
    operation: &Operation,
    options: &GraphQLClientCodegenOptions,
    fragment: usize,
) -> (r: Result<Vec<Definition>, CodegenError>)
    requires
        schema@.well_formed(),
        operation@.well_formed(schema@),
        fragment < operation@.fragments.len(),
    ensures
        outcome(r) == fragment_shape(schema@, operation@, options@, fragment),
{
    proof {
        lemma_fragments_within(operation@.fragments, 0, schema@.types.len(), fragment as int);
    }
    let rendered = &operation.fragments[fragment];
    render_selection(
        schema,
        operation,
        options,
        DefinitionCategory::Fragment,
        rendered.name.as_str(),
        &rendered.selection_set,
        rendered.on,
    )
}

/// The definitions for the response of `operation`: the shape of its root
/// selection set, as the record `ResponseData`.
pub open spec fn response_shape(
    schema: SchemaView,
    operation: OperationView,
    options: OptionsView,
) -> Result<Seq<DefinitionView>, CodegenErrorView> {
    selection_shape(
        schema,
        operation,
        options,
        DefinitionCategory::ResponseObject,
        "ResponseData"@,
        operation.selection_set,
        operation.root,
    )
}

/// Builds [`response_shape`].
pub fn render_response_data_fields(
    schema: &Schema,
    operation: &Operation,
    options: &GraphQLClientCodegenOptions,
) -> (r: Result<Vec<Definition>, CodegenError>)
    requires
        schema@.well_formed(),
        operation@.well_formed(schema@),
    ensures
        outcome(r) == response_shape(schema@, operation@, options@),
{
    render_selection(
        schema,
        operation,
        options,
        DefinitionCategory::ResponseObject,
        "ResponseData",
        &operation.selection_set,
        operation.root,
    )
}

/// The definitions made for one fragment.
#[derive(Debug, PartialEq, Eq)]
pub struct FragmentShape {
    /// The fragment's place in the operation's table.
    pub fragment: usize,
    pub definitions: Vec<Definition>,
}

/// The mathematical value of a [`FragmentShape`].
pub struct FragmentShapeView {
    pub fragment: usize,
    pub definitions: Seq<DefinitionView>,
}

impl View for FragmentShape {
    type V = FragmentShapeView;

    open spec fn view(&self) -> FragmentShapeView {
        FragmentShapeView { fragment: self.fragment, definitions: views(self.definitions@) }
    }
}

} // verus!
