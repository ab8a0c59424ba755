//! From a schema and an operation to the definitions of the operation's
//! typed surface.

use crate::definitions::{
    Accessor, AccessorView, Definition, DefinitionBody, DefinitionBodyView, DefinitionCategory,
    DefinitionView, RecordField, RecordFieldView, UnionVariant, UnionVariantView,
};
use crate::error::{CodegenError, CodegenErrorView};
use crate::field_type::{
    decorate_type, decorated, double_required, GraphqlTypeQualifier, TypeDescriptor, TypeShape,
};
use crate::naming::{join, renamed_field, snake_case, wire_field};
use crate::options::{GraphQLClientCodegenOptions, OptionsView};
use crate::query::{Operation, OperationView, Variable, VariableView};
use crate::schema::{Schema, SchemaFieldView, SchemaView};
use crate::sequences::{
    copy_names, copy_string, lemma_views_add, lemma_views_push, views,
};
use crate::enums::{enum_definition, generate_enum_definitions};
use crate::selection::{
    fragment_shape, render_fragment, render_response_data_fields, response_shape, FragmentShape,
    FragmentShapeView,
};
use crate::used_types::{
    all_used_types, distinct_within, of_kind, used_types_of, UsedKind, UsedTypes,
};
use vstd::prelude::*;

verus! {

/// The name by which a type descriptor refers to the type at `target`: for
/// a built-in scalar the representation that `options` supplies, if any;
/// the type's own name otherwise.
pub open spec fn base_name(
    schema: SchemaView,
    options: OptionsView,
    target: usize,
) -> Seq<char> {
    let named = schema.types[target as int];
    if named.kind.is_builtin() {
        match options.representation(named.name) {
            Some(representation) => representation,
            None => named.name,
        }
    } else {
        named.name
    }
}

/// Computes [`base_name`].
pub fn type_reference(schema: &Schema, options: &GraphQLClientCodegenOptions, target: usize) -> (r:
    String)
    requires
        target < schema@.types.len(),
    ensures
        r@ == base_name(schema@, options@, target),
{
    let named = &schema.types[target];
    if named.kind.builtin_scalar() {
        match options.scalar_target(&named.name) {
            Some(representation) => representation.clone(),
            None => named.name.clone(),
        }
    } else {
        named.name.clone()
    }
}

/// The record field for a wire field or a variable called `name`, of the
/// type at `target` wrapped as `qualifiers` say.
pub open spec fn typed_field(
    schema: SchemaView,
    options: OptionsView,
    name: Seq<char>,
    target: usize,
    qualifiers: Seq<GraphqlTypeQualifier>,
) -> RecordFieldView {
    renamed_field(
        snake_case(name),
        name,
        options.reserved,
        decorated(base_name(schema, options, target), qualifiers),
    )
}

/// Builds [`typed_field`]; fails exactly on two `Required` in a row.
pub fn render_typed_field(
    schema: &Schema,
    options: &GraphQLClientCodegenOptions,
    name: &String,
    target: usize,
    qualifiers: &Vec<GraphqlTypeQualifier>,
) -> (r: Result<RecordField, CodegenError>)
    requires
        target < schema@.types.len(),
    ensures
        r is Ok <==> !double_required(qualifiers@),
        r matches Ok(field) ==> field@ == typed_field(schema@, options@, name@, target, qualifiers@),
        r matches Err(e) ==> e == CodegenError::MalformedQualifiers,
{
    let base = type_reference(schema, options, target);
    match decorate_type(base.as_str(), qualifiers.as_slice()) {
        Ok(ty) => Ok(wire_field(name, &options.reserved, ty)),
        Err(e) => Err(e),
    }
}

/// The type of `variable` as the variables record holds it.
pub fn render_variable_field_type(
    schema: &Schema,
    options: &GraphQLClientCodegenOptions,
    variable: &Variable,
) -> (r: Result<TypeDescriptor, CodegenError>)
    requires
        variable@.target < schema@.types.len(),
    ensures
        r is Ok <==> !double_required(variable@.qualifiers),
        r matches Ok(ty) ==> ty@ == decorated(
            base_name(schema@, options@, variable@.target),
            variable@.qualifiers,
        ),
        r matches Err(e) ==> e == CodegenError::MalformedQualifiers,
{
    let base = type_reference(schema, options, variable.target);
    decorate_type(base.as_str(), variable.qualifiers.as_slice())
}

/// The field of the variables record for `variable`.
pub fn generate_variable_struct_field(
    schema: &Schema,
    options: &GraphQLClientCodegenOptions,
    variable: &Variable,
) -> (r: Result<RecordField, CodegenError>)
    requires
        variable@.target < schema@.types.len(),
    ensures
        r is Ok <==> !double_required(variable@.qualifiers),
        r matches Ok(field) ==> field@ == typed_field(
            schema@,
            options@,
            variable@.name,
            variable@.target,
            variable@.qualifiers,
        ),
        r matches Err(e) ==> e == CodegenError::MalformedQualifiers,
{
    render_typed_field(schema, options, &variable.name, variable.target, &variable.qualifiers)
}

/// The accessor for the default of `variable`: named after it, of its type.
pub open spec fn default_accessor(
    schema: SchemaView,
    options: OptionsView,
    variable: VariableView,
) -> AccessorView {
    AccessorView {
        name: "default_"@ + variable.name,
        ty: decorated(base_name(schema, options, variable.target), variable.qualifiers),
    }
}

/// Whether no variable of `variables` has two `Required` in a row.
pub open spec fn variables_qualified(variables: Seq<VariableView>) -> bool {
    forall|v: int|
        0 <= v < variables.len() ==> !double_required((#[trigger] variables[v]).qualifiers)
}

/// The variables record of `operation`: one field and one default accessor
/// for each declared variable, in the order of declaration. An operation
/// without variables still has the record, with nothing in it.
pub open spec fn variables_record(
    schema: SchemaView,
    operation: OperationView,
    options: OptionsView,
) -> DefinitionView {
    DefinitionView {
        category: DefinitionCategory::Variables,
        name: "Variables"@,
        derives: options.variables_derives,
        body: DefinitionBodyView::Record {
            fields: Seq::new(
                operation.variables.len(),
                |v: int|
                    typed_field(
                        schema,
                        options,
                        operation.variables[v].name,
                        operation.variables[v].target,
                        operation.variables[v].qualifiers,
                    ),
            ),
            accessors: Seq::new(
                operation.variables.len(),
                |v: int| default_accessor(schema, options, operation.variables[v]),
            ),
        },
    }
}

/// Builds [`variables_record`]; fails exactly where some variable has two
/// `Required` in a row.
#[verifier::loop_isolation(false)]
pub fn generate_variables_struct(
    schema: &Schema,
    operation: &Operation,
    options: &GraphQLClientCodegenOptions,
) -> (r: Result<Definition, CodegenError>)
    requires
        operation@.well_formed(schema@),
    ensures
        r is Ok <==> variables_qualified(operation@.variables),
        r matches Ok(record) ==> record@ == variables_record(schema@, operation@, options@),
        r matches Err(e) ==> e == CodegenError::MalformedQualifiers,
{
    let derives = render_derives(options.all_variable_derives());
    let mut fields: Vec<RecordField> = Vec::new();
    let mut accessors: Vec<Accessor> = Vec::new();
    let mut v: usize = 0;
    while v < operation.variables.len()
        invariant
            v <= operation.variables.len(),
            views(fields@).len() == v,
            views(accessors@).len() == v,
            forall|k: int|
                0 <= k < v ==> !double_required((#[trigger] operation@.variables[k]).qualifiers),
            forall|k: int|
                0 <= k < v ==> (#[trigger] views(fields@)[k]) == typed_field(
                    schema@,
                    options@,
                    operation@.variables[k].name,
                    operation@.variables[k].target,
                    operation@.variables[k].qualifiers,
                ),
            forall|k: int|
                0 <= k < v ==> (#[trigger] views(accessors@)[k]) == default_accessor(
                    schema@,
                    options@,
                    operation@.variables[k],
                ),
        decreases operation.variables.len() - v,
    {
        let variable = &operation.variables[v];
        assert(operation@.variables[v as int] == variable@);
        let field = match generate_variable_struct_field(schema, options, variable) {
            Ok(field) => field,
            Err(e) => {
                return Err(e);
            },
        };
        let ty = match render_variable_field_type(schema, options, variable) {
            Ok(ty) => ty,
            Err(e) => {
                return Err(e);
            },
        };
        let accessor = Accessor { name: join("default_", variable.name.as_str()), ty };
        proof {
            lemma_views_push(fields@, field);
            lemma_views_push(accessors@, accessor);
        }
        fields.push(field);
        accessors.push(accessor);
        v = v + 1;
    }
    let record = Definition {
        category: DefinitionCategory::Variables,
        name: copy_string("Variables"),
        derives,
        body: DefinitionBody::Record { fields, accessors },
    };
    proof {
        let expected = variables_record(schema@, operation@, options@);
        assert(record@.body->Record_fields =~= expected.body->Record_fields);
        assert(record@.body->Record_accessors =~= expected.body->Record_accessors);
    }
    Ok(record)
}

/// The annotations to attach, as given.
pub fn render_derives(derives: &Vec<String>) -> (r: Vec<String>)
    ensures
        views(r@) == views(derives@),
{
    copy_names(derives)
}

/// The alias for the custom scalar at `id`: to the representation that
/// `options` supplies for its name, or to the placeholder where none is
/// supplied.
pub open spec fn scalar_alias(
    schema: SchemaView,
    options: OptionsView,
    id: usize,
) -> DefinitionView {
    DefinitionView {
        category: DefinitionCategory::Scalar,
        name: schema.types[id as int].name,
        derives: Seq::empty(),
        body: DefinitionBodyView::Alias {
            target: options.representation(schema.types[id as int].name),
        },
    }
}

/// One alias for each custom scalar in use, in the catalog's order.
#[verifier::loop_isolation(false)]
pub fn generate_scalar_definitions(
    schema: &Schema,
    options: &GraphQLClientCodegenOptions,
    all_used_types: &UsedTypes,
) -> (r: Vec<Definition>)
    requires
        distinct_within(all_used_types.types@, schema@.types.len()),
    ensures
        views(r@) == all_used_types.types@.filter(of_kind(schema@, UsedKind::Scalar)).map_values(
            |id: usize| scalar_alias(schema@, options@, id),
        ),
{
    let scalars = all_used_types.scalars(schema);
    let ghost alias = |id: usize| scalar_alias(schema@, options@, id);
    let mut out: Vec<Definition> = Vec::new();
    let mut i: usize = 0;
    while i < scalars.len()
        invariant
            i <= scalars.len(),
            views(out@) =~= scalars@.take(i as int).map_values(alias),
        decreases scalars.len() - i,
    {
        let named = &schema.types[scalars[i]];
        let target = match options.scalar_target(&named.name) {
            Some(target) => Some(target.clone()),
            None => None,
        };
        let definition = Definition {
            category: DefinitionCategory::Scalar,
            name: named.name.clone(),
            derives: Vec::new(),
            body: DefinitionBody::Alias { target },
        };
        proof {
            assert(definition@.derives =~= Seq::empty());
            assert(definition@ == alias(scalars@[i as int]));
            lemma_views_push(out@, definition);
            assert(scalars@.take(i as int + 1) =~= scalars@.take(i as int).push(scalars@[i as int]));
        }
        out.push(definition);
        i = i + 1;
    }
    proof {
        assert(scalars@.take(i as int) =~= scalars@);
    }
    out
}

/// The record for the input object at `id`: one field for each field it
/// declares, in the schema's order.
pub open spec fn input_record(
    schema: SchemaView,
    options: OptionsView,
    id: usize,
) -> DefinitionView {
    let fields = schema.types[id as int].kind.fields();
    DefinitionView {
        category: DefinitionCategory::Input,
        name: schema.types[id as int].name,
        derives: options.variables_derives,
        body: DefinitionBodyView::Record {
            fields: Seq::new(
                fields.len(),
                |f: int|
                    typed_field(schema, options, fields[f].name, fields[f].target, fields[f].qualifiers),
            ),
            accessors: Seq::empty(),
        },
    }
}

/// Whether no field of `fields` has two `Required` in a row.
pub open spec fn fields_qualified(fields: Seq<SchemaFieldView>) -> bool {
    forall|f: int| 0 <= f < fields.len() ==> !double_required((#[trigger] fields[f]).qualifiers)
}

/// Whether no field of any of the types at `ids` has two `Required` in a
/// row.
pub open spec fn inputs_qualified(schema: SchemaView, ids: Seq<usize>) -> bool {
    forall|k: int|
        0 <= k < ids.len() ==> fields_qualified(
            schema.types[(#[trigger] ids[k]) as int].kind.fields(),
        )
}

/// Builds [`input_record`]; fails exactly where a field of the type has two
/// `Required` in a row.
#[verifier::loop_isolation(false)]
pub fn render_input_object(
    schema: &Schema,
    options: &GraphQLClientCodegenOptions,
    id: usize,
) -> (r: Result<Definition, CodegenError>)
    requires
        schema@.well_formed(),
        id < schema@.types.len(),
    ensures
        r is Ok <==> fields_qualified(schema@.types[id as int].kind.fields()),
        r matches Ok(record) ==> record@ == input_record(schema@, options@, id),
        r matches Err(e) ==> e == CodegenError::MalformedQualifiers,
{
    let named = &schema.types[id];
    assert(schema@.types[id as int] == named@);
    let mut fields: Vec<RecordField> = Vec::new();
    if let Some(declared) = named.kind.field_list() {
        let mut f: usize = 0;
        while f < declared.len()
            invariant
                f <= declared.len(),
                views(fields@).len() == f,
                forall|k: int|
                    0 <= k < f ==> !double_required((#[trigger] declared@[k]).qualifiers@),
                forall|k: int|
                    0 <= k < f ==> (#[trigger] views(fields@)[k]) == typed_field(
                        schema@,
                        options@,
                        declared@[k].name@,
                        declared@[k].target,
                        declared@[k].qualifiers@,
                    ),
            decreases declared.len() - f,
        {
            proof {
                assert(schema@.types[id as int].kind.fields()[f as int] == declared@[f as int]@);
            }
            let field = match render_typed_field(
                schema,
                options,
                &declared[f].name,
                declared[f].target,
                &declared[f].qualifiers,
            ) {
                Ok(field) => field,
                Err(e) => {
                    return Err(e);
                },
            };
            proof {
                lemma_views_push(fields@, field);
            }
            fields.push(field);
            f = f + 1;
        }
    }
    let record = Definition {
        category: DefinitionCategory::Input,
        name: named.name.clone(),
        derives: render_derives(options.all_variable_derives()),
        body: DefinitionBody::Record { fields, accessors: Vec::new() },
    };
    proof {
        let expected = input_record(schema@, options@, id);
        assert(record@.body->Record_fields =~= expected.body->Record_fields);
        assert(record@.body->Record_accessors =~= expected.body->Record_accessors);
    }
    Ok(record)
}

/// One record for each input object in use, in the catalog's order; fails
/// exactly where a field of one of them has two `Required` in a row.
#[verifier::loop_isolation(false)]
pub fn generate_input_object_definitions(
    schema: &Schema,
    options: &GraphQLClientCodegenOptions,
    all_used_types: &UsedTypes,
) -> (r: Result<Vec<Definition>, CodegenError>)
    requires
        schema@.well_formed(),
        distinct_within(all_used_types.types@, schema@.types.len()),
    ensures
        r is Ok <==> inputs_qualified(
            schema@,
            all_used_types.types@.filter(of_kind(schema@, UsedKind::InputObject)),
        ),
        r matches Ok(records) ==> views(records@) == all_used_types.types@.filter(
            of_kind(schema@, UsedKind::InputObject),
        ).map_values(|id: usize| input_record(schema@, options@, id)),
        r matches Err(e) ==> e == CodegenError::MalformedQualifiers,
{
    let inputs = all_used_types.inputs(schema);
    let ghost record = |id: usize| input_record(schema@, options@, id);
    let mut out: Vec<Definition> = Vec::new();
    let mut i: usize = 0;
    while i < inputs.len()
        invariant
            i <= inputs.len(),
            views(out@) =~= inputs@.take(i as int).map_values(record),
            forall|k: int|
                0 <= k < i ==> fields_qualified(
                    schema@.types[(#[trigger] inputs@[k]) as int].kind.fields(),
                ),
        decreases inputs.len() - i,
    {
        let definition = match render_input_object(schema, options, inputs[i]) {
            Ok(definition) => definition,
            Err(e) => {
                proof {
                    assert(!fields_qualified(schema@.types[inputs@[i as int] as int].kind.fields()));
                }
                return Err(e);
            },
        };
        proof {
            assert(definition@ == record(inputs@[i as int]));
            lemma_views_push(out@, definition);
            assert(inputs@.take(i as int + 1) =~= inputs@.take(i as int).push(inputs@[i as int]));
        }
        out.push(definition);
        i = i + 1;
    }
    proof {
        assert(inputs@.take(i as int) =~= inputs@);
    }
    Ok(out)
}

/// The tagged union called `name` over `variants`, told apart by `tag`.
pub open spec fn union_definition(
    derives: Seq<Seq<char>>,
    category: DefinitionCategory,
    name: Seq<char>,
    variants: Seq<UnionVariantView>,
    tag: Seq<char>,
) -> DefinitionView {
    DefinitionView { category, name, derives, body: DefinitionBodyView::TaggedUnion { tag, variants } }
}

/// Builds [`union_definition`].
pub fn render_union_enum(
    response_derives: &Vec<String>,
    category: DefinitionCategory,
    enum_name: &str,
    variants: Vec<UnionVariant>,
    tag: &str,
) -> (r: Definition)
    ensures
        r@ == union_definition(
            views(response_derives@),
            category,
            enum_name@,
            views(variants@),
            tag@,
        ),
{
    Definition {
        category,
        name: copy_string(enum_name),
        derives: render_derives(response_derives),
        body: DefinitionBody::TaggedUnion { tag: copy_string(tag), variants },
    }
}

/// The field through which a record holds its tagged union: the union's
/// variants sit on the wire beside the record's own fields.
pub open spec fn on_field(struct_name: Seq<char>) -> RecordFieldView {
    RecordFieldView {
        name: "on"@,
        rename: None,
        ty: TypeShape::Named(struct_name + "On"@),
        flatten: true,
    }
}

/// The record called `name` with `fields`.
pub open spec fn record_definition(
    derives: Seq<Seq<char>>,
    category: DefinitionCategory,
    name: Seq<char>,
    fields: Seq<RecordFieldView>,
) -> DefinitionView {
    DefinitionView {
        category,
        name,
        derives,
        body: DefinitionBodyView::Record { fields, accessors: Seq::empty() },
    }
}

/// The definitions for a selection on an object or an interface: the record
/// alone where no variant was selected; otherwise the record with one more
/// field, [`on_field`], followed by the tagged union of the variants, which
/// is named after the record.
pub open spec fn object_like(
    derives: Seq<Seq<char>>,
    category: DefinitionCategory,
    struct_name: Seq<char>,
    fields: Seq<RecordFieldView>,
    variants: Seq<UnionVariantView>,
    tag: Seq<char>,
) -> Seq<DefinitionView> {
    if variants.len() == 0 {
        seq![record_definition(derives, category, struct_name, fields)]
    } else {
        seq![
            record_definition(derives, category, struct_name, fields.push(on_field(struct_name))),
            union_definition(derives, category, struct_name + "On"@, variants, tag),
        ]
    }
}

/// Builds [`object_like`]. A tagged union is among the definitions exactly
/// where `variants` is not empty.
pub fn render_object_like_struct(
    response_derives: &Vec<String>,
    category: DefinitionCategory,
    struct_name: &str,
    fields: Vec<RecordField>,
    variants: Vec<UnionVariant>,
    tag: &str,
) -> (r: Vec<Definition>)
    ensures
        views(r@) == object_like(
            views(response_derives@),
            category,
            struct_name@,
            views(fields@),
            views(variants@),
            tag@,
        ),
        variants@.len() == 0 ==> r@.len() == 1 && r@[0].body is Record,
        variants@.len() > 0 ==> r@.len() == 2 && r@[0].body is Record && r@[1].body is TaggedUnion,
{
    let mut fields = fields;
    let mut out: Vec<Definition> = Vec::new();
    if variants.len() > 0 {
        let enum_name = join(struct_name, "On");
        let on = RecordField {
            name: copy_string("on"),
            rename: None,
            ty: TypeDescriptor::Named(enum_name.clone()),
            flatten: true,
        };
        proof {
            lemma_views_push(fields@, on);
        }
        fields.push(on);
        let record = Definition {
            category,
            name: copy_string(struct_name),
            derives: render_derives(response_derives),
            body: DefinitionBody::Record { fields, accessors: Vec::new() },
        };
        let union = render_union_enum(response_derives, category, enum_name.as_str(), variants, tag);
        proof {
            assert(record@.body->Record_accessors =~= Seq::empty());
            assert(views(seq![record, union]) =~= seq![record@, union@]);
        }
        out.push(record);
        out.push(union);
        proof {
            assert(out@ =~= seq![record, union]);
        }
    } else {
        let record = Definition {
            category,
            name: copy_string(struct_name),
            derives: render_derives(response_derives),
            body: DefinitionBody::Record { fields, accessors: Vec::new() },
        };
        proof {
            assert(record@.body->Record_accessors =~= Seq::empty());
            assert(views(seq![record]) =~= seq![record@]);
            assert(views(variants@).len() == 0);
        }
        out.push(record);
        proof {
            assert(out@ =~= seq![record]);
        }
    }
    out
}

/// Whether the fragment at place `at` of `ids` is the first whose shape
/// fails, and fails with `e`.
pub open spec fn fails_first_at(
    schema: SchemaView,
    operation: OperationView,
    options: OptionsView,
    ids: Seq<usize>,
    at: int,
    e: CodegenErrorView,
) -> bool {
    &&& 0 <= at < ids.len()
    &&& fragment_shape(schema, operation, options, ids[at]) == Err::<
        Seq<DefinitionView>,
        CodegenErrorView,
    >(e)
    &&& forall|k: int|
        0 <= k < at ==> (#[trigger] fragment_shape(schema, operation, options, ids[k])) is Ok
}

/// Whether the shape of every fragment of `ids` can be made.
pub open spec fn fragments_render(
    schema: SchemaView,
    operation: OperationView,
    options: OptionsView,
    ids: Seq<usize>,
) -> bool {
    forall|k: int|
        0 <= k < ids.len() ==> (#[trigger] fragment_shape(schema, operation, options, ids[k])) is Ok
}

/// The shape of each fragment of `ids`, in order.
pub open spec fn fragment_shapes(
    schema: SchemaView,
    operation: OperationView,
    options: OptionsView,
    ids: Seq<usize>,
) -> Seq<FragmentShapeView> {
    Seq::new(
        ids.len(),
        |k: int|
            FragmentShapeView {
                fragment: ids[k],
                definitions: fragment_shape(schema, operation, options, ids[k])->Ok_0,
            },
    )
}

/// One shape for each fragment in use, in the catalog's order: a fragment
/// spread in many places is in the catalog once, and so has one shape. The
/// first shape that cannot be made fails the whole with its error.
#[verifier::loop_isolation(false)]
pub fn generate_fragment_definitions(
    schema: &Schema,
    operation: &Operation,
    all_used_types: &UsedTypes,
    options: &GraphQLClientCodegenOptions,
) -> (r: Result<Vec<FragmentShape>, CodegenError>)
    requires
        schema@.well_formed(),
        operation@.well_formed(schema@),
        distinct_within(all_used_types.fragments@, operation@.fragments.len()),
    ensures
        r is Ok <==> fragments_render(schema@, operation@, options@, all_used_types.fragments@),
        r matches Ok(shapes) ==> views(shapes@) == fragment_shapes(
            schema@,
            operation@,
            options@,
            all_used_types.fragments@,
        ),
        r matches Err(e) ==> exists|at: int|
            fails_first_at(schema@, operation@, options@, all_used_types.fragments@, at, e@),
{
    let ids = all_used_types.fragment_ids();
    let mut shapes: Vec<FragmentShape> = Vec::new();
    let mut i: usize = 0;
    while i < ids.len()
        invariant
            i <= ids.len(),
            views(shapes@).len() == i,
            forall|k: int|
                0 <= k < i ==> (#[trigger] fragment_shape(schema@, operation@, options@, ids@[k])) is Ok,
            forall|k: int|
                0 <= k < i ==> (#[trigger] views(shapes@)[k]) == (FragmentShapeView {
                    fragment: ids@[k],
                    definitions: fragment_shape(schema@, operation@, options@, ids@[k])->Ok_0,
                }),
        decreases ids.len() - i,
    {
        let fragment = ids[i];
        let definitions = match render_fragment(schema, operation, options, fragment) {
            Ok(definitions) => definitions,
            Err(e) => {
                proof {
                    assert(fails_first_at(schema@, operation@, options@, ids@, i as int, e@));
                }
                return Err(e);
            },
        };
        let shape = FragmentShape { fragment, definitions };
        proof {
            lemma_views_push(shapes@, shape);
        }
        shapes.push(shape);
        i = i + 1;
    }
    proof {
        assert(views(shapes@) =~= fragment_shapes(schema@, operation@, options@, ids@));
    }
    Ok(shapes)
}

/// The definitions of `shapes`, one shape after the other.
pub open spec fn flattened(shapes: Seq<FragmentShapeView>) -> Seq<DefinitionView>
    decreases shapes.len(),
{
    if shapes.len() == 0 {
        Seq::empty()
    } else {
        flattened(shapes.drop_last()) + shapes.last().definitions
    }
}

/// Moves the definitions of `shapes`, in order, to the end of `out`.
#[verifier::loop_isolation(false)]
pub fn append_shapes(out: &mut Vec<Definition>, shapes: Vec<FragmentShape>)
    ensures
        views(final(out)@) == views(old(out)@) + flattened(views(shapes@)),
{
    let mut shapes = shapes;
    let ghost given = views(shapes@);
    let mut i: usize = 0;
    proof {
        assert(given.take(0) =~= Seq::empty());
        assert(views(out@) =~= views(old(out)@) + flattened(given.take(0)));
    }
    while i < shapes.len()
        invariant
            i <= shapes.len(),
            shapes@.len() == given.len(),
            forall|k: int| i <= k < shapes@.len() ==> (#[trigger] shapes@[k])@ == given[k],
            views(out@) == views(old(out)@) + flattened(given.take(i as int)),
        decreases shapes.len() - i,
    {
        let ghost before = out@;
        let ghost moved = shapes@[i as int].definitions@;
        proof {
            assert(views(moved) == given[i as int].definitions);
            lemma_views_add(before, moved);
            assert(given.take(i as int + 1).drop_last() =~= given.take(i as int));
            assert(given.take(i as int + 1).last() == given[i as int]);
        }
        out.append(&mut shapes[i].definitions);
        proof {
            assert(views(out@) =~= views(old(out)@) + flattened(given.take(i as int + 1)));
        }
        i = i + 1;
    }
    proof {
        assert(given.take(i as int) =~= given);
    }
}

/// Whether every definition for `operation` can be made.
pub open spec fn generation_succeeds(
    schema: SchemaView,
    operation: OperationView,
    options: OptionsView,
) -> bool {
    let used = used_types_of(schema, operation);
    &&& inputs_qualified(schema, used.types.filter(of_kind(schema, UsedKind::InputObject)))
    &&& variables_qualified(operation.variables)
    &&& fragments_render(schema, operation, options, used.fragments)
    &&& response_shape(schema, operation, options) is Ok
}

/// Whether `e` is the error that generation for `operation` ends with: that
/// of the input objects, else that of the variables, else that of the first
/// fragment in the catalog whose shape fails, else that of the response.
pub open spec fn generation_error(
    schema: SchemaView,
    operation: OperationView,
    options: OptionsView,
    e: CodegenErrorView,
) -> bool {
    let used = used_types_of(schema, operation);
    if !inputs_qualified(schema, used.types.filter(of_kind(schema, UsedKind::InputObject)))
        || !variables_qualified(operation.variables) {
        e == CodegenErrorView::MalformedQualifiers
    } else if !fragments_render(schema, operation, options, used.fragments) {
        exists|at: int| fails_first_at(schema, operation, options, used.fragments, at, e)
    } else {
        response_shape(schema, operation, options) == Err::<Seq<DefinitionView>, CodegenErrorView>(e)
    }
}

/// The typed surface of `operation`, where every definition can be made:
/// the aliases of the custom scalars in use, the sum types of the enums in
/// use, the records of the input objects in use, the variables record, the
/// shape of each fragment in use, and the shape of the response.
pub open spec fn response_definitions(
    schema: SchemaView,
    operation: OperationView,
    options: OptionsView,
) -> Seq<DefinitionView> {
    let used = used_types_of(schema, operation);
    used.types.filter(of_kind(schema, UsedKind::Scalar)).map_values(
        |id: usize| scalar_alias(schema, options, id),
    ) + used.types.filter(of_kind(schema, UsedKind::Enum)).map_values(
        |id: usize| enum_definition(schema, options, id),
    ) + used.types.filter(of_kind(schema, UsedKind::InputObject)).map_values(
        |id: usize| input_record(schema, options, id),
    ) + seq![variables_record(schema, operation, options)] + flattened(
        fragment_shapes(schema, operation, options, used.fragments),
    ) + response_shape(schema, operation, options)->Ok_0
}

/// Makes every definition for `operation`.
///
/// The catalog of used types is collected once; the definitions come out
/// in the order of [`response_definitions`]. Generation is all or nothing:
/// it succeeds exactly where [`generation_succeeds`], and otherwise ends
/// with the one error that [`generation_error`] admits.
pub fn response_for_query(
    schema: &Schema,
    operation: &Operation,
    options: &GraphQLClientCodegenOptions,
) -> (r: Result<Vec<Definition>, CodegenError>)
    requires
        schema@.well_formed(),
        operation@.well_formed(schema@),
    ensures
        r is Ok <==> generation_succeeds(schema@, operation@, options@),
        r matches Ok(definitions) ==> views(definitions@) == response_definitions(
            schema@,
            operation@,
            options@,
        ),
        r matches Err(e) ==> generation_error(schema@, operation@, options@, e@),
{
    let used = all_used_types(schema, operation);
    let mut out = generate_scalar_definitions(schema, options, &used);
    let mut enum_definitions = generate_enum_definitions(schema, options, &used);
    let mut input_object_definitions = match generate_input_object_definitions(
        schema,
        options,
        &used,
    ) {
        Ok(definitions) => definitions,
        Err(e) => {
            return Err(e);
        },
    };
    let variables_struct = match generate_variables_struct(schema, operation, options) {
        Ok(record) => record,
        Err(e) => {
            return Err(e);
        },
    };
    let fragment_definitions = match generate_fragment_definitions(
        schema,
        operation,
        &used,
        options,
    ) {
        Ok(shapes) => shapes,
        Err(e) => {
            return Err(e);
        },
    };
    let mut definitions = match render_response_data_fields(schema, operation, options) {
        Ok(definitions) => definitions,
        Err(e) => {
            return Err(e);
        },
    };
    proof {
        lemma_views_add(out@, enum_definitions@);
        lemma_views_add(out@ + enum_definitions@, input_object_definitions@);
        lemma_views_push(
            out@ + enum_definitions@ + input_object_definitions@,
            variables_struct,
        );
    }
    let ghost scalars = views(out@);
    let ghost enums = views(enum_definitions@);
    let ghost inputs = views(input_object_definitions@);
    let ghost response = views(definitions@);
    out.append(&mut enum_definitions);
    out.append(&mut input_object_definitions);
    out.push(variables_struct);
    let ghost front = out@;
    append_shapes(&mut out, fragment_definitions);
    proof {
        lemma_views_add(out@, definitions@);
        assert(views(front) =~= scalars + enums + inputs + seq![variables_struct@]);
    }
    out.append(&mut definitions);
    proof {
        assert(views(out@) =~= scalars + enums + inputs + seq![variables_struct@] + flattened(
            views(fragment_definitions@),
        ) + response);
    }
    Ok(out)
}

} // verus!
