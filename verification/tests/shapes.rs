use graphql_shapes::codegen::{
    append_shapes, generate_fragment_definitions, generate_input_object_definitions, generate_scalar_definitions,
    generate_variable_struct_field, generate_variables_struct, render_derives,
    render_object_like_struct, render_union_enum, render_variable_field_type, response_for_query,
};
use graphql_shapes::definitions::{
    Accessor, Definition, DefinitionBody, DefinitionCategory, EnumVariant, RecordField,
    UnionVariant,
};
use graphql_shapes::enums::generate_enum_definitions;
use graphql_shapes::error::CodegenError;
use graphql_shapes::field_type::{GraphqlTypeQualifier, TypeDescriptor};
use graphql_shapes::naming::{join, keyword_replace, nested_name, rename_field, wire_field};
use graphql_shapes::options::{GraphQLClientCodegenOptions, ScalarMapping};
use graphql_shapes::query::{
    selection_is_within, selections_are_within, Fragment, Operation, Selection, Variable,
};
use graphql_shapes::schema::{Schema, SchemaField, SchemaType, TypeKind};
use graphql_shapes::selection::{
    can_be, find_clash, overlaps, render_fragment, render_response_data_fields, render_selection,
    FragmentShape,
};
use graphql_shapes::sequences::holds;
use graphql_shapes::used_types::{all_used_types, kind_matches, UsedKind, UsedTypes};

use GraphqlTypeQualifier::{List, Required};

const ID: usize = 0;
const STRING: usize = 1;
const NODE: usize = 2;
const USER: usize = 3;
const QUERY: usize = 4;
const DATE_TIME: usize = 5;
const ROLE: usize = 6;
const FILTER: usize = 7;
const SEARCH_RESULT: usize = 8;
const POST: usize = 9;
const PAGE: usize = 10;

fn field(name: &str, target: usize, qualifiers: &[GraphqlTypeQualifier]) -> SchemaField {
    SchemaField { name: name.to_string(), target, qualifiers: qualifiers.to_vec() }
}

fn ty(name: &str, kind: TypeKind) -> SchemaType {
    SchemaType { name: name.to_string(), kind }
}

fn schema() -> Schema {
    Schema {
        types: vec![
            ty("ID", TypeKind::Scalar { builtin: true }),
            ty("String", TypeKind::Scalar { builtin: true }),
            ty(
                "Node",
                TypeKind::Interface {
                    fields: vec![field("id", ID, &[Required])],
                    members: vec![USER, POST],
                },
            ),
            ty(
                "User",
                TypeKind::Object {
                    fields: vec![
                        field("id", ID, &[Required]),
                        field("name", STRING, &[]),
                        field("role", ROLE, &[Required]),
                        field("bestFriend", USER, &[]),
                    ],
                },
            ),
            ty(
                "Query",
                TypeKind::Object {
                    fields: vec![
                        field("node", NODE, &[]),
                        field("user", USER, &[Required]),
                        field("search", SEARCH_RESULT, &[List, Required]),
                        field("now", DATE_TIME, &[Required]),
                        field("broken", STRING, &[Required, Required]),
                    ],
                },
            ),
            ty("DateTime", TypeKind::Scalar { builtin: false }),
            ty(
                "Role",
                TypeKind::Enum { values: vec!["ADMIN".to_string(), "MEMBER".to_string()] },
            ),
            ty(
                "Filter",
                TypeKind::InputObject {
                    fields: vec![
                        field("role", ROLE, &[]),
                        field("and", FILTER, &[List, Required]),
                        field("createdSince", DATE_TIME, &[]),
                        field("page", PAGE, &[]),
                    ],
                },
            ),
            ty("SearchResult", TypeKind::Union { members: vec![USER, POST] }),
            ty(
                "Post",
                TypeKind::Object {
                    fields: vec![
                        field("id", ID, &[Required]),
                        field("title", STRING, &[Required]),
                        field("author", USER, &[Required]),
                    ],
                },
            ),
            ty(
                "Page",
                TypeKind::InputObject {
                    fields: vec![field("within", FILTER, &[]), field("first", ID, &[])],
                },
            ),
        ],
        discriminant: "__typename".to_string(),
    }
}

fn options() -> GraphQLClientCodegenOptions {
    GraphQLClientCodegenOptions {
        response_derives: vec!["Deserialize".to_string(), "Debug".to_string()],
        variables_derives: vec!["Serialize".to_string()],
        scalars: vec![
            ScalarMapping { scalar: "ID".to_string(), target: "String".to_string() },
            ScalarMapping { scalar: "ID".to_string(), target: "Never".to_string() },
        ],
        reserved: vec!["type".to_string(), "loop".to_string()],
    }
}

fn select(name: &str, selection_set: Vec<Selection>) -> Selection {
    Selection::Field { name: name.to_string(), alias: None, selection_set }
}

fn leaf(name: &str) -> Selection {
    select(name, vec![])
}

fn operation(selection_set: Vec<Selection>) -> Operation {
    Operation {
        name: "Lookup".to_string(),
        root: QUERY,
        selection_set,
        variables: vec![],
        fragments: vec![],
    }
}

fn named(name: &str) -> TypeDescriptor {
    TypeDescriptor::Named(name.to_string())
}

fn optional(inner: TypeDescriptor) -> TypeDescriptor {
    TypeDescriptor::Optional(Box::new(inner))
}

fn list(inner: TypeDescriptor) -> TypeDescriptor {
    TypeDescriptor::List(Box::new(inner))
}

fn plain(name: &str, ty: TypeDescriptor) -> RecordField {
    RecordField { name: name.to_string(), rename: None, ty, flatten: false }
}

fn flat(name: &str, ty: TypeDescriptor) -> RecordField {
    RecordField { name: name.to_string(), rename: None, ty, flatten: true }
}

fn response_derives() -> Vec<String> {
    vec!["Deserialize".to_string(), "Debug".to_string()]
}

fn record(category: DefinitionCategory, name: &str, fields: Vec<RecordField>) -> Definition {
    Definition {
        category,
        name: name.to_string(),
        derives: response_derives(),
        body: DefinitionBody::Record { fields, accessors: vec![] },
    }
}

fn union(category: DefinitionCategory, name: &str, variants: &[(&str, &str)]) -> Definition {
    Definition {
        category,
        name: name.to_string(),
        derives: response_derives(),
        body: DefinitionBody::TaggedUnion {
            tag: "__typename".to_string(),
            variants: variants
                .iter()
                .map(|(name, payload)| UnionVariant {
                    name: name.to_string(),
                    payload: payload.to_string(),
                })
                .collect(),
        },
    }
}

#[test]
fn fixture_is_well_formed() {
    assert!(schema().is_well_formed());
    assert!(operation(vec![leaf("now")]).is_well_formed(&schema()));
}

#[test]
fn operation_with_dangling_type_condition_is_refused() {
    let op = operation(vec![select(
        "node",
        vec![Selection::InlineFragment { on: 99, selection_set: vec![] }],
    )]);
    assert!(!op.is_well_formed(&schema()));
    let mut op = operation(vec![]);
    op.variables.push(Variable { name: "x".to_string(), target: 11, qualifiers: vec![] });
    assert!(!op.is_well_formed(&schema()));
    let mut op = operation(vec![]);
    op.fragments.push(Fragment { name: "F".to_string(), on: 11, selection_set: vec![] });
    assert!(!op.is_well_formed(&schema()));
    let mut op = operation(vec![]);
    op.root = 11;
    assert!(!op.is_well_formed(&schema()));
}

#[test]
fn collection_records_leaf_types_in_first_seen_order() {
    let op = operation(vec![
        select("user", vec![leaf("role"), leaf("id")]),
        leaf("now"),
        select("user", vec![leaf("role")]),
    ]);
    let used = all_used_types(&schema(), &op);
    assert_eq!(used, UsedTypes { types: vec![ROLE, DATE_TIME], fragments: vec![] });
}

#[test]
fn collection_is_idempotent() {
    let mut op = operation(vec![
        leaf("now"),
        select("user", vec![Selection::FragmentSpread { fragment: 0 }]),
    ]);
    op.fragments.push(Fragment {
        name: "UserParts".to_string(),
        on: USER,
        selection_set: vec![leaf("role")],
    });
    op.variables.push(Variable { name: "filter".to_string(), target: FILTER, qualifiers: vec![] });
    let first = all_used_types(&schema(), &op);
    let second = all_used_types(&schema(), &op);
    assert_eq!(first, second);
    assert_eq!(
        first,
        UsedTypes { types: vec![DATE_TIME, ROLE, FILTER, PAGE], fragments: vec![0] }
    );
}

#[test]
fn collection_ends_on_input_objects_that_contain_themselves() {
    // Filter holds Filter directly, and again through Page.
    let mut op = operation(vec![]);
    op.variables.push(Variable { name: "page".to_string(), target: PAGE, qualifiers: vec![] });
    let used = all_used_types(&schema(), &op);
    assert_eq!(used.types, vec![PAGE, FILTER, ROLE, DATE_TIME]);
    assert_eq!(used.inputs(&schema()), vec![PAGE, FILTER]);
    assert_eq!(used.enums(&schema()), vec![ROLE]);
    assert_eq!(used.scalars(&schema()), vec![DATE_TIME]);
}

#[test]
fn collection_ends_on_fragments_that_spread_each_other() {
    let mut op = operation(vec![select("user", vec![Selection::FragmentSpread { fragment: 1 }])]);
    op.fragments.push(Fragment {
        name: "A".to_string(),
        on: USER,
        selection_set: vec![leaf("role"), Selection::FragmentSpread { fragment: 1 }],
    });
    op.fragments.push(Fragment {
        name: "B".to_string(),
        on: USER,
        selection_set: vec![Selection::FragmentSpread { fragment: 0 }],
    });
    let used = all_used_types(&schema(), &op);
    assert_eq!(used.fragments, vec![1, 0]);
    assert_eq!(used.fragment_ids(), &vec![1, 0]);
    assert_eq!(used.fragments_len(), 2);
    assert_eq!(used.types, vec![ROLE]);
}

#[test]
fn collection_tells_types_apart_by_place_not_by_name() {
    let mut schema = schema();
    schema.types.push(ty("Role", TypeKind::Enum { values: vec!["OTHER".to_string()] }));
    if let TypeKind::Object { fields } = &mut schema.types[POST].kind {
        fields.push(field("role", 11, &[]));
    }
    let op = operation(vec![
        select("user", vec![leaf("role")]),
        select(
            "search",
            vec![Selection::InlineFragment { on: POST, selection_set: vec![leaf("role")] }],
        ),
    ]);
    let used = all_used_types(&schema, &op);
    assert_eq!(used.types, vec![ROLE, 11]);
}

#[test]
fn collection_skips_what_it_cannot_resolve() {
    let op = operation(vec![
        leaf("missing"),
        Selection::FragmentSpread { fragment: 4 },
        leaf("now"),
    ]);
    let used = all_used_types(&schema(), &op);
    assert_eq!(used, UsedTypes { types: vec![DATE_TIME], fragments: vec![] });
}

#[test]
fn builtin_scalars_are_not_recorded() {
    let op = operation(vec![select("user", vec![leaf("id"), leaf("name")])]);
    let used = all_used_types(&schema(), &op);
    assert_eq!(used, UsedTypes { types: vec![], fragments: vec![] });
}

#[test]
fn interface_selection_with_inline_fragment() {
    // interface Node { id: ID! }, User implements Node { id: ID!, name: String }
    // { node { id ... on User { name } } }
    let selection = vec![
        leaf("id"),
        Selection::InlineFragment { on: USER, selection_set: vec![leaf("name")] },
    ];
    let op = operation(vec![]);
    let definitions = render_selection(
        &schema(),
        &op,
        &options(),
        DefinitionCategory::ResponseObject,
        "Thing",
        &selection,
        NODE,
    )
    .unwrap();
    assert_eq!(
        definitions,
        vec![
            record(
                DefinitionCategory::ResponseObject,
                "Thing",
                vec![plain("id", named("String")), flat("on", named("ThingOn"))],
            ),
            union(DefinitionCategory::ResponseObject, "ThingOn", &[("User", "ThingOnUser")]),
            record(
                DefinitionCategory::ResponseObject,
                "ThingOnUser",
                vec![plain("name", optional(named("String")))],
            ),
        ]
    );
}

#[test]
fn selection_without_branches_has_no_union() {
    let op = operation(vec![select("user", vec![leaf("id"), leaf("role")])]);
    let definitions = render_response_data_fields(&schema(), &op, &options()).unwrap();
    assert_eq!(
        definitions,
        vec![
            record(
                DefinitionCategory::ResponseObject,
                "ResponseData",
                vec![plain("user", named("ResponseDataUser"))],
            ),
            record(
                DefinitionCategory::ResponseObject,
                "ResponseDataUser",
                vec![plain("id", named("String")), plain("role", named("Role"))],
            ),
        ]
    );
    assert!(definitions
        .iter()
        .all(|definition| !matches!(definition.body, DefinitionBody::TaggedUnion { .. })));
}

#[test]
fn selection_with_a_branch_has_a_union() {
    let op = operation(vec![select(
        "search",
        vec![
            Selection::InlineFragment { on: USER, selection_set: vec![leaf("name")] },
            Selection::InlineFragment { on: POST, selection_set: vec![leaf("title")] },
        ],
    )]);
    let definitions = render_response_data_fields(&schema(), &op, &options()).unwrap();
    assert_eq!(
        definitions,
        vec![
            record(
                DefinitionCategory::ResponseObject,
                "ResponseData",
                vec![plain("search", optional(list(named("ResponseDataSearch"))))],
            ),
            record(
                DefinitionCategory::ResponseObject,
                "ResponseDataSearch",
                vec![flat("on", named("ResponseDataSearchOn"))],
            ),
            union(
                DefinitionCategory::ResponseObject,
                "ResponseDataSearchOn",
                &[("User", "ResponseDataSearchOnUser"), ("Post", "ResponseDataSearchOnPost")],
            ),
            record(
                DefinitionCategory::ResponseObject,
                "ResponseDataSearchOnUser",
                vec![plain("name", optional(named("String")))],
            ),
            record(
                DefinitionCategory::ResponseObject,
                "ResponseDataSearchOnPost",
                vec![plain("title", named("String"))],
            ),
        ]
    );
}

#[test]
fn aliased_and_camel_case_fields_are_renamed() {
    let op = operation(vec![select(
        "user",
        vec![
            Selection::Field {
                name: "bestFriend".to_string(),
                alias: None,
                selection_set: vec![leaf("id")],
            },
            Selection::Field {
                name: "name".to_string(),
                alias: Some("displayName".to_string()),
                selection_set: vec![],
            },
        ],
    )]);
    let definitions = render_response_data_fields(&schema(), &op, &options()).unwrap();
    assert_eq!(
        definitions[1],
        record(
            DefinitionCategory::ResponseObject,
            "ResponseDataUser",
            vec![
                RecordField {
                    name: "best_friend".to_string(),
                    rename: Some("bestFriend".to_string()),
                    ty: optional(named("ResponseDataUserBestFriend")),
                    flatten: false,
                },
                RecordField {
                    name: "display_name".to_string(),
                    rename: Some("displayName".to_string()),
                    ty: optional(named("String")),
                    flatten: false,
                },
            ],
        )
    );
    assert_eq!(definitions[2].name, "ResponseDataUserBestFriend");
}

#[test]
fn wire_field_keeps_the_wire_name_only_where_it_differs() {
    assert_eq!(
        wire_field(&"createdAt".to_string(), &vec![], named("DateTime")),
        RecordField {
            name: "created_at".to_string(),
            rename: Some("createdAt".to_string()),
            ty: named("DateTime"),
            flatten: false,
        }
    );
    assert_eq!(
        wire_field(&"title".to_string(), &vec![], named("String")),
        plain("title", named("String"))
    );
}

#[test]
fn fragment_spread_twice_has_one_shape() {
    let mut op = operation(vec![
        select("user", vec![Selection::FragmentSpread { fragment: 0 }]),
        select("node", vec![leaf("id"), Selection::FragmentSpread { fragment: 0 }]),
    ]);
    op.fragments.push(Fragment {
        name: "UserParts".to_string(),
        on: USER,
        selection_set: vec![leaf("name")],
    });
    let used = all_used_types(&schema(), &op);
    assert_eq!(used.fragments, vec![0]);
    let shapes = generate_fragment_definitions(&schema(), &op, &used, &options()).unwrap();
    assert_eq!(shapes.len(), 1);
    assert_eq!(shapes[0].fragment, 0);
    assert_eq!(
        shapes[0].definitions,
        vec![record(
            DefinitionCategory::Fragment,
            "UserParts",
            vec![plain("name", optional(named("String")))],
        )]
    );
    let all = response_for_query(&schema(), &op, &options()).unwrap();
    let shapes_named = all.iter().filter(|definition| definition.name == "UserParts").count();
    assert_eq!(shapes_named, 1);
    // On User itself the fragment's fields are taken in beside the record's own.
    let user = all.iter().find(|definition| definition.name == "ResponseDataUser").unwrap();
    assert_eq!(
        user,
        &record(
            DefinitionCategory::ResponseObject,
            "ResponseDataUser",
            vec![flat("user_parts", named("UserParts"))],
        )
    );
    // On Node the same fragment is a variant that holds the same record.
    let node_on = all.iter().find(|definition| definition.name == "ResponseDataNodeOn").unwrap();
    assert_eq!(
        node_on,
        &union(DefinitionCategory::ResponseObject, "ResponseDataNodeOn", &[("User", "UserParts")])
    );
}

#[test]
fn render_fragment_names_the_record_after_the_fragment() {
    let mut op = operation(vec![]);
    op.fragments.push(Fragment {
        name: "PostParts".to_string(),
        on: POST,
        selection_set: vec![select("author", vec![leaf("role")])],
    });
    assert_eq!(
        render_fragment(&schema(), &op, &options(), 0),
        Ok(vec![
            record(
                DefinitionCategory::Fragment,
                "PostParts",
                vec![plain("author", named("PostPartsAuthor"))],
            ),
            record(
                DefinitionCategory::Fragment,
                "PostPartsAuthor",
                vec![plain("role", named("Role"))],
            ),
        ])
    );
}

#[test]
fn unknown_field_is_reported_with_its_type() {
    let op = operation(vec![select("user", vec![leaf("shoeSize")])]);
    assert_eq!(
        response_for_query(&schema(), &op, &options()),
        Err(CodegenError::UnknownField {
            field: "shoeSize".to_string(),
            enclosing: "User".to_string()
        })
    );
}

#[test]
fn unresolved_fragment_is_reported() {
    let op = operation(vec![select("user", vec![Selection::FragmentSpread { fragment: 3 }])]);
    assert_eq!(
        response_for_query(&schema(), &op, &options()),
        Err(CodegenError::UnresolvedFragment { fragment: 3 })
    );
}

#[test]
fn malformed_field_qualifiers_are_reported() {
    let op = operation(vec![leaf("broken")]);
    assert_eq!(
        response_for_query(&schema(), &op, &options()),
        Err(CodegenError::MalformedQualifiers)
    );
}

#[test]
fn overlapping_type_conditions_are_rejected() {
    // A User matches both `... on Node` and `... on User`.
    let op = operation(vec![select(
        "search",
        vec![
            Selection::InlineFragment { on: NODE, selection_set: vec![leaf("id")] },
            Selection::InlineFragment { on: POST, selection_set: vec![leaf("title")] },
        ],
    )]);
    assert_eq!(
        response_for_query(&schema(), &op, &options()),
        Err(CodegenError::AmbiguousTypeCondition { condition: "Post".to_string() })
    );
    let op = operation(vec![select(
        "search",
        vec![
            Selection::InlineFragment { on: USER, selection_set: vec![leaf("id")] },
            Selection::InlineFragment { on: USER, selection_set: vec![leaf("name")] },
        ],
    )]);
    assert_eq!(
        response_for_query(&schema(), &op, &options()),
        Err(CodegenError::AmbiguousTypeCondition { condition: "User".to_string() })
    );
}

#[test]
fn clash_detection_finds_the_first_later_condition() {
    let schema = schema();
    assert!(overlaps(&schema, NODE, USER));
    assert!(overlaps(&schema, SEARCH_RESULT, NODE));
    assert!(!overlaps(&schema, USER, POST));
    assert_eq!(find_clash(&schema, &vec![USER, POST]), None);
    assert_eq!(find_clash(&schema, &vec![USER, POST, NODE, USER]), Some(2));
    assert_eq!(find_clash(&schema, &vec![]), None);
}

#[test]
fn variable_list_of_required_ids() {
    // $ids: [ID!]
    let variable =
        Variable { name: "ids".to_string(), target: ID, qualifiers: vec![List, Required] };
    assert_eq!(
        render_variable_field_type(&schema(), &options(), &variable),
        Ok(optional(list(named("String"))))
    );
    assert_eq!(
        generate_variable_struct_field(&schema(), &options(), &variable),
        Ok(plain("ids", optional(list(named("String")))))
    );
}

#[test]
fn no_variables_gives_an_empty_variables_record() {
    let op = operation(vec![leaf("now")]);
    assert_eq!(
        generate_variables_struct(&schema(), &op, &options()),
        Ok(Definition {
            category: DefinitionCategory::Variables,
            name: "Variables".to_string(),
            derives: vec!["Serialize".to_string()],
            body: DefinitionBody::Record { fields: vec![], accessors: vec![] },
        })
    );
    let all = response_for_query(&schema(), &op, &options()).unwrap();
    let variables = all
        .iter()
        .filter(|definition| definition.category == DefinitionCategory::Variables)
        .count();
    assert_eq!(variables, 1);
}

#[test]
fn variables_record_has_a_field_and_an_accessor_for_each_variable() {
    let mut op = operation(vec![leaf("now")]);
    op.variables.push(Variable {
        name: "userId".to_string(),
        target: ID,
        qualifiers: vec![Required],
    });
    op.variables.push(Variable { name: "filter".to_string(), target: FILTER, qualifiers: vec![] });
    assert_eq!(
        generate_variables_struct(&schema(), &op, &options()),
        Ok(Definition {
            category: DefinitionCategory::Variables,
            name: "Variables".to_string(),
            derives: vec!["Serialize".to_string()],
            body: DefinitionBody::Record {
                fields: vec![
                    RecordField {
                        name: "user_id".to_string(),
                        rename: Some("userId".to_string()),
                        ty: named("String"),
                        flatten: false,
                    },
                    plain("filter", optional(named("Filter"))),
                ],
                accessors: vec![
                    Accessor { name: "default_userId".to_string(), ty: named("String") },
                    Accessor { name: "default_filter".to_string(), ty: optional(named("Filter")) },
                ],
            },
        })
    );
}

#[test]
fn malformed_variable_qualifiers_are_reported() {
    let mut op = operation(vec![leaf("now")]);
    op.variables.push(Variable {
        name: "id".to_string(),
        target: ID,
        qualifiers: vec![Required, Required],
    });
    assert_eq!(
        generate_variables_struct(&schema(), &op, &options()),
        Err(CodegenError::MalformedQualifiers)
    );
    assert_eq!(
        response_for_query(&schema(), &op, &options()),
        Err(CodegenError::MalformedQualifiers)
    );
}

#[test]
fn custom_scalar_alias_uses_the_mapping_or_the_placeholder() {
    let used = UsedTypes { types: vec![ROLE, DATE_TIME], fragments: vec![] };
    assert_eq!(
        generate_scalar_definitions(&schema(), &options(), &used),
        vec![Definition {
            category: DefinitionCategory::Scalar,
            name: "DateTime".to_string(),
            derives: vec![],
            body: DefinitionBody::Alias { target: None },
        }]
    );
    let mut mapped = options();
    mapped.scalars.push(ScalarMapping {
        scalar: "DateTime".to_string(),
        target: "chrono::DateTime".to_string(),
    });
    assert_eq!(
        generate_scalar_definitions(&schema(), &mapped, &used),
        vec![Definition {
            category: DefinitionCategory::Scalar,
            name: "DateTime".to_string(),
            derives: vec![],
            body: DefinitionBody::Alias { target: Some("chrono::DateTime".to_string()) },
        }]
    );
}

#[test]
fn unmapped_builtin_scalar_keeps_its_name() {
    let variable = Variable { name: "id".to_string(), target: ID, qualifiers: vec![Required] };
    let mut bare = options();
    bare.scalars.clear();
    assert_eq!(render_variable_field_type(&schema(), &bare, &variable), Ok(named("ID")));
}

#[test]
fn enum_has_the_declared_values_then_the_catch_all() {
    let used = UsedTypes { types: vec![DATE_TIME, ROLE], fragments: vec![] };
    assert_eq!(
        generate_enum_definitions(&schema(), &options(), &used),
        vec![Definition {
            category: DefinitionCategory::Enum,
            name: "Role".to_string(),
            derives: response_derives(),
            body: DefinitionBody::Enumeration {
                variants: vec![
                    EnumVariant::Value("ADMIN".to_string()),
                    EnumVariant::Value("MEMBER".to_string()),
                    EnumVariant::Other,
                ],
            },
        }]
    );
}

#[test]
fn input_object_has_a_field_for_each_input_field() {
    let used = UsedTypes { types: vec![PAGE], fragments: vec![] };
    assert_eq!(
        generate_input_object_definitions(&schema(), &options(), &used),
        Ok(vec![Definition {
            category: DefinitionCategory::Input,
            name: "Page".to_string(),
            derives: vec!["Serialize".to_string()],
            body: DefinitionBody::Record {
                fields: vec![
                    plain("within", optional(named("Filter"))),
                    plain("first", optional(named("String"))),
                ],
                accessors: vec![],
            },
        }])
    );
}

#[test]
fn malformed_input_field_is_reported() {
    let mut schema = schema();
    if let TypeKind::InputObject { fields } = &mut schema.types[PAGE].kind {
        fields.push(field("bad", ID, &[Required, Required]));
    }
    let used = UsedTypes { types: vec![PAGE], fragments: vec![] };
    assert_eq!(
        generate_input_object_definitions(&schema, &options(), &used),
        Err(CodegenError::MalformedQualifiers)
    );
}

#[test]
fn object_like_struct_without_variants_is_the_record_alone() {
    let definitions = render_object_like_struct(
        &response_derives(),
        DefinitionCategory::Fragment,
        "Parts",
        vec![plain("id", named("String"))],
        vec![],
        "__typename",
    );
    assert_eq!(
        definitions,
        vec![record(DefinitionCategory::Fragment, "Parts", vec![plain("id", named("String"))])]
    );
}

#[test]
fn object_like_struct_with_variants_adds_the_union() {
    let definitions = render_object_like_struct(
        &response_derives(),
        DefinitionCategory::Fragment,
        "Parts",
        vec![plain("id", named("String"))],
        vec![UnionVariant { name: "User".to_string(), payload: "PartsOnUser".to_string() }],
        "__typename",
    );
    assert_eq!(
        definitions,
        vec![
            record(
                DefinitionCategory::Fragment,
                "Parts",
                vec![plain("id", named("String")), flat("on", named("PartsOn"))],
            ),
            union(DefinitionCategory::Fragment, "PartsOn", &[("User", "PartsOnUser")]),
        ]
    );
}

#[test]
fn union_enum_is_tagged_by_the_discriminant() {
    assert_eq!(
        render_union_enum(
            &response_derives(),
            DefinitionCategory::ResponseObject,
            "ThingOn",
            vec![UnionVariant { name: "Post".to_string(), payload: "ThingOnPost".to_string() }],
            "kind",
        ),
        Definition {
            category: DefinitionCategory::ResponseObject,
            name: "ThingOn".to_string(),
            derives: response_derives(),
            body: DefinitionBody::TaggedUnion {
                tag: "kind".to_string(),
                variants: vec![UnionVariant {
                    name: "Post".to_string(),
                    payload: "ThingOnPost".to_string()
                }],
            },
        }
    );
}

#[test]
fn derives_pass_through_in_order() {
    let derives = vec!["B".to_string(), "A".to_string(), "B".to_string()];
    assert_eq!(render_derives(&derives), derives);
}

#[test]
fn whole_surface_comes_out_in_order() {
    let mut op = operation(vec![
        leaf("now"),
        select("user", vec![leaf("role"), Selection::FragmentSpread { fragment: 0 }]),
    ]);
    op.fragments.push(Fragment {
        name: "UserParts".to_string(),
        on: USER,
        selection_set: vec![leaf("id")],
    });
    op.variables.push(Variable { name: "page".to_string(), target: PAGE, qualifiers: vec![] });
    let all = response_for_query(&schema(), &op, &options()).unwrap();
    let outline: Vec<(DefinitionCategory, &str)> = all
        .iter()
        .map(|definition| (definition.category, definition.name.as_str()))
        .collect();
    assert_eq!(
        outline,
        vec![
            (DefinitionCategory::Scalar, "DateTime"),
            (DefinitionCategory::Enum, "Role"),
            (DefinitionCategory::Input, "Page"),
            (DefinitionCategory::Input, "Filter"),
            (DefinitionCategory::Variables, "Variables"),
            (DefinitionCategory::Fragment, "UserParts"),
            (DefinitionCategory::ResponseObject, "ResponseData"),
            (DefinitionCategory::ResponseObject, "ResponseDataUser"),
        ]
    );
    assert_eq!(response_for_query(&schema(), &op, &options()).ok(), Some(all));
}

#[test]
fn catalog_holds_only_what_is_used() {
    let mut op = operation(vec![select("user", vec![leaf("id")])]);
    op.variables.push(Variable { name: "role".to_string(), target: ROLE, qualifiers: vec![] });
    op.fragments.push(Fragment {
        name: "Unused".to_string(),
        on: QUERY,
        selection_set: vec![leaf("now")],
    });
    let used = all_used_types(&schema(), &op);
    assert_eq!(used, UsedTypes { types: vec![ROLE], fragments: vec![] });
}

#[test]
fn catalog_holds_what_fragments_use_in_turn() {
    let mut op = operation(vec![Selection::FragmentSpread { fragment: 0 }]);
    op.fragments.push(Fragment {
        name: "Outer".to_string(),
        on: QUERY,
        selection_set: vec![select("user", vec![Selection::FragmentSpread { fragment: 1 }])],
    });
    op.fragments.push(Fragment {
        name: "Inner".to_string(),
        on: USER,
        selection_set: vec![
            leaf("role"),
            Selection::InlineFragment { on: USER, selection_set: vec![leaf("name")] },
        ],
    });
    assert!(op.is_well_formed(&schema()));
    let used = all_used_types(&schema(), &op);
    assert_eq!(used, UsedTypes { types: vec![ROLE], fragments: vec![0, 1] });
    let all = response_for_query(&schema(), &op, &options()).unwrap();
    let names: Vec<&str> = all.iter().map(|definition| definition.name.as_str()).collect();
    assert_eq!(
        names,
        vec![
            "Role",
            "Variables",
            "Outer",
            "OuterUser",
            "Inner",
            "InnerOn",
            "InnerOnUser",
            "ResponseData",
        ]
    );
}

#[test]
fn first_failing_fragment_decides_the_error() {
    let mut op = operation(vec![
        Selection::FragmentSpread { fragment: 1 },
        Selection::FragmentSpread { fragment: 0 },
        leaf("missing"),
    ]);
    op.fragments.push(Fragment {
        name: "Bad".to_string(),
        on: QUERY,
        selection_set: vec![leaf("broken")],
    });
    op.fragments.push(Fragment {
        name: "Worse".to_string(),
        on: QUERY,
        selection_set: vec![select("user", vec![leaf("age")])],
    });
    assert_eq!(
        response_for_query(&schema(), &op, &options()),
        Err(CodegenError::UnknownField { field: "age".to_string(), enclosing: "User".to_string() })
    );
}

#[test]
fn selections_are_held_to_the_table() {
    let inside = Selection::InlineFragment { on: POST, selection_set: vec![leaf("title")] };
    let outside = select(
        "search",
        vec![leaf("id"), Selection::InlineFragment { on: 11, selection_set: vec![] }],
    );
    assert!(selection_is_within(&inside, 11));
    assert!(!selection_is_within(&inside, POST));
    assert!(!selection_is_within(&outside, 11));
    assert!(selection_is_within(&outside, 12));
    assert!(selection_is_within(&Selection::FragmentSpread { fragment: 40 }, 0));
    assert!(selections_are_within(&vec![], 0));
    assert!(!selections_are_within(&vec![leaf("a"), outside], 11));
}

#[test]
fn shapes_are_appended_in_order() {
    let first = record(DefinitionCategory::Fragment, "A", vec![]);
    let second = record(DefinitionCategory::Fragment, "B", vec![]);
    let third = record(DefinitionCategory::Fragment, "C", vec![]);
    let mut out = vec![record(DefinitionCategory::Variables, "Variables", vec![])];
    append_shapes(
        &mut out,
        vec![
            FragmentShape { fragment: 2, definitions: vec![first, second] },
            FragmentShape { fragment: 0, definitions: vec![] },
            FragmentShape { fragment: 1, definitions: vec![third] },
        ],
    );
    let names: Vec<&str> = out.iter().map(|definition| definition.name.as_str()).collect();
    assert_eq!(names, vec!["Variables", "A", "B", "C"]);
}

#[test]
fn kinds_say_what_they_declare() {
    let schema = schema();
    assert!(schema.types[USER].kind.composite());
    assert!(schema.types[NODE].kind.composite());
    assert!(schema.types[SEARCH_RESULT].kind.composite());
    assert!(!schema.types[FILTER].kind.composite());
    assert!(schema.types[ID].kind.builtin_scalar());
    assert!(!schema.types[DATE_TIME].kind.builtin_scalar());
    assert!(!schema.types[ROLE].kind.builtin_scalar());
    assert_eq!(schema.types[ROLE].kind.value_list().map(|values| values.len()), Some(2));
    assert!(schema.types[USER].kind.value_list().is_none());
    assert_eq!(schema.types[FILTER].kind.field_list().map(|fields| fields.len()), Some(4));
    assert!(schema.types[SEARCH_RESULT].kind.field_list().is_none());
    assert_eq!(schema.types[NODE].kind.member_list(), Some(&vec![USER, POST]));
    assert!(schema.types[USER].kind.member_list().is_none());
    assert!(kind_matches(&schema.types[ROLE].kind, UsedKind::Enum));
    assert!(!kind_matches(&schema.types[ROLE].kind, UsedKind::Scalar));
    assert!(kind_matches(&schema.types[ID].kind, UsedKind::Scalar));
    assert!(kind_matches(&schema.types[PAGE].kind, UsedKind::InputObject));
    assert!(holds(&vec![3, 1, 2], 2));
    assert!(!holds(&vec![3, 1, 2], 0));
    assert!(can_be(&schema, NODE, POST));
    assert!(!can_be(&schema, NODE, QUERY));
    assert!(can_be(&schema, USER, USER));
    assert!(!can_be(&schema, USER, POST));
}

#[test]
fn reserved_names_get_an_underscore() {
    let reserved = vec!["type".to_string(), "match".to_string()];
    assert_eq!(keyword_replace("type".to_string(), &reserved), "type_");
    assert_eq!(keyword_replace("match".to_string(), &reserved), "match_");
    assert_eq!(keyword_replace("types".to_string(), &reserved), "types");
    assert_eq!(keyword_replace("type".to_string(), &vec![]), "type");
    // The wire name is kept only where it differs from the snake case name.
    assert_eq!(
        wire_field(&"type".to_string(), &reserved, named("String")),
        plain("type_", named("String"))
    );
    assert_eq!(
        rename_field("match".to_string(), &"Match".to_string(), &reserved, named("String")),
        RecordField {
            name: "match_".to_string(),
            rename: Some("Match".to_string()),
            ty: named("String"),
            flatten: false,
        }
    );
}

#[test]
fn reserved_variable_name_is_made_safe() {
    let variable = Variable { name: "loop".to_string(), target: ID, qualifiers: vec![] };
    assert_eq!(
        generate_variable_struct_field(&schema(), &options(), &variable),
        Ok(plain("loop_", optional(named("String"))))
    );
}

#[test]
fn names_are_joined_in_order() {
    assert_eq!(join("Thing", "On"), "ThingOn");
    assert_eq!(join("", ""), "");
    assert_eq!(nested_name("ResponseData", "search_results"), "ResponseDataSearchResults");
    assert_eq!(nested_name("Parts", "bestFriend"), "PartsBestFriend");
}
