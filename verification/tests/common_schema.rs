use graphql_shapes::field_type::GraphqlTypeQualifier;
use graphql_shapes::schema::{Schema, SchemaField, SchemaType, TypeKind};

#[test]
fn well_formed_schema_is_accepted() {
    let schema = Schema {
        types: vec![
            SchemaType { name: "ID".to_string(), kind: TypeKind::Scalar { builtin: true } },
            SchemaType {
                name: "User".to_string(),
                kind: TypeKind::Object {
                    fields: vec![SchemaField {
                        name: "id".to_string(),
                        target: 0,
                        qualifiers: vec![GraphqlTypeQualifier::Required],
                    }],
                },
            },
        ],
        discriminant: "__typename".to_string(),
    };
    assert!(schema.is_well_formed());
}

#[test]
fn dangling_field_type_is_refused() {
    let schema = Schema {
        types: vec![SchemaType {
            name: "User".to_string(),
            kind: TypeKind::Object {
                fields: vec![SchemaField { name: "id".to_string(), target: 1, qualifiers: vec![] }],
            },
        }],
        discriminant: "__typename".to_string(),
    };
    assert!(!schema.is_well_formed());
}

#[test]
fn dangling_member_is_refused() {
    let schema = Schema {
        types: vec![SchemaType {
            name: "Anything".to_string(),
            kind: TypeKind::Union { members: vec![0, 7] },
        }],
        discriminant: "__typename".to_string(),
    };
    assert!(!schema.is_well_formed());
}

#[test]
fn find_field_takes_the_first_of_a_name() {
    let schema = Schema {
        types: vec![
            SchemaType { name: "ID".to_string(), kind: TypeKind::Scalar { builtin: true } },
            SchemaType {
                name: "User".to_string(),
                kind: TypeKind::Object {
                    fields: vec![
                        SchemaField { name: "id".to_string(), target: 0, qualifiers: vec![] },
                        SchemaField {
                            name: "id".to_string(),
                            target: 0,
                            qualifiers: vec![GraphqlTypeQualifier::Required],
                        },
                    ],
                },
            },
        ],
        discriminant: "__typename".to_string(),
    };
    let found = schema.find_field(1, &"id".to_string()).unwrap();
    assert!(found.qualifiers.is_empty());
    assert!(schema.find_field(1, &"name".to_string()).is_none());
    assert!(schema.find_field(0, &"id".to_string()).is_none());
}
