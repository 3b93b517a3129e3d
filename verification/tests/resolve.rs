use graphql_resolution::document::{
    Definition, Document, FragmentDefinition, OperationDefinition, OperationType, Selection,
    VariableDefinition,
};
use graphql_resolution::resolution::{
    resolve, resolve_fragment, IdSelection, ResolveError, ResolvedFragment, ResolvedQuery,
};
use graphql_resolution::schema::{Schema, SchemaField, SchemaType, StoredFieldId, TypeId, TypeKind};

fn scalar(name: &str) -> SchemaType {
    SchemaType { name: name.to_string(), kind: TypeKind::Scalar, fields: Vec::new() }
}

fn object(name: &str, fields: Vec<SchemaField>) -> SchemaType {
    SchemaType { name: name.to_string(), kind: TypeKind::Object, fields }
}

fn field(name: &str, field_type: TypeId) -> SchemaField {
    SchemaField { name: name.to_string(), field_type }
}

/// Types: 0 = ID (scalar), 1 = String (scalar), 2 = User (object),
/// 3 = Query (object with `me: User`).
fn test_schema() -> Schema {
    Schema {
        types: vec![
            scalar("ID"),
            scalar("String"),
            object("User", vec![field("id", TypeId::Scalar(0)), field("name", TypeId::Scalar(1))]),
            object("Query", vec![field("me", TypeId::Object(2))]),
        ],
        query_root: Some(3),
        mutation_root: None,
        subscription_root: None,
    }
}

fn fsel(name: &str, children: Vec<Selection>) -> Selection {
    Selection::Field { name: name.to_string(), selection_set: children }
}

fn spread(name: &str) -> Selection {
    Selection::FragmentSpread { name: name.to_string() }
}

fn inline(on: &str, children: Vec<Selection>) -> Selection {
    Selection::InlineFragment { on: on.to_string(), selection_set: children }
}

fn op(name: &str, kind: OperationType, selection_set: Vec<Selection>) -> Definition {
    Definition::Operation(OperationDefinition {
        name: Some(name.to_string()),
        operation_type: kind,
        variables: Vec::new(),
        selection_set,
    })
}

fn frag(name: &str, on: &str, selection_set: Vec<Selection>) -> Definition {
    Definition::Fragment(FragmentDefinition {
        name: name.to_string(),
        on: on.to_string(),
        selection_set,
    })
}

fn fid(type_index: usize, field_index: usize) -> StoredFieldId {
    StoredFieldId { type_index, field_index }
}

#[test]
fn schema_is_well_formed() {
    assert!(test_schema().is_well_formed());
}

#[test]
fn schema_with_dangling_field_type_is_rejected() {
    let mut schema = test_schema();
    schema.types[3].fields[0].field_type = TypeId::Object(9);
    assert!(!schema.is_well_formed());
}

#[test]
fn schema_with_duplicate_type_names_is_rejected() {
    let mut schema = test_schema();
    schema.types[1].name = "ID".to_string();
    assert!(!schema.is_well_formed());
}

#[test]
fn schema_with_scalar_root_is_rejected() {
    let mut schema = test_schema();
    schema.query_root = Some(0);
    assert!(!schema.is_well_formed());
}

#[test]
fn find_type_returns_tagged_id() {
    let schema = test_schema();
    assert_eq!(schema.find_type(&"User".to_string()), Some(TypeId::Object(2)));
    assert_eq!(schema.find_type(&"ID".to_string()), Some(TypeId::Scalar(0)));
    assert_eq!(schema.find_type(&"Missing".to_string()), None);
}

#[test]
fn simple_query_resolves() {
    let schema = test_schema();
    let document = Document {
        definitions: vec![op(
            "Me",
            OperationType::Query,
            vec![fsel("me", vec![fsel("id", vec![]), fsel("name", vec![])])],
        )],
    };
    let store = resolve(&schema, &document).unwrap();
    assert_eq!(store.operations.len(), 1);
    assert_eq!(store.fragments.len(), 0);
    assert_eq!(store.operations[0].name(), "Me");
    assert_eq!(store.operations[0].operation_type, OperationType::Query);
    let expected = vec![IdSelection::Field(
        fid(3, 0),
        vec![IdSelection::Field(fid(2, 0), vec![]), IdSelection::Field(fid(2, 1), vec![])],
    )];
    assert_eq!(store.operations[0].selection, expected);
}

#[test]
fn unknown_field_is_reported() {
    let schema = test_schema();
    let document = Document {
        definitions: vec![op(
            "Bad",
            OperationType::Query,
            vec![fsel("me", vec![fsel("email", vec![])])],
        )],
    };
    let err = resolve(&schema, &document).unwrap_err();
    assert_eq!(err, ResolveError::UnknownField("User".to_string(), "email".to_string()));
}

#[test]
fn selection_on_leaf_type_is_reported() {
    let schema = test_schema();
    let document = Document {
        definitions: vec![op(
            "Bad2",
            OperationType::Query,
            vec![fsel("me", vec![fsel("id", vec![fsel("x", vec![])])])],
        )],
    };
    let err = resolve(&schema, &document).unwrap_err();
    assert_eq!(err, ResolveError::SelectionOnLeafType("ID".to_string()));
}

#[test]
fn fragment_defined_after_use_resolves() {
    let schema = test_schema();
    let document = Document {
        definitions: vec![
            op("Q", OperationType::Query, vec![fsel("me", vec![spread("F")])]),
            frag("F", "User", vec![fsel("name", vec![])]),
        ],
    };
    let store = resolve(&schema, &document).unwrap();
    assert_eq!(store.operations.len(), 1);
    assert_eq!(store.fragments.len(), 1);
    assert_eq!(store.fragments[0].name, "F");
    assert_eq!(store.fragments[0].on, TypeId::Object(2));
    assert_eq!(
        store.operations[0].selection,
        vec![IdSelection::Field(fid(3, 0), vec![IdSelection::FragmentSpread(0)])],
    );
    assert_eq!(store.fragments[0].selection, vec![IdSelection::Field(fid(2, 1), vec![])]);
}

#[test]
fn unknown_fragment_is_reported() {
    let schema = test_schema();
    let document = Document {
        definitions: vec![op("Q", OperationType::Query, vec![fsel("me", vec![spread("Missing")])])],
    };
    let err = resolve(&schema, &document).unwrap_err();
    assert_eq!(err, ResolveError::UnknownFragment("Missing".to_string()));
}

#[test]
fn duplicate_fragment_is_reported() {
    let schema = test_schema();
    let document = Document {
        definitions: vec![
            frag("F", "User", vec![fsel("name", vec![])]),
            frag("F", "User", vec![fsel("id", vec![])]),
        ],
    };
    let err = resolve(&schema, &document).unwrap_err();
    assert_eq!(err, ResolveError::DuplicateFragment("F".to_string()));
}

#[test]
fn duplicate_is_rejected_by_the_fragment_resolver_itself() {
    let schema = test_schema();
    let mut store = ResolvedQuery {
        operations: Vec::new(),
        fragments: vec![ResolvedFragment {
            name: "F".to_string(),
            on: TypeId::Object(2),
            selection: Vec::new(),
        }],
    };
    let definition = FragmentDefinition {
        name: "F".to_string(),
        on: "User".to_string(),
        selection_set: vec![fsel("name", vec![])],
    };
    let names = vec!["F".to_string(), "F".to_string()];
    let err = resolve_fragment(&mut store, &schema, &definition, &names).unwrap_err();
    assert_eq!(err, ResolveError::DuplicateFragment("F".to_string()));
    // The store is unchanged: still exactly the one original entry.
    assert_eq!(store.fragments.len(), 1);
    assert!(store.fragments[0].selection.is_empty());
    assert_eq!(store.operations.len(), 0);
}

#[test]
fn earlier_failure_precedes_later_duplicate() {
    let schema = test_schema();
    let document = Document {
        definitions: vec![
            op("A", OperationType::Query, vec![fsel("nope", vec![])]),
            frag("F", "User", vec![fsel("name", vec![])]),
            frag("F", "User", vec![fsel("id", vec![])]),
        ],
    };
    let err = resolve(&schema, &document).unwrap_err();
    assert_eq!(err, ResolveError::UnknownField("Query".to_string(), "nope".to_string()));
}

#[test]
fn earlier_duplicate_precedes_later_failure() {
    let schema = test_schema();
    let document = Document {
        definitions: vec![
            frag("F", "User", vec![fsel("name", vec![])]),
            frag("F", "User", vec![fsel("id", vec![])]),
            op("A", OperationType::Query, vec![fsel("nope", vec![])]),
        ],
    };
    let err = resolve(&schema, &document).unwrap_err();
    assert_eq!(err, ResolveError::DuplicateFragment("F".to_string()));
}

#[test]
fn empty_operation_name_is_rejected() {
    let schema = test_schema();
    let document = Document {
        definitions: vec![op("", OperationType::Query, vec![fsel("me", vec![])])],
    };
    let err = resolve(&schema, &document).unwrap_err();
    assert_eq!(err, ResolveError::AnonymousOperationUnsupported);
}

#[test]
fn anonymous_operation_is_rejected() {
    let schema = test_schema();
    let document = Document {
        definitions: vec![Definition::Operation(OperationDefinition {
            name: None,
            operation_type: OperationType::Query,
            variables: Vec::new(),
            selection_set: vec![fsel("me", vec![])],
        })],
    };
    let err = resolve(&schema, &document).unwrap_err();
    assert_eq!(err, ResolveError::AnonymousOperationUnsupported);
}

#[test]
fn missing_root_type_is_reported() {
    let schema = test_schema();
    let document = Document {
        definitions: vec![op("M", OperationType::Mutation, vec![fsel("me", vec![])])],
    };
    let err = resolve(&schema, &document).unwrap_err();
    assert_eq!(err, ResolveError::NoRootType(OperationType::Mutation));
}

#[test]
fn subscription_is_unsupported() {
    let schema = test_schema();
    let document = Document {
        definitions: vec![op("S", OperationType::Subscription, vec![fsel("me", vec![])])],
    };
    let err = resolve(&schema, &document).unwrap_err();
    assert!(matches!(err, ResolveError::UnsupportedConstruct(_)));
}

#[test]
fn unknown_type_condition_is_reported() {
    let schema = test_schema();
    let document = Document {
        definitions: vec![frag("F", "Missing", vec![fsel("name", vec![])])],
    };
    let err = resolve(&schema, &document).unwrap_err();
    assert_eq!(err, ResolveError::UnknownType("Missing".to_string()));
}

#[test]
fn unknown_inline_condition_is_reported() {
    let schema = test_schema();
    let document = Document {
        definitions: vec![op(
            "Q",
            OperationType::Query,
            vec![fsel("me", vec![inline("Missing", vec![])])],
        )],
    };
    let err = resolve(&schema, &document).unwrap_err();
    assert_eq!(err, ResolveError::UnknownType("Missing".to_string()));
}

#[test]
fn selection_order_is_kept_and_repeats_are_not_dropped() {
    let schema = test_schema();
    let document = Document {
        definitions: vec![op(
            "Q",
            OperationType::Query,
            vec![fsel(
                "me",
                vec![fsel("id", vec![]), fsel("name", vec![]), fsel("id", vec![])],
            )],
        )],
    };
    let store = resolve(&schema, &document).unwrap();
    let expected = vec![IdSelection::Field(
        fid(3, 0),
        vec![
            IdSelection::Field(fid(2, 0), vec![]),
            IdSelection::Field(fid(2, 1), vec![]),
            IdSelection::Field(fid(2, 0), vec![]),
        ],
    )];
    assert_eq!(store.operations[0].selection, expected);
}

#[test]
fn leaf_selection_trees_are_empty() {
    let schema = test_schema();
    let document = Document {
        definitions: vec![op(
            "Q",
            OperationType::Query,
            vec![fsel("me", vec![fsel("id", vec![]), fsel("name", vec![])])],
        )],
    };
    let store = resolve(&schema, &document).unwrap();
    fn leaves_empty(schema: &Schema, node: &IdSelection) -> bool {
        match node {
            IdSelection::Field(f, children) => {
                let t = schema.types[f.type_index].fields[f.field_index].field_type;
                let leaf = matches!(t, TypeId::Scalar(_) | TypeId::Enum(_));
                (!leaf || children.is_empty()) && children.iter().all(|c| leaves_empty(schema, c))
            }
            IdSelection::InlineFragment(t, children) => {
                let leaf = matches!(t, TypeId::Scalar(_) | TypeId::Enum(_));
                (!leaf || children.is_empty()) && children.iter().all(|c| leaves_empty(schema, c))
            }
            IdSelection::FragmentSpread(_) => true,
        }
    }
    for operation in &store.operations {
        for node in &operation.selection {
            assert!(leaves_empty(&schema, node));
        }
    }
}

#[test]
fn spread_indices_reference_existing_fragments() {
    let schema = test_schema();
    let document = Document {
        definitions: vec![
            op("Q", OperationType::Query, vec![fsel("me", vec![spread("F"), spread("G")])]),
            frag("F", "User", vec![fsel("name", vec![])]),
            frag("G", "User", vec![fsel("id", vec![]), spread("F")]),
        ],
    };
    let store = resolve(&schema, &document).unwrap();
    fn spreads_in_range(node: &IdSelection, nfrags: usize) -> bool {
        match node {
            IdSelection::Field(_, children) | IdSelection::InlineFragment(_, children) => {
                children.iter().all(|c| spreads_in_range(c, nfrags))
            }
            IdSelection::FragmentSpread(j) => *j < nfrags,
        }
    }
    let nfrags = store.fragments.len();
    assert_eq!(nfrags, 2);
    for operation in &store.operations {
        assert!(operation.selection.iter().all(|n| spreads_in_range(n, nfrags)));
    }
    for fragment in &store.fragments {
        assert!(fragment.selection.iter().all(|n| spreads_in_range(n, nfrags)));
    }
}

#[test]
fn empty_document_resolves_to_empty_store() {
    let schema = test_schema();
    let document = Document { definitions: Vec::new() };
    let store = resolve(&schema, &document).unwrap();
    assert_eq!(store.operations.len(), 0);
    assert_eq!(store.fragments.len(), 0);
}

#[test]
fn variables_are_recorded_verbatim() {
    let schema = test_schema();
    let document = Document {
        definitions: vec![Definition::Operation(OperationDefinition {
            name: Some("Q".to_string()),
            operation_type: OperationType::Query,
            variables: vec![
                VariableDefinition {
                    name: "id".to_string(),
                    default: Some("\"0\"".to_string()),
                    var_type: "ID".to_string(),
                },
                VariableDefinition {
                    name: "limit".to_string(),
                    default: None,
                    var_type: "Int!".to_string(),
                },
            ],
            selection_set: vec![fsel("me", vec![])],
        })],
    };
    let store = resolve(&schema, &document).unwrap();
    assert_eq!(store.operations[0].variables.len(), 2);
    assert_eq!(store.operations[0].variables[0].name, "id");
    assert_eq!(store.operations[0].variables[0].default, Some("\"0\"".to_string()));
    assert_eq!(store.operations[0].variables[0].var_type, "ID");
    assert_eq!(store.operations[0].variables[1].name, "limit");
    assert_eq!(store.operations[0].variables[1].default, None);
}

#[test]
fn first_error_wins() {
    let schema = test_schema();
    let document = Document {
        definitions: vec![
            op("A", OperationType::Query, vec![fsel("nope", vec![])]),
            frag("F", "Missing", vec![]),
        ],
    };
    let err = resolve(&schema, &document).unwrap_err();
    assert_eq!(err, ResolveError::UnknownField("Query".to_string(), "nope".to_string()));
}

/// Types: 0 = ID, 1 = String, 2 = Node (interface with `id`),
/// 3 = User (object with `id`, `name`), 4 = Query (`node: Node`).
fn interface_schema() -> Schema {
    Schema {
        types: vec![
            scalar("ID"),
            scalar("String"),
            SchemaType {
                name: "Node".to_string(),
                kind: TypeKind::Interface,
                fields: vec![field("id", TypeId::Scalar(0))],
            },
            object("User", vec![field("id", TypeId::Scalar(0)), field("name", TypeId::Scalar(1))]),
            object("Query", vec![field("node", TypeId::Interface(2))]),
        ],
        query_root: Some(4),
        mutation_root: None,
        subscription_root: None,
    }
}

#[test]
fn interface_fields_resolve() {
    let schema = interface_schema();
    assert!(schema.is_well_formed());
    let document = Document {
        definitions: vec![op(
            "Q",
            OperationType::Query,
            vec![fsel("node", vec![fsel("id", vec![])])],
        )],
    };
    let store = resolve(&schema, &document).unwrap();
    let expected = vec![IdSelection::Field(
        fid(4, 0),
        vec![IdSelection::Field(fid(2, 0), vec![])],
    )];
    assert_eq!(store.operations[0].selection, expected);
}

#[test]
fn interface_selection_narrows_with_inline_fragment() {
    let schema = interface_schema();
    let document = Document {
        definitions: vec![op(
            "Q",
            OperationType::Query,
            vec![fsel(
                "node",
                vec![fsel("id", vec![]), inline("User", vec![fsel("name", vec![])])],
            )],
        )],
    };
    let store = resolve(&schema, &document).unwrap();
    let expected = vec![IdSelection::Field(
        fid(4, 0),
        vec![
            IdSelection::Field(fid(2, 0), vec![]),
            IdSelection::InlineFragment(
                TypeId::Object(3),
                vec![IdSelection::Field(fid(3, 1), vec![])],
            ),
        ],
    )];
    assert_eq!(store.operations[0].selection, expected);
}

#[test]
fn field_unknown_on_interface_is_reported() {
    let schema = interface_schema();
    let document = Document {
        definitions: vec![op(
            "Q",
            OperationType::Query,
            vec![fsel("node", vec![fsel("name", vec![])])],
        )],
    };
    let err = resolve(&schema, &document).unwrap_err();
    assert_eq!(err, ResolveError::UnknownField("Node".to_string(), "name".to_string()));
}
