use graphql_resolution::document::{
    Definition, Document, FragmentDefinition, OperationDefinition, OperationType, Selection,
};
use graphql_resolution::resolution::resolve;
use graphql_resolution::schema::{Schema, SchemaField, SchemaType, StoredFieldId, TypeId, TypeKind};
use graphql_resolution::view::{Fragment, Operation, SelectionRef};

fn scalar(name: &str) -> SchemaType {
    SchemaType { name: name.to_string(), kind: TypeKind::Scalar, fields: Vec::new() }
}

fn object(name: &str, fields: Vec<SchemaField>) -> SchemaType {
    SchemaType { name: name.to_string(), kind: TypeKind::Object, fields }
}

fn field(name: &str, field_type: TypeId) -> SchemaField {
    SchemaField { name: name.to_string(), field_type }
}

/// Types: 0 = ID (scalar), 1 = String (scalar), 2 = User (object),
/// 3 = Query (object with `me: User`).
fn test_schema() -> Schema {
    Schema {
        types: vec![
            scalar("ID"),
            scalar("String"),
            object("User", vec![field("id", TypeId::Scalar(0)), field("name", TypeId::Scalar(1))]),
            object("Query", vec![field("me", TypeId::Object(2))]),
        ],
        query_root: Some(3),
        mutation_root: None,
        subscription_root: None,
    }
}

fn fsel(name: &str, children: Vec<Selection>) -> Selection {
    Selection::Field { name: name.to_string(), selection_set: children }
}

fn spread(name: &str) -> Selection {
    Selection::FragmentSpread { name: name.to_string() }
}

fn inline(on: &str, children: Vec<Selection>) -> Selection {
    Selection::InlineFragment { on: on.to_string(), selection_set: children }
}

fn op(name: &str, kind: OperationType, selection_set: Vec<Selection>) -> Definition {
    Definition::Operation(OperationDefinition {
        name: Some(name.to_string()),
        operation_type: kind,
        variables: Vec::new(),
        selection_set,
    })
}

fn frag(name: &str, on: &str, selection_set: Vec<Selection>) -> Definition {
    Definition::Fragment(FragmentDefinition {
        name: name.to_string(),
        on: on.to_string(),
        selection_set,
    })
}

fn fid(type_index: usize, field_index: usize) -> StoredFieldId {
    StoredFieldId { type_index, field_index }
}

fn assert_same_types(mut got: Vec<TypeId>, mut want: Vec<TypeId>) {
    got.sort();
    want.sort();
    assert_eq!(got, want);
}

#[test]
fn view_rehydrates_field_metadata() {
    let schema = test_schema();
    let document = Document {
        definitions: vec![op(
            "Me",
            OperationType::Query,
            vec![fsel("me", vec![fsel("id", vec![]), fsel("name", vec![])])],
        )],
    };
    let store = resolve(&schema, &document).unwrap();
    let operation = Operation { operation_id: 0, schema: &schema, query: &store };
    assert_eq!(operation.name(), "Me");
    let view = operation.selection();
    let expected = vec![SelectionRef::Field {
        field: fid(3, 0),
        field_type: TypeId::Object(2),
        children: vec![
            SelectionRef::Field { field: fid(2, 0), field_type: TypeId::Scalar(0), children: vec![] },
            SelectionRef::Field { field: fid(2, 1), field_type: TypeId::Scalar(1), children: vec![] },
        ],
    }];
    assert_eq!(view, expected);
}

#[test]
fn views_are_idempotent() {
    let schema = test_schema();
    let document = Document {
        definitions: vec![
            op("Q", OperationType::Query, vec![fsel("me", vec![spread("F"), fsel("id", vec![])])]),
            frag("F", "User", vec![fsel("name", vec![])]),
        ],
    };
    let store = resolve(&schema, &document).unwrap();
    let operation = Operation { operation_id: 0, schema: &schema, query: &store };
    let first = operation.selection();
    let second = operation.selection();
    assert_eq!(first, second);
    let fragment = Fragment { fragment_id: 0, schema: &schema, query: &store };
    assert_eq!(fragment.selection(), fragment.selection());
}

#[test]
fn view_follows_spread_to_fragment_view() {
    let schema = test_schema();
    let document = Document {
        definitions: vec![
            op("Q", OperationType::Query, vec![fsel("me", vec![spread("F")])]),
            frag("F", "User", vec![fsel("name", vec![])]),
        ],
    };
    let store = resolve(&schema, &document).unwrap();
    let operation = Operation { operation_id: 0, schema: &schema, query: &store };
    let view = operation.selection();
    let spread_target = match &view[0] {
        SelectionRef::Field { children, .. } => match children[0] {
            SelectionRef::FragmentSpread { fragment } => fragment,
            _ => panic!("expected a spread"),
        },
        _ => panic!("expected a field"),
    };
    let fragment = Fragment { fragment_id: spread_target, schema: &schema, query: &store };
    assert_eq!(fragment.get().name, "F");
    let fragment_view = fragment.selection();
    let expected = vec![SelectionRef::Field {
        field: fid(2, 1),
        field_type: TypeId::Scalar(1),
        children: vec![],
    }];
    assert_eq!(fragment_view, expected);
}

#[test]
fn used_types_of_a_simple_operation() {
    let schema = test_schema();
    let document = Document {
        definitions: vec![op(
            "Me",
            OperationType::Query,
            vec![fsel("me", vec![fsel("id", vec![]), fsel("name", vec![])])],
        )],
    };
    let store = resolve(&schema, &document).unwrap();
    let operation = Operation { operation_id: 0, schema: &schema, query: &store };
    assert_same_types(
        operation.all_used_types(),
        vec![TypeId::Object(2), TypeId::Scalar(0), TypeId::Scalar(1)],
    );
}

#[test]
fn used_types_follow_fragment_spreads() {
    let schema = test_schema();
    let document = Document {
        definitions: vec![
            op("Q", OperationType::Query, vec![fsel("me", vec![spread("F")])]),
            frag("F", "User", vec![fsel("name", vec![])]),
        ],
    };
    let store = resolve(&schema, &document).unwrap();
    let operation = Operation { operation_id: 0, schema: &schema, query: &store };
    assert_same_types(operation.all_used_types(), vec![TypeId::Object(2), TypeId::Scalar(1)]);
}

#[test]
fn used_types_include_inline_narrowing_types() {
    let schema = test_schema();
    let document = Document {
        definitions: vec![op(
            "Q",
            OperationType::Query,
            vec![fsel("me", vec![inline("User", vec![fsel("id", vec![])])])],
        )],
    };
    let store = resolve(&schema, &document).unwrap();
    let operation = Operation { operation_id: 0, schema: &schema, query: &store };
    assert_same_types(operation.all_used_types(), vec![TypeId::Object(2), TypeId::Scalar(0)]);
}

#[test]
fn used_types_terminate_on_cyclic_fragments() {
    let schema = test_schema();
    let document = Document {
        definitions: vec![
            op("Q", OperationType::Query, vec![fsel("me", vec![spread("A")])]),
            frag("A", "User", vec![fsel("name", vec![]), spread("B")]),
            frag("B", "User", vec![fsel("id", vec![]), spread("A")]),
        ],
    };
    let store = resolve(&schema, &document).unwrap();
    let operation = Operation { operation_id: 0, schema: &schema, query: &store };
    assert_same_types(
        operation.all_used_types(),
        vec![TypeId::Object(2), TypeId::Scalar(0), TypeId::Scalar(1)],
    );
}

#[test]
fn used_types_carry_no_duplicates() {
    let schema = test_schema();
    let document = Document {
        definitions: vec![op(
            "Q",
            OperationType::Query,
            vec![fsel("me", vec![fsel("id", vec![]), fsel("id", vec![])])],
        )],
    };
    let store = resolve(&schema, &document).unwrap();
    let operation = Operation { operation_id: 0, schema: &schema, query: &store };
    let used = operation.all_used_types();
    assert_eq!(used.len(), 2);
    assert_same_types(used, vec![TypeId::Object(2), TypeId::Scalar(0)]);
}

#[test]
fn operation_handle_exposes_stored_entry() {
    let schema = test_schema();
    let document = Document {
        definitions: vec![op("Me", OperationType::Query, vec![fsel("me", vec![])])],
    };
    let store = resolve(&schema, &document).unwrap();
    let operation = Operation { operation_id: 0, schema: &schema, query: &store };
    assert_eq!(operation.get().name(), "Me");
    assert_eq!(operation.get().operation_type, OperationType::Query);
}
