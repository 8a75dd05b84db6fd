use houdini_node::{
    bool_from_attr_data, bool_into_attr_data, from_attr, generate_to_attr, into_array_iter,
    into_attr, load_from_attr, remap_vertices, Attributes, AttributeType, EntityKind, ErrContext,
    Error, Field, Layout, RawAttribute, RawAttributeData, Row,
};

fn field(name: &str, kind: AttributeType, arity: usize, optional: bool) -> Field {
    Field { name: name.to_string(), kind, arity, optional }
}

fn ctx() -> ErrContext {
    ErrContext { input_index: 0, entity: EntityKind::Point }
}

fn collection(entries: Vec<(&str, RawAttribute)>) -> Attributes {
    let mut attrs = Attributes::new();
    for (name, attr) in entries {
        attrs.insert(name.to_string(), attr);
    }
    attrs
}

fn ints(v: &[i32]) -> RawAttributeData {
    RawAttributeData::Int(v.to_vec())
}

#[test]
fn chunks_in_order() {
    let chunks = into_array_iter(ints(&[1, 2, 3, 4, 5, 6]), 3);
    assert_eq!(chunks, vec![ints(&[1, 2, 3]), ints(&[4, 5, 6])]);
    let singles = into_array_iter(RawAttributeData::Index(vec![4, 9]), 1);
    assert_eq!(singles, vec![RawAttributeData::Index(vec![4]), RawAttributeData::Index(vec![9])]);
    assert!(into_array_iter(ints(&[]), 2).is_empty());
}

#[test]
fn joins_values_into_a_column() {
    let f = field("v", AttributeType::Int, 2, false);
    let col = generate_to_attr(vec![ints(&[1, 2]), ints(&[3, 4])], &f);
    assert_eq!(col, RawAttribute { tuple_size: 2, data: ints(&[1, 2, 3, 4]) });
    let empty = generate_to_attr(vec![], &field("s", AttributeType::String, 1, false));
    assert_eq!(empty, RawAttribute { tuple_size: 1, data: RawAttributeData::String(vec![]) });
}

#[test]
fn decodes_a_present_column() {
    let f = field("v", AttributeType::Int, 2, false);
    let attr = RawAttribute { tuple_size: 2, data: ints(&[1, 2, 3, 4]) };
    assert_eq!(load_from_attr(Some(attr), &f, ctx()), Ok(Some(vec![ints(&[1, 2]), ints(&[3, 4])])));
}

#[test]
fn rejects_wrong_tuple_size() {
    let f = field("P", AttributeType::Float, 3, false);
    let attr = RawAttribute { tuple_size: 2, data: RawAttributeData::Float(vec![0; 6]) };
    assert_eq!(
        load_from_attr(Some(attr), &f, ctx()),
        Err(Error::InvalidAttributeLength { expected: 3, actual: 2 })
    );
}

#[test]
fn rejects_wrong_kind_whatever_the_length() {
    let f = field("P", AttributeType::Float, 3, false);
    for data in [ints(&[1, 2, 3]), ints(&[1, 2, 3, 4])] {
        let attr = RawAttribute { tuple_size: 3, data };
        assert_eq!(
            load_from_attr(Some(attr), &f, ctx()),
            Err(Error::InvalidAttributeType { expected: AttributeType::Float, actual: AttributeType::Int })
        );
    }
}

#[test]
fn rejects_partial_tuple() {
    let f = field("v", AttributeType::Int, 2, false);
    let attr = RawAttribute { tuple_size: 2, data: ints(&[1, 2, 3]) };
    assert_eq!(
        load_from_attr(Some(attr), &f, ctx()),
        Err(Error::UnevenAttributeData { attr: "v".to_string(), tuple_size: 2, len: 3 })
    );
}

#[test]
fn absent_optional_field_is_missing_in_every_row() {
    let layout = Layout {
        fields: vec![
            field("id", AttributeType::Int, 1, false),
            field("weight", AttributeType::Float, 1, true),
        ],
        has_empty: false,
    };
    let attrs = collection(vec![("id", RawAttribute { tuple_size: 1, data: ints(&[7, 8, 9]) })]);
    let rows = from_attr(attrs, &layout, ctx()).unwrap();
    assert_eq!(
        rows,
        vec![vec![Some(ints(&[7])), None], vec![Some(ints(&[8])), None], vec![Some(ints(&[9])), None]]
    );
}

#[test]
fn absent_required_field_fails() {
    let layout = Layout { fields: vec![field("id", AttributeType::Int, 1, false)], has_empty: false };
    let r = from_attr(Attributes::new(), &layout, ErrContext { input_index: 4, entity: EntityKind::Vertex });
    assert_eq!(
        r,
        Err(Error::MissingAttr { input_index: 4, entity: EntityKind::Vertex, attr: "id".to_string() })
    );
}

#[test]
fn columns_of_different_row_counts_fail() {
    let layout = Layout {
        fields: vec![field("a", AttributeType::Int, 1, false), field("b", AttributeType::Int, 1, false)],
        has_empty: false,
    };
    let attrs = collection(vec![
        ("a", RawAttribute { tuple_size: 1, data: ints(&[1, 2, 3]) }),
        ("b", RawAttribute { tuple_size: 1, data: ints(&[1, 2, 3, 4, 5]) }),
    ]);
    assert_eq!(
        from_attr(attrs, &layout, ctx()),
        Err(Error::RowCountMismatch {
            input_index: 0,
            entity: EntityKind::Point,
            attr: "b".to_string(),
            expected: 3,
            actual: 5,
        })
    );
}

#[test]
fn first_error_in_field_order_wins() {
    let layout = Layout {
        fields: vec![field("a", AttributeType::Int, 2, false), field("b", AttributeType::Int, 1, false)],
        has_empty: false,
    };
    let attrs = collection(vec![("a", RawAttribute { tuple_size: 1, data: ints(&[1]) })]);
    assert_eq!(
        from_attr(attrs, &layout, ctx()),
        Err(Error::InvalidAttributeLength { expected: 2, actual: 1 })
    );
}

#[test]
fn rows_survive_encode_and_decode() {
    let layout = Layout {
        fields: vec![
            field("P", AttributeType::Float, 3, false),
            field("tags", AttributeType::StringArray, 1, false),
            field("ids", AttributeType::Int, 2, true),
            field("unused", AttributeType::Index, 1, true),
        ],
        has_empty: false,
    };
    let rows: Vec<Row> = (0..3)
        .map(|i| {
            vec![
                Some(RawAttributeData::Float(vec![1.5f32.to_bits(), i as u32, 7])),
                Some(RawAttributeData::StringArray(vec![vec![format!("t{}", i), "x".to_string()]])),
                Some(ints(&[i, -i])),
                None,
            ]
        })
        .collect();
    assert!(layout.admits(&rows));
    let attrs = into_attr(rows.clone(), &layout);
    assert!(!attrs.contains_key(&"unused".to_string()));
    assert_eq!(attrs.get(&"ids".to_string()).unwrap().data, ints(&[0, 0, 1, -1, 2, -2]));
    let back = from_attr(attrs, &layout, ctx()).unwrap();
    assert_eq!(back, rows);
}

#[test]
fn remaps_in_place() {
    let mut lists = vec![vec![2, 0, 1], vec![], vec![1]];
    assert_eq!(remap_vertices(&mut lists, &vec![5, 2, 7]), Ok(()));
    assert_eq!(lists, vec![vec![7, 5, 2], vec![], vec![2]]);
    let mut bad = vec![vec![0], vec![1, 4, 3]];
    assert_eq!(remap_vertices(&mut bad, &vec![5, 2, 7]), Err(Error::InvalidOutPrimVertex(4)));
}

#[test]
fn booleans_ride_on_integers() {
    assert!(bool_from_attr_data(-3));
    assert!(!bool_from_attr_data(0));
    assert_eq!(bool_into_attr_data(true), 1);
    assert_eq!(bool_into_attr_data(false), 0);
}

#[test]
fn accessors_check_the_kind() {
    assert_eq!(ints(&[1]).int_values(), Ok(vec![1]));
    assert_eq!(
        ints(&[1]).float(),
        Err(Error::InvalidAttributeType { expected: AttributeType::Float, actual: AttributeType::Int })
    );
    assert_eq!(RawAttributeData::Index(vec![3]).index(), Ok(vec![3]));
    assert_eq!(
        RawAttributeData::String(vec![]).prim_vertex(),
        Err(Error::InvalidAttributeType {
            expected: AttributeType::PrimVertex,
            actual: AttributeType::String,
        })
    );
    assert_eq!(RawAttributeData::PrimVertex(vec![vec![1]]).len(), 1);
    assert!(RawAttributeData::FloatArray(vec![]).is_empty());
    assert_eq!(RawAttributeData::IntArray(vec![]).kind(), AttributeType::IntArray);
}

#[test]
fn kind_and_entity_names() {
    assert_eq!(AttributeType::FloatArray.name(), "float_array");
    assert_eq!(AttributeType::PrimVertex.name(), "prim_vertex");
    assert_eq!(EntityKind::Prim.name(), "prim");
    assert_eq!(EntityKind::Detail.name(), "detail");
}

#[test]
fn collection_replaces_by_name() {
    let mut attrs = Attributes::new();
    assert!(attrs.is_empty());
    assert!(attrs.insert("a".to_string(), RawAttribute { tuple_size: 1, data: ints(&[1]) }).is_none());
    let old = attrs.insert("a".to_string(), RawAttribute { tuple_size: 1, data: ints(&[2]) });
    assert_eq!(old.unwrap().data, ints(&[1]));
    assert_eq!(attrs.into_entries().len(), 1);
}
