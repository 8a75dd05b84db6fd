use houdini_node::{
    load_from_raw, take_input, Attributes, EntityKind, Error, Field, Geometry, GeometryLayout, Layout,
    RawAttribute, RawAttributeData, RawGeometry, Row, RowGeometry,
};

fn field(name: &str, kind: houdini_node::AttributeType, arity: usize, optional: bool) -> Field {
    Field { name: name.to_string(), kind, arity, optional }
}

fn column(tuple_size: usize, data: RawAttributeData) -> RawAttribute {
    RawAttribute { tuple_size, data }
}

fn floats(values: &[f32]) -> RawAttributeData {
    RawAttributeData::Float(values.iter().map(|v| v.to_bits()).collect())
}

fn strings(values: &[&str]) -> RawAttributeData {
    RawAttributeData::String(values.iter().map(|v| v.to_string()).collect())
}

fn collection(entries: Vec<(&str, RawAttribute)>) -> Attributes {
    let mut attrs = Attributes::new();
    for (name, attr) in entries {
        attrs.insert(name.to_string(), attr);
    }
    attrs
}

fn unit_layout() -> GeometryLayout {
    GeometryLayout {
        points: Layout::unit(),
        vertices: Layout::unit(),
        prims: Layout::unit(),
        detail: Layout::unit(),
    }
}

/// A point with a position `P` and a `name`; everything else carries nothing.
fn point_layout() -> GeometryLayout {
    GeometryLayout {
        points: Layout {
            fields: vec![
                field("P", houdini_node::AttributeType::Float, 3, false),
                field("name", houdini_node::AttributeType::String, 1, false),
            ],
            has_empty: false,
        },
        ..unit_layout()
    }
}

fn output_as_input(out: houdini_node::RawGeometryOutput) -> RawGeometry {
    out
}

#[test]
fn parsing() {
    let raw = RawGeometry {
        points: collection(vec![
            (
                "P",
                column(3, floats(&[0.0, 0.0, 0.0, 1.0, 0.0, 0.0, 1.0, 1.0, 0.0])),
            ),
            ("name", column(1, strings(&["a", "b", "c"]))),
        ]),
        vertices: Attributes::new(),
        prims: Attributes::new(),
        detail: collection(vec![("some_detail", column(1, strings(&["hello"])))]),
    };
    let layout = point_layout();
    let geo = Geometry::from_raw(raw, 0, &layout).unwrap();
    assert_eq!(geo.points.len(), 3);
    assert_eq!(
        geo.points[1],
        vec![Some(floats(&[1.0, 0.0, 0.0])), Some(strings(&["b"]))]
    );
    assert!(geo.vertices.is_empty());
    assert!(geo.prims.is_empty());
    assert_eq!(geo.detail, Vec::<Option<RawAttributeData>>::new());
}

#[test]
fn generating() {
    let g: RowGeometry = Geometry {
        points: vec![vec![Some(floats(&[0.0, 0.0, 0.0])), Some(strings(&["a"]))]],
        vertices: vec![],
        prims: vec![],
        detail: vec![],
    };
    let layout = point_layout();
    assert!(g.fits(&layout));
    let raw = g.clone().into_raw(&layout).unwrap();
    let geo_new = Geometry::from_raw(output_as_input(raw), 0, &layout).unwrap();
    assert_eq!(g, geo_new);
}

fn connectivity_layout(extra_prim_field: Option<Field>) -> GeometryLayout {
    let mut prim_fields = vec![field("vertices", houdini_node::AttributeType::PrimVertex, 1, false)];
    if let Some(f) = extra_prim_field {
        prim_fields.push(f);
    }
    GeometryLayout {
        points: Layout {
            fields: vec![field("id", houdini_node::AttributeType::Int, 1, false)],
            has_empty: false,
        },
        vertices: Layout {
            fields: vec![field("ptnum", houdini_node::AttributeType::Index, 1, false)],
            has_empty: false,
        },
        prims: Layout { fields: prim_fields, has_empty: false },
        detail: Layout::unit(),
    }
}

fn cell(d: RawAttributeData) -> Option<RawAttributeData> {
    Some(d)
}

fn connectivity_geometry(prim_vertices: Vec<usize>, extra: Option<RawAttributeData>) -> RowGeometry {
    let points: Vec<Row> = (0..8).map(|i| vec![cell(RawAttributeData::Int(vec![i]))]).collect();
    let vertices: Vec<Row> = [5usize, 2, 7]
        .iter()
        .map(|p| vec![cell(RawAttributeData::Index(vec![*p]))])
        .collect();
    let mut prim = vec![cell(RawAttributeData::PrimVertex(vec![prim_vertices]))];
    if let Some(e) = extra {
        prim.push(Some(e));
    }
    Geometry { points, vertices, prims: vec![prim], detail: vec![] }
}

#[test]
fn remaps_vertex_indices_to_point_indices() {
    let layout = connectivity_layout(None);
    let g = connectivity_geometry(vec![2, 0, 1], None);
    assert!(g.fits(&layout));
    let raw = g.into_raw(&layout).unwrap();
    let points = raw.prims.get(&"points".to_string()).unwrap();
    assert_eq!(points.tuple_size, 1);
    assert_eq!(points.data, RawAttributeData::PrimVertex(vec![vec![7, 5, 2]]));
    assert!(!raw.prims.contains_key(&"vertices".to_string()));
    let ptnum = raw.vertices.get(&"ptnum".to_string()).unwrap();
    assert_eq!(ptnum.data, RawAttributeData::Index(vec![5, 2, 7]));
}

#[test]
fn rejects_vertex_index_out_of_bounds() {
    let layout = connectivity_layout(None);
    let g = connectivity_geometry(vec![2, 3, 1], None);
    assert_eq!(g.into_raw(&layout).err(), Some(Error::InvalidOutPrimVertex(3)));
}

#[test]
fn rejects_declared_points_attribute() {
    let layout = connectivity_layout(Some(field("points", houdini_node::AttributeType::Int, 1, false)));
    let g = connectivity_geometry(vec![2, 0, 1], Some(RawAttributeData::Int(vec![4])));
    assert!(g.fits(&layout));
    assert_eq!(g.into_raw(&layout).err(), Some(Error::AttrNameCollision("points")));
}

#[test]
fn requires_prim_vertices_attribute() {
    let mut layout = connectivity_layout(None);
    layout.prims.fields[0].name = "verts".to_string();
    let g = connectivity_geometry(vec![0], None);
    assert_eq!(g.into_raw(&layout).err(), Some(Error::MissingOutPrimVertices));
}

#[test]
fn requires_vertex_ptnum_attribute() {
    let mut layout = connectivity_layout(None);
    layout.vertices.fields[0].name = "pt".to_string();
    let g = connectivity_geometry(vec![0], None);
    assert_eq!(g.into_raw(&layout).err(), Some(Error::MissingOutVertexPtnums));
}

#[test]
fn requires_index_kind_for_ptnum() {
    let mut layout = connectivity_layout(None);
    layout.vertices.fields[0].kind = houdini_node::AttributeType::Int;
    let mut g = connectivity_geometry(vec![0], None);
    g.vertices = vec![vec![cell(RawAttributeData::Int(vec![5]))]];
    assert!(g.fits(&layout));
    assert_eq!(g.into_raw(&layout).err(), Some(Error::InvalidOutVertexPtnum));
}

#[test]
fn requires_vertex_lists_for_prim_vertices() {
    let mut layout = connectivity_layout(None);
    layout.prims.fields[0].kind = houdini_node::AttributeType::Index;
    let mut g = connectivity_geometry(vec![0], None);
    g.prims = vec![vec![cell(RawAttributeData::Index(vec![0]))]];
    assert!(g.fits(&layout));
    assert_eq!(
        g.into_raw(&layout).err(),
        Some(Error::InvalidAttributeType {
            expected: houdini_node::AttributeType::PrimVertex,
            actual: houdini_node::AttributeType::Index,
        })
    );
}

#[test]
fn prims_without_attributes_need_no_connectivity() {
    let layout = unit_layout();
    let g: RowGeometry = Geometry { points: vec![], vertices: vec![], prims: vec![], detail: vec![] };
    let raw = g.into_raw(&layout).unwrap();
    assert!(raw.prims.is_empty());
    assert!(raw.points.is_empty());
}

#[test]
fn empty_geometry_decodes_to_empty_rows() {
    let raw = RawGeometry {
        points: Attributes::new(),
        vertices: Attributes::new(),
        prims: Attributes::new(),
        detail: Attributes::new(),
    };
    let geo = Geometry::from_raw(raw, 0, &unit_layout()).unwrap();
    assert!(geo.points.is_empty());
    assert!(geo.vertices.is_empty());
    assert!(geo.prims.is_empty());
    assert!(geo.detail.is_empty());
}

#[test]
fn empty_columns_decode_to_empty_rows() {
    let raw = RawGeometry {
        points: collection(vec![
            ("P", column(3, RawAttributeData::Float(vec![]))),
            ("name", column(1, RawAttributeData::String(vec![]))),
        ]),
        vertices: Attributes::new(),
        prims: Attributes::new(),
        detail: Attributes::new(),
    };
    let geo = Geometry::from_raw(raw, 0, &point_layout()).unwrap();
    assert!(geo.points.is_empty());
}

fn detail_layout(has_empty: bool) -> GeometryLayout {
    GeometryLayout {
        detail: Layout {
            fields: vec![field("label", houdini_node::AttributeType::String, 1, true)],
            has_empty,
        },
        ..unit_layout()
    }
}

fn raw_with_detail(detail: Attributes) -> RawGeometry {
    RawGeometry {
        points: Attributes::new(),
        vertices: Attributes::new(),
        prims: Attributes::new(),
        detail,
    }
}

#[test]
fn missing_detail_uses_empty_instance() {
    let geo = Geometry::from_raw(raw_with_detail(Attributes::new()), 0, &detail_layout(true)).unwrap();
    assert_eq!(geo.detail, vec![None]);
}

#[test]
fn missing_detail_without_empty_instance_fails() {
    let r = Geometry::from_raw(raw_with_detail(Attributes::new()), 0, &detail_layout(false));
    assert_eq!(r, Err(Error::NoDetail));
}

#[test]
fn detail_with_one_row_decodes_to_it() {
    let detail = collection(vec![("label", column(1, strings(&["hello"])))]);
    let geo = Geometry::from_raw(raw_with_detail(detail), 0, &detail_layout(false)).unwrap();
    assert_eq!(geo.detail, vec![Some(strings(&["hello"]))]);
}

#[test]
fn missing_point_attribute_names_its_context() {
    let raw = RawGeometry {
        points: collection(vec![("name", column(1, strings(&["a"])))]),
        vertices: Attributes::new(),
        prims: Attributes::new(),
        detail: Attributes::new(),
    };
    let r = Geometry::from_raw(raw, 2, &point_layout());
    assert_eq!(
        r,
        Err(Error::MissingAttr { input_index: 2, entity: EntityKind::Point, attr: "P".to_string() })
    );
}

#[test]
fn takes_input_from_its_slot() {
    let inputs = vec![raw_with_detail(Attributes::new()), raw_with_detail(Attributes::new())];
    assert!(take_input(inputs, 1).is_ok());
    let inputs = vec![raw_with_detail(Attributes::new())];
    assert_eq!(take_input(inputs, 1).err(), Some(Error::GeometryMissing(1)));
}

#[test]
fn layout_checks() {
    assert!(point_layout().is_valid());
    let mut dup = point_layout();
    dup.points.fields[1].name = "P".to_string();
    assert!(!dup.is_valid());
    let mut zero = point_layout();
    zero.points.fields[0].arity = 0;
    assert!(!zero.is_valid());
    let mut claimed = point_layout();
    claimed.points.has_empty = true;
    assert!(!claimed.is_valid());
}

#[test]
fn loads_a_snapshot_through_its_slot() {
    let raw = raw_with_detail(collection(vec![("label", column(1, strings(&["x"])))]));
    let geo = load_from_raw(raw, 3, &detail_layout(false)).unwrap();
    assert_eq!(geo.detail, vec![Some(strings(&["x"]))]);
    let r = load_from_raw(raw_with_detail(Attributes::new()), 3, &point_layout());
    assert_eq!(
        r,
        Err(Error::MissingAttr { input_index: 3, entity: EntityKind::Point, attr: "P".to_string() })
    );
}

#[test]
fn detail_with_several_rows_decodes_to_the_first() {
    let detail = collection(vec![("label", column(1, strings(&["first", "second"])))]);
    let geo = Geometry::from_raw(raw_with_detail(detail), 0, &detail_layout(false)).unwrap();
    assert_eq!(geo.detail, vec![Some(strings(&["first"]))]);
}

#[test]
fn detail_record_survives_encode_and_decode() {
    let layout = detail_layout(true);
    let present: RowGeometry =
        Geometry { points: vec![], vertices: vec![], prims: vec![], detail: vec![Some(strings(&["d"]))] };
    let raw = present.clone().into_raw(&layout).unwrap();
    assert_eq!(raw.detail.get(&"label".to_string()).unwrap().data, strings(&["d"]));
    assert_eq!(Geometry::from_raw(raw, 0, &layout).unwrap(), present);
    let missing: RowGeometry = Geometry { points: vec![], vertices: vec![], prims: vec![], detail: vec![None] };
    let raw = missing.clone().into_raw(&layout).unwrap();
    assert!(raw.detail.is_empty());
    assert_eq!(Geometry::from_raw(raw, 0, &layout).unwrap(), missing);
}
