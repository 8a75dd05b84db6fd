//! The geometry assembler: the four entity collections of a snapshot, the
//! detail cardinality rule, and the remapping of primitive connectivity from
//! vertex indices to point indices.

use vstd::prelude::*;

use crate::attribute::{AttrColumn, AttrValues, AttributeType, RawAttribute, RawAttributeData, Scalar};
use crate::attrs::Attributes;
use crate::error::{EntityKind, ErrContext, Error};
use crate::transcode::{
    all_present, conforms, decode_entity, encode_entity, encoded_cols, encodes_losslessly,
    from_attr, into_attr, lemma_decode_encoded, lemma_encode_lookup, lemma_encoded_count,
    lemma_round_trip, lookup, row_count, row_view, rows_of, rows_view, Field, Layout, Row,
    RowModel,
};

verus! {

/// A geometry snapshot as the host describes it: one entity collection per
/// entity kind.
#[derive(Debug, Clone)]
pub struct RawGeometry {
    pub points: Attributes,
    pub vertices: Attributes,
    pub prims: Attributes,
    pub detail: Attributes,
}

/// The snapshot handed back to the host has the same shape.
pub type RawGeometryOutput = RawGeometry;

/// The model of a snapshot.
pub struct RawModel {
    pub points: Map<Seq<char>, AttrColumn>,
    pub vertices: Map<Seq<char>, AttrColumn>,
    pub prims: Map<Seq<char>, AttrColumn>,
    pub detail: Map<Seq<char>, AttrColumn>,
}

impl RawGeometry {
    pub open spec fn wf(&self) -> bool {
        &&& self.points.wf()
        &&& self.vertices.wf()
        &&& self.prims.wf()
        &&& self.detail.wf()
    }
}

impl View for RawGeometry {
    type V = RawModel;

    open spec fn view(&self) -> RawModel {
        RawModel {
            points: self.points@,
            vertices: self.vertices@,
            prims: self.prims@,
            detail: self.detail@,
        }
    }
}

/// A geometry snapshot in row form: one row per point, vertex and primitive,
/// and the single detail record.
#[derive(Debug, Clone, PartialEq)]
pub struct Geometry<Pt, Vt, Pr, Dt> {
    pub points: Vec<Pt>,
    pub vertices: Vec<Vt>,
    pub prims: Vec<Pr>,
    pub detail: Dt,
}

/// A snapshot whose rows are described by field layouts.
pub type RowGeometry = Geometry<Row, Row, Row, Row>;

/// The model of a snapshot in row form.
pub struct GeometryModel {
    pub points: Seq<RowModel>,
    pub vertices: Seq<RowModel>,
    pub prims: Seq<RowModel>,
    pub detail: RowModel,
}

pub open spec fn geometry_view(g: RowGeometry) -> GeometryModel {
    GeometryModel {
        points: rows_view(g.points@),
        vertices: rows_view(g.vertices@),
        prims: rows_view(g.prims@),
        detail: row_view(g.detail),
    }
}

/// The layouts of the four entity kinds.
#[derive(Debug, Clone)]
pub struct GeometryLayout {
    pub points: Layout,
    pub vertices: Layout,
    pub prims: Layout,
    pub detail: Layout,
}

impl GeometryLayout {
    pub open spec fn wf(&self) -> bool {
        &&& self.points.wf()
        &&& self.vertices.wf()
        &&& self.prims.wf()
        &&& self.detail.wf()
    }

    /// Whether all four layouts are valid.
    pub fn is_valid(&self) -> (r: bool)
        ensures
            r == self.wf(),
    {
        self.points.is_valid() && self.vertices.is_valid() && self.prims.is_valid()
            && self.detail.is_valid()
    }
}

/// The row in which every value of `fields` is missing.
pub open spec fn empty_row(fields: Seq<Field>) -> RowModel {
    Seq::new(fields.len(), |f: int| None)
}

/// The detail record out of the rows its collection decoded to: the first row;
/// with no row, the structure's empty instance, or an error if it has none.
pub open spec fn detail_of(decoded: Seq<RowModel>, layout: Layout) -> Result<RowModel, Error> {
    if decoded.len() > 0 {
        Ok(decoded[0])
    } else if layout.has_empty {
        Ok(empty_row(layout.fields@))
    } else {
        Err(Error::NoDetail)
    }
}

/// What a snapshot decodes to. The detail collection is decoded first, then
/// points, vertices and primitives; the first error ends the decode.
pub open spec fn decode_geometry(raw: RawModel, input_index: usize, layout: GeometryLayout) -> Result<
    GeometryModel,
    Error,
> {
    match decode_entity(
        raw.detail,
        layout.detail.fields@,
        ErrContext { input_index, entity: EntityKind::Detail },
    ) {
        Err(e) => Err(e),
        Ok(ds) => match detail_of(ds, layout.detail) {
            Err(e) => Err(e),
            Ok(detail) => match decode_entity(
                raw.points,
                layout.points.fields@,
                ErrContext { input_index, entity: EntityKind::Point },
            ) {
                Err(e) => Err(e),
                Ok(points) => match decode_entity(
                    raw.vertices,
                    layout.vertices.fields@,
                    ErrContext { input_index, entity: EntityKind::Vertex },
                ) {
                    Err(e) => Err(e),
                    Ok(vertices) => match decode_entity(
                        raw.prims,
                        layout.prims.fields@,
                        ErrContext { input_index, entity: EntityKind::Prim },
                    ) {
                        Err(e) => Err(e),
                        Ok(prims) => Ok(GeometryModel { points, vertices, prims, detail }),
                    },
                },
            },
        },
    }
}

pub open spec fn geometry_result_view(r: Result<RowGeometry, Error>) -> Result<GeometryModel, Error> {
    match r {
        Ok(g) => Ok(geometry_view(g)),
        Err(e) => Err(e),
    }
}

fn empty_instance(layout: &Layout) -> (r: Row)
    ensures
        row_view(r) == empty_row(layout.fields@),
{
    let mut row: Row = Vec::new();
    while row.len() < layout.fields.len()
        invariant
            row@.len() <= layout.fields@.len(),
            forall|f: int| 0 <= f < row@.len() ==> (#[trigger] row@[f]) is None,
        decreases layout.fields@.len() - row@.len(),
    {
        row.push(None);
    }
    assert(row_view(row) =~= empty_row(layout.fields@));
    row
}

impl Geometry<Row, Row, Row, Row> {
    /// Decodes a snapshot into rows under the four layouts. `input_index` is
    /// the snapshot's place in its batch, for error messages.
    pub fn from_raw(raw: RawGeometry, input_index: usize, layout: &GeometryLayout) -> (r: Result<
        Self,
        Error,
    >)
        requires
            raw.wf(),
            layout.wf(),
        ensures
            geometry_result_view(r) == decode_geometry(raw@, input_index, *layout),
    {
        let RawGeometry { points, vertices, prims, detail } = raw;
        let mut details = from_attr(
            detail,
            &layout.detail,
            ErrContext { input_index, entity: EntityKind::Detail },
        )?;
        let detail = if details.len() > 0 {
            details.swap_remove(0)
        } else if layout.detail.has_empty {
            empty_instance(&layout.detail)
        } else {
            return Err(Error::NoDetail);
        };
        let points = from_attr(points, &layout.points, ErrContext { input_index, entity: EntityKind::Point })?;
        let vertices = from_attr(
            vertices,
            &layout.vertices,
            ErrContext { input_index, entity: EntityKind::Vertex },
        )?;
        let prims = from_attr(prims, &layout.prims, ErrContext { input_index, entity: EntityKind::Prim })?;
        Ok(Geometry { points, vertices, prims, detail })
    }
}

/// The first index of `list` that is not below `n`.
pub open spec fn first_bad_in(list: Seq<usize>, n: nat) -> Option<usize>
    decreases list.len(),
{
    if list.len() == 0 {
        None
    } else {
        match first_bad_in(list.drop_last(), n) {
            Some(v) => Some(v),
            None => if list.last() >= n {
                Some(list.last())
            } else {
                None
            },
        }
    }
}

/// The first index, over all lists in order, that is not below `n`.
pub open spec fn first_bad(lists: Seq<Seq<usize>>, n: nat) -> Option<usize>
    decreases lists.len(),
{
    if lists.len() == 0 {
        None
    } else {
        match first_bad(lists.drop_last(), n) {
            Some(v) => Some(v),
            None => first_bad_in(lists.last(), n),
        }
    }
}

/// Each vertex index of each list replaced by the point index that `table`
/// gives for it.
pub open spec fn remapped(lists: Seq<Seq<usize>>, table: Seq<usize>) -> Seq<Seq<usize>> {
    lists.map_values(|l: Seq<usize>| l.map_values(|v: usize| table[v as int]))
}

pub open spec fn lists_view(lists: Vec<Vec<usize>>) -> Seq<Seq<usize>> {
    lists@.map_values(|l: Vec<usize>| l@)
}

proof fn lemma_first_bad_in_extends(list: Seq<usize>, n: nat, k: int)
    requires
        0 <= k <= list.len(),
        first_bad_in(list.take(k), n) is Some,
    ensures
        first_bad_in(list, n) == first_bad_in(list.take(k), n),
    decreases list.len(),
{
    if k < list.len() {
        assert(list.drop_last().take(k) =~= list.take(k));
        lemma_first_bad_in_extends(list.drop_last(), n, k);
    } else {
        assert(list.take(k) =~= list);
    }
}

proof fn lemma_first_bad_extends(lists: Seq<Seq<usize>>, n: nat, k: int)
    requires
        0 <= k <= lists.len(),
        first_bad(lists.take(k), n) is Some,
    ensures
        first_bad(lists, n) == first_bad(lists.take(k), n),
    decreases lists.len(),
{
    if k < lists.len() {
        assert(lists.drop_last().take(k) =~= lists.take(k));
        lemma_first_bad_extends(lists.drop_last(), n, k);
    } else {
        assert(lists.take(k) =~= lists);
    }
}

/// Rewrites, in place and in order, every vertex index of every primitive's
/// list into the point index that `table` gives for it. An index outside the
/// table fails with that index.
pub fn remap_vertices(lists: &mut Vec<Vec<usize>>, table: &Vec<usize>) -> (r: Result<(), Error>)
    ensures
        final(lists)@.len() == old(lists)@.len(),
        match first_bad(lists_view(*old(lists)), table@.len()) {
            Some(v) => r == Err::<(), Error>(Error::InvalidOutPrimVertex(v)),
            None => r is Ok && lists_view(*final(lists)) == remapped(
                lists_view(*old(lists)),
                table@,
            ),
        },
{
    let ghost orig = lists_view(*lists);
    let ghost n = table@.len();
    let mut i: usize = 0;
    assert(orig.take(0) =~= Seq::<Seq<usize>>::empty());
    while i < lists.len()
        invariant
            orig == lists_view(*old(lists)),
            n == table@.len(),
            lists@.len() == orig.len(),
            i <= orig.len(),
            first_bad(orig.take(i as int), n) is None,
            forall|k: int| 0 <= k < i ==> (#[trigger] lists@[k])@ == remapped(orig, table@)[k],
            forall|k: int| i <= k < orig.len() ==> (#[trigger] lists@[k])@ == orig[k],
        decreases orig.len() - i,
    {
        let mut j: usize = 0;
        let ghost row = orig[i as int];
        assert(row.take(0) =~= Seq::<usize>::empty());
        assert(orig.take(i + 1).drop_last() =~= orig.take(i as int));
        assert(orig.take(i + 1).last() == row);
        while j < lists[i].len()
            invariant
                orig == lists_view(*old(lists)),
                n == table@.len(),
                lists@.len() == orig.len(),
                i < orig.len(),
                row == orig[i as int],
                lists@[i as int]@.len() == row.len(),
                j <= row.len(),
                first_bad(orig.take(i as int), n) is None,
                first_bad_in(row.take(j as int), n) is None,
                forall|t: int| 0 <= t < j ==> lists@[i as int]@[t] == table@[row[t] as int],
                forall|t: int| j <= t < row.len() ==> lists@[i as int]@[t] == row[t],
                forall|k: int| 0 <= k < i ==> (#[trigger] lists@[k])@ == remapped(orig, table@)[k],
                forall|k: int| i < k < orig.len() ==> (#[trigger] lists@[k])@ == orig[k],
                orig.take(i + 1).drop_last() == orig.take(i as int),
                orig.take(i + 1).last() == row,
            decreases row.len() - j,
        {
            let v = lists[i][j];
            assert(row.take(j + 1).drop_last() =~= row.take(j as int));
            assert(row.take(j + 1).last() == v);
            if v >= table.len() {
                proof {
                    assert(first_bad_in(row.take(j + 1), n) == Some(v));
                    lemma_first_bad_in_extends(row, n, j + 1);
                    assert(first_bad(orig.take(i + 1), n) == Some(v));
                    lemma_first_bad_extends(orig, n, i + 1);
                }
                return Err(Error::InvalidOutPrimVertex(v));
            }
            let ghost before = lists@;
            lists[i][j] = table[v];
            assert forall|k: int| 0 <= k < i implies (#[trigger] lists@[k])@ == remapped(
                orig,
                table@,
            )[k] by {
                assert(lists@[k] == before[k]);
            }
            assert forall|k: int| i < k < orig.len() implies (#[trigger] lists@[k])@ == orig[k] by {
                assert(lists@[k] == before[k]);
            }
            j = j + 1;
        }
        assert(row.take(j as int) =~= row);
        assert(lists@[i as int]@ =~= remapped(orig, table@)[i as int]);
        i = i + 1;
    }
    assert(orig.take(i as int) =~= orig);
    assert(lists_view(*lists) =~= remapped(orig, table@));
    Ok(())
}

/// The per-primitive vertex lists of a vertex-list vector.
pub open spec fn prim_lists(v: AttrValues) -> Seq<Seq<usize>> {
    v.items.map_values(|s: Scalar| s->PrimVertex_0)
}

/// The point indices of an index vector.
pub open spec fn index_table(v: AttrValues) -> Seq<usize> {
    v.items.map_values(|s: Scalar| s->Index_0)
}

/// A vertex-list vector holding `lists`.
pub open spec fn prim_values(lists: Seq<Seq<usize>>) -> AttrValues {
    AttrValues {
        kind: AttributeType::PrimVertex,
        items: lists.map_values(|l: Seq<usize>| Scalar::PrimVertex(l)),
    }
}

/// The encoded primitive collection once its connectivity is expressed in
/// point indices: the `vertices` pseudo-attribute, rewritten through the
/// vertices' `ptnum` table, becomes the `points` attribute. A collection with
/// no attribute at all is left as it is.
pub open spec fn connect(
    prims: Map<Seq<char>, AttrColumn>,
    vertices: Map<Seq<char>, AttrColumn>,
) -> Result<Map<Seq<char>, AttrColumn>, Error> {
    if prims == Map::<Seq<char>, AttrColumn>::empty() {
        Ok(prims)
    } else if !prims.contains_key("vertices"@) {
        Err(Error::MissingOutPrimVertices)
    } else if !vertices.contains_key("ptnum"@) {
        Err(Error::MissingOutVertexPtnums)
    } else if vertices["ptnum"@].values.kind != AttributeType::Index {
        Err(Error::InvalidOutVertexPtnum)
    } else {
        let pv = prims["vertices"@];
        let table = index_table(vertices["ptnum"@].values);
        if pv.values.kind != AttributeType::PrimVertex {
            Err(
                Error::InvalidAttributeType {
                    expected: AttributeType::PrimVertex,
                    actual: pv.values.kind,
                },
            )
        } else {
            match first_bad(prim_lists(pv.values), table.len()) {
                Some(v) => Err(Error::InvalidOutPrimVertex(v)),
                None => {
                    let rest = prims.remove("vertices"@);
                    if rest.contains_key("points"@) {
                        Err(Error::AttrNameCollision("points"))
                    } else {
                        Ok(
                            rest.insert(
                                "points"@,
                                AttrColumn {
                                    tuple_size: pv.tuple_size,
                                    values: prim_values(remapped(prim_lists(pv.values), table)),
                                },
                            ),
                        )
                    }
                },
            }
        }
    }
}

/// What a snapshot in row form encodes to.
pub open spec fn encode_geometry(g: GeometryModel, layout: GeometryLayout) -> Result<RawModel, Error> {
    let vertices = encode_entity(g.vertices, layout.vertices.fields@);
    match connect(encode_entity(g.prims, layout.prims.fields@), vertices) {
        Err(e) => Err(e),
        Ok(prims) => Ok(
            RawModel {
                points: encode_entity(g.points, layout.points.fields@),
                vertices,
                prims,
                detail: encode_entity(seq![g.detail], layout.detail.fields@),
            },
        ),
    }
}

pub open spec fn raw_result_view(r: Result<RawGeometry, Error>) -> Result<RawModel, Error> {
    match r {
        Ok(g) => Ok(g@),
        Err(e) => Err(e),
    }
}

/// Whether every row of every collection, and the detail record, fits its
/// layout.
pub open spec fn geometry_conforms(g: GeometryModel, layout: GeometryLayout) -> bool {
    &&& forall|i: int| 0 <= i < g.points.len() ==> conforms(#[trigger] g.points[i], layout.points.fields@)
    &&& forall|i: int|
        0 <= i < g.vertices.len() ==> conforms(#[trigger] g.vertices[i], layout.vertices.fields@)
    &&& forall|i: int| 0 <= i < g.prims.len() ==> conforms(#[trigger] g.prims[i], layout.prims.fields@)
    &&& conforms(g.detail, layout.detail.fields@)
}

impl Geometry<Row, Row, Row, Row> {
    /// Whether every row, and the detail record, fits its layout.
    pub fn fits(&self, layout: &GeometryLayout) -> (r: bool)
        ensures
            r == geometry_conforms(geometry_view(*self), *layout),
    {
        let ghost g = geometry_view(*self);
        assert(g.points.len() == self.points@.len());
        assert(g.vertices.len() == self.vertices@.len());
        assert(g.prims.len() == self.prims@.len());
        layout.points.admits(&self.points) && layout.vertices.admits(&self.vertices)
            && layout.prims.admits(&self.prims) && layout.detail.admits_row(&self.detail)
    }

    /// Encodes the snapshot into columns under the four layouts, and
    /// expresses primitive connectivity in point indices.
    pub fn into_raw(self, layout: &GeometryLayout) -> (r: Result<RawGeometryOutput, Error>)
        requires
            layout.wf(),
            geometry_conforms(geometry_view(self), *layout),
        ensures
            r matches Ok(g) ==> g.wf(),
            raw_result_view(r) == encode_geometry(geometry_view(self), *layout),
    {
        let ghost model = geometry_view(self);
        let Geometry { points, vertices, prims, detail } = self;
        let vertices = into_attr(vertices, &layout.vertices);
        let mut prims = into_attr(prims, &layout.prims);
        if !prims.is_empty() {
            let vertices_name = String::from_str("vertices");
            let ptnum_name = String::from_str("ptnum");
            let points_name = String::from_str("points");
            proof {
                reveal_strlit("vertices");
                reveal_strlit("ptnum");
                reveal_strlit("points");
            }
            let primverts = match prims.remove(&vertices_name) {
                Some(a) => a,
                None => return Err(Error::MissingOutPrimVertices),
            };
            let vert2pt = match vertices.get(&ptnum_name) {
                Some(a) => a,
                None => return Err(Error::MissingOutVertexPtnums),
            };
            let table = match &vert2pt.data {
                RawAttributeData::Index(t) => t,
                _ => return Err(Error::InvalidOutVertexPtnum),
            };
            assert(table@.map_values(|x: usize| Scalar::Index(x)).map_values(|s: Scalar| s->Index_0)
                =~= table@);
            let tuple_size = primverts.tuple_size;
            let mut lists = primverts.data.prim_vertex()?;
            assert(lists@.map_values(|x: Vec<usize>| Scalar::PrimVertex(x@)).map_values(
                |s: Scalar| s->PrimVertex_0,
            ) =~= lists_view(lists));
            let ghost before = lists_view(lists);
            remap_vertices(&mut lists, table)?;
            if prims.contains_key(&points_name) {
                return Err(Error::AttrNameCollision("points"));
            }
            assert(lists@.map_values(|x: Vec<usize>| Scalar::PrimVertex(x@)) =~= prim_values(
                remapped(before, table@),
            ).items);
            prims.insert(points_name, RawAttribute { tuple_size, data: RawAttributeData::PrimVertex(lists) });
        }
        let points = into_attr(points, &layout.points);
        let details = vec![detail];
        assert(rows_view(details@) =~= seq![model.detail]);
        let detail = into_attr(details, &layout.detail);
        Ok(RawGeometry { points, vertices, prims, detail })
    }
}

/// The detail collection yields the snapshot's record: its one row if it has
/// one; with no row, the structure's empty instance, or `NoDetail` where the
/// structure has none. With at most one row, the decode succeeds whenever the
/// other collections decode.
pub proof fn lemma_detail_cardinality(raw: RawModel, input_index: usize, layout: GeometryLayout)
    requires
        decode_entity(
            raw.detail,
            layout.detail.fields@,
            ErrContext { input_index, entity: EntityKind::Detail },
        ) is Ok,
    ensures
        ({
            let ds = decode_entity(
                raw.detail,
                layout.detail.fields@,
                ErrContext { input_index, entity: EntityKind::Detail },
            )->Ok_0;
            let r = decode_geometry(raw, input_index, layout);
            &&& ds.len() == 0 && !layout.detail.has_empty ==> r == Err::<GeometryModel, Error>(
                Error::NoDetail,
            )
            &&& ds.len() == 0 && layout.detail.has_empty ==> (r matches Ok(g) ==> g.detail
                == empty_row(layout.detail.fields@))
            &&& ds.len() == 1 ==> (r matches Ok(g) ==> g.detail == ds[0])
            &&& (ds.len() == 1 || (ds.len() == 0 && layout.detail.has_empty)) && decode_entity(
                raw.points,
                layout.points.fields@,
                ErrContext { input_index, entity: EntityKind::Point },
            ) is Ok && decode_entity(
                raw.vertices,
                layout.vertices.fields@,
                ErrContext { input_index, entity: EntityKind::Vertex },
            ) is Ok && decode_entity(
                raw.prims,
                layout.prims.fields@,
                ErrContext { input_index, entity: EntityKind::Prim },
            ) is Ok ==> r is Ok
        }),
{
}

/// The encoded primitives carry valid connectivity: a `vertices` list per
/// primitive, a `ptnum` index table on the vertices, and no vertex index
/// outside that table.
pub open spec fn connectivity_valid(
    prims: Map<Seq<char>, AttrColumn>,
    vertices: Map<Seq<char>, AttrColumn>,
) -> bool {
    &&& prims.contains_key("vertices"@)
    &&& prims["vertices"@].values.kind == AttributeType::PrimVertex
    &&& vertices.contains_key("ptnum"@)
    &&& vertices["ptnum"@].values.kind == AttributeType::Index
    &&& first_bad(
        prim_lists(prims["vertices"@].values),
        index_table(vertices["ptnum"@].values).len(),
    ) is None
}

/// Primitives that declare an attribute named `points` cannot be encoded:
/// the name is reserved for the rewritten connectivity, and encoding fails
/// with a collision even where the connectivity is otherwise valid.
pub proof fn lemma_points_collision(g: GeometryModel, layout: GeometryLayout, f: int)
    requires
        layout.wf(),
        0 <= f < layout.prims.fields@.len(),
        layout.prims.fields@[f].name@ == "points"@,
        all_present(g.prims, f),
        connectivity_valid(
            encode_entity(g.prims, layout.prims.fields@),
            encode_entity(g.vertices, layout.vertices.fields@),
        ),
    ensures
        encode_geometry(g, layout) == Err::<RawModel, Error>(Error::AttrNameCollision("points")),
{
    reveal_strlit("points");
    reveal_strlit("vertices");
    let prims = encode_entity(g.prims, layout.prims.fields@);
    lemma_encode_lookup(g.prims, layout.prims.fields@, f);
    assert(lookup(prims, "points"@) is Some);
    assert(prims.contains_key("points"@));
    assert("points"@.len() != "vertices"@.len());
    assert("points"@ != "vertices"@);
    assert(prims.remove("vertices"@).contains_key("points"@));
    assert(prims != Map::<Seq<char>, AttrColumn>::empty()) by {
        assert(!Map::<Seq<char>, AttrColumn>::empty().contains_key("points"@));
    }
}

/// The snapshot in slot `index` of a batch of inputs.
pub fn take_input(inputs: Vec<RawGeometry>, index: usize) -> (r: Result<RawGeometry, Error>)
    ensures
        index < inputs@.len() ==> r == Ok::<RawGeometry, Error>(inputs@[index as int]),
        index >= inputs@.len() ==> r == Err::<RawGeometry, Error>(Error::GeometryMissing(index)),
{
    let mut inputs = inputs;
    if index < inputs.len() {
        Ok(inputs.swap_remove(index))
    } else {
        Err(Error::GeometryMissing(index))
    }
}

/// Decodes the snapshot in slot `input_index` of its batch under the four
/// layouts.
pub fn load_from_raw(raw_geometry: RawGeometry, input_index: usize, layout: &GeometryLayout) -> (r:
    Result<RowGeometry, Error>)
    requires
        raw_geometry.wf(),
        layout.wf(),
    ensures
        geometry_result_view(r) == decode_geometry(raw_geometry@, input_index, *layout),
{
    Geometry::from_raw(raw_geometry, input_index, layout)
}

/// A snapshot whose primitives carry no attribute (so that no connectivity is
/// rewritten) is decoded back from its encoding, wherever encoding each
/// collection loses nothing; a detail record with every value missing comes
/// back as the empty instance.
pub proof fn lemma_geometry_round_trip(g: GeometryModel, layout: GeometryLayout, input_index: usize)
    requires
        layout.wf(),
        geometry_conforms(g, layout),
        layout.prims.fields@.len() == 0,
        g.prims.len() == 0,
        encodes_losslessly(g.points, layout.points.fields@),
        encodes_losslessly(g.vertices, layout.vertices.fields@),
        encodes_losslessly(seq![g.detail], layout.detail.fields@) || (layout.detail.has_empty
            && forall|f: int| 0 <= f < g.detail.len() ==> (#[trigger] g.detail[f]) is None),
    ensures
        encode_geometry(g, layout) is Ok,
        decode_geometry(encode_geometry(g, layout)->Ok_0, input_index, layout) == Ok::<
            GeometryModel,
            Error,
        >(g),
{
    let pf = layout.prims.fields@;
    assert(encode_entity(g.prims, pf) == Map::<Seq<char>, AttrColumn>::empty());
    let raw = encode_geometry(g, layout)->Ok_0;
    let pctx = ErrContext { input_index, entity: EntityKind::Point };
    let vctx = ErrContext { input_index, entity: EntityKind::Vertex };
    let rctx = ErrContext { input_index, entity: EntityKind::Prim };
    let dctx = ErrContext { input_index, entity: EntityKind::Detail };
    lemma_round_trip(g.points, layout.points.fields@, pctx);
    lemma_round_trip(g.vertices, layout.vertices.fields@, vctx);
    assert(decode_entity(raw.prims, pf, rctx) == Ok::<Seq<RowModel>, Error>(g.prims)) by {
        assert(rows_of(Seq::empty()) =~= g.prims);
    }
    let df = layout.detail.fields@;
    let ds = seq![g.detail];
    assert forall|r: int| 0 <= r < ds.len() implies conforms(#[trigger] ds[r], df) by {
        assert(ds[r] == g.detail);
    }
    if encodes_losslessly(ds, df) {
        lemma_round_trip(ds, df, dctx);
    } else {
        let n = df.len() as int;
        lemma_decode_encoded(ds, df, dctx, n);
        assert(df.take(n) =~= df);
        lemma_encoded_count(ds, n);
        if exists|f: int| 0 <= f < n && #[trigger] all_present(ds, f) {
            let f = choose|f: int| 0 <= f < n && #[trigger] all_present(ds, f);
            assert(ds[0] == g.detail);
        }
        assert(row_count(encoded_cols(ds, n)) == 0);
        assert(empty_row(df) =~= g.detail);
    }
}

} // verus!
