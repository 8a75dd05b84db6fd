//! The row/column transcoder: synchronises the named columns of one entity
//! collection into rows described by a field layout, and splits rows back into
//! columns.

use vstd::arithmetic::div_mod::lemma_mod_multiples_basic;
use vstd::prelude::*;

use crate::attribute::{AttrColumn, AttrValues, AttributeType, RawAttribute, RawAttributeData};
use crate::attrs::Attributes;
use crate::codec::{
    chunks, into_array_iter, join, lemma_chunks_join, lemma_join_empty, lemma_join_push,
};
use crate::error::{ErrContext, Error};

verus! {

/// One field of a row structure: the attribute it maps to, the scalar kind and
/// tuple arity of one value, and whether the attribute may be absent.
#[derive(Debug, Clone)]
pub struct Field {
    pub name: String,
    pub kind: AttributeType,
    pub arity: usize,
    pub optional: bool,
}

/// One row: a value per field of its layout, in the layout's order. A value is
/// a vector of `arity` scalars of the field's kind; `None` marks a value that is
/// missing, which only an optional field may have.
pub type Row = Vec<Option<RawAttributeData>>;

/// The model of a row.
pub type RowModel = Seq<Option<AttrValues>>;

/// The field table of a row structure. `has_empty` says whether the
/// structure has a defined empty instance, the row in which every value is
/// missing; only a structure whose fields are all optional (such as one with
/// no field at all) can have it.
#[derive(Debug, Clone)]
pub struct Layout {
    pub fields: Vec<Field>,
    pub has_empty: bool,
}

pub open spec fn cell_view(c: Option<RawAttributeData>) -> Option<AttrValues> {
    match c {
        Some(d) => Some(d@),
        None => None,
    }
}

pub open spec fn row_view(row: Row) -> RowModel {
    row@.map_values(|c: Option<RawAttributeData>| cell_view(c))
}

pub open spec fn rows_view(rows: Seq<Row>) -> Seq<RowModel> {
    rows.map_values(|r: Row| row_view(r))
}

/// Arities are positive and names are unique.
pub open spec fn fields_wf(fields: Seq<Field>) -> bool {
    &&& forall|i: int| 0 <= i < fields.len() ==> (#[trigger] fields[i]).arity > 0
    &&& forall|i: int, j: int|
        0 <= i < fields.len() && 0 <= j < fields.len() && i != j ==> (#[trigger] fields[i]).name@
            != (#[trigger] fields[j]).name@
}

/// The row holds a value of the right kind and arity for each field, and
/// misses values only of optional fields.
pub open spec fn conforms(row: RowModel, fields: Seq<Field>) -> bool {
    &&& row.len() == fields.len()
    &&& forall|f: int|
        0 <= f < fields.len() ==> match #[trigger] row[f] {
            Some(v) => v.kind == fields[f].kind && v.len() == fields[f].arity,
            None => fields[f].optional,
        }
}

impl Layout {
    pub open spec fn wf(&self) -> bool {
        &&& fields_wf(self.fields@)
        &&& self.has_empty ==> forall|f: int|
            0 <= f < self.fields@.len() ==> (#[trigger] self.fields@[f]).optional
    }

    /// The layout of a structure with no field, whose empty instance is the
    /// empty row.
    pub fn unit() -> (r: Layout)
        ensures
            r.fields@.len() == 0,
            r.has_empty,
            r.wf(),
    {
        Layout { fields: Vec::new(), has_empty: true }
    }

    /// Whether arities are positive, names unique, and an empty instance
    /// claimed only where every field is optional.
    pub fn is_valid(&self) -> (r: bool)
        ensures
            r == self.wf(),
    {
        let n = self.fields.len();
        let mut i: usize = 0;
        while i < n
            invariant
                n == self.fields@.len(),
                i <= n,
                forall|a: int| 0 <= a < i ==> (#[trigger] self.fields@[a]).arity > 0,
                forall|a: int, b: int|
                    0 <= a < i && 0 <= b < n && a != b ==> (#[trigger] self.fields@[a]).name@
                        != (#[trigger] self.fields@[b]).name@,
                self.has_empty ==> forall|a: int| 0 <= a < i ==> (#[trigger] self.fields@[a]).optional,
            decreases n - i,
        {
            if self.fields[i].arity == 0 {
                return false;
            }
            if self.has_empty && !self.fields[i].optional {
                return false;
            }
            let mut j: usize = 0;
            while j < n
                invariant
                    n == self.fields@.len(),
                    i < n,
                    j <= n,
                    forall|b: int|
                        0 <= b < j && b != i ==> self.fields@[i as int].name@ != (
                        #[trigger] self.fields@[b]).name@,
                decreases n - j,
            {
                if j != i && self.fields[i].name == self.fields[j].name {
                    return false;
                }
                j = j + 1;
            }
            i = i + 1;
        }
        true
    }

    /// Whether `row` fits the layout.
    pub fn admits_row(&self, row: &Row) -> (r: bool)
        ensures
            r == conforms(row_view(*row), self.fields@),
    {
        if row.len() != self.fields.len() {
            return false;
        }
        let mut f: usize = 0;
        while f < row.len()
            invariant
                row@.len() == self.fields@.len(),
                f <= row@.len(),
                forall|g: int|
                    0 <= g < f ==> match #[trigger] row_view(*row)[g] {
                        Some(v) => v.kind == self.fields@[g].kind && v.len() == self.fields@[g].arity,
                        None => self.fields@[g].optional,
                    },
            decreases row@.len() - f,
        {
            let field = &self.fields[f];
            match &row[f] {
                Some(d) => {
                    if d.kind() != field.kind || d.len() != field.arity {
                        assert(row_view(*row)[f as int] == Some(d@));
                        return false;
                    }
                },
                None => {
                    if !field.optional {
                        assert(row_view(*row)[f as int] is None);
                        return false;
                    }
                },
            }
            f = f + 1;
        }
        true
    }

    /// Whether every row fits the layout.
    pub fn admits(&self, rows: &Vec<Row>) -> (r: bool)
        ensures
            r == forall|i: int| 0 <= i < rows@.len() ==> conforms(#[trigger] rows_view(rows@)[i], self.fields@),
    {
        let mut i: usize = 0;
        while i < rows.len()
            invariant
                i <= rows@.len(),
                forall|j: int| 0 <= j < i ==> conforms(#[trigger] rows_view(rows@)[j], self.fields@),
            decreases rows@.len() - i,
        {
            if !self.admits_row(&rows[i]) {
                assert(!conforms(rows_view(rows@)[i as int], self.fields@));
                return false;
            }
            i = i + 1;
        }
        true
    }
}

pub open spec fn column_view(c: Option<RawAttribute>) -> Option<AttrColumn> {
    match c {
        Some(a) => Some(a@),
        None => None,
    }
}

/// The column named `name` in `attrs`, if any.
pub open spec fn lookup(attrs: Map<Seq<char>, AttrColumn>, name: Seq<char>) -> Option<AttrColumn> {
    if attrs.contains_key(name) {
        Some(attrs[name])
    } else {
        None
    }
}

/// What one field's column decodes to: its values in row order, or `None` for
/// an absent optional attribute.
pub open spec fn field_column(col: Option<AttrColumn>, field: Field, ctx: ErrContext) -> Result<
    Option<Seq<AttrValues>>,
    Error,
> {
    match col {
        None => if field.optional {
            Ok(None)
        } else {
            Err(
                Error::MissingAttr {
                    input_index: ctx.input_index,
                    entity: ctx.entity,
                    attr: field.name,
                },
            )
        },
        Some(c) => if c.tuple_size != field.arity {
            Err(Error::InvalidAttributeLength { expected: field.arity, actual: c.tuple_size })
        } else if c.values.kind != field.kind {
            Err(Error::InvalidAttributeType { expected: field.kind, actual: c.values.kind })
        } else if c.values.len() % (field.arity as nat) != 0 {
            Err(
                Error::UnevenAttributeData {
                    attr: field.name,
                    tuple_size: c.tuple_size,
                    len: c.values.len() as usize,
                },
            )
        } else {
            Ok(Some(chunks(c.values, field.arity as nat)))
        },
    }
}

/// The number of values of the first present column.
pub open spec fn present_count(cols: Seq<Option<Seq<AttrValues>>>) -> Option<nat>
    decreases cols.len(),
{
    if cols.len() == 0 {
        None
    } else {
        match present_count(cols.drop_last()) {
            Some(n) => Some(n),
            None => match cols.last() {
                Some(c) => Some(c.len()),
                None => None,
            },
        }
    }
}

/// The columns of `fields`, in order, decoded from `attrs`; the first error met
/// in field order, if any. A present column whose number of values differs
/// from that of the first present column is an error.
pub open spec fn decode_fields(
    attrs: Map<Seq<char>, AttrColumn>,
    fields: Seq<Field>,
    ctx: ErrContext,
) -> Result<Seq<Option<Seq<AttrValues>>>, Error>
    decreases fields.len(),
{
    if fields.len() == 0 {
        Ok(Seq::empty())
    } else {
        match decode_fields(attrs, fields.drop_last(), ctx) {
            Err(e) => Err(e),
            Ok(cols) => {
                let field = fields.last();
                match field_column(lookup(attrs, field.name@), field, ctx) {
                    Err(e) => Err(e),
                    Ok(None) => Ok(cols.push(None)),
                    Ok(Some(c)) => match present_count(cols) {
                        Some(n) if n != c.len() => Err(
                            Error::RowCountMismatch {
                                input_index: ctx.input_index,
                                entity: ctx.entity,
                                attr: field.name,
                                expected: n as usize,
                                actual: c.len() as usize,
                            },
                        ),
                        _ => Ok(cols.push(Some(c))),
                    },
                }
            },
        }
    }
}

/// The value of field `f` in row `r`.
pub open spec fn cell(cols: Seq<Option<Seq<AttrValues>>>, f: int, r: int) -> Option<AttrValues> {
    match cols[f] {
        Some(c) => Some(c[r]),
        None => None,
    }
}

/// The number of rows that decoded columns stand for.
pub open spec fn row_count(cols: Seq<Option<Seq<AttrValues>>>) -> nat {
    match present_count(cols) {
        Some(n) => n,
        None => 0,
    }
}

/// Decoded columns zipped into rows.
pub open spec fn rows_of(cols: Seq<Option<Seq<AttrValues>>>) -> Seq<RowModel> {
    Seq::new(row_count(cols), |r: int| Seq::new(cols.len(), |f: int| cell(cols, f, r)))
}

/// What an entity collection decodes to under a field table.
pub open spec fn decode_entity(
    attrs: Map<Seq<char>, AttrColumn>,
    fields: Seq<Field>,
    ctx: ErrContext,
) -> Result<Seq<RowModel>, Error> {
    match decode_fields(attrs, fields, ctx) {
        Ok(cols) => Ok(rows_of(cols)),
        Err(e) => Err(e),
    }
}

pub open spec fn chunks_view(v: Option<Vec<RawAttributeData>>) -> Option<Seq<AttrValues>> {
    match v {
        Some(v) => Some(v@.map_values(|d: RawAttributeData| d@)),
        None => None,
    }
}

pub open spec fn column_result_view(r: Result<Option<Vec<RawAttributeData>>, Error>) -> Result<
    Option<Seq<AttrValues>>,
    Error,
> {
    match r {
        Ok(v) => Ok(chunks_view(v)),
        Err(e) => Err(e),
    }
}

pub open spec fn rows_result_view(r: Result<Vec<Row>, Error>) -> Result<Seq<RowModel>, Error> {
    match r {
        Ok(rows) => Ok(rows_view(rows@)),
        Err(e) => Err(e),
    }
}

/// Decodes one field's column (or its absence) into the field's values, in
/// row order.
pub fn load_from_attr(attr: Option<RawAttribute>, field: &Field, err_context: ErrContext) -> (r:
    Result<Option<Vec<RawAttributeData>>, Error>)
    requires
        field.arity > 0,
    ensures
        column_result_view(r) == field_column(column_view(attr), *field, err_context),
{
    let Some(attr) = attr else {
        if field.optional {
            return Ok(None);
        }
        return Err(
            Error::MissingAttr {
                input_index: err_context.input_index,
                entity: err_context.entity,
                attr: field.name.clone(),
            },
        );
    };
    if attr.tuple_size != field.arity {
        return Err(Error::InvalidAttributeLength { expected: field.arity, actual: attr.tuple_size });
    }
    let kind = attr.data.kind();
    if kind != field.kind {
        return Err(Error::InvalidAttributeType { expected: field.kind, actual: kind });
    }
    let len = attr.data.len();
    if len % field.arity != 0 {
        return Err(
            Error::UnevenAttributeData {
                attr: field.name.clone(),
                tuple_size: attr.tuple_size,
                len,
            },
        );
    }
    let ghost values = attr.data@;
    let v = into_array_iter(attr.data, field.arity);
    assert(v@.map_values(|d: RawAttributeData| d@) =~= chunks(values, field.arity as nat));
    Ok(Some(v))
}

proof fn lemma_decode_err_extends(
    attrs: Map<Seq<char>, AttrColumn>,
    fields: Seq<Field>,
    ctx: ErrContext,
    i: int,
)
    requires
        0 <= i <= fields.len(),
        decode_fields(attrs, fields.take(i), ctx) is Err,
    ensures
        decode_fields(attrs, fields, ctx) == decode_fields(attrs, fields.take(i), ctx),
    decreases fields.len(),
{
    if fields.len() > i {
        assert(fields.drop_last().take(i) =~= fields.take(i));
        lemma_decode_err_extends(attrs, fields.drop_last(), ctx, i);
    } else {
        assert(fields.take(i) =~= fields);
    }
}

pub open spec fn cols_view(cols: Seq<Option<Vec<RawAttributeData>>>) -> Seq<Option<Seq<AttrValues>>> {
    cols.map_values(|c: Option<Vec<RawAttributeData>>| chunks_view(c))
}

/// Decodes an entity collection into rows: each field's column is decoded in
/// layout order, and the columns are zipped into rows. An absent optional
/// attribute gives a missing value in every row.
pub fn from_attr(attrs: Attributes, layout: &Layout, err_context: ErrContext) -> (r: Result<
    Vec<Row>,
    Error,
>)
    requires
        attrs.wf(),
        fields_wf(layout.fields@),
    ensures
        rows_result_view(r) == decode_entity(attrs@, layout.fields@, err_context),
{
    let ghost orig = attrs@;
    let ghost fields = layout.fields@;
    let mut rest = attrs;
    let mut cols: Vec<Option<Vec<RawAttributeData>>> = Vec::new();
    let mut count: Option<usize> = None;
    let mut i: usize = 0;
    assert(fields.take(0) =~= Seq::<Field>::empty());
    assert(cols_view(cols@) =~= Seq::<Option<Seq<AttrValues>>>::empty());
    while i < layout.fields.len()
        invariant
            fields == layout.fields@,
            fields_wf(fields),
            orig == attrs@,
            i <= fields.len(),
            rest.wf(),
            forall|j: int|
                i <= j < fields.len() ==> lookup(rest@, (#[trigger] fields[j]).name@) == lookup(
                    orig,
                    fields[j].name@,
                ),
            decode_fields(orig, fields.take(i as int), err_context) == Ok::<
                Seq<Option<Seq<AttrValues>>>,
                Error,
            >(cols_view(cols@)),
            cols@.len() == i,
            count matches Some(c) ==> present_count(cols_view(cols@)) == Some(c as nat),
            count is None ==> present_count(cols_view(cols@)) is None,
            forall|g: int|
                0 <= g < i ==> ((#[trigger] cols_view(cols@)[g]) matches Some(c) ==> (count is Some
                    && c.len() == count->0)),
        decreases fields.len() - i,
    {
        let field = &layout.fields[i];
        let attr = rest.remove(&field.name);
        assert forall|j: int| i < j < fields.len() implies lookup(
            rest@,
            (#[trigger] fields[j]).name@,
        ) == lookup(orig, fields[j].name@) by {
            assert(fields[j].name@ != fields[i as int].name@);
        }
        assert(column_view(attr) == lookup(orig, field.name@));
        assert(fields.take(i + 1).drop_last() =~= fields.take(i as int));
        assert(fields.take(i + 1).last() == fields[i as int]);
        let col = match load_from_attr(attr, field, err_context) {
            Ok(col) => col,
            Err(e) => {
                assert(decode_fields(orig, fields.take(i + 1), err_context) == Err::<
                    Seq<Option<Seq<AttrValues>>>,
                    Error,
                >(e));
                proof {
                    lemma_decode_err_extends(orig, fields, err_context, i + 1);
                }
                assert(decode_fields(orig, fields, err_context) == Err::<
                    Seq<Option<Seq<AttrValues>>>,
                    Error,
                >(e));
                assert(decode_entity(orig, fields, err_context) == Err::<Seq<RowModel>, Error>(e));
                return Err(e);
            },
        };
        let ghost prev = cols_view(cols@);
        match &col {
            Some(v) => {
                let n = v.len();
                match count {
                    Some(c) => {
                        if c != n {
                            let ghost err = Error::RowCountMismatch {
                                input_index: err_context.input_index,
                                entity: err_context.entity,
                                attr: field.name,
                                expected: c,
                                actual: n,
                            };
                            assert(decode_fields(orig, fields.take(i + 1), err_context) == Err::<
                                Seq<Option<Seq<AttrValues>>>,
                                Error,
                            >(err));
                            proof {
                                lemma_decode_err_extends(orig, fields, err_context, i + 1);
                            }
                            return Err(
                                Error::RowCountMismatch {
                                    input_index: err_context.input_index,
                                    entity: err_context.entity,
                                    attr: field.name.clone(),
                                    expected: c,
                                    actual: n,
                                },
                            );
                        }
                    },
                    None => {
                        count = Some(n);
                    },
                }
            },
            None => {},
        }
        cols.push(col);
        assert(cols_view(cols@) =~= prev.push(chunks_view(col)));
        assert(cols_view(cols@).drop_last() =~= prev);
        i = i + 1;
        assert forall|g: int| 0 <= g < i implies ((#[trigger] cols_view(cols@)[g]) matches Some(c)
            ==> (count is Some && c.len() == count->0)) by {
            if g < i - 1 {
                assert(cols_view(cols@)[g] == prev[g]);
            }
        }
    }
    assert(fields.take(i as int) =~= fields);
    let ghost colsv = cols_view(cols@);
    let total: usize = match count {
        Some(c) => c,
        None => 0,
    };
    assert(row_count(colsv) == total);
    let mut rows: Vec<Row> = Vec::new();
    while rows.len() < total
        invariant
            rows@.len() <= total,
            forall|r: int| 0 <= r < rows@.len() ==> (#[trigger] rows@[r])@.len() == 0,
        decreases total - rows@.len(),
    {
        rows.push(Vec::new());
    }
    let mut f: usize = 0;
    assert forall|r: int| 0 <= r < total implies row_view(#[trigger] rows@[r]) =~= Seq::new(
        0,
        |g: int| cell(colsv, g, r),
    ) by {}
    while f < cols.len()
        invariant
            cols@.len() == colsv.len(),
            f <= colsv.len(),
            forall|g: int| f <= g < colsv.len() ==> chunks_view(#[trigger] cols@[g]) == colsv[g],
            forall|g: int|
                0 <= g < colsv.len() ==> ((#[trigger] colsv[g]) matches Some(c) ==> c.len()
                    == total),
            rows@.len() == total,
            forall|r: int|
                0 <= r < total ==> row_view(#[trigger] rows@[r]) == Seq::new(
                    f as nat,
                    |g: int| cell(colsv, g, r),
                ),
        decreases colsv.len() - f,
    {
        let mut slot: Option<Vec<RawAttributeData>> = None;
        assert(chunks_view(cols@[f as int]) == colsv[f as int]);
        std::mem::swap(&mut cols[f], &mut slot);
        assert(chunks_view(slot) == colsv[f as int]);
        let ghost start = rows@;
        match slot {
            Some(mut v) => {
                let mut r: usize = total;
                while r > 0
                    invariant
                        r <= total,
                        rows@.len() == total,
                        colsv[f as int] matches Some(c) && c.len() == total && v@.len() == r
                            && forall|j: int| 0 <= j < r ==> (#[trigger] v@[j])@ == c[j],
                        forall|j: int| 0 <= j < r ==> #[trigger] rows@[j] == start[j],
                        forall|j: int|
                            r <= j < total ==> row_view(#[trigger] rows@[j]) == row_view(
                                start[j],
                            ).push(cell(colsv, f as int, j)),
                    decreases r,
                {
                    let c = v.pop().unwrap();
                    r = r - 1;
                    let ghost before = rows@;
                    rows[r].push(Some(c));
                    assert(row_view(rows@[r as int]) =~= row_view(start[r as int]).push(
                        cell(colsv, f as int, r as int),
                    ));
                    assert forall|j: int| r < j < total implies row_view(#[trigger] rows@[j])
                        == row_view(start[j]).push(cell(colsv, f as int, j)) by {
                        assert(rows@[j] == before[j]);
                    }
                }
            },
            None => {
                let mut r: usize = 0;
                while r < total
                    invariant
                        r <= total,
                        rows@.len() == total,
                        colsv[f as int] is None,
                        forall|j: int| r <= j < total ==> #[trigger] rows@[j] == start[j],
                        forall|j: int|
                            0 <= j < r ==> row_view(#[trigger] rows@[j]) == row_view(
                                start[j],
                            ).push(cell(colsv, f as int, j)),
                    decreases total - r,
                {
                    let ghost before = rows@;
                    rows[r].push(None);
                    assert(row_view(rows@[r as int]) =~= row_view(start[r as int]).push(
                        cell(colsv, f as int, r as int),
                    ));
                    assert forall|j: int| 0 <= j < r implies row_view(#[trigger] rows@[j])
                        == row_view(start[j]).push(cell(colsv, f as int, j)) by {
                        assert(rows@[j] == before[j]);
                    }
                    r = r + 1;
                }
            },
        }
        assert forall|r: int| 0 <= r < total implies row_view(#[trigger] rows@[r]) =~= Seq::new(
            (f + 1) as nat,
            |g: int| cell(colsv, g, r),
        ) by {
            assert(row_view(start[r]) == Seq::new(f as nat, |g: int| cell(colsv, g, r)));
        }
        f = f + 1;
    }
    assert(rows_view(rows@) =~= rows_of(colsv));
    Ok(rows)
}

/// Whether every row holds a value for field `f`.
pub open spec fn all_present(rows: Seq<RowModel>, f: int) -> bool {
    forall|r: int| 0 <= r < rows.len() ==> (#[trigger] rows[r])[f] is Some
}

/// The values of field `f`, one per row, in row order.
pub open spec fn field_values(rows: Seq<RowModel>, f: int) -> Seq<AttrValues> {
    Seq::new(rows.len(), |r: int| rows[r][f]->Some_0)
}

/// The column that encodes field `f` of `rows`.
pub open spec fn encode_column(rows: Seq<RowModel>, f: int, field: Field) -> AttrColumn {
    AttrColumn { tuple_size: field.arity, values: join(field.kind, field_values(rows, f)) }
}

/// The columns that encode `rows` under a field table: one per field whose
/// value is present in every row, keyed by the field's name. An optional field
/// with a missing value in some row is not represented at all.
pub open spec fn encode_entity(rows: Seq<RowModel>, fields: Seq<Field>) -> Map<Seq<char>, AttrColumn>
    decreases fields.len(),
{
    if fields.len() == 0 {
        Map::empty()
    } else {
        let f = fields.len() - 1;
        let m = encode_entity(rows, fields.drop_last());
        if all_present(rows, f) {
            m.insert(fields[f].name@, encode_column(rows, f, fields[f]))
        } else {
            m
        }
    }
}

/// Lays the values of one field, one per row, end to end into the field's
/// column.
pub fn generate_to_attr(data: Vec<RawAttributeData>, field: &Field) -> (r: RawAttribute)
    requires
        forall|i: int| 0 <= i < data@.len() ==> (#[trigger] data@[i])@.kind == field.kind,
    ensures
        r@ == (AttrColumn {
            tuple_size: field.arity,
            values: join(field.kind, data@.map_values(|d: RawAttributeData| d@)),
        }),
{
    let ghost parts = data@.map_values(|d: RawAttributeData| d@);
    let ghost n = parts.len();
    let mut data = data;
    let mut rev: Vec<RawAttributeData> = Vec::new();
    while data.len() > 0
        invariant
            rev@.len() + data@.len() == n,
            forall|j: int| 0 <= j < data@.len() ==> (#[trigger] data@[j])@ == parts[j],
            forall|j: int| 0 <= j < rev@.len() ==> (#[trigger] rev@[j])@ == parts[n - 1 - j],
        decreases data@.len(),
    {
        let ghost before = rev@;
        let d = data.pop().unwrap();
        rev.push(d);
        assert forall|j: int| 0 <= j < rev@.len() implies (#[trigger] rev@[j])@ == parts[n - 1
            - j] by {
            if j < before.len() {
                assert(rev@[j] == before[j]);
            }
        }
    }
    let mut acc = RawAttributeData::with_kind(field.kind);
    let ghost mut k: int = 0;
    proof {
        lemma_join_empty(field.kind);
        assert(parts.take(0) =~= Seq::<AttrValues>::empty());
    }
    while rev.len() > 0
        invariant
            0 <= k <= n,
            n == parts.len(),
            k + rev@.len() == n,
            forall|j: int| 0 <= j < rev@.len() ==> (#[trigger] rev@[j])@ == parts[n - 1 - j],
            forall|j: int| 0 <= j < n ==> (#[trigger] parts[j]).kind == field.kind,
            acc@ == join(field.kind, parts.take(k)),
            acc@.kind == field.kind,
        decreases rev@.len(),
    {
        let d = rev.pop().unwrap();
        proof {
            lemma_join_push(field.kind, parts.take(k), parts[k]);
            assert(parts.take(k + 1) =~= parts.take(k).push(parts[k]));
        }
        acc = acc.concat(d);
        proof {
            k = k + 1;
        }
    }
    assert(parts.take(n as int) =~= parts);
    RawAttribute { tuple_size: field.arity, data: acc }
}

/// Splits rows into columns, one per field, keyed by the field's name.
pub fn into_attr(entities: Vec<Row>, layout: &Layout) -> (r: Attributes)
    requires
        fields_wf(layout.fields@),
        forall|i: int|
            0 <= i < entities@.len() ==> conforms(
                #[trigger] rows_view(entities@)[i],
                layout.fields@,
            ),
    ensures
        r.wf(),
        r@ == encode_entity(rows_view(entities@), layout.fields@),
{
    let ghost rv = rows_view(entities@);
    let ghost fields = layout.fields@;
    let mut rows = entities;
    let mut out = Attributes::new();
    let mut f: usize = 0;
    assert(fields.take(0) =~= Seq::<Field>::empty());
    assert forall|i: int| 0 <= i < rv.len() implies (#[trigger] rows@[i])@.len() == fields.len() by {
        assert(conforms(rv[i], fields));
        assert(rv[i] == row_view(rows@[i]));
    }
    while f < layout.fields.len()
        invariant
            fields == layout.fields@,
            fields_wf(fields),
            rv == rows_view(entities@),
            f <= fields.len(),
            out.wf(),
            out@ == encode_entity(rv, fields.take(f as int)),
            rows@.len() == rv.len(),
            forall|i: int| 0 <= i < rv.len() ==> conforms(#[trigger] rv[i], fields),
            forall|i: int| 0 <= i < rv.len() ==> (#[trigger] rows@[i])@.len() == fields.len(),
            forall|i: int, g: int|
                0 <= i < rv.len() && f <= g < fields.len() ==> cell_view(
                    #[trigger] rows@[i]@[g],
                ) == rv[i][g],
        decreases fields.len() - f,
    {
        let field = &layout.fields[f];
        let mut all = true;
        let mut i: usize = 0;
        while i < rows.len()
            invariant
                i <= rows@.len(),
                rows@.len() == rv.len(),
                f < fields.len(),
                forall|j: int| 0 <= j < rv.len() ==> (#[trigger] rows@[j])@.len() == fields.len(),
                forall|j: int|
                    0 <= j < rv.len() ==> cell_view(#[trigger] rows@[j]@[f as int]) == rv[j][f as int],
                all == (forall|j: int| 0 <= j < i ==> (#[trigger] rv[j])[f as int] is Some),
            decreases rows@.len() - i,
        {
            if rows[i][f].is_none() {
                all = false;
            }
            i = i + 1;
        }
        assert(all == all_present(rv, f as int));
        if all {
            let mut values: Vec<RawAttributeData> = Vec::new();
            let mut i: usize = 0;
            let ghost start = rows@;
            while i < rows.len()
                invariant
                    i <= rows@.len(),
                    rows@.len() == rv.len(),
                    f < fields.len(),
                    fields == layout.fields@,
                    all_present(rv, f as int),
                    forall|j: int| 0 <= j < rv.len() ==> conforms(#[trigger] rv[j], fields),
                    forall|j: int| 0 <= j < rv.len() ==> (#[trigger] rows@[j])@.len() == fields.len(),
                    forall|j: int| 0 <= j < rv.len() ==> (#[trigger] start[j])@.len() == fields.len(),
                    forall|j: int|
                        i <= j < rv.len() ==> cell_view(#[trigger] rows@[j]@[f as int]) == rv[j][f as int],
                    forall|j: int, g: int|
                        0 <= j < rv.len() && 0 <= g < fields.len() && g != f ==> #[trigger] rows@[j]@[g]
                            == start[j]@[g],
                    values@.len() == i,
                    forall|j: int| 0 <= j < i ==> (#[trigger] values@[j])@ == rv[j][f as int]->Some_0,
                decreases rows@.len() - i,
            {
                let mut slot: Option<RawAttributeData> = None;
                assert(rv[i as int][f as int] is Some);
                let ghost before = rows@;
                std::mem::swap(&mut rows[i][f], &mut slot);
                assert forall|j: int, g: int|
                    0 <= j < rv.len() && 0 <= g < fields.len() && g != f implies #[trigger] rows@[j]@[g]
                        == start[j]@[g] by {
                    assert(rows@[j]@[g] == before[j]@[g]);
                }
                assert forall|j: int| i < j < rv.len() implies cell_view(
                    #[trigger] rows@[j]@[f as int],
                ) == rv[j][f as int] by {
                    assert(rows@[j] == before[j]);
                }
                values.push(slot.unwrap());
                i = i + 1;
            }
            assert(values@.map_values(|d: RawAttributeData| d@) =~= field_values(rv, f as int));
            assert forall|j: int| 0 <= j < values@.len() implies (#[trigger] values@[j])@.kind
                == field.kind by {
                assert(conforms(rv[j], fields));
            }
            let column = generate_to_attr(values, field);
            out.insert(field.name.clone(), column);
        }
        assert(fields.take(f + 1).drop_last() =~= fields.take(f as int));
        f = f + 1;
    }
    assert(fields.take(f as int) =~= fields);
    out
}

/// Whether every row misses the value of field `f`.
pub open spec fn all_absent(rows: Seq<RowModel>, f: int) -> bool {
    forall|r: int| 0 <= r < rows.len() ==> (#[trigger] rows[r])[f] is None
}

/// Whether encoding `rows` keeps all they hold: each field's value is present
/// in every row or in none, and if there are rows, some field is present in
/// all of them, so that a column carries their number.
pub open spec fn encodes_losslessly(rows: Seq<RowModel>, fields: Seq<Field>) -> bool {
    &&& forall|f: int|
        0 <= f < fields.len() ==> all_present(rows, f) || all_absent(rows, f)
    &&& rows.len() == 0 || exists|f: int| 0 <= f < fields.len() && #[trigger] all_present(rows, f)
}

proof fn lemma_encode_dom(rows: Seq<RowModel>, fields: Seq<Field>, k: Seq<char>)
    requires
        encode_entity(rows, fields).contains_key(k),
    ensures
        exists|g: int| 0 <= g < fields.len() && (#[trigger] fields[g]).name@ == k,
    decreases fields.len(),
{
    let n = fields.len() - 1;
    if fields[n].name@ != k {
        lemma_encode_dom(rows, fields.drop_last(), k);
        let g = choose|g: int| 0 <= g < n && (#[trigger] fields.drop_last()[g]).name@ == k;
        assert(fields[g] == fields.drop_last()[g]);
    }
}

pub(crate) proof fn lemma_encode_lookup(rows: Seq<RowModel>, fields: Seq<Field>, f: int)
    requires
        fields_wf(fields),
        0 <= f < fields.len(),
    ensures
        lookup(encode_entity(rows, fields), fields[f].name@) == if all_present(rows, f) {
            Some(encode_column(rows, f, fields[f]))
        } else {
            None
        },
    decreases fields.len(),
{
    let n = fields.len() - 1;
    let init = fields.drop_last();
    let m = encode_entity(rows, init);
    assert forall|i: int, j: int|
        0 <= i < init.len() && 0 <= j < init.len() && i != j implies (#[trigger] init[i]).name@
        != (#[trigger] init[j]).name@ by {
        assert(init[i] == fields[i]);
        assert(init[j] == fields[j]);
    }
    if f == n {
        if m.contains_key(fields[n].name@) {
            lemma_encode_dom(rows, init, fields[n].name@);
            let g = choose|g: int| 0 <= g < init.len() && (#[trigger] init[g]).name@ == fields[n].name@;
            assert(init[g] == fields[g]);
        }
    } else {
        assert(init[f] == fields[f]);
        lemma_encode_lookup(rows, init, f);
        assert(fields[n].name@ != fields[f].name@);
    }
}

/// The columns that decoding the encoding of `rows` yields for the first `k`
/// fields.
pub open spec fn encoded_cols(rows: Seq<RowModel>, k: int) -> Seq<Option<Seq<AttrValues>>> {
    Seq::new(
        k as nat,
        |g: int|
            if all_present(rows, g) {
                Some(field_values(rows, g))
            } else {
                None
            },
    )
}

pub(crate) proof fn lemma_encoded_count(rows: Seq<RowModel>, k: int)
    requires
        0 <= k,
    ensures
        present_count(encoded_cols(rows, k)) == if exists|g: int|
            0 <= g < k && #[trigger] all_present(rows, g) {
            Some(rows.len())
        } else {
            None
        },
    decreases k,
{
    if k > 0 {
        assert(encoded_cols(rows, k).drop_last() =~= encoded_cols(rows, k - 1));
        lemma_encoded_count(rows, k - 1);
        if all_present(rows, k - 1) {
            assert(exists|g: int| 0 <= g < k && #[trigger] all_present(rows, g));
        }
        if exists|g: int| 0 <= g < k - 1 && #[trigger] all_present(rows, g) {
            let g = choose|g: int| 0 <= g < k - 1 && #[trigger] all_present(rows, g);
            assert(0 <= g < k && all_present(rows, g));
        }
    }
}

pub(crate) proof fn lemma_decode_encoded(rows: Seq<RowModel>, fields: Seq<Field>, ctx: ErrContext, k: int)
    requires
        fields_wf(fields),
        forall|r: int| 0 <= r < rows.len() ==> conforms(#[trigger] rows[r], fields),
        0 <= k <= fields.len(),
    ensures
        decode_fields(encode_entity(rows, fields), fields.take(k), ctx) == Ok::<
            Seq<Option<Seq<AttrValues>>>,
            Error,
        >(encoded_cols(rows, k)),
    decreases k,
{
    let e = encode_entity(rows, fields);
    if k == 0 {
        assert(encoded_cols(rows, 0) =~= Seq::<Option<Seq<AttrValues>>>::empty());
    } else {
        let f = k - 1;
        let field = fields[f];
        lemma_decode_encoded(rows, fields, ctx, f);
        assert(fields.take(k).drop_last() =~= fields.take(f));
        assert(fields.take(k).last() == field);
        assert(encoded_cols(rows, k).drop_last() =~= encoded_cols(rows, f));
        lemma_encode_lookup(rows, fields, f);
        lemma_encoded_count(rows, f);
        if all_present(rows, f) {
            let vals = field_values(rows, f);
            assert forall|i: int| 0 <= i < vals.len() implies (#[trigger] vals[i]).kind
                == field.kind && vals[i].len() == field.arity by {
                assert(conforms(rows[i], fields));
                assert(rows[i][f] is Some);
            }
            lemma_chunks_join(field.kind, vals, field.arity as nat);
            lemma_mod_multiples_basic(rows.len() as int, field.arity as int);
            assert(encoded_cols(rows, k) =~= encoded_cols(rows, f).push(Some(vals)));
        } else {
            let r = choose|r: int| 0 <= r < rows.len() && (#[trigger] rows[r])[f] is None;
            assert(conforms(rows[r], fields));
            assert(encoded_cols(rows, k) =~= encoded_cols(rows, f).push(None));
        }
    }
}

/// Encoding rows of a field table and decoding the columns under the same
/// table gives the rows back, wherever encoding loses nothing.
pub proof fn lemma_round_trip(rows: Seq<RowModel>, fields: Seq<Field>, ctx: ErrContext)
    requires
        fields_wf(fields),
        forall|r: int| 0 <= r < rows.len() ==> conforms(#[trigger] rows[r], fields),
        encodes_losslessly(rows, fields),
    ensures
        decode_entity(encode_entity(rows, fields), fields, ctx) == Ok::<Seq<RowModel>, Error>(rows),
{
    let n = fields.len() as int;
    lemma_decode_encoded(rows, fields, ctx, n);
    assert(fields.take(n) =~= fields);
    let cols = encoded_cols(rows, n);
    lemma_encoded_count(rows, n);
    assert(row_count(cols) == rows.len());
    assert forall|r: int| 0 <= r < rows.len() implies #[trigger] rows_of(cols)[r] == rows[r] by {
        assert(conforms(rows[r], fields));
        assert forall|f: int| 0 <= f < n implies #[trigger] cell(cols, f, r) == rows[r][f] by {
            if all_present(rows, f) {
                assert(rows[r][f] is Some);
            } else {
                assert(all_absent(rows, f));
            }
        }
        assert(rows_of(cols)[r] =~= rows[r]);
    }
    assert(rows_of(cols) =~= rows);
}

proof fn lemma_field_error_fails(
    attrs: Map<Seq<char>, AttrColumn>,
    fields: Seq<Field>,
    ctx: ErrContext,
    f: int,
)
    requires
        0 <= f < fields.len(),
        field_column(lookup(attrs, fields[f].name@), fields[f], ctx) is Err,
    ensures
        decode_entity(attrs, fields, ctx) is Err,
{
    assert(fields.take(f + 1).drop_last() =~= fields.take(f));
    assert(fields.take(f + 1).last() == fields[f]);
    lemma_decode_err_extends(attrs, fields, ctx, f + 1);
}

/// Decoding a column whose tuple size is not the arity its field expects
/// fails with the two sizes, and the collection fails to decode.
pub proof fn lemma_arity_check(
    attrs: Map<Seq<char>, AttrColumn>,
    fields: Seq<Field>,
    ctx: ErrContext,
    f: int,
)
    requires
        0 <= f < fields.len(),
        attrs.contains_key(fields[f].name@),
        attrs[fields[f].name@].tuple_size != fields[f].arity,
    ensures
        field_column(lookup(attrs, fields[f].name@), fields[f], ctx) == Err::<
            Option<Seq<AttrValues>>,
            Error,
        >(
            Error::InvalidAttributeLength {
                expected: fields[f].arity,
                actual: attrs[fields[f].name@].tuple_size,
            },
        ),
        decode_entity(attrs, fields, ctx) is Err,
{
    lemma_field_error_fails(attrs, fields, ctx, f);
}

/// Decoding a column of one scalar kind for a field of another kind fails
/// with both kinds whenever the tuple size is the expected one, whatever the
/// column's length, and the collection fails to decode.
pub proof fn lemma_kind_check(
    attrs: Map<Seq<char>, AttrColumn>,
    fields: Seq<Field>,
    ctx: ErrContext,
    f: int,
)
    requires
        0 <= f < fields.len(),
        attrs.contains_key(fields[f].name@),
        attrs[fields[f].name@].tuple_size == fields[f].arity,
        attrs[fields[f].name@].values.kind != fields[f].kind,
    ensures
        field_column(lookup(attrs, fields[f].name@), fields[f], ctx) == Err::<
            Option<Seq<AttrValues>>,
            Error,
        >(
            Error::InvalidAttributeType {
                expected: fields[f].kind,
                actual: attrs[fields[f].name@].values.kind,
            },
        ),
        decode_entity(attrs, fields, ctx) is Err,
{
    lemma_field_error_fails(attrs, fields, ctx, f);
}

proof fn lemma_decode_ok(attrs: Map<Seq<char>, AttrColumn>, fields: Seq<Field>, ctx: ErrContext)
    requires
        decode_fields(attrs, fields, ctx) is Ok,
    ensures
        ({
            let cols = decode_fields(attrs, fields, ctx)->Ok_0;
            &&& cols.len() == fields.len()
            &&& forall|g: int|
                0 <= g < fields.len() ==> field_column(
                    lookup(attrs, (#[trigger] fields[g]).name@),
                    fields[g],
                    ctx,
                ) == Ok::<Option<Seq<AttrValues>>, Error>(cols[g])
            &&& forall|g: int|
                0 <= g < fields.len() ==> ((#[trigger] cols[g]) matches Some(c) ==> present_count(
                    cols,
                ) == Some(c.len()))
            &&& present_count(cols) is None ==> forall|g: int|
                0 <= g < fields.len() ==> (#[trigger] cols[g]) is None
        }),
    decreases fields.len(),
{
    if fields.len() > 0 {
        let init = fields.drop_last();
        lemma_decode_ok(attrs, init, ctx);
        let prev = decode_fields(attrs, init, ctx)->Ok_0;
        let cols = decode_fields(attrs, fields, ctx)->Ok_0;
        assert(cols.drop_last() =~= prev);
        assert forall|g: int| 0 <= g < fields.len() - 1 implies field_column(
            lookup(attrs, (#[trigger] fields[g]).name@),
            fields[g],
            ctx,
        ) == Ok::<Option<Seq<AttrValues>>, Error>(cols[g]) by {
            assert(init[g] == fields[g]);
            assert(cols[g] == prev[g]);
        }
        assert forall|g: int| 0 <= g < fields.len() implies ((#[trigger] cols[g]) matches Some(c)
            ==> present_count(cols) == Some(c.len())) by {
            if g < fields.len() - 1 {
                assert(init[g] == fields[g]);
                assert(cols[g] == prev[g]);
            }
        }
    }
}

/// An optional field whose attribute is absent decodes to a missing value in
/// every row, and there are as many rows as values in each present column.
pub proof fn lemma_optional_fallback(
    attrs: Map<Seq<char>, AttrColumn>,
    fields: Seq<Field>,
    ctx: ErrContext,
    f: int,
)
    requires
        fields_wf(fields),
        0 <= f < fields.len(),
        fields[f].optional,
        !attrs.contains_key(fields[f].name@),
        decode_entity(attrs, fields, ctx) is Ok,
    ensures
        ({
            let rows = decode_entity(attrs, fields, ctx)->Ok_0;
            &&& forall|r: int| 0 <= r < rows.len() ==> (#[trigger] rows[r])[f] is None
            &&& forall|g: int|
                0 <= g < fields.len() && attrs.contains_key((#[trigger] fields[g]).name@)
                    ==> rows.len() == attrs[fields[g].name@].values.len() / (
                fields[g].arity as nat)
        }),
{
    lemma_decode_ok(attrs, fields, ctx);
    let cols = decode_fields(attrs, fields, ctx)->Ok_0;
    let rows = rows_of(cols);
    assert(cols[f] is None);
    assert forall|r: int| 0 <= r < rows.len() implies (#[trigger] rows[r])[f] is None by {
        assert(rows[r][f] == cell(cols, f, r));
    }
    assert forall|g: int|
        0 <= g < fields.len() && attrs.contains_key((#[trigger] fields[g]).name@) implies rows.len()
        == attrs[fields[g].name@].values.len() / (fields[g].arity as nat) by {
        assert(cols[g] is Some);
    }
}

} // verus!
