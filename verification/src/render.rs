//! The materialized result of a pipeline and its rendering as text.

use vstd::prelude::*;
use vstd::string::StringExecFns;
use crate::model::{
    rows_view, schema_view, texts, PreviewResponse, PreviewResponseView, SchemaField,
    SchemaFieldView,
};

verus! {

/// The character of a decimal digit.
pub open spec fn digit_char(digit: nat) -> char {
    (('0' as u8 + digit) as u8) as char
}

/// The decimal digits of a natural number, without leading zeros.
pub open spec fn natural_text(n: nat) -> Seq<char>
    decreases n,
{
    if n < 10 {
        seq![digit_char(n)]
    } else {
        natural_text(n / 10).push(digit_char(n % 10))
    }
}

/// The decimal text of an integer: a minus sign for a negative number, then
/// its digits.
pub open spec fn integer_text(value: int) -> Seq<char> {
    if value < 0 {
        seq!['-'] + natural_text((-value) as nat)
    } else {
        natural_text(value as nat)
    }
}

/// The text of one decimal digit.
fn digit_str(digit: u64) -> (text: &'static str)
    requires
        digit < 10,
    ensures
        text@ == seq![digit_char(digit as nat)],
{
    proof {
        reveal_strlit("0");
        reveal_strlit("1");
        reveal_strlit("2");
        reveal_strlit("3");
        reveal_strlit("4");
        reveal_strlit("5");
        reveal_strlit("6");
        reveal_strlit("7");
        reveal_strlit("8");
        reveal_strlit("9");
    }
    let text = match digit {
        0 => "0",
        1 => "1",
        2 => "2",
        3 => "3",
        4 => "4",
        5 => "5",
        6 => "6",
        7 => "7",
        8 => "8",
        _ => "9",
    };
    assert(text@ =~= seq![digit_char(digit as nat)]);
    text
}

/// Appends the decimal digits of `n` to `out`.
fn push_natural(out: &mut String, n: u64)
    ensures
        final(out)@ == old(out)@ + natural_text(n as nat),
    decreases n,
{
    if n >= 10 {
        push_natural(out, n / 10);
    }
    out.append(digit_str(n % 10));
    assert(out@ =~= old(out)@ + natural_text(n as nat));
}

/// Renders an integer as decimal text.
pub fn render_integer(value: i64) -> (text: String)
    ensures
        text@ == integer_text(value as int),
{
    let mut text = String::new();
    if value < 0 {
        proof {
            reveal_strlit("-");
        }
        text.append("-");
        assert(text@ =~= seq!['-']);
        let magnitude: u64 = if value == i64::MIN {
            0x8000_0000_0000_0000
        } else {
            (-value) as u64
        };
        push_natural(&mut text, magnitude);
    } else {
        push_natural(&mut text, value as u64);
        assert(Seq::<char>::empty() + natural_text(value as nat) =~= natural_text(value as nat));
    }
    text
}

/// The values of one column of a batch. Floating-point values are held as the
/// text in which the engine writes them. A column of any other type holds no
/// values, only the name of its type.
#[derive(Clone, Debug, PartialEq, Eq)]
pub enum ColumnData {
    Utf8(Vec<String>),
    Float32(Vec<String>),
    Float64(Vec<String>),
    Int32(Vec<i32>),
    Int64(Vec<i64>),
    Other(String),
}

/// A named column of a batch.
#[derive(Clone, Debug, PartialEq, Eq)]
pub struct Column {
    pub name: String,
    pub data: ColumnData,
}

/// How the engine names the type of a column.
pub open spec fn type_label(data: ColumnData) -> Seq<char> {
    match data {
        ColumnData::Utf8(_) => "Utf8"@,
        ColumnData::Float32(_) => "Float32"@,
        ColumnData::Float64(_) => "Float64"@,
        ColumnData::Int32(_) => "Int32"@,
        ColumnData::Int64(_) => "Int64"@,
        ColumnData::Other(name) => name@,
    }
}

/// Whether a column has a value for each of `rows` rows. A column of an
/// unsupported type has none to show and fits any number of rows.
pub open spec fn fits(data: ColumnData, rows: nat) -> bool {
    match data {
        ColumnData::Utf8(values) => values@.len() == rows,
        ColumnData::Float32(values) => values@.len() == rows,
        ColumnData::Float64(values) => values@.len() == rows,
        ColumnData::Int32(values) => values@.len() == rows,
        ColumnData::Int64(values) => values@.len() == rows,
        ColumnData::Other(_) => true,
    }
}

/// The text of the cell of a column at `row`.
pub open spec fn cell_text(data: ColumnData, row: int) -> Seq<char> {
    match data {
        ColumnData::Utf8(values) => values@[row]@,
        ColumnData::Float32(values) => values@[row]@,
        ColumnData::Float64(values) => values@[row]@,
        ColumnData::Int32(values) => integer_text(values@[row] as int),
        ColumnData::Int64(values) => integer_text(values@[row] as int),
        ColumnData::Other(_) => "<unsupported type>"@,
    }
}

/// A batch of rows held column by column. Every column that holds values
/// holds one for each row.
#[derive(Debug, PartialEq, Eq)]
pub struct Batch {
    columns: Vec<Column>,
    rows: usize,
}

impl Batch {
    #[verifier::type_invariant]
    spec fn well_formed(&self) -> bool {
        forall|c: int|
            0 <= c < self.columns@.len() ==> fits(
                (#[trigger] self.columns@[c]).data,
                self.rows as nat,
            )
    }

    /// The columns of the batch.
    pub closed spec fn columns(&self) -> Seq<Column> {
        self.columns@
    }

    /// The number of rows of the batch.
    pub closed spec fn num_rows(&self) -> nat {
        self.rows as nat
    }

    /// Makes a batch of `rows` rows, or `None` where some column holds
    /// another number of values.
    pub fn new(columns: Vec<Column>, rows: usize) -> (batch: Option<Batch>)
        ensures
            batch is Some <==> forall|c: int|
                0 <= c < columns@.len() ==> fits((#[trigger] columns@[c]).data, rows as nat),
            batch matches Some(made) ==> made.columns() == columns@ && made.num_rows() == rows,
    {
        let mut c: usize = 0;
        while c < columns.len()
            invariant
                c <= columns.len(),
                forall|k: int| 0 <= k < c ==> fits((#[trigger] columns@[k]).data, rows as nat),
            decreases columns.len() - c,
        {
            let fitting = match &columns[c].data {
                ColumnData::Utf8(values) => values.len() == rows,
                ColumnData::Float32(values) => values.len() == rows,
                ColumnData::Float64(values) => values.len() == rows,
                ColumnData::Int32(values) => values.len() == rows,
                ColumnData::Int64(values) => values.len() == rows,
                ColumnData::Other(_) => true,
            };
            if !fitting {
                assert(!fits(columns@[c as int].data, rows as nat));
                return None;
            }
            c += 1;
        }
        Some(Batch { columns, rows })
    }

    /// The schema that the batch reports: each column's name and the name
    /// of its type.
    pub open spec fn schema(&self) -> Seq<SchemaFieldView> {
        Seq::new(
            self.columns().len(),
            |c: int|
                SchemaFieldView {
                    name: self.columns()[c].name@,
                    data_type: type_label(self.columns()[c].data),
                },
        )
    }

    /// The cell texts of the row at `row`, column by column.
    pub open spec fn row_text(&self, row: int) -> Seq<Seq<char>> {
        Seq::new(self.columns().len(), |c: int| cell_text(self.columns()[c].data, row))
    }

    /// The cell texts of all rows.
    pub open spec fn rows_text(&self) -> Seq<Seq<Seq<char>>> {
        Seq::new(self.num_rows(), |row: int| self.row_text(row))
    }

    /// Reports the schema of the batch.
    pub fn schema_fields(&self) -> (fields: Vec<SchemaField>)
        ensures
            schema_view(fields@) == self.schema(),
    {
        let mut fields: Vec<SchemaField> = Vec::new();
        let mut c: usize = 0;
        while c < self.columns.len()
            invariant
                c <= self.columns@.len(),
                fields@.len() == c,
                forall|k: int| 0 <= k < c ==> (#[trigger] fields@[k])@ == self.schema()[k],
            decreases self.columns@.len() - c,
        {
            let column = &self.columns[c];
            let data_type = match &column.data {
                ColumnData::Utf8(_) => "Utf8".to_owned(),
                ColumnData::Float32(_) => "Float32".to_owned(),
                ColumnData::Float64(_) => "Float64".to_owned(),
                ColumnData::Int32(_) => "Int32".to_owned(),
                ColumnData::Int64(_) => "Int64".to_owned(),
                ColumnData::Other(name) => name.clone(),
            };
            fields.push(SchemaField { name: column.name.clone(), data_type });
            c += 1;
        }
        assert(schema_view(fields@) =~= self.schema());
        fields
    }

    /// Renders the row at `row` as text.
    fn render_row(&self, row: usize) -> (cells: Vec<String>)
        requires
            row < self.num_rows(),
        ensures
            texts(cells@) == self.row_text(row as int),
    {
        proof {
            use_type_invariant(self);
        }
        let mut cells: Vec<String> = Vec::new();
        let mut c: usize = 0;
        while c < self.columns.len()
            invariant
                c <= self.columns@.len(),
                row < self.rows,
                cells@.len() == c,
                forall|k: int|
                    0 <= k < self.columns@.len() ==> fits(
                        (#[trigger] self.columns@[k]).data,
                        self.rows as nat,
                    ),
                forall|k: int|
                    0 <= k < c ==> (#[trigger] cells@[k])@ == cell_text(
                        self.columns@[k].data,
                        row as int,
                    ),
            decreases self.columns@.len() - c,
        {
            assert(fits(self.columns@[c as int].data, self.rows as nat));
            let cell = match &self.columns[c].data {
                ColumnData::Utf8(values) => values[row].clone(),
                ColumnData::Float32(values) => values[row].clone(),
                ColumnData::Float64(values) => values[row].clone(),
                ColumnData::Int32(values) => render_integer(values[row] as i64),
                ColumnData::Int64(values) => render_integer(values[row]),
                ColumnData::Other(_) => "<unsupported type>".to_owned(),
            };
            cells.push(cell);
            c += 1;
        }
        assert(texts(cells@) =~= self.row_text(row as int));
        cells
    }

    /// Appends the rows of the batch, rendered as text, to `data`.
    fn render_rows(&self, data: &mut Vec<Vec<String>>)
        ensures
            rows_view(final(data)@) == rows_view(old(data)@) + self.rows_text(),
    {
        let ghost before = rows_view(data@);
        let mut row: usize = 0;
        while row < self.rows
            invariant
                row <= self.rows,
                rows_view(data@) == before + self.rows_text().take(row as int),
            decreases self.rows - row,
        {
            let ghost held = data@;
            let cells = self.render_row(row);
            data.push(cells);
            assert(rows_view(data@) =~= rows_view(held).push(texts(cells@)));
            assert(self.rows_text().take(row + 1) =~= self.rows_text().take(row as int).push(
                self.row_text(row as int),
            ));
            row += 1;
        }
        assert(self.rows_text().take(row as int) =~= self.rows_text());
    }
}

/// The rows of all batches, in order.
pub open spec fn all_rows(batches: Seq<Batch>) -> Seq<Seq<Seq<char>>>
    decreases batches.len(),
{
    if batches.len() == 0 {
        Seq::empty()
    } else {
        all_rows(batches.drop_last()) + batches.last().rows_text()
    }
}

/// What is reported for a materialized result. Without any batch everything
/// is empty, the incoming schema too. Otherwise the schema is that of the
/// first batch and the data are the rows of all batches.
pub open spec fn rendered(
    incoming_schema: Seq<SchemaFieldView>,
    batches: Seq<Batch>,
) -> PreviewResponseView {
    if batches.len() == 0 {
        PreviewResponseView {
            incoming_schema: Seq::empty(),
            schema: Seq::empty(),
            data: Seq::empty(),
        }
    } else {
        PreviewResponseView {
            incoming_schema,
            schema: batches[0].schema(),
            data: all_rows(batches),
        }
    }
}

/// Builds the response for the materialized final table.
///
/// `incoming_schema` is the schema that was seen before the last node was
/// applied. Every cell is written as text: text as it is, integers in
/// decimal, floating-point numbers as the engine wrote them, and a cell of
/// any other type as `<unsupported type>`.
pub fn render_response(incoming_schema: Vec<SchemaField>, batches: &Vec<Batch>) -> (response:
    PreviewResponse)
    ensures
        response@ == rendered(schema_view(incoming_schema@), batches@),
{
    if batches.len() == 0 {
        let response = PreviewResponse {
            incoming_schema: Vec::new(),
            schema: Vec::new(),
            data: Vec::new(),
        };
        assert(response@.incoming_schema =~= Seq::empty());
        assert(response@.schema =~= Seq::empty());
        assert(response@.data =~= Seq::empty());
        return response;
    }
    let schema = batches[0].schema_fields();
    let mut data: Vec<Vec<String>> = Vec::new();
    assert(rows_view(data@) =~= all_rows(batches@.take(0)));
    let mut b: usize = 0;
    while b < batches.len()
        invariant
            b <= batches.len(),
            rows_view(data@) == all_rows(batches@.take(b as int)),
        decreases batches.len() - b,
    {
        batches[b].render_rows(&mut data);
        assert(batches@.take(b + 1).drop_last() =~= batches@.take(b as int));
        b += 1;
    }
    assert(batches@.take(b as int) =~= batches@);
    PreviewResponse { incoming_schema, schema, data }
}

} // verus!
