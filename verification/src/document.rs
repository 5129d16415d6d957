//! A table with a fixed schema of typed columns and an append-only store of
//! rows.

use vstd::prelude::*;
use crate::decimal::{decimal_digits, parse_u32, parsed_u32, render_u32};

verus! {

/// The declared type of a column.
#[derive(Clone, Copy, Debug, PartialEq, Eq, Structural)]
pub enum DataType {
    STRING,
    INT,
}

/// A column of a schema: its name and its declared type.
pub struct Row {
    pub name: String,
    pub data_type: DataType,
}

impl View for Row {
    type V = (Seq<char>, DataType);

    open spec fn view(&self) -> (Seq<char>, DataType) {
        (self.name@, self.data_type)
    }
}

impl Row {
    /// The column named `key` of type `data_type`.
    pub fn new(key: &str, data_type: DataType) -> (column: Self)
        ensures
            column@ == (key@, data_type),
    {
        Self { name: String::from_str(key), data_type }
    }
}

/// A typed value of a row.
#[derive(Debug, PartialEq, Eq)]
pub enum DataValue {
    STRING(String),
    INT(u32),
}

/// The mathematical value of a `DataValue`.
pub enum DataValueView {
    STRING(Seq<char>),
    INT(u32),
}

impl View for DataValue {
    type V = DataValueView;

    open spec fn view(&self) -> DataValueView {
        match self {
            DataValue::STRING(text) => DataValueView::STRING(text@),
            DataValue::INT(number) => DataValueView::INT(*number),
        }
    }
}

/// Why an insert was refused.
#[derive(Debug, PartialEq, Eq)]
pub enum InsertError {
    /// The number of fields differs from the number of columns.
    SchemaMismatchError { expected: usize, found: usize },
    /// A field cannot be converted to the declared type of its column.
    CoercionError { field: String, target: DataType },
}

/// The value that a raw field becomes in a column of type `data_type`: any
/// text as it is in a string column; in an integer column the number that the
/// text stands for, and nothing where it stands for none.
pub open spec fn coerce(data_type: DataType, field: Seq<char>) -> Option<DataValueView> {
    match data_type {
        DataType::STRING => Some(DataValueView::STRING(field)),
        DataType::INT => match parsed_u32(field) {
            Some(number) => Some(DataValueView::INT(number)),
            None => None,
        },
    }
}

/// The declared type that a value belongs to.
pub open spec fn type_of(value: DataValueView) -> DataType {
    match value {
        DataValueView::STRING(_) => DataType::STRING,
        DataValueView::INT(_) => DataType::INT,
    }
}

/// The first column from `from` on whose field cannot be coerced, or the
/// number of columns when there is none.
pub open spec fn first_failure(
    schema: Seq<(Seq<char>, DataType)>,
    fields: Seq<Seq<char>>,
    from: int,
) -> int
    decreases schema.len() - from,
{
    if from < 0 || from >= schema.len() {
        schema.len() as int
    } else if coerce(schema[from].1, fields[from]) is None {
        from
    } else {
        first_failure(schema, fields, from + 1)
    }
}

/// The row that the fields make under the schema: for each column its name
/// and the coerced field.
pub open spec fn coerced_row(schema: Seq<(Seq<char>, DataType)>, fields: Seq<Seq<char>>) -> Seq<
    (Seq<char>, DataValueView),
> {
    Seq::new(schema.len(), |i: int| (schema[i].0, coerce(schema[i].1, fields[i]).unwrap()))
}

/// How a value is displayed: a number in decimal digits, a text as it is.
pub open spec fn rendered_value(value: DataValueView) -> Seq<char> {
    match value {
        DataValueView::STRING(text) => text,
        DataValueView::INT(number) => decimal_digits(number as nat),
    }
}

/// The cells joined by a comma and a space.
pub open spec fn joined(cells: Seq<Seq<char>>) -> Seq<char>
    decreases cells.len(),
{
    if cells.len() == 0 {
        Seq::empty()
    } else if cells.len() == 1 {
        cells[0]
    } else {
        joined(cells.drop_last()) + seq![',', ' '] + cells.last()
    }
}

/// The displayed values of a row, in column order.
pub open spec fn rendered_cells(row: Seq<(Seq<char>, DataValueView)>) -> Seq<Seq<char>> {
    Seq::new(row.len(), |i: int| rendered_value(row[i].1))
}

/// How a row is displayed: its values joined, between `( ` and ` )`.
pub open spec fn rendered_row(row: Seq<(Seq<char>, DataValueView)>) -> Seq<char> {
    seq!['(', ' '] + joined(rendered_cells(row)) + seq![' ', ')']
}

/// How the rows are displayed, one line for each.
pub open spec fn rendered_rows(pages: Seq<Seq<(Seq<char>, DataValueView)>>) -> Seq<Seq<char>> {
    Seq::new(pages.len(), |r: int| rendered_row(pages[r]))
}

/// The texts of a sequence of strings.
pub open spec fn string_views(lines: Seq<String>) -> Seq<Seq<char>> {
    Seq::new(lines.len(), |i: int| lines[i]@)
}

/// The texts of a sequence of string slices.
pub open spec fn field_views(values: Seq<&str>) -> Seq<Seq<char>> {
    Seq::new(values.len(), |i: int| values[i]@)
}

/// The columns of a schema as names and types.
pub open spec fn schema_view(schema: Seq<Row>) -> Seq<(Seq<char>, DataType)> {
    Seq::new(schema.len(), |i: int| schema[i]@)
}

/// The entries of a row as names and values.
pub open spec fn page_view(page: Seq<(String, DataValue)>) -> Seq<(Seq<char>, DataValueView)> {
    Seq::new(page.len(), |i: int| (page[i].0@, page[i].1@))
}

impl DataValue {
    /// A string value: the field as it is.
    pub fn to_string(source: String) -> (value: Self)
        ensures
            value@ == DataValueView::STRING(source@),
            Some(value@) == coerce(DataType::STRING, source@),
    {
        Self::STRING(source)
    }

    /// An integer value: the number that the field stands for in base ten.
    /// A field that stands for no unsigned 32-bit integer is handed back in
    /// the error.
    pub fn to_int(source: String) -> (value: Result<Self, InsertError>)
        ensures
            match value {
                Ok(number) => coerce(DataType::INT, source@) == Some(number@),
                Err(InsertError::CoercionError { field, target }) => coerce(
                    DataType::INT,
                    source@,
                ) is None && field@ == source@ && target == DataType::INT,
                Err(InsertError::SchemaMismatchError { .. }) => false,
            },
    {
        match parse_u32(source.as_str()) {
            Some(number) => Ok(Self::INT(number)),
            None => Err(InsertError::CoercionError { field: source, target: DataType::INT }),
        }
    }
}

/// A table: its name, its columns, and its rows in the order in which they
/// were inserted.
pub struct Table {
    pub name: String,
    pub schema: Vec<Row>,
    pub pages: Vec<Vec<(String, DataValue)>>,
}

/// The mathematical value of a `Table`.
pub struct TableView {
    pub name: Seq<char>,
    pub schema: Seq<(Seq<char>, DataType)>,
    pub pages: Seq<Seq<(Seq<char>, DataValueView)>>,
}

impl TableView {
    /// Whether a row fits the schema: one entry for each column, under the
    /// column's name and of its declared type.
    pub open spec fn row_fits(self, row: Seq<(Seq<char>, DataValueView)>) -> bool {
        &&& row.len() == self.schema.len()
        &&& forall|i: int|
            0 <= i < row.len() ==> (#[trigger] row[i]).0 == self.schema[i].0 && type_of(row[i].1)
                == self.schema[i].1
    }

    /// Every row fits the schema.
    pub open spec fn well_formed(self) -> bool {
        forall|r: int| 0 <= r < self.pages.len() ==> self.row_fits(#[trigger] self.pages[r])
    }
}

impl View for Table {
    type V = TableView;

    open spec fn view(&self) -> TableView {
        TableView {
            name: self.name@,
            schema: schema_view(self.schema@),
            pages: Seq::new(self.pages@.len(), |r: int| page_view(self.pages@[r]@)),
        }
    }
}

impl Table {
    /// Every row fits the schema.
    pub open spec fn well_formed(&self) -> bool {
        self@.well_formed()
    }

    /// Whether `lines` is what `select` gives for this table.
    pub open spec fn selected(&self, lines: Seq<String>) -> bool {
        string_views(lines) == rendered_rows(self@.pages)
    }

    /// An empty table with the given name and columns.
    pub fn new(name: &str, schema: Vec<Row>) -> (table: Self)
        ensures
            table@.name == name@,
            table.schema == schema,
            table@.pages.len() == 0,
            table.well_formed(),
    {
        Self { name: String::from_str(name), schema, pages: Vec::new() }
    }

    /// The rows as display lines, in insertion order. The table stays as it
    /// is.
    pub fn select(&self) -> (lines: Vec<String>)
        ensures
            self.selected(lines@),
            lines@.len() == self.pages@.len(),
    {
        let mut lines: Vec<String> = Vec::new();
        let mut r: usize = 0;
        while r < self.pages.len()
            invariant
                r <= self.pages.len(),
                lines@.len() == r,
                forall|k: int| 0 <= k < r ==> (#[trigger] lines@[k])@ == rendered_row(self@.pages[k]),
            decreases self.pages.len() - r,
        {
            let page = &self.pages[r];
            let ghost cells = rendered_cells(page_view(page@));
            let mut line = String::from_str("( ");
            proof {
                reveal_strlit("( ");
                reveal_strlit(", ");
                reveal_strlit(" )");
                assert("( "@ =~= seq!['(', ' ']);
                assert(", "@ =~= seq![',', ' ']);
                assert(" )"@ =~= seq![' ', ')']);
                assert(joined(cells.take(0)) =~= Seq::<char>::empty());
                assert(seq!['(', ' '] + Seq::<char>::empty() =~= seq!['(', ' ']);
            }
            let mut i: usize = 0;
            while i < page.len()
                invariant
                    i <= page.len(),
                    cells == rendered_cells(page_view(page@)),
                    ", "@ == seq![',', ' '],
                    line@ == seq!['(', ' '] + joined(cells.take(i as int)),
                decreases page.len() - i,
            {
                let ghost before = joined(cells.take(i as int));
                if i > 0 {
                    line.append(", ");
                }
                match &page[i].1 {
                    DataValue::INT(number) => {
                        let digits = render_u32(*number);
                        line.append(digits.as_str());
                    },
                    DataValue::STRING(text) => {
                        line.append(text.as_str());
                    },
                }
                proof {
                    let now = cells.take(i as int + 1);
                    assert(now.drop_last() =~= cells.take(i as int));
                    assert(now.last() == cells[i as int]);
                    if i > 0 {
                        assert(joined(now) == before + seq![',', ' '] + cells[i as int]);
                        assert(line@ =~= seq!['(', ' '] + joined(now));
                    } else {
                        assert(before =~= Seq::<char>::empty());
                        assert(joined(now) == cells[0]);
                        assert(line@ =~= seq!['(', ' '] + joined(now));
                    }
                }
                i += 1;
            }
            line.append(" )");
            proof {
                assert(cells.take(page.len() as int) =~= cells);
                assert(self@.pages[r as int] == page_view(page@));
            }
            lines.push(line);
            r += 1;
        }
        proof {
            assert(string_views(lines@) =~= rendered_rows(self@.pages));
        }
        lines
    }

    /// Appends the row that `values` make under the schema. The insert is
    /// refused, and the table left as it was, when the number of fields is
    /// not the number of columns, and else when a field cannot be coerced:
    /// the error then names the first such field and the type of its column.
    pub fn insert(&mut self, values: Vec<&str>) -> (done: Result<(), InsertError>)
        ensures
            final(self)@.name == old(self)@.name,
            final(self)@.schema == old(self)@.schema,
            old(self).well_formed() ==> final(self).well_formed(),
            match done {
                Ok(_) => {
                    &&& values@.len() == old(self)@.schema.len()
                    &&& first_failure(old(self)@.schema, field_views(values@), 0) == values@.len()
                    &&& final(self)@.pages == old(self)@.pages.push(
                        coerced_row(old(self)@.schema, field_views(values@)),
                    )
                },
                Err(InsertError::SchemaMismatchError { expected, found }) => {
                    &&& values@.len() != old(self)@.schema.len()
                    &&& expected == old(self)@.schema.len()
                    &&& found == values@.len()
                    &&& final(self)@ == old(self)@
                },
                Err(InsertError::CoercionError { field, target }) => {
                    let k = first_failure(old(self)@.schema, field_views(values@), 0);
                    &&& values@.len() == old(self)@.schema.len()
                    &&& 0 <= k < values@.len()
                    &&& field@ == values@[k]@
                    &&& target == old(self)@.schema[k].1
                    &&& final(self)@ == old(self)@
                },
            },
    {
        if values.len() != self.schema.len() {
            return Err(
                InsertError::SchemaMismatchError {
                    expected: self.schema.len(),
                    found: values.len(),
                },
            );
        }
        let ghost schema = self@.schema;
        let ghost fields = field_views(values@);
        let mut data: Vec<(String, DataValue)> = Vec::new();
        let mut i: usize = 0;
        while i < self.schema.len()
            invariant
                *self == *old(self),
                schema == self@.schema,
                fields == field_views(values@),
                values@.len() == self.schema@.len(),
                i <= self.schema@.len(),
                first_failure(schema, fields, 0) == first_failure(schema, fields, i as int),
                data@.len() == i,
                forall|j: int|
                    0 <= j < i ==> coerce(schema[j].1, fields[j]) == Some((#[trigger] data@[j]).1@)
                        && data@[j].0@ == schema[j].0,
            decreases self.schema@.len() - i,
        {
            let column = &self.schema[i];
            let key = column.name.clone();
            let field = String::from_str(values[i]);
            let value = match column.data_type {
                DataType::INT => {
                    match DataValue::to_int(field) {
                        Ok(number) => number,
                        Err(refused) => {
                            return Err(refused);
                        },
                    }
                },
                DataType::STRING => DataValue::to_string(field),
            };
            data.push((key, value));
            i += 1;
        }
        proof {
            assert(page_view(data@) =~= coerced_row(schema, fields));
            assert(self@.row_fits(page_view(data@)));
        }
        self.pages.push(data);
        proof {
            assert(self@.pages =~= old(self)@.pages.push(coerced_row(schema, fields)));
        }
        Ok(())
    }
}

/// One more row gives one more line, behind the lines that were there: the
/// display of that row.
pub proof fn lemma_rendered_rows_push(
    pages: Seq<Seq<(Seq<char>, DataValueView)>>,
    row: Seq<(Seq<char>, DataValueView)>,
)
    ensures
        rendered_rows(pages.push(row)) == rendered_rows(pages).push(rendered_row(row)),
{
    assert(rendered_rows(pages.push(row)) =~= rendered_rows(pages).push(rendered_row(row)));
}

/// Two results of `select` on one table, with no insert between them, hold
/// the same lines.
pub proof fn lemma_select_repeatable(table: Table, first: Vec<String>, second: Vec<String>)
    requires
        table.selected(first@),
        table.selected(second@),
    ensures
        string_views(first@) == string_views(second@),
{
}

} // verus!
