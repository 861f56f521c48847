//! SQL statements with their parameters, and rows of values.

use vstd::prelude::*;

verus! {

/// A value bound to a parameter or read from a column.
#[derive(Debug)]
pub enum Value {
    Text(String),
    Integer(i64),
    Null,
    /// A real number or a blob; no column of this schema holds one.
    Other,
}

/// What a value is, with a text by its characters.
pub enum Cell {
    Text(Seq<char>),
    Integer(int),
    Null,
    Other,
}

impl View for Value {
    type V = Cell;

    open spec fn view(&self) -> Cell {
        match self {
            Value::Text(s) => Cell::Text(s@),
            Value::Integer(n) => Cell::Integer(*n as int),
            Value::Null => Cell::Null,
            Value::Other => Cell::Other,
        }
    }
}

/// What the values of a row or a parameter list are.
pub open spec fn cells(values: Seq<Value>) -> Seq<Cell> {
    values.map_values(|v: Value| v@)
}

/// One SQL statement and the values of its numbered parameters.
#[derive(Debug)]
pub struct Statement {
    pub sql: String,
    pub params: Vec<Value>,
}

impl Statement {
    /// The statement has this text and these parameters.
    pub open spec fn is(self, sql: Seq<char>, params: Seq<Cell>) -> bool {
        self.sql@ == sql && cells(self.params@) == params
    }

    pub fn new(sql: &str, params: Vec<Value>) -> (r: Statement)
        ensures
            r.is(sql@, cells(params@)),
    {
        Statement { sql: sql.to_owned(), params }
    }
}

/// A text parameter.
pub fn text(s: &str) -> (r: Value)
    ensures
        r@ == Cell::Text(s@),
{
    Value::Text(s.to_owned())
}

/// The cell of an optional text.
pub open spec fn optional_cell(s: Option<String>) -> Cell {
    match s {
        Some(s) => Cell::Text(s@),
        None => Cell::Null,
    }
}

/// An optional text parameter.
pub fn optional_text(s: &Option<String>) -> (r: Value)
    ensures
        r@ == optional_cell(*s),
{
    match s {
        Some(s) => Value::Text(s.clone()),
        None => Value::Null,
    }
}

/// The text in column `i`, if there is one.
pub open spec fn text_cell(row: Seq<Cell>, i: int) -> Option<Seq<char>> {
    if 0 <= i < row.len() {
        match row[i] {
            Cell::Text(s) => Some(s),
            _ => None,
        }
    } else {
        None
    }
}

pub fn text_at(row: &Vec<Value>, i: usize) -> (r: Option<String>)
    ensures
        match r {
            Some(s) => text_cell(cells(row@), i as int) == Some(s@),
            None => text_cell(cells(row@), i as int) is None,
        },
{
    if i >= row.len() {
        return None;
    }
    assert(cells(row@)[i as int] == row@[i as int]@);
    match &row[i] {
        Value::Text(s) => Some(s.clone()),
        _ => None,
    }
}

/// The 32-bit integer in column `i`, if there is one.
pub open spec fn small_cell(row: Seq<Cell>, i: int) -> Option<int> {
    if 0 <= i < row.len() {
        match row[i] {
            Cell::Integer(n) => if i32::MIN <= n <= i32::MAX {
                Some(n)
            } else {
                None
            },
            _ => None,
        }
    } else {
        None
    }
}

pub fn small_at(row: &Vec<Value>, i: usize) -> (r: Option<i32>)
    ensures
        match r {
            Some(n) => small_cell(cells(row@), i as int) == Some(n as int),
            None => small_cell(cells(row@), i as int) is None,
        },
{
    if i >= row.len() {
        return None;
    }
    assert(cells(row@)[i as int] == row@[i as int]@);
    match &row[i] {
        Value::Integer(n) => if i32::MIN as i64 <= *n && *n <= i32::MAX as i64 {
            Some(*n as i32)
        } else {
            None
        },
        _ => None,
    }
}

/// No parameters.
pub fn no_params() -> (r: Vec<Value>)
    ensures
        cells(r@) == Seq::<Cell>::empty(),
{
    let r: Vec<Value> = Vec::new();
    assert(cells(r@) =~= Seq::<Cell>::empty());
    r
}

/// Text parameters.
pub fn text_params(values: &Vec<&str>) -> (r: Vec<Value>)
    ensures
        cells(r@) == values@.map_values(|s: &str| Cell::Text(s@)),
{
    let mut r: Vec<Value> = Vec::new();
    let ghost want = values@.map_values(|s: &str| Cell::Text(s@));
    for i in 0..values.len()
        invariant
            want == values@.map_values(|s: &str| Cell::Text(s@)),
            cells(r@) == want.take(i as int),
    {
        let ghost before = r@;
        r.push(text(values[i]));
        assert(cells(r@) =~= cells(before).push(want[i as int]));
        assert(want.take(i + 1) =~= want.take(i as int).push(want[i as int]));
    }
    assert(want.take(values@.len() as int) =~= want);
    r
}

/// A column that does not hold what it should.
#[derive(Clone, Copy, PartialEq, Eq, Structural, Debug)]
pub struct BadColumn(pub usize);

} // verus!
