//! The columnar table model: typed columns of nullable cells.
//!
//! A table is an ordered list of uniquely-named typed columns plus a
//! row count; every column holds one cell per row.  Tables are
//! immutable values: every pipeline step builds a new one.

use vstd::prelude::*;

verus! {

/// The four column value types.
#[derive(Clone, Copy, PartialEq, Eq, Structural, Debug)]
pub enum ColType {
    Int,
    Float,
    Bool,
    Str,
}

/// One cell of a table: a typed value or the null marker.  Floating
/// point cells carry the IEEE-754 bit pattern of the value.
#[derive(Clone, Debug)]
pub enum Cell {
    Null,
    Int(i64),
    Float(u64),
    Bool(bool),
    Str(String),
}

/// The mathematical value of a cell: text becomes a character sequence.
pub enum CellV {
    Null,
    Int(i64),
    Float(u64),
    Bool(bool),
    Str(Seq<char>),
}

impl View for Cell {
    type V = CellV;

    open spec fn view(&self) -> CellV {
        match self {
            Cell::Null => CellV::Null,
            Cell::Int(i) => CellV::Int(*i),
            Cell::Float(b) => CellV::Float(*b),
            Cell::Bool(b) => CellV::Bool(*b),
            Cell::Str(s) => CellV::Str(s@),
        }
    }
}

/// The cell a stored optional integer stands for.
pub open spec fn int_cell(o: Option<i64>) -> CellV {
    match o {
        Some(x) => CellV::Int(x),
        None => CellV::Null,
    }
}

/// The cell a stored optional bit pattern stands for.
pub open spec fn float_cell(o: Option<u64>) -> CellV {
    match o {
        Some(x) => CellV::Float(x),
        None => CellV::Null,
    }
}

/// The cell a stored optional boolean stands for.
pub open spec fn bool_cell(o: Option<bool>) -> CellV {
    match o {
        Some(x) => CellV::Bool(x),
        None => CellV::Null,
    }
}

/// The cell a stored optional text stands for.
pub open spec fn str_cell(o: Option<String>) -> CellV {
    match o {
        Some(x) => CellV::Str(x@),
        None => CellV::Null,
    }
}

/// Column storage: one closed variant per column type.
#[derive(Clone, Debug)]
pub enum ColumnData {
    IntColumn(Vec<Option<i64>>),
    FloatColumn(Vec<Option<u64>>),
    BoolColumn(Vec<Option<bool>>),
    StringColumn(Vec<Option<String>>),
}

impl ColumnData {
    /// The type of the values this storage holds.
    pub open spec fn typ(&self) -> ColType {
        match self {
            ColumnData::IntColumn(_) => ColType::Int,
            ColumnData::FloatColumn(_) => ColType::Float,
            ColumnData::BoolColumn(_) => ColType::Bool,
            ColumnData::StringColumn(_) => ColType::Str,
        }
    }

    /// The stored cells, as mathematical values.
    pub open spec fn cells(&self) -> Seq<CellV> {
        match self {
            ColumnData::IntColumn(v) => v@.map_values(|o: Option<i64>| int_cell(o)),
            ColumnData::FloatColumn(v) => v@.map_values(|o: Option<u64>| float_cell(o)),
            ColumnData::BoolColumn(v) => v@.map_values(|o: Option<bool>| bool_cell(o)),
            ColumnData::StringColumn(v) => v@.map_values(|o: Option<String>| str_cell(o)),
        }
    }

    /// An empty storage of the given type.
    pub fn new_empty(t: ColType) -> (r: ColumnData)
        ensures
            r.typ() == t,
            r.cells() =~= Seq::<CellV>::empty(),
    {
        match t {
            ColType::Int => ColumnData::IntColumn(Vec::new()),
            ColType::Float => ColumnData::FloatColumn(Vec::new()),
            ColType::Bool => ColumnData::BoolColumn(Vec::new()),
            ColType::Str => ColumnData::StringColumn(Vec::new()),
        }
    }

    /// The number of stored cells.
    pub fn length(&self) -> (n: usize)
        ensures
            n == self.cells().len(),
    {
        match self {
            ColumnData::IntColumn(v) => v.len(),
            ColumnData::FloatColumn(v) => v.len(),
            ColumnData::BoolColumn(v) => v.len(),
            ColumnData::StringColumn(v) => v.len(),
        }
    }

    /// A copy of the cell at the given row.
    pub fn cell(&self, i: usize) -> (c: Cell)
        requires
            i < self.cells().len(),
        ensures
            c@ == self.cells()[i as int],
    {
        match self {
            ColumnData::IntColumn(v) => match &v[i] {
                Some(x) => Cell::Int(*x),
                None => Cell::Null,
            },
            ColumnData::FloatColumn(v) => match &v[i] {
                Some(x) => Cell::Float(*x),
                None => Cell::Null,
            },
            ColumnData::BoolColumn(v) => match &v[i] {
                Some(x) => Cell::Bool(*x),
                None => Cell::Null,
            },
            ColumnData::StringColumn(v) => match &v[i] {
                Some(x) => Cell::Str(x.clone()),
                None => Cell::Null,
            },
        }
    }

    /// Appends a cell of the storage's own type (or a null).
    pub fn push_cell(&mut self, c: Cell)
        requires
            c@ is Null || cell_type_of(c@) == old(self).typ(),
        ensures
            final(self).typ() == old(self).typ(),
            final(self).cells() =~= old(self).cells().push(c@),
    {
        match self {
            ColumnData::IntColumn(v) => match c {
                Cell::Int(x) => v.push(Some(x)),
                _ => v.push(None),
            },
            ColumnData::FloatColumn(v) => match c {
                Cell::Float(x) => v.push(Some(x)),
                _ => v.push(None),
            },
            ColumnData::BoolColumn(v) => match c {
                Cell::Bool(x) => v.push(Some(x)),
                _ => v.push(None),
            },
            ColumnData::StringColumn(v) => match c {
                Cell::Str(x) => v.push(Some(x)),
                _ => v.push(None),
            },
        }
    }
}

impl ColumnData {
    /// The cells at the given rows, in the given order.
    pub fn project_rows(&self, idxs: &Vec<usize>) -> (r: ColumnData)
        requires
            forall|k: int| 0 <= k < idxs@.len() ==> idxs@[k] < self.cells().len(),
        ensures
            r.typ() == self.typ(),
            r.cells() =~= idxs@.map_values(|i: usize| self.cells()[i as int]),
    {
        let mut out = ColumnData::new_empty(self.typ_of());
        let mut k: usize = 0;
        while k < idxs.len()
            invariant
                k <= idxs@.len(),
                forall|j: int| 0 <= j < idxs@.len() ==> idxs@[j] < self.cells().len(),
                out.typ() == self.typ(),
                out.cells() =~= idxs@.subrange(0, k as int).map_values(
                    |i: usize| self.cells()[i as int],
                ),
            decreases idxs@.len() - k,
        {
            let c = self.cell(idxs[k]);
            proof {
                if !(c@ is Null) {
                    assert(cell_type_of(c@) == self.typ()) by {
                        lemma_cells_typed(*self, idxs@[k as int] as int);
                    }
                }
                assert(idxs@.subrange(0, k as int + 1).map_values(
                    |i: usize| self.cells()[i as int],
                ) =~= idxs@.subrange(0, k as int).map_values(
                    |i: usize| self.cells()[i as int],
                ).push(self.cells()[idxs@[k as int] as int]));
            }
            out.push_cell(c);
            k = k + 1;
        }
        proof {
            assert(idxs@.subrange(0, idxs@.len() as int) =~= idxs@);
        }
        out
    }

    /// The type of the values this storage holds.
    pub fn typ_of(&self) -> (t: ColType)
        ensures
            t == self.typ(),
    {
        match self {
            ColumnData::IntColumn(_) => ColType::Int,
            ColumnData::FloatColumn(_) => ColType::Float,
            ColumnData::BoolColumn(_) => ColType::Bool,
            ColumnData::StringColumn(_) => ColType::Str,
        }
    }
}

/// Every stored cell is a null or a value of the storage's own type.
pub proof fn lemma_cells_typed(d: ColumnData, i: int)
    requires
        0 <= i < d.cells().len(),
    ensures
        d.cells()[i] is Null || cell_type_of(d.cells()[i]) == d.typ(),
{
}

/// A column built from typed storage is well-typed.
pub proof fn lemma_column_typed(c: Column)
    ensures
        col_typed(c@),
{
    assert forall|k: int|
        0 <= k < c@.cells.len() implies ((#[trigger] c@.cells[k]) is Null || cell_type_of(
        c@.cells[k],
    ) == c@.typ) by {
        lemma_cells_typed(c.data, k);
    }
}

/// An element-for-element copy of a vector of copyable values.
fn copy_vec<T: Copy>(v: &Vec<T>) -> (r: Vec<T>)
    ensures
        r@ == v@,
{
    let mut r: Vec<T> = Vec::new();
    let mut i: usize = 0;
    while i < v.len()
        invariant
            i <= v@.len(),
            r@ =~= v@.subrange(0, i as int),
        decreases v@.len() - i,
    {
        r.push(v[i]);
        proof {
            assert(r@ =~= v@.subrange(0, i + 1));
        }
        i = i + 1;
    }
    proof {
        assert(r@ =~= v@);
    }
    r
}

impl ColumnData {
    /// A copy of the storage, cell for cell.
    pub fn duplicate(&self) -> (r: ColumnData)
        ensures
            r.typ() == self.typ(),
            r.cells() == self.cells(),
    {
        match self {
            ColumnData::IntColumn(v) => ColumnData::IntColumn(copy_vec(v)),
            ColumnData::FloatColumn(v) => ColumnData::FloatColumn(copy_vec(v)),
            ColumnData::BoolColumn(v) => ColumnData::BoolColumn(copy_vec(v)),
            ColumnData::StringColumn(v) => {
                let mut r: Vec<Option<String>> = Vec::new();
                let mut i: usize = 0;
                while i < v.len()
                    invariant
                        i <= v@.len(),
                        r@.len() == i,
                        forall|j: int| 0 <= j < i ==> str_cell(#[trigger] r@[j]) == str_cell(
                            v@[j],
                        ),
                    decreases v@.len() - i,
                {
                    match &v[i] {
                        Some(s) => r.push(Some(s.clone())),
                        None => r.push(None),
                    }
                    i = i + 1;
                }
                let out = ColumnData::StringColumn(r);
                proof {
                    assert(out.cells() =~= self.cells());
                }
                out
            },
        }
    }
}

impl Column {
    /// A copy of the column, name and cells alike.
    pub fn duplicate(&self) -> (r: Column)
        ensures
            r@ == self@,
    {
        Column { name: self.name.clone(), data: self.data.duplicate() }
    }
}

impl Table {
    /// A copy of the table, column for column.
    pub fn duplicate(&self) -> (r: Table)
        ensures
            r@ == self@,
    {
        let mut cols: Vec<Column> = Vec::new();
        let mut i: usize = 0;
        while i < self.columns.len()
            invariant
                i <= self.columns@.len(),
                cols@.len() == i,
                forall|j: int| 0 <= j < i ==> (#[trigger] cols@[j])@ == self.columns@[j]@,
            decreases self.columns@.len() - i,
        {
            cols.push(self.columns[i].duplicate());
            i = i + 1;
        }
        let r = Table { columns: cols, row_count: self.row_count };
        proof {
            assert(r@.cols =~= self@.cols);
            assert(r@ == self@);
        }
        r
    }
}

/// Whether two cells hold the same value (nulls equal nulls; floats
/// compare by bit pattern).
pub fn cell_eq(a: &Cell, b: &Cell) -> (r: bool)
    ensures
        r == (a@ == b@),
{
    match (a, b) {
        (Cell::Null, Cell::Null) => true,
        (Cell::Int(x), Cell::Int(y)) => x == y,
        (Cell::Float(x), Cell::Float(y)) => x == y,
        (Cell::Bool(x), Cell::Bool(y)) => x == y,
        (Cell::Str(x), Cell::Str(y)) => *x == *y,
        _ => {
            proof {
                assert(a@ != b@);
            }
            false
        },
    }
}

/// The type a non-null cell value belongs to (nulls belong to none).
pub open spec fn cell_type_of(c: CellV) -> ColType
    recommends
        !(c is Null),
{
    match c {
        CellV::Int(_) => ColType::Int,
        CellV::Float(_) => ColType::Float,
        CellV::Bool(_) => ColType::Bool,
        CellV::Str(_) => ColType::Str,
        CellV::Null => ColType::Int,
    }
}

/// A named column.
#[derive(Clone, Debug)]
pub struct Column {
    pub name: String,
    pub data: ColumnData,
}

/// The mathematical value of a column.
pub struct ColumnV {
    pub name: Seq<char>,
    pub typ: ColType,
    pub cells: Seq<CellV>,
}

/// Every cell of the column is a null or a value of the column's type.
pub open spec fn col_typed(c: ColumnV) -> bool {
    forall|k: int|
        0 <= k < c.cells.len() ==> ((#[trigger] c.cells[k]) is Null || cell_type_of(c.cells[k])
            == c.typ)
}

impl View for Column {
    type V = ColumnV;

    open spec fn view(&self) -> ColumnV {
        ColumnV { name: self.name@, typ: self.data.typ(), cells: self.data.cells() }
    }
}

/// An immutable columnar table.
#[derive(Clone, Debug)]
pub struct Table {
    pub columns: Vec<Column>,
    pub row_count: usize,
}

/// The mathematical value of a table.
pub struct TableV {
    pub cols: Seq<ColumnV>,
    pub nrows: int,
}

impl View for Table {
    type V = TableV;

    open spec fn view(&self) -> TableV {
        TableV { cols: self.columns@.map_values(|c: Column| c@), nrows: self.row_count as int }
    }
}

impl TableV {
    /// Every column holds one cell per row of the column's own type,
    /// and names are unique.
    pub open spec fn wf(self) -> bool {
        &&& forall|i: int|
            0 <= i < self.cols.len() ==> (#[trigger] self.cols[i]).cells.len() == self.nrows
        &&& forall|i: int, j: int|
            0 <= i < j < self.cols.len() ==> (#[trigger] self.cols[i]).name != (
            #[trigger] self.cols[j]).name
        &&& forall|i: int| 0 <= i < self.cols.len() ==> col_typed(#[trigger] self.cols[i])
        &&& 0 <= self.nrows
    }

    /// Whether some column bears the given name.
    pub open spec fn has_col(self, name: Seq<char>) -> bool {
        exists|i: int| 0 <= i < self.cols.len() && (#[trigger] self.cols[i]).name == name
    }

    /// The index of the column bearing the given name.
    pub open spec fn col_index(self, name: Seq<char>) -> int {
        choose|i: int| 0 <= i < self.cols.len() && (#[trigger] self.cols[i]).name == name
    }

    /// The column bearing the given name.
    pub open spec fn col(self, name: Seq<char>) -> ColumnV {
        self.cols[self.col_index(name)]
    }
}

/// A column restricted to the given rows, in the given order.
pub open spec fn col_take(c: ColumnV, idxs: Seq<int>) -> ColumnV {
    ColumnV { name: c.name, typ: c.typ, cells: idxs.map_values(|i: int| c.cells[i]) }
}

/// A table restricted to the given rows, in the given order (repeats
/// allowed): every column is restricted alike.
pub open spec fn table_take(t: TableV, idxs: Seq<int>) -> TableV {
    TableV { cols: t.cols.map_values(|c: ColumnV| col_take(c, idxs)), nrows: idxs.len() as int }
}

impl Table {
    /// The table restricted to the given rows, in the given order.
    pub fn take_rows(&self, idxs: &Vec<usize>) -> (r: Table)
        requires
            self@.wf(),
            forall|k: int| 0 <= k < idxs@.len() ==> idxs@[k] < self@.nrows,
        ensures
            r@ == table_take(self@, idxs@.map_values(|i: usize| i as int)),
            r@.wf(),
    {
        let ghost gidxs = idxs@.map_values(|i: usize| i as int);
        let mut cols: Vec<Column> = Vec::new();
        let mut c: usize = 0;
        while c < self.columns.len()
            invariant
                c <= self@.cols.len(),
                self@.wf(),
                gidxs == idxs@.map_values(|i: usize| i as int),
                forall|k: int| 0 <= k < idxs@.len() ==> idxs@[k] < self@.nrows,
                cols@.len() == c,
                forall|k: int|
                    0 <= k < c ==> (#[trigger] cols@[k])@ == col_take(self@.cols[k], gidxs),
            decreases self@.cols.len() - c,
        {
            let col = &self.columns[c];
            proof {
                assert(col@.cells.len() == self@.nrows);
            }
            let data = col.data.project_rows(idxs);
            let newcol = Column { name: col.name.clone(), data };
            proof {
                assert(newcol@ == col_take(self@.cols[c as int], gidxs)) by {
                    assert(newcol@.cells =~= col_take(self@.cols[c as int], gidxs).cells);
                }
            }
            cols.push(newcol);
            c = c + 1;
        }
        let r = Table { columns: cols, row_count: idxs.len() };
        proof {
            assert(r@.cols =~= table_take(self@, gidxs).cols);
            assert(r@ == table_take(self@, gidxs));
            assert forall|i: int, j: int| 0 <= i < j < r@.cols.len() implies (
            #[trigger] r@.cols[i]).name != (#[trigger] r@.cols[j]).name by {
                assert(r@.cols[i].name == self@.cols[i].name);
                assert(r@.cols[j].name == self@.cols[j].name);
            }
        }
        r
    }

    /// How many rows the table has.
    pub fn rows(&self) -> (n: usize)
        ensures
            n == self@.nrows,
    {
        self.row_count
    }

    /// The index of the column bearing the given name, if any.
    pub fn find_column(&self, name: &String) -> (r: Option<usize>)
        ensures
            match r {
                Some(i) => i < self@.cols.len() && self@.cols[i as int].name == name@
                    && self@.has_col(name@) && (self@.wf() ==> i == self@.col_index(name@)),
                None => !self@.has_col(name@),
            },
    {
        let mut i: usize = 0;
        while i < self.columns.len()
            invariant
                i <= self.columns.len(),
                forall|j: int| 0 <= j < i ==> (#[trigger] self@.cols[j]).name != name@,
            decreases self.columns.len() - i,
        {
            if self.columns[i].name == *name {
                proof {
                    assert(self@.cols[i as int].name == name@);
                    assert(self@.has_col(name@));
                    if self@.wf() {
                        let k = self@.col_index(name@);
                        assert(0 <= k < self@.cols.len() && self@.cols[k].name == name@);
                        if k < i as int {
                            assert(self@.cols[k].name != self@.cols[i as int].name);
                        } else if (i as int) < k {
                            assert(self@.cols[i as int].name != self@.cols[k].name);
                        }
                    }
                }
                return Some(i);
            }
            i = i + 1;
        }
        None
    }
}

} // verus!
