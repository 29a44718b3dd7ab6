//! The operation pipeline executor: each operation consumes a table
//! and produces a new one; the first failure aborts the pipeline.

use vstd::prelude::*;

use crate::error::DoubledeckerError;
use crate::helpers::{
    build_filter_expr, eval_filter_cell, filter_type_ok, spec_matches, FilterExpr,
};
use crate::numeric::{
    add_bits, div_bits, f_is_zero, float_is_zero, float_of_int, int_to_float, mul_bits, sub_bits,
};
use crate::statics::{FilterOp, TransformOp};
use crate::table::{
    col_take, table_take, Cell, CellV, ColType, Column, ColumnData, ColumnV, Table, TableV,
};

verus! {

/// What applying one operation to a table yields: a new table, or one
/// of the engine's errors with its message.
pub enum OpOutcome {
    Table(TableV),
    ColumnNotFound(Seq<char>),
    TypeError(Seq<char>),
    InvalidQuery(Seq<char>),
    QueryExecution(Seq<char>),
}

/// Whether an error value carries exactly the outcome's kind and message.
pub open spec fn err_of(o: OpOutcome, e: DoubledeckerError) -> bool {
    match o {
        OpOutcome::ColumnNotFound(m) => e matches DoubledeckerError::ColumnNotFound(s) && s@ == m,
        OpOutcome::TypeError(m) => e matches DoubledeckerError::TypeError(s) && s@ == m,
        OpOutcome::InvalidQuery(m) => e matches DoubledeckerError::InvalidQuery(s) && s@ == m,
        OpOutcome::QueryExecution(m) => e matches DoubledeckerError::QueryExecution(s) && s@ == m,
        OpOutcome::Table(_) => false,
    }
}

/// Whether an executable result is exactly what the outcome demands: the
/// promised table (well-formed), or the promised error.
pub open spec fn op_result_ok(o: OpOutcome, r: Result<Table, DoubledeckerError>) -> bool {
    match r {
        Result::Ok(t2) => o == OpOutcome::Table(t2@) && t2@.wf(),
        Result::Err(e) => err_of(o, e),
    }
}

/// The row indices below `n` that satisfy a predicate, ascending.
pub open spec fn sel_indices(n: int, pred: spec_fn(int) -> bool) -> Seq<int>
    decreases n,
{
    if n <= 0 {
        Seq::empty()
    } else if pred(n - 1) {
        sel_indices(n - 1, pred).push(n - 1)
    } else {
        sel_indices(n - 1, pred)
    }
}

/// Every selected index lies below the bound.
pub proof fn lemma_sel_indices_bounds(n: int, pred: spec_fn(int) -> bool)
    ensures
        forall|k: int|
            0 <= k < sel_indices(n, pred).len() ==> 0 <= #[trigger] sel_indices(n, pred)[k] < n,
    decreases n,
{
    if n > 0 {
        lemma_sel_indices_bounds(n - 1, pred);
        assert forall|k: int| 0 <= k < sel_indices(n, pred).len() implies 0 <= #[trigger] sel_indices(
            n,
            pred,
        )[k] < n by {
            if pred(n - 1) {
                if k < sel_indices(n - 1, pred).len() {
                    assert(sel_indices(n, pred)[k] == sel_indices(n - 1, pred)[k]);
                } else {
                    assert(sel_indices(n, pred)[k] == n - 1);
                }
            } else {
                assert(sel_indices(n, pred)[k] == sel_indices(n - 1, pred)[k]);
            }
        }
    }
}

/// The indices `0, 1, ..., n-1`.
pub open spec fn iota(n: int) -> Seq<int> {
    Seq::new(if n < 0 {
        0
    } else {
        n as nat
    }, |i: int| i)
}

/// The columns a projection picks, in order, or the first absent name.
pub open spec fn select_cols(t: TableV, columns: Seq<Seq<char>>) -> Result<Seq<ColumnV>, Seq<char>>
    decreases columns.len(),
{
    if columns.len() == 0 {
        Result::Ok(Seq::empty())
    } else {
        match select_cols(t, columns.drop_last()) {
            Result::Ok(cs) => if t.has_col(columns.last()) {
                Result::Ok(cs.push(t.col(columns.last())))
            } else {
                Result::Err(columns.last())
            },
            Result::Err(e) => Result::Err(e),
        }
    }
}

/// Whether a list of names holds no repeats.
pub open spec fn names_unique(names: Seq<Seq<char>>) -> bool {
    forall|i: int, j: int| 0 <= i < j < names.len() ==> names[i] != names[j]
}

/// Projection onto the named columns, in the given order: the first
/// absent name fails the operation, and a repeated name is refused so
/// that the result keeps its names unique.
pub open spec fn select_spec(t: TableV, columns: Seq<Seq<char>>) -> OpOutcome {
    match select_cols(t, columns) {
        Result::Err(name) => OpOutcome::ColumnNotFound(name),
        Result::Ok(cs) => if !names_unique(columns) {
            OpOutcome::InvalidQuery("Select columns must be distinct"@)
        } else {
            OpOutcome::Table(TableV { cols: cs, nrows: t.nrows })
        },
    }
}

/// The per-row filter test of a column.
pub open spec fn filter_pred(col: ColumnV, op: FilterOp, value: Seq<char>) -> spec_fn(int) -> bool {
    |i: int| spec_matches(col.cells[i], op, value)
}

/// Filtering: rows whose cell in the named column passes the predicate
/// survive, in their original order.
pub open spec fn filter_spec(t: TableV, column: Seq<char>, op: FilterOp, value: Seq<char>) -> OpOutcome {
    if !t.has_col(column) {
        OpOutcome::ColumnNotFound(column)
    } else if !filter_type_ok(t.col(column).typ, op, value) {
        OpOutcome::TypeError(column)
    } else {
        OpOutcome::Table(table_take(t, sel_indices(t.nrows, filter_pred(t.col(column), op, value))))
    }
}

/// Limiting: the first `count` rows stay; a larger count keeps them all.
pub open spec fn limit_spec(t: TableV, count: int) -> OpOutcome {
    OpOutcome::Table(table_take(t, iota(if count < t.nrows {
        count
    } else {
        t.nrows
    })))
}

/// One elementwise arithmetic step on bit patterns.
pub open spec fn op_bits(top: TransformOp, a: u64, b: u64) -> u64 {
    match top {
        TransformOp::Multiply => mul_bits(a, b),
        TransformOp::Divide => div_bits(a, b),
        TransformOp::Add => add_bits(a, b),
        TransformOp::Subtract => sub_bits(a, b),
    }
}

/// One transformed cell: numbers are coerced to doubles and combined
/// with the scalar; a null stays null.
pub open spec fn transform_cell(c: CellV, top: TransformOp, value: u64) -> CellV {
    match c {
        CellV::Int(i) => CellV::Float(op_bits(top, float_of_int(i), value)),
        CellV::Float(b) => CellV::Float(op_bits(top, b, value)),
        _ => CellV::Null,
    }
}

/// The transform: elementwise arithmetic between a numeric column and a
/// scalar, stored under the alias — replacing a column of that name in
/// place, or appended.  Division by a zero scalar is refused outright,
/// so no row silently becomes infinite on that account.
pub open spec fn transform_spec(
    t: TableV,
    column: Seq<char>,
    top: TransformOp,
    value: u64,
    alias: Seq<char>,
) -> OpOutcome {
    if !t.has_col(column) {
        OpOutcome::ColumnNotFound(column)
    } else if !(t.col(column).typ is Int || t.col(column).typ is Float) {
        OpOutcome::TypeError(column)
    } else if top is Divide && f_is_zero(value) {
        OpOutcome::QueryExecution("division by zero"@)
    } else {
        let newcells = t.col(column).cells.map_values(|c: CellV| transform_cell(c, top, value));
        let newcol = ColumnV { name: alias, typ: ColType::Float, cells: newcells };
        if t.has_col(alias) {
            OpOutcome::Table(TableV { cols: t.cols.update(t.col_index(alias), newcol), nrows: t.nrows })
        } else {
            OpOutcome::Table(TableV { cols: t.cols.push(newcol), nrows: t.nrows })
        }
    }
}

/// Whether a list of column names holds no repeats.
pub(crate) fn all_distinct(names: &Vec<String>) -> (r: bool)
    ensures
        r == names_unique(names@.map_values(|s: String| s@)),
{
    let ghost vnames = names@.map_values(|s: String| s@);
    let mut i: usize = 0;
    while i < names.len()
        invariant
            i <= names@.len(),
            vnames == names@.map_values(|s: String| s@),
            forall|a: int, b: int| 0 <= a < b < names@.len() && a < i ==> vnames[a] != vnames[b],
        decreases names@.len() - i,
    {
        let mut j: usize = i + 1;
        while j < names.len()
            invariant
                i < j || j == i + 1,
                i < names@.len(),
                j <= names@.len(),
                i + 1 <= j,
                vnames == names@.map_values(|s: String| s@),
                forall|b: int| i < b < j ==> vnames[i as int] != vnames[b],
            decreases names@.len() - j,
        {
            if names[i] == names[j] {
                proof {
                    assert(vnames[i as int] == names@[i as int]@);
                    assert(vnames[j as int] == names@[j as int]@);
                    assert(!names_unique(vnames));
                }
                return false;
            }
            j = j + 1;
        }
        i = i + 1;
    }
    true
}

/// Projects onto the named columns, exactly as `select_spec` describes.
pub fn select_op(t: &Table, columns: &Vec<String>) -> (r: Result<Table, DoubledeckerError>)
    requires
        t@.wf(),
    ensures
        op_result_ok(select_spec(t@, columns@.map_values(|s: String| s@)), r),
{
    let ghost vcols = columns@.map_values(|s: String| s@);
    let mut out_cols: Vec<Column> = Vec::new();
    proof {
        assert(vcols.subrange(0, 0) =~= Seq::<Seq<char>>::empty());
        assert(out_cols@.map_values(|c: Column| c@) =~= Seq::<ColumnV>::empty());
    }
    let mut i: usize = 0;
    while i < columns.len()
        invariant
            i <= columns@.len(),
            t@.wf(),
            vcols == columns@.map_values(|s: String| s@),
            select_cols(t@, vcols.subrange(0, i as int)) == Result::<Seq<ColumnV>, Seq<char>>::Ok(
                out_cols@.map_values(|c: Column| c@),
            ),
        decreases columns@.len() - i,
    {
        proof {
            assert(vcols.subrange(0, i + 1).drop_last() =~= vcols.subrange(0, i as int));
            assert(vcols.subrange(0, i + 1).last() == vcols[i as int]);
        }
        match t.find_column(&columns[i]) {
            None => {
                proof {
                    lemma_select_cols_absent(t@, vcols, i as int);
                }
                return Result::Err(DoubledeckerError::ColumnNotFound(columns[i].clone()));
            },
            Some(ci) => {
                let dup = self_column(t, ci);
                proof {
                    assert(t@.col(vcols[i as int]) == t@.cols[t@.col_index(vcols[i as int])]);
                    assert(dup@ == t@.col(vcols[i as int]));
                }
                out_cols.push(dup);
                proof {
                    assert(out_cols@.map_values(|c: Column| c@) =~= select_cols(
                        t@,
                        vcols.subrange(0, i + 1),
                    )->Ok_0);
                }
            },
        }
        i = i + 1;
    }
    proof {
        assert(vcols.subrange(0, vcols.len() as int) =~= vcols);
    }
    if !all_distinct(columns) {
        return Result::Err(
            DoubledeckerError::InvalidQuery(("Select columns must be distinct").to_owned()),
        );
    }
    let r = Table { columns: out_cols, row_count: t.row_count };
    proof {
        let cs = select_cols(t@, vcols)->Ok_0;
        assert(r@.cols == cs);
        lemma_select_cols_shape(t@, vcols);
        assert forall|a: int, b: int| 0 <= a < b < r@.cols.len() implies (
        #[trigger] r@.cols[a]).name != (#[trigger] r@.cols[b]).name by {
            assert(cs[a].name == vcols[a]);
            assert(cs[b].name == vcols[b]);
        }
        assert(r@.wf());
    }
    Result::Ok(r)
}

/// A copy of one column of a table.
fn self_column(t: &Table, ci: usize) -> (r: Column)
    requires
        ci < t@.cols.len(),
    ensures
        r@ == t@.cols[ci as int],
{
    t.columns[ci].duplicate()
}

/// A projection that runs out of names keeps what it has; the step that
/// meets an absent name fails with it.
pub proof fn lemma_select_cols_absent(t: TableV, columns: Seq<Seq<char>>, i: int)
    requires
        0 <= i < columns.len(),
        select_cols(t, columns.subrange(0, i)) is Ok,
        !t.has_col(columns[i]),
    ensures
        select_cols(t, columns) == Result::<Seq<ColumnV>, Seq<char>>::Err(columns[i]),
    decreases columns.len() - i,
{
    if i + 1 == columns.len() {
        assert(columns.subrange(0, i) =~= columns.drop_last());
        assert(columns.last() == columns[i]);
    } else {
        assert(columns.drop_last().subrange(0, i) =~= columns.subrange(0, i));
        lemma_select_cols_absent(t, columns.drop_last(), i);
    }
}

/// A successful projection returns one column per requested name, each
/// bearing that name, with the table's own cells.
pub proof fn lemma_select_cols_shape(t: TableV, columns: Seq<Seq<char>>)
    requires
        t.wf(),
        select_cols(t, columns) is Ok,
    ensures
        select_cols(t, columns)->Ok_0.len() == columns.len(),
        forall|k: int|
            0 <= k < columns.len() ==> (#[trigger] select_cols(t, columns)->Ok_0[k]) == t.col(
                columns[k],
            ) && t.has_col(columns[k]),
        forall|k: int|
            0 <= k < columns.len() ==> (#[trigger] select_cols(t, columns)->Ok_0[k]).name
                == columns[k],
    decreases columns.len(),
{
    if columns.len() > 0 {
        lemma_select_cols_shape(t, columns.drop_last());
        assert forall|k: int| 0 <= k < columns.len() implies (#[trigger] select_cols(
            t,
            columns,
        )->Ok_0[k]) == t.col(columns[k]) && t.has_col(columns[k]) by {
            if k < columns.len() - 1 {
                assert(columns.drop_last()[k] == columns[k]);
                assert(select_cols(t, columns)->Ok_0[k] == select_cols(
                    t,
                    columns.drop_last(),
                )->Ok_0[k]);
            } else {
                let ci = t.col_index(columns[k]);
                assert(0 <= ci < t.cols.len() && t.cols[ci].name == columns[k]);
            }
        }
        assert forall|k: int| 0 <= k < columns.len() implies (#[trigger] select_cols(
            t,
            columns,
        )->Ok_0[k]).name == columns[k] by {
            let ci = t.col_index(columns[k]);
            assert(0 <= ci < t.cols.len() && t.cols[ci].name == columns[k]);
        }
    }
}

/// Filters rows, exactly as `filter_spec` describes.
pub fn filter_op(t: &Table, column: &String, operator: FilterOp, value: &String) -> (r: Result<
    Table,
    DoubledeckerError,
>)
    requires
        t@.wf(),
    ensures
        op_result_ok(filter_spec(t@, column@, operator, value@), r),
{
    let ci = match t.find_column(column) {
        None => {
            return Result::Err(DoubledeckerError::ColumnNotFound(column.clone()));
        },
        Some(ci) => ci,
    };
    let expr = build_filter_expr(column.as_str(), operator, value.as_str());
    let typ = t.columns[ci].data.typ_of();
    let type_ok = if matches!(operator, FilterOp::Contains) {
        matches!(typ, ColType::Str)
    } else if expr.num.is_some() {
        matches!(typ, ColType::Int) || matches!(typ, ColType::Float) || matches!(typ, ColType::Str)
    } else {
        matches!(typ, ColType::Str)
    };
    proof {
        assert(t@.cols[ci as int] == t@.col(column@));
        assert(type_ok == filter_type_ok(t@.col(column@).typ, operator, value@));
    }
    if !type_ok {
        return Result::Err(DoubledeckerError::TypeError(column.clone()));
    }
    let vchars = crate::text::str_to_chars(value.as_str());
    let ghost pred = filter_pred(t@.col(column@), operator, value@);
    let mut idxs: Vec<usize> = Vec::new();
    let n = t.rows();
    let mut i: usize = 0;
    while i < n
        invariant
            i <= n,
            n == t@.nrows,
            t@.wf(),
            ci < t@.cols.len(),
            t@.cols[ci as int] == t@.col(column@),
            expr.wf(),
            expr.op == operator,
            expr.value@ == value@,
            vchars@ == value@,
            pred == filter_pred(t@.col(column@), operator, value@),
            idxs@.len() == sel_indices(i as int, pred).len(),
            forall|k: int|
                0 <= k < idxs@.len() ==> #[trigger] idxs@[k] as int == sel_indices(
                    i as int,
                    pred,
                )[k] && idxs@[k] < t@.nrows,
        decreases n - i,
    {
        let c = t.columns[ci].data.cell(i);
        let ghost prev = idxs@;
        if eval_filter_cell(&c, &expr, &vchars) {
            proof {
                assert(pred(i as int));
                assert(sel_indices(i + 1, pred) == sel_indices(i as int, pred).push(i as int));
            }
            idxs.push(i);
        } else {
            proof {
                assert(!pred(i as int));
                assert(sel_indices(i + 1, pred) == sel_indices(i as int, pred));
            }
        }
        i = i + 1;
    }
    let out = t.take_rows(&idxs);
    proof {
        assert(idxs@.map_values(|u: usize| u as int) =~= sel_indices(t@.nrows, pred));
        assert(out@ == table_take(t@, sel_indices(t@.nrows, pred)));
    }
    Result::Ok(out)
}

/// Keeps the first `count` rows, exactly as `limit_spec` describes.
pub fn limit_op(t: &Table, count: usize) -> (r: Result<Table, DoubledeckerError>)
    requires
        t@.wf(),
    ensures
        op_result_ok(limit_spec(t@, count as int), r),
        r is Ok,
{
    let m = if count < t.row_count {
        count
    } else {
        t.row_count
    };
    let mut idxs: Vec<usize> = Vec::new();
    let mut i: usize = 0;
    while i < m
        invariant
            i <= m,
            m <= t@.nrows,
            idxs@.len() == i,
            forall|k: int| 0 <= k < i ==> #[trigger] idxs@[k] == k,
        decreases m - i,
    {
        idxs.push(i);
        i = i + 1;
    }
    let out = t.take_rows(&idxs);
    proof {
        assert(idxs@.map_values(|u: usize| u as int) =~= iota(m as int));
        assert(out@ == table_take(t@, iota(m as int)));
    }
    Result::Ok(out)
}

/// One elementwise arithmetic step, exactly as `op_bits` names it.
fn op_exec(top: TransformOp, a: u64, b: u64) -> (r: u64)
    ensures
        r == op_bits(top, a, b),
{
    match top {
        TransformOp::Multiply => crate::numeric::float_mul(a, b),
        TransformOp::Divide => crate::numeric::float_div(a, b),
        TransformOp::Add => crate::numeric::float_add(a, b),
        TransformOp::Subtract => crate::numeric::float_sub(a, b),
    }
}

/// Applies a transform, exactly as `transform_spec` describes.
pub fn transform_op(
    t: &Table,
    column: &String,
    operation: TransformOp,
    value: u64,
    alias: &String,
) -> (r: Result<Table, DoubledeckerError>)
    requires
        t@.wf(),
    ensures
        op_result_ok(transform_spec(t@, column@, operation, value, alias@), r),
{
    let ci = match t.find_column(column) {
        None => {
            return Result::Err(DoubledeckerError::ColumnNotFound(column.clone()));
        },
        Some(ci) => ci,
    };
    proof {
        assert(t@.cols[ci as int] == t@.col(column@));
    }
    let src = &t.columns[ci].data;
    let numeric = matches!(src.typ_of(), ColType::Int) || matches!(src.typ_of(), ColType::Float);
    if !numeric {
        return Result::Err(DoubledeckerError::TypeError(column.clone()));
    }
    if matches!(operation, TransformOp::Divide) && float_is_zero(value) {
        return Result::Err(DoubledeckerError::QueryExecution(("division by zero").to_owned()));
    }
    let n = t.rows();
    let mut newdata: Vec<Option<u64>> = Vec::new();
    let mut i: usize = 0;
    while i < n
        invariant
            i <= n,
            n == t@.nrows,
            t@.wf(),
            ci < t@.cols.len(),
            t@.cols[ci as int] == t@.col(column@),
            src == &t.columns@[ci as int].data,
            newdata@.len() == i,
            forall|k: int|
                0 <= k < i ==> crate::table::float_cell(#[trigger] newdata@[k]) == transform_cell(
                    t@.col(column@).cells[k],
                    operation,
                    value,
                ),
        decreases n - i,
    {
        let c = src.cell(i);
        let out: Option<u64> = match c {
            Cell::Int(x) => Some(op_exec(operation, int_to_float(x), value)),
            Cell::Float(b) => Some(op_exec(operation, b, value)),
            _ => None,
        };
        proof {
            if c@ is Bool || c@ is Str {
                assert(transform_cell(c@, operation, value) == CellV::Null);
            }
        }
        newdata.push(out);
        i = i + 1;
    }
    let newcol = Column { name: alias.clone(), data: ColumnData::FloatColumn(newdata) };
    let ghost newcolv = ColumnV {
        name: alias@,
        typ: ColType::Float,
        cells: t@.col(column@).cells.map_values(|c: CellV| transform_cell(c, operation, value)),
    };
    proof {
        assert(newcol@.cells =~= newcolv.cells);
        assert(newcol@ == newcolv);
    }
    let mut cols: Vec<Column> = Vec::new();
    match t.find_column(alias) {
        Some(ai) => {
            let mut k: usize = 0;
            while k < t.columns.len()
                invariant
                    k <= t@.cols.len(),
                    ai < t@.cols.len(),
                    newcol@ == newcolv,
                    cols@.len() == k,
                    forall|j: int|
                        0 <= j < k ==> (#[trigger] cols@[j])@ == (if j == ai as int {
                            newcolv
                        } else {
                            t@.cols[j]
                        }),
                decreases t@.cols.len() - k,
            {
                if k == ai {
                    cols.push(Column { name: newcol.name.clone(), data: newcol.data.duplicate() });
                } else {
                    cols.push(t.columns[k].duplicate());
                }
                k = k + 1;
            }
            let r = Table { columns: cols, row_count: t.row_count };
            proof {
                assert(r@.cols =~= t@.cols.update(t@.col_index(alias@), newcolv));
                assert(r@.wf()) by {
                    assert(t@.cols[ai as int].name == alias@);
                    assert forall|a: int, b: int| 0 <= a < b < r@.cols.len() implies (
                    #[trigger] r@.cols[a]).name != (#[trigger] r@.cols[b]).name by {
                        assert(r@.cols[a].name == t@.cols[a].name);
                        assert(r@.cols[b].name == t@.cols[b].name);
                    }
                }
            }
            Result::Ok(r)
        },
        None => {
            let mut k: usize = 0;
            while k < t.columns.len()
                invariant
                    k <= t@.cols.len(),
                    cols@.len() == k,
                    forall|j: int| 0 <= j < k ==> (#[trigger] cols@[j])@ == t@.cols[j],
                decreases t@.cols.len() - k,
            {
                cols.push(t.columns[k].duplicate());
                k = k + 1;
            }
            cols.push(newcol);
            let r = Table { columns: cols, row_count: t.row_count };
            proof {
                assert(r@.cols =~= t@.cols.push(newcolv));
                assert(r@.wf()) by {
                    assert(!t@.has_col(alias@));
                    assert forall|a: int, b: int| 0 <= a < b < r@.cols.len() implies (
                    #[trigger] r@.cols[a]).name != (#[trigger] r@.cols[b]).name by {
                        if b < t@.cols.len() {
                            assert(r@.cols[a].name == t@.cols[a].name);
                            assert(r@.cols[b].name == t@.cols[b].name);
                        } else {
                            assert(r@.cols[b].name == alias@);
                            assert(r@.cols[a].name == t@.cols[a].name);
                        }
                    }
                }
            }
            Result::Ok(r)
        },
    }
}

/// One operation, applied: the semantics of the whole operation set.
pub open spec fn apply_spec(t: TableV, op: crate::statics::OperationV) -> OpOutcome {
    match op {
        crate::statics::OperationV::Select { columns } => select_spec(t, columns),
        crate::statics::OperationV::Filter { column, operator, value } => filter_spec(
            t,
            column,
            operator,
            value,
        ),
        crate::statics::OperationV::GroupBy { columns, aggregations } => crate::groupby::group_by_spec(
            t,
            columns,
            aggregations,
        ),
        crate::statics::OperationV::Sort { column, ascending } => crate::sort::sort_spec(
            t,
            column,
            ascending,
        ),
        crate::statics::OperationV::Limit { count } => limit_spec(t, count),
        crate::statics::OperationV::Transform { column, operation, value, alias } => transform_spec(
            t,
            column,
            operation,
            value,
            alias,
        ),
    }
}

/// Applies one operation to a table, exactly as `apply_spec` describes.
pub fn apply_operation(t: &Table, op: &crate::statics::Operations) -> (r: Result<
    Table,
    DoubledeckerError,
>)
    requires
        t@.wf(),
    ensures
        op_result_ok(apply_spec(t@, op@), r),
{
    match op {
        crate::statics::Operations::Select { columns } => select_op(t, columns),
        crate::statics::Operations::Filter { column, operator, value } => filter_op(
            t,
            column,
            *operator,
            value,
        ),
        crate::statics::Operations::GroupBy { columns, aggregations } => crate::groupby::group_by_op(
            t,
            columns,
            aggregations,
        ),
        crate::statics::Operations::Sort { column, ascending } => crate::sort::sort_op(
            t,
            column,
            *ascending,
        ),
        crate::statics::Operations::Limit { count } => limit_op(t, *count),
        crate::statics::Operations::Transform { column, operation, value, alias } => transform_op(
            t,
            column,
            *operation,
            *value,
            alias,
        ),
    }
}

/// What a whole pipeline yields: the final table, or the index of the
/// first failing operation with its error.
pub enum PipeOutcome {
    Done(TableV),
    Failed(int, OpOutcome),
}

/// A pipeline outcome with its failure index moved by an offset.
pub open spec fn pipe_shift(p: PipeOutcome, i: int) -> PipeOutcome {
    match p {
        PipeOutcome::Done(t) => PipeOutcome::Done(t),
        PipeOutcome::Failed(k, e) => PipeOutcome::Failed(k + i, e),
    }
}

/// The pipeline semantics: operations apply strictly in order, each to
/// the previous result; the first failure aborts the rest.
pub open spec fn execute_spec(t: TableV, ops: Seq<crate::statics::OperationV>) -> PipeOutcome
    decreases ops.len(),
{
    if ops.len() == 0 {
        PipeOutcome::Done(t)
    } else {
        match apply_spec(t, ops[0]) {
            OpOutcome::Table(t2) => pipe_shift(execute_spec(t2, ops.drop_first()), 1),
            o => PipeOutcome::Failed(0, o),
        }
    }
}

/// The first failing operation's error, with its position in the list.
#[derive(Debug)]
pub struct PipelineError {
    pub index: usize,
    pub error: DoubledeckerError,
}

/// Runs a pipeline over a table, exactly as `execute_spec` describes:
/// the result of each operation is the sole input of the next, and the
/// first failure aborts the whole call with that operation's error and
/// its index.
pub fn execute_operations(t: &Table, operations: &Vec<crate::statics::Operations>) -> (r: Result<
    Table,
    PipelineError,
>)
    requires
        t@.wf(),
    ensures
        match r {
            Result::Ok(t2) => execute_spec(
                t@,
                operations@.map_values(|o: crate::statics::Operations| o@),
            ) == PipeOutcome::Done(t2@) && t2@.wf(),
            Result::Err(pe) => {
                let p = execute_spec(
                    t@,
                    operations@.map_values(|o: crate::statics::Operations| o@),
                );
                &&& p is Failed
                &&& p->Failed_0 == pe.index as int
                &&& err_of(p->Failed_1, pe.error)
            },
        },
{
    let ghost opsv = operations@.map_values(|o: crate::statics::Operations| o@);
    let mut cur: Table = t.duplicate();
    let mut i: usize = 0;
    proof {
        assert(opsv.skip(0) =~= opsv);
    }
    while i < operations.len()
        invariant
            i <= operations@.len(),
            opsv == operations@.map_values(|o: crate::statics::Operations| o@),
            cur@.wf(),
            execute_spec(t@, opsv) == pipe_shift(execute_spec(cur@, opsv.skip(i as int)), i as int),
        decreases operations@.len() - i,
    {
        proof {
            assert(opsv.skip(i as int)[0] == opsv[i as int]);
            assert(opsv.skip(i as int).drop_first() =~= opsv.skip(i + 1));
        }
        match apply_operation(&cur, &operations[i]) {
            Result::Ok(next) => {
                proof {
                    assert(apply_spec(cur@, opsv[i as int]) == OpOutcome::Table(next@));
                    assert(execute_spec(cur@, opsv.skip(i as int)) == pipe_shift(
                        execute_spec(next@, opsv.skip(i + 1)),
                        1,
                    ));
                }
                cur = next;
            },
            Result::Err(e) => {
                proof {
                    assert(execute_spec(cur@, opsv.skip(i as int)) == PipeOutcome::Failed(
                        0,
                        apply_spec(cur@, opsv[i as int]),
                    ));
                }
                return Result::Err(PipelineError { index: i, error: e });
            },
        }
        i = i + 1;
    }
    proof {
        assert(opsv.skip(opsv.len() as int) =~= Seq::<crate::statics::OperationV>::empty());
    }
    Result::Ok(cur)
}

} // verus!
