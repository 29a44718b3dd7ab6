//! Grouping and aggregation: rows are partitioned by the tuple of
//! values in the group columns, one output row per distinct key in
//! first-occurrence order, with one output column per aggregation.

use vstd::prelude::*;

use crate::error::DoubledeckerError;
use crate::executor::{op_result_ok, select_cols, sel_indices, names_unique, OpOutcome};
use crate::helpers::{agg_out_name, build_aggregation_expr, AggExpr};
use crate::numeric::{add_bits, div_bits, float_add, float_div, float_of_int, int_to_float};
use crate::sort::val_lt;
use crate::statics::{AggFunc, Aggregation, AggregationV};
use crate::table::{
    cell_eq, cell_type_of, col_typed, Cell, CellV, ColType, Column, ColumnData, Table, TableV,
};

verus! {

/// The grouping key of one row: its cells in the group columns, in
/// order.
pub open spec fn key_at(gcols: Seq<crate::table::ColumnV>, i: int) -> Seq<CellV> {
    gcols.map_values(|c: crate::table::ColumnV| c.cells[i])
}

/// The grouping keys of all rows.
pub open spec fn keys_of(gcols: Seq<crate::table::ColumnV>, n: int) -> Seq<Seq<CellV>> {
    Seq::new(
        if n < 0 {
            0
        } else {
            n as nat
        },
        |i: int| key_at(gcols, i),
    )
}

/// The distinct keys, each at its first occurrence's position.
pub open spec fn distinct_keys(keys: Seq<Seq<CellV>>) -> Seq<Seq<CellV>>
    decreases keys.len(),
{
    if keys.len() == 0 {
        Seq::empty()
    } else {
        let rest = distinct_keys(keys.drop_last());
        if rest.contains(keys.last()) {
            rest
        } else {
            rest.push(keys.last())
        }
    }
}

/// Distinct keys hold exactly the keys, without repeats.
pub proof fn lemma_distinct_keys(keys: Seq<Seq<CellV>>)
    ensures
        forall|v: Seq<CellV>| distinct_keys(keys).contains(v) <==> keys.contains(v),
        forall|p: int, q: int|
            0 <= p < q < distinct_keys(keys).len() ==> distinct_keys(keys)[p] != distinct_keys(
                keys,
            )[q],
    decreases keys.len(),
{
    let dk = distinct_keys(keys);
    if keys.len() > 0 {
        lemma_distinct_keys(keys.drop_last());
        let rest = distinct_keys(keys.drop_last());
        assert forall|v: Seq<CellV>| dk.contains(v) <==> keys.contains(v) by {
            if dk.contains(v) {
                let t = choose|t: int| 0 <= t < dk.len() && dk[t] == v;
                if t < rest.len() {
                    assert(rest[t] == dk[t]);
                    assert(rest.contains(v));
                    assert(keys.drop_last().contains(v));
                    let u = choose|u: int| 0 <= u < keys.len() - 1 && keys.drop_last()[u] == v;
                    assert(keys[u] == v);
                } else {
                    assert(v == keys.last());
                    assert(keys[keys.len() - 1] == v);
                }
            }
            if keys.contains(v) {
                let u = choose|u: int| 0 <= u < keys.len() && keys[u] == v;
                if u < keys.len() - 1 {
                    assert(keys.drop_last()[u] == v);
                    assert(keys.drop_last().contains(v));
                    assert(rest.contains(v));
                    let w = choose|w: int| 0 <= w < rest.len() && rest[w] == v;
                    if rest.contains(keys.last()) {
                        assert(dk[w] == v);
                    } else {
                        assert(dk[w] == v);
                    }
                } else {
                    if rest.contains(keys.last()) {
                        let w = choose|w: int| 0 <= w < rest.len() && rest[w] == keys.last();
                        assert(dk[w] == v);
                    } else {
                        assert(dk[dk.len() - 1] == v);
                    }
                }
            }
        }
        assert forall|p: int, q: int| 0 <= p < q < dk.len() implies dk[p] != dk[q] by {
            if q < rest.len() {
                assert(dk[p] == rest[p] && dk[q] == rest[q]);
            } else if !rest.contains(keys.last()) {
                assert(dk[q] == keys.last());
                assert(dk[p] == rest[p]);
                assert(rest.contains(rest[p]));
            }
        }
    }
}

/// The rows of one group: those whose key is the given one, ascending.
pub open spec fn group_rows(
    gcols: Seq<crate::table::ColumnV>,
    n: int,
    k: Seq<CellV>,
) -> Seq<int> {
    sel_indices(n, |i: int| key_at(gcols, i) == k)
}

/// The non-null cells at the given rows of a column, in row order.
pub open spec fn non_null_vals(cells: Seq<CellV>, idxs: Seq<int>) -> Seq<CellV>
    decreases idxs.len(),
{
    if idxs.len() == 0 {
        Seq::empty()
    } else {
        let rest = non_null_vals(cells, idxs.drop_last());
        if cells[idxs.last()] is Null {
            rest
        } else {
            rest.push(cells[idxs.last()])
        }
    }
}

/// Every gathered value is one of the column's cells.
pub proof fn lemma_non_null_vals(cells: Seq<CellV>, idxs: Seq<int>)
    requires
        forall|t: int| 0 <= t < idxs.len() ==> 0 <= #[trigger] idxs[t] < cells.len(),
    ensures
        forall|t: int|
            0 <= t < non_null_vals(cells, idxs).len() ==> cells.contains(
                #[trigger] non_null_vals(cells, idxs)[t],
            ) && !(non_null_vals(cells, idxs)[t] is Null),
    decreases idxs.len(),
{
    if idxs.len() > 0 {
        assert forall|t: int| 0 <= t < idxs.len() - 1 implies 0 <= #[trigger] idxs.drop_last()[t]
            < cells.len() by {
            assert(idxs.drop_last()[t] == idxs[t]);
        }
        lemma_non_null_vals(cells, idxs.drop_last());
        let r = non_null_vals(cells, idxs);
        let rest = non_null_vals(cells, idxs.drop_last());
        assert forall|t: int| 0 <= t < r.len() implies cells.contains(#[trigger] r[t]) && !(r[t]
            is Null) by {
            if t < rest.len() {
                assert(r[t] == rest[t]);
            } else {
                assert(r[t] == cells[idxs.last()]);
                assert(cells.contains(cells[idxs.last()]));
            }
        }
    }
}

/// The mathematical sum of integer cells.
pub open spec fn int_sum(vs: Seq<CellV>) -> int
    decreases vs.len(),
{
    if vs.len() == 0 {
        0
    } else {
        int_sum(vs.drop_last()) + (match vs.last() {
            CellV::Int(x) => x as int,
            _ => 0,
        })
    }
}

/// The double a cell coerces to for floating aggregation.
pub open spec fn cell_float_of(c: CellV) -> u64 {
    match c {
        CellV::Int(x) => float_of_int(x),
        CellV::Float(b) => b,
        _ => 0,
    }
}

/// The left-to-right floating sum of cells, from positive zero.
pub open spec fn float_sum(vs: Seq<CellV>) -> u64
    decreases vs.len(),
{
    if vs.len() == 0 {
        0u64
    } else {
        add_bits(float_sum(vs.drop_last()), cell_float_of(vs.last()))
    }
}

/// The greatest cell, first occurrence kept on ties.
pub open spec fn fold_max(vs: Seq<CellV>) -> CellV
    recommends
        vs.len() > 0,
    decreases vs.len(),
{
    if vs.len() <= 1 {
        vs[0]
    } else {
        let m = fold_max(vs.drop_last());
        if val_lt(m, vs.last()) {
            vs.last()
        } else {
            m
        }
    }
}

/// The least cell, first occurrence kept on ties.
pub open spec fn fold_min(vs: Seq<CellV>) -> CellV
    recommends
        vs.len() > 0,
    decreases vs.len(),
{
    if vs.len() <= 1 {
        vs[0]
    } else {
        let m = fold_min(vs.drop_last());
        if val_lt(vs.last(), m) {
            vs.last()
        } else {
            m
        }
    }
}

/// The greatest and least cells are cells of the list.
pub proof fn lemma_fold_max_min(vs: Seq<CellV>)
    requires
        vs.len() > 0,
    ensures
        vs.contains(fold_max(vs)),
        vs.contains(fold_min(vs)),
    decreases vs.len(),
{
    if vs.len() == 1 {
        assert(vs[0] == fold_max(vs));
    } else {
        lemma_fold_max_min(vs.drop_last());
        assert forall|v: CellV| vs.drop_last().contains(v) implies vs.contains(v) by {
            let u = choose|u: int| 0 <= u < vs.len() - 1 && vs.drop_last()[u] == v;
            assert(vs[u] == v);
        }
        assert(vs[vs.len() - 1] == vs.last());
    }
}

/// The output type of an aggregation over a column of the given type.
pub open spec fn agg_typ(f: AggFunc, typ: ColType) -> ColType {
    match f {
        AggFunc::Count => ColType::Int,
        AggFunc::Sum => typ,
        AggFunc::Avg => ColType::Float,
        AggFunc::Max => typ,
        AggFunc::Min => typ,
    }
}

/// The value of one aggregation over one group.  Null cells are
/// ignored; `Count` counts the non-null cells; an empty group sums to
/// zero and has no average, greatest or least value.
pub open spec fn agg_value(f: AggFunc, typ: ColType, cells: Seq<CellV>, idxs: Seq<int>) -> CellV {
    let vs = non_null_vals(cells, idxs);
    match f {
        AggFunc::Count => CellV::Int(vs.len() as i64),
        AggFunc::Sum => if typ is Int {
            CellV::Int(int_sum(vs) as i64)
        } else {
            CellV::Float(float_sum(vs))
        },
        AggFunc::Avg => if vs.len() == 0 {
            CellV::Null
        } else {
            CellV::Float(div_bits(float_sum(vs), float_of_int(vs.len() as i64)))
        },
        AggFunc::Max => if vs.len() == 0 {
            CellV::Null
        } else {
            fold_max(vs)
        },
        AggFunc::Min => if vs.len() == 0 {
            CellV::Null
        } else {
            fold_min(vs)
        },
    }
}

/// Whether one aggregation's value stays representable over one group:
/// counts fit a 64-bit integer, and an integer sum stays in range.
pub open spec fn agg_in_range(f: AggFunc, typ: ColType, cells: Seq<CellV>, idxs: Seq<int>) -> bool {
    let vs = non_null_vals(cells, idxs);
    &&& vs.len() <= i64::MAX
    &&& (f is Sum && typ is Int ==> i64::MIN <= int_sum(vs) <= i64::MAX)
}

/// The first aggregation that asks a sum or average of a non-numeric
/// column, if any.
pub open spec fn first_bad_agg(t: TableV, aggs: Seq<AggregationV>) -> Option<Seq<char>>
    decreases aggs.len(),
{
    if aggs.len() == 0 {
        None
    } else {
        match first_bad_agg(t, aggs.drop_last()) {
            Some(e) => Some(e),
            None => {
                let a = aggs.last();
                if (a.function is Sum || a.function is Avg) && !(t.col(a.column).typ is Int
                    || t.col(a.column).typ is Float) {
                    Some(a.column)
                } else {
                    None
                }
            },
        }
    }
}

/// The names of the aggregated columns, in order.
pub open spec fn agg_columns(aggs: Seq<AggregationV>) -> Seq<Seq<char>> {
    aggs.map_values(|a: AggregationV| a.column)
}

/// The output column names: the group columns, then each aggregation's
/// output name.
pub open spec fn out_names(columns: Seq<Seq<char>>, aggs: Seq<AggregationV>) -> Seq<Seq<char>> {
    columns + aggs.map_values(|a: AggregationV| agg_out_name(a))
}

/// The group columns, resolved in order.
pub open spec fn group_cols(t: TableV, columns: Seq<Seq<char>>) -> Seq<crate::table::ColumnV> {
    columns.map_values(|name: Seq<char>| t.col(name))
}

/// Whether every aggregation stays in range over every group.
pub open spec fn aggs_in_range(
    t: TableV,
    gcols: Seq<crate::table::ColumnV>,
    aggs: Seq<AggregationV>,
    dk: Seq<Seq<CellV>>,
) -> bool {
    forall|ai: int, g: int|
        0 <= ai < aggs.len() && 0 <= g < dk.len() ==> agg_in_range(
            (#[trigger] aggs[ai]).function,
            t.col(aggs[ai].column).typ,
            t.col(aggs[ai].column).cells,
            group_rows(gcols, t.nrows, #[trigger] dk[g]),
        )
}

/// The grouped table: group columns first, then one column per
/// aggregation, one row per distinct key in first-occurrence order.
pub open spec fn grouped_table(
    t: TableV,
    columns: Seq<Seq<char>>,
    aggs: Seq<AggregationV>,
) -> TableV {
    let gcols = group_cols(t, columns);
    let dk = distinct_keys(keys_of(gcols, t.nrows));
    let gout = Seq::new(
        columns.len(),
        |j: int|
            crate::table::ColumnV {
                name: columns[j],
                typ: gcols[j].typ,
                cells: dk.map_values(|k: Seq<CellV>| k[j]),
            },
    );
    let aout = Seq::new(
        aggs.len(),
        |ai: int|
            crate::table::ColumnV {
                name: agg_out_name(aggs[ai]),
                typ: agg_typ(aggs[ai].function, t.col(aggs[ai].column).typ),
                cells: dk.map_values(
                    |k: Seq<CellV>| agg_value(
                        aggs[ai].function,
                        t.col(aggs[ai].column).typ,
                        t.col(aggs[ai].column).cells,
                        group_rows(gcols, t.nrows, k),
                    ),
                ),
            },
    );
    TableV { cols: gout + aout, nrows: dk.len() as int }
}

/// Grouping: its validation, in order — empty column or aggregation
/// lists, an absent group or aggregation column, a sum or average of a
/// non-numeric column, a repeated output name, a value out of range —
/// and then the grouped table.
pub open spec fn group_by_spec(
    t: TableV,
    columns: Seq<Seq<char>>,
    aggs: Seq<AggregationV>,
) -> OpOutcome {
    if columns.len() == 0 {
        OpOutcome::InvalidQuery("GroupBy requires at least one column to group by"@)
    } else if aggs.len() == 0 {
        OpOutcome::InvalidQuery(
            "GroupBy requires at least one aggregation function (e.g., SUM, AVG, COUNT)"@,
        )
    } else if select_cols(t, columns) is Err {
        OpOutcome::ColumnNotFound(select_cols(t, columns)->Err_0)
    } else if select_cols(t, agg_columns(aggs)) is Err {
        OpOutcome::ColumnNotFound(select_cols(t, agg_columns(aggs))->Err_0)
    } else if first_bad_agg(t, aggs) is Some {
        OpOutcome::TypeError(first_bad_agg(t, aggs)->0)
    } else if !names_unique(out_names(columns, aggs)) {
        OpOutcome::InvalidQuery("duplicate output column name"@)
    } else if !aggs_in_range(
        t,
        group_cols(t, columns),
        aggs,
        distinct_keys(keys_of(group_cols(t, columns), t.nrows)),
    ) {
        OpOutcome::QueryExecution("aggregate value out of range"@)
    } else {
        OpOutcome::Table(grouped_table(t, columns, aggs))
    }
}

/// Resolves column names to their indices, in order; the first absent
/// name fails, exactly as `select_cols` errs.
fn resolve_columns(t: &Table, columns: &Vec<String>) -> (r: Result<Vec<usize>, DoubledeckerError>)
    requires
        t@.wf(),
    ensures
        match r {
            Result::Ok(idxs) => {
                &&& select_cols(t@, columns@.map_values(|s: String| s@)) is Ok
                &&& idxs@.len() == columns@.len()
                &&& forall|j: int|
                    0 <= j < idxs@.len() ==> (#[trigger] idxs@[j]) < t@.cols.len() && t@.cols[
                        idxs@[j] as int
                    ] == t@.col(columns@.map_values(|s: String| s@)[j]) && t@.has_col(
                        columns@.map_values(|s: String| s@)[j],
                    )
            },
            Result::Err(e) => {
                &&& select_cols(t@, columns@.map_values(|s: String| s@)) is Err
                &&& e matches DoubledeckerError::ColumnNotFound(s) && s@ == select_cols(
                    t@,
                    columns@.map_values(|s2: String| s2@),
                )->Err_0
            },
        },
{
    let ghost vcols = columns@.map_values(|s: String| s@);
    let mut idxs: Vec<usize> = Vec::new();
    proof {
        assert(vcols.subrange(0, 0) =~= Seq::<Seq<char>>::empty());
    }
    let mut i: usize = 0;
    while i < columns.len()
        invariant
            i <= columns@.len(),
            t@.wf(),
            vcols == columns@.map_values(|s: String| s@),
            select_cols(t@, vcols.subrange(0, i as int)) is Ok,
            idxs@.len() == i,
            forall|j: int|
                0 <= j < i ==> (#[trigger] idxs@[j]) < t@.cols.len() && t@.cols[idxs@[j] as int]
                    == t@.col(vcols[j]) && t@.has_col(vcols[j]),
        decreases columns@.len() - i,
    {
        proof {
            assert(vcols.subrange(0, i + 1).drop_last() =~= vcols.subrange(0, i as int));
            assert(vcols.subrange(0, i + 1).last() == vcols[i as int]);
        }
        match t.find_column(&columns[i]) {
            None => {
                proof {
                    crate::executor::lemma_select_cols_absent(t@, vcols, i as int);
                }
                return Result::Err(DoubledeckerError::ColumnNotFound(columns[i].clone()));
            },
            Some(ci) => {
                proof {
                    assert(t@.col(vcols[i as int]) == t@.cols[t@.col_index(vcols[i as int])]);
                }
                idxs.push(ci);
            },
        }
        i = i + 1;
    }
    proof {
        assert(vcols.subrange(0, vcols.len() as int) =~= vcols);
    }
    Result::Ok(idxs)
}

/// Whether two key tuples hold the same values, position by position.
fn keys_equal(a: &Vec<Cell>, b: &Vec<Cell>) -> (r: bool)
    ensures
        r == (a@.map_values(|c: Cell| c@) == b@.map_values(|c: Cell| c@)),
{
    let av = Ghost(a@.map_values(|c: Cell| c@));
    let bv = Ghost(b@.map_values(|c: Cell| c@));
    if a.len() != b.len() {
        proof {
            assert(av@.len() != bv@.len());
        }
        return false;
    }
    let mut i: usize = 0;
    while i < a.len()
        invariant
            i <= a@.len(),
            a@.len() == b@.len(),
            av@ == a@.map_values(|c: Cell| c@),
            bv@ == b@.map_values(|c: Cell| c@),
            forall|j: int| 0 <= j < i ==> av@[j] == bv@[j],
        decreases a@.len() - i,
    {
        if !cell_eq(&a[i], &b[i]) {
            proof {
                assert(av@[i as int] != bv@[i as int]);
            }
            return false;
        }
        i = i + 1;
    }
    proof {
        assert(av@ =~= bv@);
    }
    true
}

/// The grouping key of one row, as stored cells.
fn row_key(t: &Table, gci: &Vec<usize>, i: usize) -> (r: Vec<Cell>)
    requires
        t@.wf(),
        i < t@.nrows,
        forall|j: int| 0 <= j < gci@.len() ==> (#[trigger] gci@[j]) < t@.cols.len(),
    ensures
        r@.len() == gci@.len(),
        forall|j: int|
            0 <= j < gci@.len() ==> (#[trigger] r@[j])@ == t@.cols[gci@[j] as int].cells[i as int],
{
    let mut r: Vec<Cell> = Vec::new();
    let mut j: usize = 0;
    while j < gci.len()
        invariant
            j <= gci@.len(),
            t@.wf(),
            i < t@.nrows,
            forall|k: int| 0 <= k < gci@.len() ==> (#[trigger] gci@[k]) < t@.cols.len(),
            r@.len() == j,
            forall|k: int|
                0 <= k < j ==> (#[trigger] r@[k])@ == t@.cols[gci@[k] as int].cells[i as int],
        decreases gci@.len() - j,
    {
        let ci = gci[j];
        proof {
            assert(t@.cols[ci as int].cells.len() == t@.nrows);
        }
        r.push(t.columns[ci].data.cell(i));
        j = j + 1;
    }
    r
}

/// Whether a key tuple is already among the collected distinct keys.
fn contains_key(dkeys: &Vec<Vec<Cell>>, k: &Vec<Cell>) -> (r: bool)
    ensures
        r == dkeys@.map_values(|kv: Vec<Cell>| kv@.map_values(|c: Cell| c@)).contains(
            k@.map_values(|c: Cell| c@),
        ),
{
    let ghost dkv = dkeys@.map_values(|kv: Vec<Cell>| kv@.map_values(|c: Cell| c@));
    let ghost kv = k@.map_values(|c: Cell| c@);
    let mut g: usize = 0;
    while g < dkeys.len()
        invariant
            g <= dkeys@.len(),
            dkv == dkeys@.map_values(|kv2: Vec<Cell>| kv2@.map_values(|c: Cell| c@)),
            kv == k@.map_values(|c: Cell| c@),
            forall|h: int| 0 <= h < g ==> dkv[h] != kv,
        decreases dkeys@.len() - g,
    {
        if keys_equal(&dkeys[g], k) {
            proof {
                assert(dkv[g as int] == kv);
            }
            return true;
        }
        g = g + 1;
    }
    proof {
        if dkv.contains(kv) {
            let h = choose|h: int| 0 <= h < dkv.len() && dkv[h] == kv;
            assert(false);
        }
    }
    false
}

/// The rows whose key is the given one, ascending.
fn rows_of_key(t: &Table, gci: &Vec<usize>, k: &Vec<Cell>, Ghost(gcols): Ghost<
    Seq<crate::table::ColumnV>,
>) -> (r: Vec<usize>)
    requires
        t@.wf(),
        gci@.len() == gcols.len(),
        forall|j: int|
            0 <= j < gci@.len() ==> (#[trigger] gci@[j]) < t@.cols.len() && t@.cols[gci@[j] as int]
                == gcols[j],
    ensures
        r@.map_values(|u: usize| u as int) =~= group_rows(
            gcols,
            t@.nrows,
            k@.map_values(|c: Cell| c@),
        ),
        forall|p: int| 0 <= p < r@.len() ==> (#[trigger] r@[p]) < t@.nrows,
{
    let ghost kv = k@.map_values(|c: Cell| c@);
    let ghost pred = |i: int| key_at(gcols, i) == kv;
    let mut r: Vec<usize> = Vec::new();
    let n = t.rows();
    let mut i: usize = 0;
    while i < n
        invariant
            i <= n,
            n == t@.nrows,
            t@.wf(),
            kv == k@.map_values(|c: Cell| c@),
            pred == (|i2: int| key_at(gcols, i2) == kv),
            gci@.len() == gcols.len(),
            forall|j: int|
                0 <= j < gci@.len() ==> (#[trigger] gci@[j]) < t@.cols.len() && t@.cols[gci@[
                    j
                ] as int] == gcols[j],
            r@.len() == sel_indices(i as int, pred).len(),
            forall|p: int|
                0 <= p < r@.len() ==> #[trigger] r@[p] as int == sel_indices(i as int, pred)[p]
                    && r@[p] < t@.nrows,
        decreases n - i,
    {
        let rk = row_key(t, gci, i);
        let hit = keys_equal(&rk, k);
        proof {
            assert(rk@.map_values(|c: Cell| c@) =~= key_at(gcols, i as int));
            if hit {
                assert(pred(i as int));
                assert(sel_indices(i + 1, pred) == sel_indices(i as int, pred).push(i as int));
            } else {
                assert(!pred(i as int));
                assert(sel_indices(i + 1, pred) == sel_indices(i as int, pred));
            }
        }
        if hit {
            r.push(i);
        }
        i = i + 1;
    }
    proof {
        assert(r@.map_values(|u: usize| u as int) =~= sel_indices(t@.nrows, pred));
    }
    r
}

/// The sum of 64-bit integers is bounded by the count of terms.
proof fn lemma_int_sum_bounds(vs: Seq<CellV>)
    ensures
        -(vs.len() * 0x8000_0000_0000_0000) <= int_sum(vs) <= vs.len() * 0x8000_0000_0000_0000,
    decreases vs.len(),
{
    if vs.len() > 0 {
        lemma_int_sum_bounds(vs.drop_last());
        assert((vs.len() - 1) * 0x8000_0000_0000_0000 + 0x8000_0000_0000_0000 == vs.len()
            * 0x8000_0000_0000_0000) by {
            vstd::arithmetic::mul::lemma_mul_is_distributive_add_other_way(
                0x8000_0000_0000_0000,
                vs.len() - 1 as int,
                1,
            );
        }
    }
}

/// The non-null cells of a column at the given rows.
fn gather_non_null(data: &ColumnData, idxs: &Vec<usize>) -> (r: Vec<Cell>)
    requires
        forall|p: int| 0 <= p < idxs@.len() ==> (#[trigger] idxs@[p]) < data.cells().len(),
    ensures
        r@.map_values(|c: Cell| c@) =~= non_null_vals(
            data.cells(),
            idxs@.map_values(|u: usize| u as int),
        ),
        forall|p: int| 0 <= p < r@.len() ==> !((#[trigger] r@[p])@ is Null),
{
    let ghost gidxs = idxs@.map_values(|u: usize| u as int);
    let mut r: Vec<Cell> = Vec::new();
    let mut p: usize = 0;
    while p < idxs.len()
        invariant
            p <= idxs@.len(),
            gidxs == idxs@.map_values(|u: usize| u as int),
            forall|q: int| 0 <= q < idxs@.len() ==> (#[trigger] idxs@[q]) < data.cells().len(),
            r@.map_values(|c: Cell| c@) =~= non_null_vals(data.cells(), gidxs.subrange(0, p as int)),
            forall|q: int| 0 <= q < r@.len() ==> !((#[trigger] r@[q])@ is Null),
        decreases idxs@.len() - p,
    {
        let c = data.cell(idxs[p]);
        proof {
            assert(gidxs.subrange(0, p + 1).drop_last() =~= gidxs.subrange(0, p as int));
            assert(gidxs.subrange(0, p + 1).last() == gidxs[p as int]);
        }
        match c {
            Cell::Null => {
                proof {
                    assert(r@.map_values(|c2: Cell| c2@) =~= non_null_vals(
                        data.cells(),
                        gidxs.subrange(0, p + 1),
                    ));
                }
            },
            _ => {
                r.push(c);
                proof {
                    assert(r@.map_values(|c2: Cell| c2@) =~= non_null_vals(
                        data.cells(),
                        gidxs.subrange(0, p + 1),
                    ));
                }
            },
        }
        p = p + 1;
    }
    proof {
        assert(gidxs.subrange(0, gidxs.len() as int) =~= gidxs);
    }
    r
}

/// A copy of one cell.
fn cell_dup(c: &Cell) -> (r: Cell)
    ensures
        r@ == c@,
{
    match c {
        Cell::Null => Cell::Null,
        Cell::Int(x) => Cell::Int(*x),
        Cell::Float(b) => Cell::Float(*b),
        Cell::Bool(b) => Cell::Bool(*b),
        Cell::Str(s) => Cell::Str(s.clone()),
    }
}

/// An aggregation list with a clean prefix fails at its first
/// offending entry.
pub proof fn lemma_first_bad_agg(t: TableV, aggs: Seq<AggregationV>, i: int)
    requires
        0 <= i < aggs.len(),
        first_bad_agg(t, aggs.subrange(0, i)) is None,
        (aggs[i].function is Sum || aggs[i].function is Avg) && !(t.col(aggs[i].column).typ is Int
            || t.col(aggs[i].column).typ is Float),
    ensures
        first_bad_agg(t, aggs) == Some(aggs[i].column),
    decreases aggs.len() - i,
{
    if i + 1 == aggs.len() {
        assert(aggs.subrange(0, i) =~= aggs.drop_last());
        assert(aggs.last() == aggs[i]);
    } else {
        assert(aggs.drop_last().subrange(0, i) =~= aggs.subrange(0, i));
        lemma_first_bad_agg(t, aggs.drop_last(), i);
        assert(aggs.drop_last()[i] == aggs[i]);
    }
}

/// Evaluates one aggregation over one group of rows, exactly as
/// `agg_value` describes, refusing a value that leaves 64-bit range.
fn eval_agg(data: &ColumnData, idxs: &Vec<usize>, f: AggFunc) -> (r: Result<
    Cell,
    DoubledeckerError,
>)
    requires
        forall|p: int| 0 <= p < idxs@.len() ==> (#[trigger] idxs@[p]) < data.cells().len(),
        f is Sum || f is Avg ==> data.typ() is Int || data.typ() is Float,
    ensures
        match r {
            Result::Ok(c) => agg_in_range(
                f,
                data.typ(),
                data.cells(),
                idxs@.map_values(|u: usize| u as int),
            ) && c@ == agg_value(
                f,
                data.typ(),
                data.cells(),
                idxs@.map_values(|u: usize| u as int),
            ) && (c@ is Null || cell_type_of(c@) == agg_typ(f, data.typ())),
            Result::Err(e) => !agg_in_range(
                f,
                data.typ(),
                data.cells(),
                idxs@.map_values(|u: usize| u as int),
            ) && (e matches DoubledeckerError::QueryExecution(s) && s@
                == "aggregate value out of range"@),
        },
{
    let ghost gidxs = idxs@.map_values(|u: usize| u as int);
    let vs = gather_non_null(data, idxs);
    let ghost vsv = non_null_vals(data.cells(), gidxs);
    proof {
        assert(vs@.map_values(|c: Cell| c@) == vsv);
        assert forall|p: int| 0 <= p < gidxs.len() implies 0 <= #[trigger] gidxs[p]
            < data.cells().len() by {
            assert(gidxs[p] == idxs@[p] as int);
        }
        lemma_non_null_vals(data.cells(), gidxs);
        assert forall|p: int| 0 <= p < vs@.len() implies !((#[trigger] vs@[p])@ is Null)
            && cell_type_of(vs@[p]@) == data.typ() by {
            assert(vs@[p]@ == vsv[p]);
            let v = vsv[p];
            assert(data.cells().contains(v));
            let u = choose|u: int| 0 <= u < data.cells().len() && data.cells()[u] == v;
            crate::table::lemma_cells_typed(*data, u);
        }
    }
    if vs.len() as u64 > 0x7fff_ffff_ffff_ffffu64 {
        return Result::Err(
            DoubledeckerError::QueryExecution(("aggregate value out of range").to_owned()),
        );
    }
    match f {
        AggFunc::Count => Result::Ok(Cell::Int(vs.len() as i64)),
        AggFunc::Sum => {
            match data.typ_of() {
                ColType::Int => {
                    let mut acc: i128 = 0;
                    let mut q: usize = 0;
                    while q < vs.len()
                        invariant
                            q <= vs@.len(),
                            vsv == vs@.map_values(|c: Cell| c@),
                            forall|p: int|
                                0 <= p < vs@.len() ==> !((#[trigger] vs@[p])@ is Null)
                                    && cell_type_of(vs@[p]@) == ColType::Int,
                            acc == int_sum(vsv.subrange(0, q as int)),
                            -0x8000_0000_0000_0000i128 * (q as i128) <= acc
                                <= 0x8000_0000_0000_0000i128 * (q as i128),
                        decreases vs@.len() - q,
                    {
                        let x: i64 = match &vs[q] {
                            Cell::Int(x) => *x,
                            _ => 0,
                        };
                        proof {
                            assert(vs@[q as int]@ == vsv[q as int]);
                            assert(vsv.subrange(0, q + 1).drop_last() =~= vsv.subrange(
                                0,
                                q as int,
                            ));
                            assert(vsv.subrange(0, q + 1).last() == vsv[q as int]);
                            assert((q + 1) * 0x8000_0000_0000_0000 == q * 0x8000_0000_0000_0000
                                + 0x8000_0000_0000_0000) by {
                                vstd::arithmetic::mul::lemma_mul_is_distributive_add_other_way(
                                    0x8000_0000_0000_0000,
                                    q as int,
                                    1,
                                );
                            }
                            assert(q * 0x8000_0000_0000_0000 <= 0xffff_ffff_ffff_ffff
                                * 0x8000_0000_0000_0000) by {
                                vstd::arithmetic::mul::lemma_mul_inequality(
                                    q as int,
                                    0xffff_ffff_ffff_ffff,
                                    0x8000_0000_0000_0000,
                                );
                            }
                            assert((q + 1) * 0x8000_0000_0000_0000 <= 0xffff_ffff_ffff_ffff
                                * 0x8000_0000_0000_0000) by {
                                vstd::arithmetic::mul::lemma_mul_inequality(
                                    q + 1,
                                    0xffff_ffff_ffff_ffff,
                                    0x8000_0000_0000_0000,
                                );
                            }
                        }
                        acc = acc + (x as i128);
                        q = q + 1;
                    }
                    proof {
                        assert(vsv.subrange(0, vsv.len() as int) =~= vsv);
                    }
                    if -0x8000_0000_0000_0000i128 <= acc && acc <= 0x7fff_ffff_ffff_ffffi128 {
                        Result::Ok(Cell::Int(acc as i64))
                    } else {
                        Result::Err(
                            DoubledeckerError::QueryExecution(
                                ("aggregate value out of range").to_owned(),
                            ),
                        )
                    }
                },
                _ => {
                    let b = float_sum_exec(&vs, Ghost(vsv));
                    Result::Ok(Cell::Float(b))
                },
            }
        },
        AggFunc::Avg => {
            if vs.len() == 0 {
                proof {
                    assert(agg_value(f, data.typ(), data.cells(), gidxs) == CellV::Null);
                }
                Result::Ok(Cell::Null)
            } else {
                let b = float_sum_exec(&vs, Ghost(vsv));
                let cnt = int_to_float(vs.len() as i64);
                Result::Ok(Cell::Float(float_div(b, cnt)))
            }
        },
        AggFunc::Max => {
            if vs.len() == 0 {
                Result::Ok(Cell::Null)
            } else {
                let mut m = cell_dup(&vs[0]);
                let mut q: usize = 1;
                while q < vs.len()
                    invariant
                        1 <= q <= vs@.len(),
                        vsv == vs@.map_values(|c: Cell| c@),
                        m@ == fold_max(vsv.subrange(0, q as int)),
                    decreases vs@.len() - q,
                {
                    proof {
                        assert(vsv.subrange(0, q + 1).drop_last() =~= vsv.subrange(0, q as int));
                        assert(vsv.subrange(0, q + 1).last() == vsv[q as int]);
                        assert(vs@[q as int]@ == vsv[q as int]);
                    }
                    if crate::sort::cell_val_lt(&m, &vs[q]) {
                        m = cell_dup(&vs[q]);
                    }
                    q = q + 1;
                }
                proof {
                    assert(vsv.subrange(0, vsv.len() as int) =~= vsv);
                    lemma_fold_max_min(vsv);
                    let u = choose|u: int| 0 <= u < vsv.len() && vsv[u] == fold_max(vsv);
                    assert(vs@[u]@ == vsv[u]);
                }
                Result::Ok(m)
            }
        },
        AggFunc::Min => {
            if vs.len() == 0 {
                Result::Ok(Cell::Null)
            } else {
                let mut m = cell_dup(&vs[0]);
                let mut q: usize = 1;
                while q < vs.len()
                    invariant
                        1 <= q <= vs@.len(),
                        vsv == vs@.map_values(|c: Cell| c@),
                        m@ == fold_min(vsv.subrange(0, q as int)),
                    decreases vs@.len() - q,
                {
                    proof {
                        assert(vsv.subrange(0, q + 1).drop_last() =~= vsv.subrange(0, q as int));
                        assert(vsv.subrange(0, q + 1).last() == vsv[q as int]);
                        assert(vs@[q as int]@ == vsv[q as int]);
                    }
                    if crate::sort::cell_val_lt(&vs[q], &m) {
                        m = cell_dup(&vs[q]);
                    }
                    q = q + 1;
                }
                proof {
                    assert(vsv.subrange(0, vsv.len() as int) =~= vsv);
                    lemma_fold_max_min(vsv);
                    let u = choose|u: int| 0 <= u < vsv.len() && vsv[u] == fold_min(vsv);
                    assert(vs@[u]@ == vsv[u]);
                }
                Result::Ok(m)
            }
        },
    }
}

/// The left-to-right floating sum of gathered cells.
fn float_sum_exec(vs: &Vec<Cell>, Ghost(vsv): Ghost<Seq<CellV>>) -> (b: u64)
    requires
        vsv == vs@.map_values(|c: Cell| c@),
    ensures
        b == float_sum(vsv),
{
    let mut acc: u64 = 0;
    let mut q: usize = 0;
    while q < vs.len()
        invariant
            q <= vs@.len(),
            vsv == vs@.map_values(|c: Cell| c@),
            acc == float_sum(vsv.subrange(0, q as int)),
        decreases vs@.len() - q,
    {
        let v: u64 = match &vs[q] {
            Cell::Int(x) => int_to_float(*x),
            Cell::Float(b2) => *b2,
            _ => 0,
        };
        proof {
            assert(vsv.subrange(0, q + 1).drop_last() =~= vsv.subrange(0, q as int));
            assert(vsv.subrange(0, q + 1).last() == vsv[q as int]);
            assert(vs@[q as int]@ == vsv[q as int]);
            assert(v == cell_float_of(vsv[q as int]));
        }
        acc = float_add(acc, v);
        q = q + 1;
    }
    proof {
        assert(vsv.subrange(0, vsv.len() as int) =~= vsv);
    }
    acc
}

/// The view of a collected key list.
pub open spec fn keys_view(dkeys: Seq<Vec<Cell>>) -> Seq<Seq<CellV>> {
    dkeys.map_values(|kv: Vec<Cell>| kv.view().map_values(|c: Cell| c@))
}

/// A clean aggregation list has no offending entry at all.
proof fn lemma_no_bad_aggs(t: TableV, aggs: Seq<AggregationV>)
    requires
        first_bad_agg(t, aggs) is None,
    ensures
        forall|ai: int|
            0 <= ai < aggs.len() ==> (((#[trigger] aggs[ai]).function is Sum || aggs[ai].function
                is Avg) ==> (t.col(aggs[ai].column).typ is Int || t.col(aggs[ai].column).typ
                is Float)),
    decreases aggs.len(),
{
    if aggs.len() > 0 {
        lemma_no_bad_aggs(t, aggs.drop_last());
        assert forall|ai: int|
            0 <= ai < aggs.len() implies (((#[trigger] aggs[ai]).function is Sum
            || aggs[ai].function is Avg) ==> (t.col(aggs[ai].column).typ is Int || t.col(
            aggs[ai].column,
        ).typ is Float)) by {
            if ai < aggs.len() - 1 {
                assert(aggs.drop_last()[ai] == aggs[ai]);
            }
        }
    }
}

/// Groups and aggregates, exactly as `group_by_spec` describes.
pub fn group_by_op(t: &Table, columns: &Vec<String>, aggregations: &Vec<Aggregation>) -> (r: Result<
    Table,
    DoubledeckerError,
>)
    requires
        t@.wf(),
    ensures
        op_result_ok(
            group_by_spec(
                t@,
                columns@.map_values(|s: String| s@),
                aggregations@.map_values(|a: Aggregation| a@),
            ),
            r,
        ),
{
    let ghost vcols = columns@.map_values(|s: String| s@);
    let ghost vaggs = aggregations@.map_values(|a: Aggregation| a@);
    if columns.len() == 0 {
        return Result::Err(
            DoubledeckerError::InvalidQuery(
                ("GroupBy requires at least one column to group by").to_owned(),
            ),
        );
    }
    if aggregations.len() == 0 {
        return Result::Err(
            DoubledeckerError::InvalidQuery(
                ("GroupBy requires at least one aggregation function (e.g., SUM, AVG, COUNT)").to_owned(),
            ),
        );
    }
    let gci = match resolve_columns(t, columns) {
        Result::Err(e) => {
            return Result::Err(e);
        },
        Result::Ok(x) => x,
    };
    let mut acol_names: Vec<String> = Vec::new();
    let mut ai: usize = 0;
    while ai < aggregations.len()
        invariant
            ai <= aggregations@.len(),
            vaggs == aggregations@.map_values(|a: Aggregation| a@),
            acol_names@.len() == ai,
            forall|j: int| 0 <= j < ai ==> (#[trigger] acol_names@[j])@ == vaggs[j].column,
        decreases aggregations@.len() - ai,
    {
        acol_names.push(aggregations[ai].column.clone());
        ai = ai + 1;
    }
    proof {
        assert(acol_names@.map_values(|s: String| s@) =~= agg_columns(vaggs));
    }
    let aci = match resolve_columns(t, &acol_names) {
        Result::Err(e) => {
            return Result::Err(e);
        },
        Result::Ok(x) => x,
    };
    // the first sum or average of a non-numeric column fails
    proof {
        assert(vaggs.subrange(0, 0) =~= Seq::<AggregationV>::empty());
    }
    let mut ti: usize = 0;
    while ti < aggregations.len()
        invariant
            ti <= aggregations@.len(),
            t@.wf(),
            vcols == columns@.map_values(|s: String| s@),
            vaggs == aggregations@.map_values(|a: Aggregation| a@),
            vcols.len() > 0,
            vaggs.len() > 0,
            select_cols(t@, vcols) is Ok,
            select_cols(t@, agg_columns(vaggs)) is Ok,
            first_bad_agg(t@, vaggs.subrange(0, ti as int)) is None,
            aci@.len() == vaggs.len(),
            forall|j: int|
                0 <= j < aci@.len() ==> (#[trigger] aci@[j]) < t@.cols.len() && t@.cols[aci@[
                    j
                ] as int] == t@.col(agg_columns(vaggs)[j]),
        decreases aggregations@.len() - ti,
    {
        let f = aggregations[ti].function;
        let numeric = matches!(t.columns[aci[ti]].data.typ_of(), ColType::Int) || matches!(
            t.columns[aci[ti]].data.typ_of(),
            ColType::Float,
        );
        proof {
            assert(agg_columns(vaggs)[ti as int] == vaggs[ti as int].column);
            assert(vaggs.subrange(0, ti + 1).drop_last() =~= vaggs.subrange(0, ti as int));
            assert(vaggs.subrange(0, ti + 1).last() == vaggs[ti as int]);
        }
        if (matches!(f, AggFunc::Sum) || matches!(f, AggFunc::Avg)) && !numeric {
            proof {
                lemma_first_bad_agg(t@, vaggs, ti as int);
            }
            return Result::Err(DoubledeckerError::TypeError(aggregations[ti].column.clone()));
        }
        ti = ti + 1;
    }
    proof {
        assert(vaggs.subrange(0, vaggs.len() as int) =~= vaggs);
    }
    // resolve output names and refuse repeats
    let mut aexprs: Vec<AggExpr> = Vec::new();
    let mut bi: usize = 0;
    while bi < aggregations.len()
        invariant
            bi <= aggregations@.len(),
            vaggs == aggregations@.map_values(|a: Aggregation| a@),
            aexprs@.len() == bi,
            forall|j: int|
                0 <= j < bi ==> (#[trigger] aexprs@[j]).out_name@ == agg_out_name(vaggs[j])
                    && aexprs@[j].function == vaggs[j].function,
        decreases aggregations@.len() - bi,
    {
        aexprs.push(build_aggregation_expr(&aggregations[bi]));
        bi = bi + 1;
    }
    let mut combined: Vec<String> = Vec::new();
    let mut ci: usize = 0;
    while ci < columns.len()
        invariant
            ci <= columns@.len(),
            vcols == columns@.map_values(|s: String| s@),
            combined@.len() == ci,
            forall|j: int| 0 <= j < ci ==> (#[trigger] combined@[j])@ == vcols[j],
        decreases columns@.len() - ci,
    {
        combined.push(columns[ci].clone());
        ci = ci + 1;
    }
    let mut di: usize = 0;
    while di < aexprs.len()
        invariant
            di <= aexprs@.len(),
            vcols == columns@.map_values(|s: String| s@),
            vaggs == aggregations@.map_values(|a: Aggregation| a@),
            aexprs@.len() == vaggs.len(),
            forall|j: int|
                0 <= j < aexprs@.len() ==> (#[trigger] aexprs@[j]).out_name@ == agg_out_name(
                    vaggs[j],
                ) && aexprs@[j].function == vaggs[j].function,
            combined@.len() == vcols.len() + di,
            forall|j: int| 0 <= j < vcols.len() ==> (#[trigger] combined@[j])@ == vcols[j],
            forall|j: int|
                vcols.len() <= j < combined@.len() ==> (#[trigger] combined@[j])@ == agg_out_name(
                    vaggs[j - vcols.len()],
                ),
        decreases aexprs@.len() - di,
    {
        combined.push(aexprs[di].out_name.clone());
        di = di + 1;
    }
    proof {
        assert(combined@.map_values(|s: String| s@) =~= out_names(vcols, vaggs));
    }
    if !crate::executor::all_distinct(&combined) {
        return Result::Err(
            DoubledeckerError::InvalidQuery(("duplicate output column name").to_owned()),
        );
    }
    // collect the distinct keys, in first-occurrence order
    let ghost gcols = group_cols(t@, vcols);
    proof {
        assert forall|j: int| 0 <= j < gci@.len() implies t@.cols[(#[trigger] gci@[j]) as int]
            == gcols[j] by {
            assert(gcols[j] == t@.col(vcols[j]));
        }
    }
    let n = t.rows();
    let mut dkeys: Vec<Vec<Cell>> = Vec::new();
    proof {
        assert(keys_view(dkeys@) =~= distinct_keys(keys_of(gcols, 0)));
    }
    let mut i: usize = 0;
    while i < n
        invariant
            i <= n,
            n == t@.nrows,
            t@.wf(),
            gci@.len() == gcols.len(),
            forall|j: int|
                0 <= j < gci@.len() ==> (#[trigger] gci@[j]) < t@.cols.len() && t@.cols[gci@[
                    j
                ] as int] == gcols[j],
            keys_view(dkeys@) == distinct_keys(keys_of(gcols, i as int)),
            forall|g: int| 0 <= g < dkeys@.len() ==> (#[trigger] dkeys@[g])@.len() == gcols.len(),
        decreases n - i,
    {
        let rk = row_key(t, &gci, i);
        proof {
            assert(rk@.map_values(|c: Cell| c@) =~= key_at(gcols, i as int));
            assert(keys_of(gcols, i + 1).drop_last() =~= keys_of(gcols, i as int));
            assert(keys_of(gcols, i + 1).last() == key_at(gcols, i as int));
        }
        let present = contains_key(&dkeys, &rk);
        let ghost prev = dkeys@;
        if !present {
            dkeys.push(rk);
        }
        proof {
            if present {
                assert(keys_view(dkeys@) == distinct_keys(keys_of(gcols, i + 1)));
            } else {
                assert(keys_view(dkeys@) =~= keys_view(prev).push(key_at(gcols, i as int))) by {
                    assert forall|g: int| 0 <= g < dkeys@.len() implies #[trigger] keys_view(
                        dkeys@,
                    )[g] == keys_view(prev).push(key_at(gcols, i as int))[g] by {
                        if g < prev.len() {
                            assert(dkeys@[g] == prev[g]);
                        } else {
                            assert(dkeys@[g] == rk);
                        }
                    }
                }
                assert(keys_view(dkeys@) == distinct_keys(keys_of(gcols, i + 1)));
            }
        }
        i = i + 1;
    }
    let ghost dkv = distinct_keys(keys_of(gcols, t@.nrows));
    proof {
        assert(keys_view(dkeys@) == dkv);
        lemma_distinct_keys(keys_of(gcols, t@.nrows));
    }
    let ngroups = dkeys.len();
    // group columns: one cell per distinct key, from the key itself
    let mut outcols: Vec<Column> = Vec::new();
    let mut j: usize = 0;
    while j < columns.len()
        invariant
            j <= columns@.len(),
            t@.wf(),
            vcols == columns@.map_values(|s: String| s@),
            gci@.len() == gcols.len(),
            gcols.len() == vcols.len(),
            gcols == group_cols(t@, vcols),
            forall|j2: int|
                0 <= j2 < gci@.len() ==> (#[trigger] gci@[j2]) < t@.cols.len() && t@.cols[gci@[
                    j2
                ] as int] == gcols[j2],
            ngroups == dkeys@.len(),
            keys_view(dkeys@) == dkv,
            dkv == distinct_keys(keys_of(gcols, t@.nrows)),
            forall|g: int| 0 <= g < dkeys@.len() ==> (#[trigger] dkeys@[g])@.len() == gcols.len(),
            outcols@.len() == j,
            forall|j2: int|
                0 <= j2 < j ==> (#[trigger] outcols@[j2])@ == (crate::table::ColumnV {
                    name: vcols[j2],
                    typ: gcols[j2].typ,
                    cells: dkv.map_values(|k: Seq<CellV>| k[j2]),
                }),
        decreases columns@.len() - j,
    {
        let srctyp = t.columns[gci[j]].data.typ_of();
        let mut datab = ColumnData::new_empty(srctyp);
        let mut g: usize = 0;
        while g < ngroups
            invariant
                g <= ngroups,
                t@.wf(),
                j < vcols.len(),
                gci@.len() == gcols.len(),
                gcols.len() == vcols.len(),
                forall|j2: int|
                    0 <= j2 < gci@.len() ==> (#[trigger] gci@[j2]) < t@.cols.len() && t@.cols[gci@[
                        j2
                    ] as int] == gcols[j2],
                ngroups == dkeys@.len(),
                keys_view(dkeys@) == dkv,
                dkv == distinct_keys(keys_of(gcols, t@.nrows)),
                forall|g2: int|
                    0 <= g2 < dkeys@.len() ==> (#[trigger] dkeys@[g2])@.len() == gcols.len(),
                srctyp == gcols[j as int].typ,
                datab.typ() == srctyp,
                datab.cells().len() == g,
                forall|g2: int|
                    0 <= g2 < g ==> #[trigger] datab.cells()[g2] == dkv[g2][j as int],
            decreases ngroups - g,
        {
            let c = cell_dup(&dkeys[g][j]);
            proof {
                assert(keys_view(dkeys@)[g as int] == dkv[g as int]);
                assert(dkeys@[g as int]@.map_values(|c2: Cell| c2@)[j as int] == dkv[g as int][
                    j as int
                ]);
                assert(c@ == dkv[g as int][j as int]);
                // the key's cell comes from the source column, so it is
                // a null or a value of that column's type
                lemma_distinct_keys(keys_of(gcols, t@.nrows));
                assert(dkv.contains(dkv[g as int]));
                assert(keys_of(gcols, t@.nrows).contains(dkv[g as int]));
                let u = choose|u: int|
                    0 <= u < keys_of(gcols, t@.nrows).len() && keys_of(gcols, t@.nrows)[u] == dkv[
                        g as int
                    ];
                assert(dkv[g as int] == key_at(gcols, u));
                assert(dkv[g as int][j as int] == gcols[j as int].cells[u]);
                assert(col_typed(t@.cols[gci@[j as int] as int]));
            }
            datab.push_cell(c);
            g = g + 1;
        }
        let newcol = Column { name: columns[j].clone(), data: datab };
        proof {
            assert(newcol@.cells =~= dkv.map_values(|k: Seq<CellV>| k[j as int]));
        }
        outcols.push(newcol);
        j = j + 1;
    }
    // aggregation columns: one cell per distinct key
    let mut ai2: usize = 0;
    while ai2 < aggregations.len()
        invariant
            ai2 <= aggregations@.len(),
            t@.wf(),
            vcols == columns@.map_values(|s: String| s@),
            vaggs == aggregations@.map_values(|a: Aggregation| a@),
            gci@.len() == gcols.len(),
            gcols.len() == vcols.len(),
            gcols == group_cols(t@, vcols),
            forall|j2: int|
                0 <= j2 < gci@.len() ==> (#[trigger] gci@[j2]) < t@.cols.len() && t@.cols[gci@[
                    j2
                ] as int] == gcols[j2],
            aci@.len() == vaggs.len(),
            forall|j2: int|
                0 <= j2 < aci@.len() ==> (#[trigger] aci@[j2]) < t@.cols.len() && t@.cols[aci@[
                    j2
                ] as int] == t@.col(agg_columns(vaggs)[j2]),
            aexprs@.len() == vaggs.len(),
            forall|j2: int|
                0 <= j2 < aexprs@.len() ==> (#[trigger] aexprs@[j2]).out_name@ == agg_out_name(
                    vaggs[j2],
                ) && aexprs@[j2].function == vaggs[j2].function,
            first_bad_agg(t@, vaggs) is None,
            vcols.len() > 0,
            vaggs.len() > 0,
            select_cols(t@, vcols) is Ok,
            select_cols(t@, agg_columns(vaggs)) is Ok,
            names_unique(out_names(vcols, vaggs)),
            ngroups == dkeys@.len(),
            keys_view(dkeys@) == dkv,
            dkv == distinct_keys(keys_of(gcols, t@.nrows)),
            forall|g2: int|
                0 <= g2 < dkeys@.len() ==> (#[trigger] dkeys@[g2])@.len() == gcols.len(),
            outcols@.len() == vcols.len() + ai2,
            forall|j2: int|
                0 <= j2 < vcols.len() ==> (#[trigger] outcols@[j2])@ == (crate::table::ColumnV {
                    name: vcols[j2],
                    typ: gcols[j2].typ,
                    cells: dkv.map_values(|k: Seq<CellV>| k[j2]),
                }),
            forall|j2: int|
                vcols.len() <= j2 < outcols@.len() ==> (#[trigger] outcols@[j2])@ == (
                crate::table::ColumnV {
                    name: agg_out_name(vaggs[j2 - vcols.len()]),
                    typ: agg_typ(
                        vaggs[j2 - vcols.len()].function,
                        t@.col(vaggs[j2 - vcols.len()].column).typ,
                    ),
                    cells: dkv.map_values(
                        |k: Seq<CellV>| agg_value(
                            vaggs[j2 - vcols.len()].function,
                            t@.col(vaggs[j2 - vcols.len()].column).typ,
                            t@.col(vaggs[j2 - vcols.len()].column).cells,
                            group_rows(gcols, t@.nrows, k),
                        ),
                    ),
                }),
            forall|a2: int, g2: int|
                0 <= a2 < ai2 && 0 <= g2 < dkv.len() ==> agg_in_range(
                    (#[trigger] vaggs[a2]).function,
                    t@.col(vaggs[a2].column).typ,
                    t@.col(vaggs[a2].column).cells,
                    group_rows(gcols, t@.nrows, #[trigger] dkv[g2]),
                ),
        decreases aggregations@.len() - ai2,
    {
        let f = aggregations[ai2].function;
        let srcci = aci[ai2];
        let ghost srccol = t@.col(vaggs[ai2 as int].column);
        proof {
            assert(agg_columns(vaggs)[ai2 as int] == vaggs[ai2 as int].column);
            assert(t@.cols[srcci as int] == srccol);
            lemma_no_bad_aggs(t@, vaggs);
        }
        let outtyp = match f {
            AggFunc::Count => ColType::Int,
            AggFunc::Sum => t.columns[srcci].data.typ_of(),
            AggFunc::Avg => ColType::Float,
            AggFunc::Max => t.columns[srcci].data.typ_of(),
            AggFunc::Min => t.columns[srcci].data.typ_of(),
        };
        let mut datab = ColumnData::new_empty(outtyp);
        let mut g: usize = 0;
        while g < ngroups
            invariant
                g <= ngroups,
                t@.wf(),
                vcols == columns@.map_values(|s: String| s@),
                vaggs == aggregations@.map_values(|a: Aggregation| a@),
                vcols.len() > 0,
                vaggs.len() > 0,
                select_cols(t@, vcols) is Ok,
                select_cols(t@, agg_columns(vaggs)) is Ok,
                first_bad_agg(t@, vaggs) is None,
                names_unique(out_names(vcols, vaggs)),
                gcols == group_cols(t@, vcols),
                dkv == distinct_keys(keys_of(gcols, t@.nrows)),
                ai2 < vaggs.len(),
                f == vaggs[ai2 as int].function,
                srcci < t@.cols.len(),
                t@.cols[srcci as int] == srccol,
                srccol == t@.col(vaggs[ai2 as int].column),
                f is Sum || f is Avg ==> srccol.typ is Int || srccol.typ is Float,
                outtyp == agg_typ(f, srccol.typ),
                gci@.len() == gcols.len(),
                forall|j2: int|
                    0 <= j2 < gci@.len() ==> (#[trigger] gci@[j2]) < t@.cols.len() && t@.cols[gci@[
                        j2
                    ] as int] == gcols[j2],
                ngroups == dkeys@.len(),
                keys_view(dkeys@) == dkv,
                forall|g2: int|
                    0 <= g2 < dkeys@.len() ==> (#[trigger] dkeys@[g2])@.len() == gcols.len(),
                datab.typ() == outtyp,
                datab.cells().len() == g,
                forall|g2: int|
                    0 <= g2 < g ==> #[trigger] datab.cells()[g2] == agg_value(
                        f,
                        srccol.typ,
                        srccol.cells,
                        group_rows(gcols, t@.nrows, dkv[g2]),
                    ),
                forall|g2: int|
                    0 <= g2 < g ==> agg_in_range(
                        f,
                        srccol.typ,
                        srccol.cells,
                        group_rows(gcols, t@.nrows, #[trigger] dkv[g2]),
                    ),
            decreases ngroups - g,
        {
            let idxs = rows_of_key(t, &gci, &dkeys[g], Ghost(gcols));
            proof {
                assert(keys_view(dkeys@)[g as int] == dkv[g as int]);
                assert(dkeys@[g as int]@.map_values(|c2: Cell| c2@) == dkv[g as int]);
                assert(t@.cols[srcci as int].cells.len() == t@.nrows);
                assert forall|p: int| 0 <= p < idxs@.len() implies (#[trigger] idxs@[p])
                    < t.columns@[srcci as int].data.cells().len() by {
                    assert(idxs@[p] < t@.nrows);
                }
            }
            match eval_agg(&t.columns[srcci].data, &idxs, f) {
                Result::Err(e) => {
                    proof {
                        assert(idxs@.map_values(|u: usize| u as int) == group_rows(
                            gcols,
                            t@.nrows,
                            dkv[g as int],
                        ));
                        assert(!agg_in_range(
                            f,
                            srccol.typ,
                            srccol.cells,
                            group_rows(gcols, t@.nrows, dkv[g as int]),
                        ));
                        assert(!aggs_in_range(t@, gcols, vaggs, dkv));
                    }
                    return Result::Err(e);
                },
                Result::Ok(c) => {
                    proof {
                        assert(idxs@.map_values(|u: usize| u as int) == group_rows(
                            gcols,
                            t@.nrows,
                            dkv[g as int],
                        ));
                        assert(c@ == agg_value(
                            f,
                            srccol.typ,
                            srccol.cells,
                            group_rows(gcols, t@.nrows, dkv[g as int]),
                        ));
                        assert(c@ is Null || cell_type_of(c@) == outtyp);
                    }
                    datab.push_cell(c);
                },
            }
            g = g + 1;
        }
        let newcol = Column { name: aexprs[ai2].out_name.clone(), data: datab };
        proof {
            assert(newcol@.cells =~= dkv.map_values(
                |k: Seq<CellV>| agg_value(
                    f,
                    srccol.typ,
                    srccol.cells,
                    group_rows(gcols, t@.nrows, k),
                ),
            ));
        }
        outcols.push(newcol);
        ai2 = ai2 + 1;
    }
    let out = Table { columns: outcols, row_count: ngroups };
    proof {
        let gt = grouped_table(t@, vcols, vaggs);
        assert(out@.cols =~= gt.cols);
        assert(out@ == gt);
        assert(out@.wf()) by {
            assert forall|a: int, b: int| 0 <= a < b < out@.cols.len() implies (
            #[trigger] out@.cols[a]).name != (#[trigger] out@.cols[b]).name by {
                assert(out@.cols[a].name == out_names(vcols, vaggs)[a]);
                assert(out@.cols[b].name == out_names(vcols, vaggs)[b]);
            }
            assert forall|ci2: int| 0 <= ci2 < out@.cols.len() implies col_typed(
                #[trigger] out@.cols[ci2],
            ) by {
                let col = out@.cols[ci2];
                assert forall|k: int| 0 <= k < col.cells.len() implies ((#[trigger] col.cells[k])
                    is Null || cell_type_of(col.cells[k]) == col.typ) by {
                    if ci2 < vcols.len() {
                        assert(col.cells[k] == dkv[k][ci2]);
                        lemma_distinct_keys(keys_of(gcols, t@.nrows));
                        assert(dkv.contains(dkv[k]));
                        assert(keys_of(gcols, t@.nrows).contains(dkv[k]));
                        let u = choose|u: int|
                            0 <= u < keys_of(gcols, t@.nrows).len() && keys_of(gcols, t@.nrows)[u]
                                == dkv[k];
                        assert(dkv[k] == key_at(gcols, u));
                        assert(dkv[k][ci2] == gcols[ci2].cells[u]);
                        assert(gcols[ci2] == t@.cols[gci@[ci2] as int]);
                        assert(col_typed(t@.cols[gci@[ci2] as int]));
                    } else {
                        let a2 = ci2 - vcols.len();
                        let srccol = t@.col(vaggs[a2].column);
                        let rows = group_rows(gcols, t@.nrows, dkv[k]);
                        let vs = non_null_vals(srccol.cells, rows);
                        assert(col.cells[k] == agg_value(
                            vaggs[a2].function,
                            srccol.typ,
                            srccol.cells,
                            rows,
                        ));
                        crate::executor::lemma_sel_indices_bounds(
                            t@.nrows,
                            |i2: int| key_at(gcols, i2) == dkv[k],
                        );
                        assert(t@.has_col(vaggs[a2].column)) by {
                            assert(agg_columns(vaggs)[a2] == vaggs[a2].column);
                            assert(t@.cols[aci@[a2] as int] == t@.col(agg_columns(vaggs)[a2]));
                            assert(t@.cols[aci@[a2] as int].cells.len() == t@.nrows);
                            crate::executor::lemma_select_cols_shape(t@, agg_columns(vaggs));
                        }
                        assert(srccol == t@.cols[t@.col_index(vaggs[a2].column)]);
                        assert(col_typed(srccol));
                        assert(srccol.cells.len() == t@.nrows);
                        lemma_non_null_vals(srccol.cells, rows);
                        lemma_no_bad_aggs(t@, vaggs);
                        match vaggs[a2].function {
                            AggFunc::Count => {},
                            AggFunc::Sum => {},
                            AggFunc::Avg => {},
                            AggFunc::Max => {
                                if vs.len() > 0 {
                                    lemma_fold_max_min(vs);
                                    let u = choose|u: int| 0 <= u < vs.len() && vs[u] == fold_max(
                                        vs,
                                    );
                                    assert(srccol.cells.contains(vs[u]));
                                }
                            },
                            AggFunc::Min => {
                                if vs.len() > 0 {
                                    lemma_fold_max_min(vs);
                                    let u = choose|u: int| 0 <= u < vs.len() && vs[u] == fold_min(
                                        vs,
                                    );
                                    assert(srccol.cells.contains(vs[u]));
                                }
                            },
                        }
                    }
                }
            }
        }
    }
    Result::Ok(out)
}

} // verus!
