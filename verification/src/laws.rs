//! Engine-wide laws, each proved once and for all inputs: determinism,
//! projection composition, group-by validation, the sort/limit minimum
//! guarantee, null-ignoring aggregation and null fidelity in both
//! encodings.

use vstd::prelude::*;

use crate::encode::{cell_json, csv_field, csv_text, response_of, table_encodable};
use crate::helpers::spec_matches;
use crate::numeric::parsed_float;
use crate::statics::FilterOp;
use crate::executor::{execute_spec, select_cols, select_spec, OpOutcome, PipeOutcome};
use crate::groupby::{agg_value, group_by_spec, non_null_vals};
use crate::statics::AggFunc;
use crate::sort::{idx_before, lemma_sort_perm, lemma_val_asym, sort_perm, sort_spec, val_lt};
use crate::statics::{AggregationV, OperationV};
use crate::table::{col_typed, CellV, ColType, ColumnV, TableV};

verus! {

/// Determinism: the pipeline, the response encoding and the CSV
/// rendering are functions of their inputs alone, so repeated runs over
/// one table with one operation list yield identical results, byte for
/// byte once encoded.
pub proof fn execute_is_deterministic(
    t1: TableV,
    t2: TableV,
    ops1: Seq<OperationV>,
    ops2: Seq<OperationV>,
)
    requires
        t1 == t2,
        ops1 == ops2,
    ensures
        execute_spec(t1, ops1) == execute_spec(t2, ops2),
        execute_spec(t1, ops1) matches PipeOutcome::Done(out) ==> response_of(out) == response_of(
            execute_spec(t2, ops2)->Done_0,
        ) && csv_text(response_of(out)) == csv_text(response_of(execute_spec(t2, ops2)->Done_0)),
{
}

/// Projection composition: selecting `[a, b]` and then `[a]` yields
/// exactly what selecting `[a]` directly yields.
pub proof fn select_composes(t: TableV, a: Seq<char>, b: Seq<char>)
    requires
        t.wf(),
        t.has_col(a),
        t.has_col(b),
        a != b,
    ensures
        select_spec(t, seq![a, b]) is Table,
        select_spec(select_spec(t, seq![a, b])->Table_0, seq![a]) == select_spec(t, seq![a]),
{
    let ab = seq![a, b];
    let ja = seq![a];
    assert(ab.drop_last() =~= ja);
    assert(ja.drop_last() =~= Seq::<Seq<char>>::empty());
    assert(ja.drop_last() == Seq::<Seq<char>>::empty());
    assert(select_cols(t, Seq::<Seq<char>>::empty()) == Result::<Seq<ColumnV>, Seq<char>>::Ok(
        Seq::<ColumnV>::empty(),
    ));
    assert(select_cols(t, ja) == Result::<Seq<ColumnV>, Seq<char>>::Ok(
        Seq::<ColumnV>::empty().push(t.col(a)),
    ));
    assert(select_cols(t, ab) == Result::<Seq<ColumnV>, Seq<char>>::Ok(
        Seq::<ColumnV>::empty().push(t.col(a)).push(t.col(b)),
    ));
    assert(crate::executor::names_unique(ab)) by {
        assert forall|i: int, j: int| 0 <= i < j < ab.len() implies ab[i] != ab[j] by {
            assert(i == 0 && j == 1);
            assert(ab[0] == a && ab[1] == b);
        }
    }
    assert(crate::executor::names_unique(ja));
    let t1 = select_spec(t, ab)->Table_0;
    let ca = t.col_index(a);
    let cb = t.col_index(b);
    assert(0 <= ca < t.cols.len() && t.cols[ca].name == a);
    assert(0 <= cb < t.cols.len() && t.cols[cb].name == b);
    assert(t1.cols[0] == t.col(a) && t1.cols[1] == t.col(b));
    assert(t1.cols[0].name == a && t1.cols[1].name == b);
    assert(t1.has_col(a));
    let k = t1.col_index(a);
    assert(0 <= k < 2 && t1.cols[k].name == a);
    assert(k == 0);
    assert(t1.col(a) == t.col(a));
    assert(select_cols(t1, Seq::<Seq<char>>::empty()) == Result::<Seq<ColumnV>, Seq<char>>::Ok(
        Seq::<ColumnV>::empty(),
    ));
    assert(select_cols(t1, ja) == Result::<Seq<ColumnV>, Seq<char>>::Ok(
        Seq::<ColumnV>::empty().push(t1.col(a)),
    ));
    assert(select_spec(t1, ja) == select_spec(t, ja));
}

/// Filter numeric coercion: a comparison text that parses as a number
/// filters by that number alone, so two texts that parse to the same
/// number (such as an integer written with or without a decimal point)
/// filter a table identically.
pub proof fn filter_coerces_by_parsed_number(
    t: TableV,
    column: Seq<char>,
    op: FilterOp,
    v1: Seq<char>,
    v2: Seq<char>,
)
    requires
        !(op is Contains),
        parsed_float(v1) == parsed_float(v2),
        parsed_float(v1) is Some,
    ensures
        crate::executor::filter_spec(t, column, op, v1) == crate::executor::filter_spec(
            t,
            column,
            op,
            v2,
        ),
{
    assert(crate::executor::filter_pred(t.col(column), op, v1) =~= crate::executor::filter_pred(
        t.col(column),
        op,
        v2,
    )) by {
        assert forall|i: int|
            #[trigger] crate::executor::filter_pred(t.col(column), op, v1)(i)
                == crate::executor::filter_pred(t.col(column), op, v2)(i) by {
            assert(spec_matches(t.col(column).cells[i], op, v1) == spec_matches(
                t.col(column).cells[i],
                op,
                v2,
            ));
        }
    }
}

/// Group-by validation: an empty group-column list is refused, and an
/// empty aggregation list is refused independently of everything else.
pub proof fn group_by_validates(t: TableV, columns: Seq<Seq<char>>, aggs: Seq<AggregationV>)
    ensures
        columns.len() == 0 ==> group_by_spec(t, columns, aggs) == OpOutcome::InvalidQuery(
            "GroupBy requires at least one column to group by"@,
        ),
        columns.len() > 0 && aggs.len() == 0 ==> group_by_spec(t, columns, aggs)
            == OpOutcome::InvalidQuery(
            "GroupBy requires at least one aggregation function (e.g., SUM, AVG, COUNT)"@,
        ),
{
}

/// Null-ignoring aggregation: a null cell contributes nothing to any
/// aggregate — adding a row whose cell is null leaves every aggregation
/// value unchanged.
pub proof fn aggregation_ignores_nulls(
    f: AggFunc,
    typ: ColType,
    cells: Seq<CellV>,
    idxs: Seq<int>,
    i: int,
)
    requires
        0 <= i < cells.len(),
        cells[i] is Null,
    ensures
        agg_value(f, typ, cells, idxs.push(i)) == agg_value(f, typ, cells, idxs),
{
    assert(idxs.push(i).drop_last() =~= idxs);
    assert(idxs.push(i).last() == i);
    assert(non_null_vals(cells, idxs.push(i)) == non_null_vals(cells, idxs));
}

/// Count counts exactly the non-null cells of its column.
pub proof fn count_counts_non_null(typ: ColType, cells: Seq<CellV>, idxs: Seq<int>)
    ensures
        agg_value(AggFunc::Count, typ, cells, idxs) == CellV::Int(
            non_null_vals(cells, idxs).len() as i64,
        ),
{
}

/// Sort then limit one: an ascending sort followed by a limit of one
/// returns exactly the globally smallest row — no other row sorts
/// before it, and among equal keys the earliest original row wins,
/// since the order breaks ties by original position.
pub proof fn sort_then_limit_one(t: TableV, column: Seq<char>)
    requires
        t.wf(),
        t.has_col(column),
        t.nrows > 0,
    ensures
        sort_spec(t, column, true) is Table,
        crate::executor::limit_spec(sort_spec(t, column, true)->Table_0, 1) is Table,
        ({
            let out = crate::executor::limit_spec(sort_spec(t, column, true)->Table_0, 1)->Table_0;
            &&& out.nrows == 1
            &&& exists|m: int|
                #![trigger t.col(column).cells[m]]
                {
                    &&& 0 <= m < t.nrows
                    &&& (forall|j: int|
                        0 <= j < t.nrows ==> !(#[trigger] idx_before(
                            t.col(column).cells,
                            true,
                            j,
                            m,
                        )))
                    &&& (forall|ci: int|
                        0 <= ci < t.cols.len() ==> (#[trigger] out.cols[ci]).cells[0]
                            == t.cols[ci].cells[m])
                }
        }),
{
    let keys = t.col(column).cells;
    let ci0 = t.col_index(column);
    assert(0 <= ci0 < t.cols.len() && t.cols[ci0].name == column);
    assert(col_typed(t.cols[ci0]));
    assert(keys.len() == t.nrows);
    lemma_sort_perm(keys, t.col(column).typ, true, t.nrows);
    let perm = sort_perm(keys, true, t.nrows);
    let m = perm[0];
    let sorted = sort_spec(t, column, true)->Table_0;
    assert(sorted.nrows == t.nrows);
    let out = crate::executor::limit_spec(sorted, 1)->Table_0;
    assert(out.nrows == 1);
    assert forall|j: int| 0 <= j < t.nrows implies !idx_before(keys, true, j, m) by {
        if j == m {
            if idx_before(keys, true, m, m) {
                if !(keys[m] is Null) && val_lt(keys[m], keys[m]) {
                    lemma_val_asym(keys[m], keys[m]);
                }
            }
        } else {
            assert(perm.contains(j));
            let q = choose|q: int| 0 <= q < perm.len() && perm[q] == j;
            if q == 0 {
                assert(j == m);
            } else {
                assert(!idx_before(keys, true, perm[q], perm[0]));
            }
        }
    }
    assert forall|ci: int| 0 <= ci < t.cols.len() implies (#[trigger] out.cols[ci]).cells[0]
        == t.cols[ci].cells[m] by {
        assert(sorted.cols[ci] == crate::table::col_take(t.cols[ci], perm));
        assert(sorted.cols[ci].cells[0] == t.cols[ci].cells[m]);
        assert(out.cols[ci] == crate::table::col_take(sorted.cols[ci], crate::executor::iota(1)));
        assert(crate::executor::iota(1)[0] == 0);
        assert(out.cols[ci].cells[0] == sorted.cols[ci].cells[0]);
    }
    assert(t.col(column).cells[m] == keys[m]);
    assert(0 <= m < t.nrows && (forall|j: int|
        0 <= j < t.nrows ==> !(#[trigger] idx_before(t.col(column).cells, true, j, m))) && (
    forall|ci: int|
        0 <= ci < t.cols.len() ==> (#[trigger] out.cols[ci]).cells[0] == t.cols[ci].cells[m]));
}

/// Null fidelity: a null cell encodes as an explicit JSON null and
/// renders as an empty CSV field, never as an omitted value.
pub proof fn null_cells_stay_explicit(t: TableV, i: int, j: int)
    requires
        t.wf(),
        table_encodable(t),
        0 <= j < t.cols.len(),
        0 <= i < t.nrows,
        t.cols[j].cells[i] is Null,
    ensures
        response_of(t).rows[i].len() == t.cols.len(),
        response_of(t).rows[i][j] is Null,
        csv_field(response_of(t).rows[i][j]) == Seq::<char>::empty(),
{
    assert(cell_json(t.cols[j].cells[i]) == Some(crate::statics::JsonV::Null));
}

} // verus!
