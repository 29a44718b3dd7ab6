//! Stable sorting of a table by one column: nulls sort after every
//! value regardless of direction, and ties keep their original order.

use vstd::prelude::*;

use crate::error::DoubledeckerError;
use crate::executor::{op_result_ok, OpOutcome};
use crate::numeric::{f_is_nan, f_key, float_cmp, float_is_nan};
use crate::table::{
    cell_type_of, col_typed, table_take, Cell, CellV, ColType, ColumnData, Table, TableV,
};
use crate::text::{chars_lt, lemma_lex_asym, lemma_lex_total, lemma_lex_trans, lex_lt, str_to_chars};

verus! {

/// Strict order on two non-null cell values of one type: integers by
/// value, doubles by the IEEE order with every NaN above every number,
/// booleans with false first, text lexicographically by character code.
/// Values of different types do not compare.
pub open spec fn val_lt(a: CellV, b: CellV) -> bool {
    match (a, b) {
        (CellV::Int(x), CellV::Int(y)) => x < y,
        (CellV::Float(x), CellV::Float(y)) => if f_is_nan(x) {
            false
        } else if f_is_nan(y) {
            true
        } else {
            f_key(x) < f_key(y)
        },
        (CellV::Bool(x), CellV::Bool(y)) => !x && y,
        (CellV::Str(x), CellV::Str(y)) => lex_lt(x, y),
        _ => false,
    }
}

/// The value order is asymmetric.
pub proof fn lemma_val_asym(a: CellV, b: CellV)
    requires
        val_lt(a, b),
    ensures
        !val_lt(b, a),
{
    if a is Str && b is Str {
        lemma_lex_asym(a->Str_0, b->Str_0);
    }
}

/// The value order is transitive.
pub proof fn lemma_val_trans(a: CellV, b: CellV, c: CellV)
    requires
        val_lt(a, b),
        val_lt(b, c),
    ensures
        val_lt(a, c),
{
    if a is Str && b is Str && c is Str {
        lemma_lex_trans(a->Str_0, b->Str_0, c->Str_0);
    }
}

/// Among same-typed values, a tie substitutes freely on the left of
/// the order.
pub proof fn lemma_val_tie_left(a: CellV, b: CellV, c: CellV)
    requires
        !(a is Null) && !(b is Null) && !(c is Null),
        cell_type_of(a) == cell_type_of(b),
        !val_lt(a, b),
        !val_lt(b, a),
        val_lt(b, c),
    ensures
        val_lt(a, c),
{
    if a is Str && b is Str {
        lemma_lex_total(a->Str_0, b->Str_0);
    }
}

/// Among same-typed values, a tie substitutes freely on the right of
/// the order.
pub proof fn lemma_val_tie_right(a: CellV, b: CellV, c: CellV)
    requires
        !(a is Null) && !(b is Null) && !(c is Null),
        cell_type_of(b) == cell_type_of(c),
        val_lt(a, b),
        !val_lt(b, c),
        !val_lt(c, b),
    ensures
        val_lt(a, c),
{
    if b is Str && c is Str {
        lemma_lex_total(b->Str_0, c->Str_0);
    }
}

/// The sort order on row indices: a null key sorts after every non-null
/// key whatever the direction, equal keys keep their original order,
/// and otherwise the direction decides by the value order.
pub open spec fn idx_before(keys: Seq<CellV>, asc: bool, i: int, j: int) -> bool {
    let a = keys[i];
    let b = keys[j];
    if a is Null && b is Null {
        i < j
    } else if a is Null {
        false
    } else if b is Null {
        true
    } else if asc {
        val_lt(a, b) || (!val_lt(b, a) && i < j)
    } else {
        val_lt(b, a) || (!val_lt(a, b) && i < j)
    }
}

/// Two distinct rows always compare, one way or the other.
pub proof fn lemma_ib_total(keys: Seq<CellV>, asc: bool, i: int, j: int)
    requires
        i != j,
    ensures
        idx_before(keys, asc, i, j) || idx_before(keys, asc, j, i),
{
}

/// The row order is asymmetric.
pub proof fn lemma_ib_asym(keys: Seq<CellV>, asc: bool, i: int, j: int)
    requires
        idx_before(keys, asc, i, j),
    ensures
        !idx_before(keys, asc, j, i),
{
    if !(keys[i] is Null) && !(keys[j] is Null) {
        if val_lt(keys[i], keys[j]) {
            lemma_val_asym(keys[i], keys[j]);
        }
        if val_lt(keys[j], keys[i]) {
            lemma_val_asym(keys[j], keys[i]);
        }
    }
}

/// The row order is transitive over the keys of one typed column.
pub proof fn lemma_ib_trans(keys: Seq<CellV>, typ: ColType, asc: bool, i: int, j: int, k: int)
    requires
        0 <= i < keys.len(),
        0 <= j < keys.len(),
        0 <= k < keys.len(),
        forall|t: int|
            0 <= t < keys.len() ==> ((#[trigger] keys[t]) is Null || cell_type_of(keys[t]) == typ),
        idx_before(keys, asc, i, j),
        idx_before(keys, asc, j, k),
    ensures
        idx_before(keys, asc, i, k),
{
    let a = keys[i];
    let b = keys[j];
    let c = keys[k];
    if !(a is Null) && !(b is Null) && !(c is Null) {
        if asc {
            if val_lt(a, b) && val_lt(b, c) {
                lemma_val_trans(a, b, c);
            } else if val_lt(a, b) && !val_lt(b, c) {
                lemma_val_asym(a, b);
                lemma_val_tie_right(a, b, c);
            } else if !val_lt(a, b) && val_lt(b, c) {
                lemma_val_tie_left(a, b, c);
            } else {
                if val_lt(a, c) {
                    lemma_val_tie_left(b, a, c);
                    assert(false);
                } else if val_lt(c, a) {
                    lemma_val_tie_right(c, a, b);
                    assert(false);
                }
            }
        } else {
            if val_lt(c, b) && val_lt(b, a) {
                lemma_val_trans(c, b, a);
            } else if val_lt(b, a) && !val_lt(c, b) {
                lemma_val_asym(b, a);
                lemma_val_tie_left(c, b, a);
            } else if !val_lt(b, a) && val_lt(c, b) {
                lemma_val_tie_right(c, b, a);
            } else {
                if val_lt(c, a) {
                    lemma_val_tie_left(b, c, a);
                    assert(false);
                } else if val_lt(a, c) {
                    lemma_val_tie_right(a, c, b);
                    assert(false);
                }
            }
        }
    }
}

/// Where a new row lands among already-ordered rows: it walks left past
/// every row it precedes.
pub open spec fn insert_sorted(s: Seq<int>, keys: Seq<CellV>, asc: bool, x: int) -> Seq<int>
    decreases s.len(),
{
    if s.len() == 0 {
        seq![x]
    } else if idx_before(keys, asc, x, s.last()) {
        insert_sorted(s.drop_last(), keys, asc, x).push(s.last())
    } else {
        s.push(x)
    }
}

/// The stable sort permutation: row indices in order, each inserted in
/// turn, so that equal keys keep their original order.
pub open spec fn sort_perm(keys: Seq<CellV>, asc: bool, n: int) -> Seq<int>
    decreases n,
{
    if n <= 0 {
        Seq::empty()
    } else {
        insert_sorted(sort_perm(keys, asc, n - 1), keys, asc, n - 1)
    }
}

/// Insertion grows the row list by the new row and keeps the others.
pub proof fn lemma_insert_elems(s: Seq<int>, keys: Seq<CellV>, asc: bool, x: int)
    ensures
        insert_sorted(s, keys, asc, x).len() == s.len() + 1,
        insert_sorted(s, keys, asc, x).contains(x),
        forall|v: int|
            insert_sorted(s, keys, asc, x).contains(v) <==> (s.contains(v) || v == x),
    decreases s.len(),
{
    let r = insert_sorted(s, keys, asc, x);
    if s.len() == 0 {
        assert forall|v: int| r.contains(v) <==> (s.contains(v) || v == x) by {
            if v == x {
                assert(r[0] == x);
            }
            if r.contains(v) {
                let t = choose|t: int| 0 <= t < r.len() && r[t] == v;
                assert(t == 0);
            }
            if s.contains(v) {
                let t = choose|t: int| 0 <= t < s.len() && s[t] == v;
                assert(false);
            }
        }
    } else if idx_before(keys, asc, x, s.last()) {
        lemma_insert_elems(s.drop_last(), keys, asc, x);
        let inner = insert_sorted(s.drop_last(), keys, asc, x);
        assert forall|v: int| r.contains(v) <==> (s.contains(v) || v == x) by {
            if r.contains(v) {
                let t = choose|t: int| 0 <= t < r.len() && r[t] == v;
                if t < inner.len() {
                    assert(r[t] == inner[t]);
                    assert(inner.contains(v));
                    if s.drop_last().contains(v) {
                        let u = choose|u: int| 0 <= u < s.len() - 1 && s.drop_last()[u] == v;
                        assert(s[u] == v);
                    }
                } else {
                    assert(v == s.last());
                    assert(s[s.len() - 1] == v);
                }
            }
            if s.contains(v) {
                let u = choose|u: int| 0 <= u < s.len() && s[u] == v;
                if u < s.len() - 1 {
                    assert(s.drop_last()[u] == v);
                    assert(s.drop_last().contains(v));
                    assert(inner.contains(v));
                    let w = choose|w: int| 0 <= w < inner.len() && inner[w] == v;
                    assert(r[w] == v);
                } else {
                    assert(r[r.len() - 1] == v);
                }
            }
            if v == x {
                assert(inner.contains(x));
                let w = choose|w: int| 0 <= w < inner.len() && inner[w] == x;
                assert(r[w] == x);
                assert(r.contains(v));
            }
        }
    } else {
        assert forall|v: int| r.contains(v) <==> (s.contains(v) || v == x) by {
            if r.contains(v) {
                let t = choose|t: int| 0 <= t < r.len() && r[t] == v;
                if t < s.len() {
                    assert(s[t] == v);
                } else {
                    assert(v == x);
                }
            }
            if s.contains(v) {
                let u = choose|u: int| 0 <= u < s.len() && s[u] == v;
                assert(r[u] == v);
            }
            if v == x {
                assert(r[s.len() as int] == v);
            }
        }
    }
}

/// Rows in sorted position: no later row belongs before an earlier one.
pub open spec fn sorted_by(s: Seq<int>, keys: Seq<CellV>, asc: bool) -> bool {
    forall|p: int, q: int|
        0 <= p < q < s.len() ==> !idx_before(keys, asc, #[trigger] s[q], #[trigger] s[p])
}

/// Insertion keeps the rows sorted.
pub proof fn lemma_insert_sorted(
    s: Seq<int>,
    keys: Seq<CellV>,
    typ: ColType,
    asc: bool,
    x: int,
    n: int,
)
    requires
        0 <= n <= keys.len(),
        forall|t: int|
            0 <= t < keys.len() ==> ((#[trigger] keys[t]) is Null || cell_type_of(keys[t]) == typ),
        sorted_by(s, keys, asc),
        forall|t: int| 0 <= t < s.len() ==> 0 <= #[trigger] s[t] < n,
        0 <= x < n,
        !s.contains(x),
    ensures
        sorted_by(insert_sorted(s, keys, asc, x), keys, asc),
        forall|t: int|
            0 <= t < insert_sorted(s, keys, asc, x).len() ==> 0 <= #[trigger] insert_sorted(
                s,
                keys,
                asc,
                x,
            )[t] < n,
    decreases s.len(),
{
    let r = insert_sorted(s, keys, asc, x);
    lemma_insert_elems(s, keys, asc, x);
    assert forall|t: int| 0 <= t < r.len() implies 0 <= #[trigger] r[t] < n by {
        assert(r.contains(r[t]));
        if s.contains(r[t]) {
            let u = choose|u: int| 0 <= u < s.len() && s[u] == r[t];
            assert(0 <= s[u] < n);
        }
    }
    if s.len() == 0 {
        assert(sorted_by(r, keys, asc));
    } else if idx_before(keys, asc, x, s.last()) {
        assert(sorted_by(s.drop_last(), keys, asc)) by {
            assert forall|p: int, q: int| 0 <= p < q < s.len() - 1 implies !idx_before(
                keys,
                asc,
                #[trigger] s.drop_last()[q],
                #[trigger] s.drop_last()[p],
            ) by {
                assert(s.drop_last()[q] == s[q] && s.drop_last()[p] == s[p]);
            }
        }
        assert(!s.drop_last().contains(x)) by {
            if s.drop_last().contains(x) {
                let u = choose|u: int| 0 <= u < s.len() - 1 && s.drop_last()[u] == x;
                assert(s[u] == x);
            }
        }
        lemma_insert_sorted(s.drop_last(), keys, typ, asc, x, n);
        let inner = insert_sorted(s.drop_last(), keys, asc, x);
        lemma_insert_elems(s.drop_last(), keys, asc, x);
        assert forall|p: int, q: int| 0 <= p < q < r.len() implies !idx_before(
            keys,
            asc,
            #[trigger] r[q],
            #[trigger] r[p],
        ) by {
            if q < inner.len() {
                assert(r[q] == inner[q] && r[p] == inner[p]);
            } else {
                // the last element is s.last(): show it is not before r[p]
                assert(r[q] == s.last());
                assert(r[p] == inner[p]);
                assert(inner.contains(inner[p]));
                if inner[p] == x {
                    lemma_ib_asym(keys, asc, x, s.last());
                } else {
                    assert(s.drop_last().contains(inner[p]));
                    let u = choose|u: int| 0 <= u < s.len() - 1 && s.drop_last()[u] == inner[p];
                    assert(s[u] == inner[p]);
                    assert(!idx_before(keys, asc, s[s.len() - 1], s[u]));
                }
            }
        }
    } else {
        // appended at the end: x is not before the last, hence (by
        // totality and transitivity) not before any earlier row either
        assert forall|p: int, q: int| 0 <= p < q < r.len() implies !idx_before(
            keys,
            asc,
            #[trigger] r[q],
            #[trigger] r[p],
        ) by {
            if q < s.len() {
                assert(r[q] == s[q] && r[p] == s[p]);
            } else {
                assert(r[q] == x);
                assert(r[p] == s[p]);
                if idx_before(keys, asc, x, s[p]) {
                    let last = s[s.len() - 1];
                    if p == s.len() - 1 {
                        assert(false);
                    } else {
                        assert(!idx_before(keys, asc, last, s[p]));
                        assert(s[p] != x && last != x) by {
                            assert(s.contains(s[p]));
                            assert(s.contains(last));
                        }
                        if s[p] == last {
                            assert(false);
                        } else {
                            lemma_ib_total(keys, asc, s[p], last);
                            assert(idx_before(keys, asc, s[p], last));
                            lemma_ib_trans(keys, typ, asc, x, s[p], last);
                            assert(false);
                        }
                    }
                }
            }
        }
    }
}

/// The sort permutation: one entry per row, every row present, in
/// sorted position.
pub proof fn lemma_sort_perm(keys: Seq<CellV>, typ: ColType, asc: bool, n: int)
    requires
        0 <= n <= keys.len(),
        forall|t: int|
            0 <= t < keys.len() ==> ((#[trigger] keys[t]) is Null || cell_type_of(keys[t]) == typ),
    ensures
        sort_perm(keys, asc, n).len() == n,
        forall|t: int| 0 <= t < n ==> 0 <= #[trigger] sort_perm(keys, asc, n)[t] < n,
        forall|v: int| 0 <= v < n ==> sort_perm(keys, asc, n).contains(v),
        sorted_by(sort_perm(keys, asc, n), keys, asc),
    decreases n,
{
    if n > 0 {
        lemma_sort_perm(keys, typ, asc, n - 1);
        let s = sort_perm(keys, asc, n - 1);
        assert(!s.contains(n - 1)) by {
            if s.contains(n - 1) {
                let u = choose|u: int| 0 <= u < s.len() && s[u] == n - 1;
                assert(0 <= s[u] < n - 1);
            }
        }
        assert(forall|t: int| 0 <= t < s.len() ==> 0 <= #[trigger] s[t] < n);
        lemma_insert_sorted(s, keys, typ, asc, n - 1, n);
        lemma_insert_elems(s, keys, asc, n - 1);
        assert forall|v: int| 0 <= v < n implies sort_perm(keys, asc, n).contains(v) by {
            if v < n - 1 {
                assert(s.contains(v));
            }
        }
        assert forall|t: int| 0 <= t < n implies 0 <= #[trigger] sort_perm(keys, asc, n)[t]
            < n by {
            assert(sort_perm(keys, asc, n).contains(sort_perm(keys, asc, n)[t]));
        }
    }
}

/// Whether one non-null cell strictly precedes another in the value
/// order.
pub fn cell_val_lt(a: &Cell, b: &Cell) -> (r: bool)
    ensures
        r == val_lt(a@, b@),
{
    match (a, b) {
        (Cell::Int(x), Cell::Int(y)) => x < y,
        (Cell::Float(x), Cell::Float(y)) => {
            if float_is_nan(*x) {
                false
            } else if float_is_nan(*y) {
                true
            } else {
                matches!(float_cmp(*x, *y), Some(-1i8))
            }
        },
        (Cell::Bool(x), Cell::Bool(y)) => !*x && *y,
        (Cell::Str(x), Cell::Str(y)) => {
            let xc = str_to_chars(x.as_str());
            let yc = str_to_chars(y.as_str());
            chars_lt(&xc, &yc)
        },
        _ => {
            proof {
                assert(!val_lt(a@, b@));
            }
            false
        },
    }
}

/// Whether the row at one index sorts before the row at another.
fn idx_before_exec(data: &ColumnData, asc: bool, i: usize, j: usize) -> (r: bool)
    requires
        i < data.cells().len(),
        j < data.cells().len(),
    ensures
        r == idx_before(data.cells(), asc, i as int, j as int),
{
    let a = data.cell(i);
    let b = data.cell(j);
    match (&a, &b) {
        (Cell::Null, Cell::Null) => i < j,
        (Cell::Null, _) => false,
        (_, Cell::Null) => true,
        _ => {
            if asc {
                if cell_val_lt(&a, &b) {
                    true
                } else {
                    !cell_val_lt(&b, &a) && i < j
                }
            } else {
                if cell_val_lt(&b, &a) {
                    true
                } else {
                    !cell_val_lt(&a, &b) && i < j
                }
            }
        },
    }
}

/// The stable sort permutation of the rows, by one column's cells.
fn sort_indices(data: &ColumnData, asc: bool, n: usize) -> (perm: Vec<usize>)
    requires
        data.cells().len() == n,
    ensures
        perm@.map_values(|u: usize| u as int) =~= sort_perm(data.cells(), asc, n as int),
        perm@.len() == n,
{
    let ghost keys = data.cells();
    let mut perm: Vec<usize> = Vec::new();
    let mut r: usize = 0;
    while r < n
        invariant
            r <= n,
            n == data.cells().len(),
            keys == data.cells(),
            perm@.len() == r,
            perm@.map_values(|u: usize| u as int) =~= sort_perm(keys, asc, r as int),
            forall|t: int| 0 <= t < perm@.len() ==> #[trigger] perm@[t] < n,
        decreases n - r,
    {
        let ghost s = perm@.map_values(|u: usize| u as int);
        proof {
            assert(s.subrange(0, s.len() as int) =~= s);
            assert(insert_sorted(s, keys, asc, r as int) =~= insert_sorted(
                s.subrange(0, s.len() as int),
                keys,
                asc,
                r as int,
            ) + s.subrange(s.len() as int, s.len() as int));
        }
        let mut j: usize = perm.len();
        while j > 0 && idx_before_exec(data, asc, r, perm[j - 1])
            invariant
                j <= perm@.len(),
                r < n,
                n == data.cells().len(),
                keys == data.cells(),
                s == perm@.map_values(|u: usize| u as int),
                forall|t: int| 0 <= t < perm@.len() ==> #[trigger] perm@[t] < n,
                insert_sorted(s, keys, asc, r as int) =~= insert_sorted(
                    s.subrange(0, j as int),
                    keys,
                    asc,
                    r as int,
                ) + s.subrange(j as int, s.len() as int),
            decreases j,
        {
            proof {
                let pre = s.subrange(0, j as int);
                assert(pre.last() == s[j - 1]);
                assert(pre.drop_last() =~= s.subrange(0, j - 1));
                assert(idx_before(keys, asc, r as int, s[j - 1]));
                assert(insert_sorted(pre, keys, asc, r as int) == insert_sorted(
                    s.subrange(0, j - 1),
                    keys,
                    asc,
                    r as int,
                ).push(s[j - 1]));
                assert(insert_sorted(s.subrange(0, j - 1), keys, asc, r as int).push(s[j - 1])
                    + s.subrange(j as int, s.len() as int) =~= insert_sorted(
                    s.subrange(0, j - 1),
                    keys,
                    asc,
                    r as int,
                ) + s.subrange(j - 1, s.len() as int));
            }
            j = j - 1;
        }
        proof {
            let pre = s.subrange(0, j as int);
            if j == 0 {
                assert(pre =~= Seq::<int>::empty());
                assert(insert_sorted(pre, keys, asc, r as int) =~= pre.push(r as int));
            } else {
                assert(pre.last() == s[j - 1]);
                assert(!idx_before(keys, asc, r as int, s[j - 1]));
                assert(insert_sorted(pre, keys, asc, r as int) == pre.push(r as int));
            }
            assert(insert_sorted(s, keys, asc, r as int) =~= s.subrange(0, j as int).push(
                r as int,
            ) + s.subrange(j as int, s.len() as int));
        }
        perm.insert(j, r);
        proof {
            assert(perm@.map_values(|u: usize| u as int) =~= insert_sorted(s, keys, asc, r as int));
            assert(sort_perm(keys, asc, r + 1) == insert_sorted(
                sort_perm(keys, asc, r as int),
                keys,
                asc,
                r as int,
            ));
            assert(insert_sorted(sort_perm(keys, asc, r as int), keys, asc, r as int)
                =~= insert_sorted(s, keys, asc, r as int)) by {
                assert(s =~= sort_perm(keys, asc, r as int));
            }
        }
        r = r + 1;
    }
    perm
}

/// Sorting: a stable reordering by the named column, nulls last in
/// either direction.
pub open spec fn sort_spec(t: TableV, column: Seq<char>, ascending: bool) -> OpOutcome {
    if !t.has_col(column) {
        OpOutcome::ColumnNotFound(column)
    } else {
        OpOutcome::Table(table_take(t, sort_perm(t.col(column).cells, ascending, t.nrows)))
    }
}

/// Sorts the rows, exactly as `sort_spec` describes.
pub fn sort_op(t: &Table, column: &String, ascending: bool) -> (r: Result<Table, DoubledeckerError>)
    requires
        t@.wf(),
    ensures
        op_result_ok(sort_spec(t@, column@, ascending), r),
{
    let ci = match t.find_column(column) {
        None => {
            return Result::Err(DoubledeckerError::ColumnNotFound(column.clone()));
        },
        Some(ci) => ci,
    };
    proof {
        assert(t@.cols[ci as int] == t@.col(column@));
        assert(t@.cols[ci as int].cells.len() == t@.nrows);
    }
    let data = &t.columns[ci].data;
    let perm = sort_indices(data, ascending, t.row_count);
    proof {
        let keys = t@.col(column@).cells;
        assert(col_typed(t@.cols[ci as int]));
        lemma_sort_perm(keys, t@.col(column@).typ, ascending, t@.nrows);
        assert forall|k: int| 0 <= k < perm@.len() implies #[trigger] perm@[k] < t@.nrows by {
            assert(perm@.map_values(|u: usize| u as int)[k] == sort_perm(
                keys,
                ascending,
                t@.nrows,
            )[k]);
        }
    }
    let out = t.take_rows(&perm);
    proof {
        assert(out@ == table_take(t@, sort_perm(t@.col(column@).cells, ascending, t@.nrows)));
    }
    Result::Ok(out)
}

} // verus!
