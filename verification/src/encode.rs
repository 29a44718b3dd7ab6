//! The result encoders: a final table becomes a `QueryResponse` of
//! JSON-typed values with explicit nulls, and a response becomes CSV
//! text.

use vstd::prelude::*;
use vstd::string::StringExecFns;

use crate::error::DoubledeckerError;
use crate::numeric::{f_is_finite, float_is_finite, float_text, format_float};
use crate::statics::{JsonV, JsonValue, QueryResponse, QueryResponseV};
use crate::table::{ColumnData, Table, TableV, CellV};
use crate::text::{chars_to_string, int_text, int_to_text, str_to_chars};

verus! {

/// The JSON value of one cell: nulls stay explicit, and a non-finite
/// float refuses to encode.
pub open spec fn cell_json(c: CellV) -> Option<JsonV> {
    match c {
        CellV::Null => Some(JsonV::Null),
        CellV::Int(i) => Some(JsonV::Int(i)),
        CellV::Bool(b) => Some(JsonV::Bool(b)),
        CellV::Str(s) => Some(JsonV::Str(s)),
        CellV::Float(b) => if f_is_finite(b) {
            Some(JsonV::Float(b))
        } else {
            None
        },
    }
}

/// Extracts one cell as a JSON value, exactly as `cell_json` says; a
/// NaN or infinite float fails the whole encoding.
pub fn extract_typed_value(data: &ColumnData, row: usize) -> (r: Result<
    JsonValue,
    DoubledeckerError,
>)
    requires
        row < data.cells().len(),
    ensures
        match r {
            Result::Ok(v) => cell_json(data.cells()[row as int]) == Some(v@),
            Result::Err(e) => cell_json(data.cells()[row as int]) is None && (
            e matches DoubledeckerError::SerializationError(s) && s@ == "non-finite float value"@),
        },
{
    let c = data.cell(row);
    match c {
        crate::table::Cell::Null => Result::Ok(JsonValue::Null),
        crate::table::Cell::Int(i) => Result::Ok(JsonValue::Int(i)),
        crate::table::Cell::Bool(b) => Result::Ok(JsonValue::Bool(b)),
        crate::table::Cell::Str(s) => Result::Ok(JsonValue::Str(s)),
        crate::table::Cell::Float(b) => {
            if float_is_finite(b) {
                Result::Ok(JsonValue::Float(b))
            } else {
                Result::Err(
                    DoubledeckerError::SerializationError(("non-finite float value").to_owned()),
                )
            }
        },
    }
}

/// Whether every cell of a table encodes (no non-finite float).
pub open spec fn table_encodable(t: TableV) -> bool {
    forall|j: int, i: int|
        0 <= j < t.cols.len() && 0 <= i < t.nrows ==> cell_json(
            #[trigger] t.cols[j].cells[i],
        ) is Some
}

/// The response a table encodes to: its column names in schema order,
/// and one JSON row per table row, positionally aligned.
pub open spec fn response_of(t: TableV) -> QueryResponseV {
    QueryResponseV {
        columns: t.cols.map_values(|c: crate::table::ColumnV| c.name),
        rows: Seq::new(
            if t.nrows < 0 {
                0
            } else {
                t.nrows as nat
            },
            |i: int| Seq::new(t.cols.len(), |j: int| cell_json(t.cols[j].cells[i])->0),
        ),
    }
}

/// Encodes a table as a response, exactly as `response_of` describes;
/// the first non-finite float aborts the encoding.
pub fn table_to_response(t: &Table) -> (r: Result<QueryResponse, DoubledeckerError>)
    requires
        t@.wf(),
    ensures
        match r {
            Result::Ok(resp) => table_encodable(t@) && resp@ == response_of(t@),
            Result::Err(e) => !table_encodable(t@) && (
            e matches DoubledeckerError::SerializationError(s) && s@ == "non-finite float value"@),
        },
{
    let mut columns: Vec<String> = Vec::new();
    let mut j: usize = 0;
    while j < t.columns.len()
        invariant
            j <= t.columns@.len(),
            columns@.len() == j,
            forall|k: int| 0 <= k < j ==> (#[trigger] columns@[k])@ == t@.cols[k].name,
        decreases t.columns@.len() - j,
    {
        columns.push(t.columns[j].name.clone());
        j = j + 1;
    }
    let mut rows: Vec<Vec<JsonValue>> = Vec::new();
    let n = t.rows();
    let mut i: usize = 0;
    while i < n
        invariant
            i <= n,
            n == t@.nrows,
            t@.wf(),
            rows@.len() == i,
            forall|i2: int, j2: int|
                0 <= i2 < i && 0 <= j2 < t@.cols.len() ==> cell_json(
                    #[trigger] t@.cols[j2].cells[i2],
                ) is Some,
            forall|i2: int|
                0 <= i2 < i ==> (#[trigger] rows@[i2])@.len() == t@.cols.len(),
            forall|i2: int, j2: int|
                0 <= i2 < i && 0 <= j2 < t@.cols.len() ==> rows@[i2]@.map_values(
                    |v: JsonValue| v@,
                )[j2] == cell_json(#[trigger] t@.cols[j2].cells[i2])->0,
        decreases n - i,
    {
        let mut row: Vec<JsonValue> = Vec::new();
        let mut j2: usize = 0;
        while j2 < t.columns.len()
            invariant
                j2 <= t@.cols.len(),
                i < t@.nrows,
                t@.wf(),
                row@.len() == j2,
                forall|k: int|
                    0 <= k < j2 ==> cell_json((#[trigger] t@.cols[k]).cells[i as int]) is Some,
                forall|k: int|
                    0 <= k < j2 ==> (#[trigger] row@[k])@ == cell_json(
                        t@.cols[k].cells[i as int],
                    )->0,
            decreases t@.cols.len() - j2,
        {
            proof {
                assert(t@.cols[j2 as int].cells.len() == t@.nrows);
            }
            match extract_typed_value(&t.columns[j2].data, i) {
                Result::Ok(v) => {
                    row.push(v);
                },
                Result::Err(e) => {
                    proof {
                        assert(!table_encodable(t@));
                    }
                    return Result::Err(e);
                },
            }
            j2 = j2 + 1;
        }
        rows.push(row);
        i = i + 1;
    }
    let resp = QueryResponse { columns, rows };
    proof {
        assert(resp@.columns =~= response_of(t@).columns);
        assert forall|i2: int| 0 <= i2 < resp@.rows.len() implies #[trigger] resp@.rows[i2]
            == response_of(t@).rows[i2] by {
            assert(resp@.rows[i2] == rows@[i2]@.map_values(|v: JsonValue| v@));
            assert(resp@.rows[i2] =~= response_of(t@).rows[i2]);
        }
        assert(resp@.rows =~= response_of(t@).rows);
        assert(resp@ == response_of(t@));
    }
    Result::Ok(resp)
}

/// Whether a CSV field must be quoted: it holds a comma, a quote or a
/// newline.
pub open spec fn needs_quoting(s: Seq<char>) -> bool {
    exists|i: int| 0 <= i < s.len() && (s[i] == ',' || s[i] == '"' || s[i] == '\n')
}

/// A field's text with every quote doubled.
pub open spec fn escape_quotes(s: Seq<char>) -> Seq<char>
    decreases s.len(),
{
    if s.len() == 0 {
        Seq::empty()
    } else {
        escape_quotes(s.drop_last()) + (if s.last() == '"' {
            seq!['"', '"']
        } else {
            seq![s.last()]
        })
    }
}

/// How one JSON value renders as a CSV field: nulls are empty, numbers
/// and booleans render plainly, and text is quoted only when needed.
pub open spec fn csv_field(v: JsonV) -> Seq<char> {
    match v {
        JsonV::Null => Seq::empty(),
        JsonV::Bool(b) => if b {
            "true"@
        } else {
            "false"@
        },
        JsonV::Int(i) => int_text(i as int),
        JsonV::Float(b) => float_text(b),
        JsonV::Str(s) => if needs_quoting(s) {
            seq!['"'] + escape_quotes(s) + seq!['"']
        } else {
            s
        },
    }
}

/// Pieces of text joined by commas.
pub open spec fn joined(fields: Seq<Seq<char>>) -> Seq<char>
    decreases fields.len(),
{
    if fields.len() == 0 {
        Seq::empty()
    } else if fields.len() == 1 {
        fields[0]
    } else {
        joined(fields.drop_last()) + seq![','] + fields.last()
    }
}

/// The CSV lines of the rows, each newline-terminated.
pub open spec fn rows_text(rows: Seq<Seq<JsonV>>) -> Seq<char>
    decreases rows.len(),
{
    if rows.len() == 0 {
        Seq::empty()
    } else {
        rows_text(rows.drop_last()) + joined(rows.last().map_values(|v: JsonV| csv_field(v)))
            + seq!['\n']
    }
}

/// The CSV text of a response: the header line (names joined bare),
/// then one line per row, every line newline-terminated.
pub open spec fn csv_text(r: QueryResponseV) -> Seq<char> {
    joined(r.columns) + seq!['\n'] + rows_text(r.rows)
}

/// Appends one rendered CSV field.
fn push_field(out: &mut Vec<char>, v: &JsonValue)
    ensures
        final(out)@ == old(out)@ + csv_field(v@),
{
    match v {
        JsonValue::Null => {
        },
        JsonValue::Bool(b) => {
            let mut piece = str_to_chars(if *b {
                "true"
            } else {
                "false"
            });
            out.append(&mut piece);
        },
        JsonValue::Int(i) => {
            let mut piece = int_to_text(*i);
            out.append(&mut piece);
        },
        JsonValue::Float(bits) => {
            let s = format_float(*bits);
            let mut piece = str_to_chars(s.as_str());
            out.append(&mut piece);
        },
        JsonValue::Str(s) => {
            let cs = str_to_chars(s.as_str());
            let mut quote = false;
            let mut i: usize = 0;
            while i < cs.len()
                invariant
                    i <= cs@.len(),
                    quote == (exists|k: int|
                        0 <= k < i && (cs@[k] == ',' || cs@[k] == '"' || cs@[k] == '\n')),
                decreases cs@.len() - i,
            {
                let c = cs[i];
                if c == ',' || c == '"' || c == '\n' {
                    quote = true;
                }
                i = i + 1;
            }
            proof {
                assert(quote == needs_quoting(s@));
            }
            if quote {
                out.push('"');
                let mut k: usize = 0;
                while k < cs.len()
                    invariant
                        k <= cs@.len(),
                        cs@ == s@,
                        v@ == JsonV::Str(s@),
                        needs_quoting(s@),
                        csv_field(v@) == seq!['"'] + escape_quotes(s@) + seq!['"'],
                        out@ == old(out)@ + csv_field(v@).subrange(
                            0,
                            1 + escape_quotes(cs@.subrange(0, k as int)).len() as int,
                        ),
                    decreases cs@.len() - k,
                {
                    proof {
                        assert(cs@.subrange(0, k + 1).drop_last() =~= cs@.subrange(0, k as int));
                        assert(cs@.subrange(0, k + 1).last() == cs@[k as int]);
                        lemma_escape_prefix(cs@, k as int);
                        lemma_escape_prefix(cs@, k + 1);
                        assert(escape_quotes(cs@.subrange(0, k + 1)) == escape_quotes(
                            cs@.subrange(0, k as int),
                        ) + (if cs@[k as int] == '"' {
                            seq!['"', '"']
                        } else {
                            seq![cs@[k as int]]
                        }));
                    }
                    let c = cs[k];
                    if c == '"' {
                        out.push('"');
                        out.push('"');
                    } else {
                        out.push(c);
                    }
                    proof {
                        let ek = escape_quotes(cs@.subrange(0, k as int));
                        let ek1 = escape_quotes(cs@.subrange(0, k + 1));
                        assert(escape_quotes(cs@).subrange(0, ek.len() as int) == ek);
                        assert(escape_quotes(cs@).subrange(0, ek1.len() as int) == ek1);
                        assert(out@ =~= old(out)@ + csv_field(v@).subrange(
                            0,
                            1 + ek1.len() as int,
                        )) by {
                            assert forall|x: int|
                                0 <= x < out@.len() implies out@[x] == (old(out)@ + csv_field(
                                v@,
                            ).subrange(0, 1 + ek1.len() as int))[x] by {
                                let base = old(out)@.len() as int;
                                if x >= base + 1 + ek.len() {
                                    let tt = x - base - 1;
                                    assert(csv_field(v@)[1 + tt] == escape_quotes(cs@)[tt]);
                                    assert(escape_quotes(cs@)[tt] == ek1[tt]) by {
                                        assert(escape_quotes(cs@).subrange(
                                            0,
                                            ek1.len() as int,
                                        )[tt] == escape_quotes(cs@)[tt]);
                                    }
                                } else if x >= base {
                                    let tt = x - base;
                                    assert((old(out)@ + csv_field(v@).subrange(
                                        0,
                                        1 + ek.len() as int,
                                    ))[x] == csv_field(v@).subrange(0, 1 + ek.len() as int)[tt]);
                                }
                            }
                        }
                    }
                    k = k + 1;
                }
                out.push('"');
                proof {
                    assert(cs@.subrange(0, cs@.len() as int) =~= cs@);
                    assert(out@ =~= old(out)@ + csv_field(v@));
                }
            } else {
                let mut piece = str_to_chars(s.as_str());
                out.append(&mut piece);
            }
        },
    }
}

/// The escaped form of a prefix is a prefix of the escaped whole.
proof fn lemma_escape_prefix(s: Seq<char>, k: int)
    requires
        0 <= k <= s.len(),
    ensures
        escape_quotes(s.subrange(0, k)).len() <= escape_quotes(s).len(),
        escape_quotes(s).subrange(0, escape_quotes(s.subrange(0, k)).len() as int) == escape_quotes(
            s.subrange(0, k),
        ),
    decreases s.len() - k,
{
    if k == s.len() {
        assert(s.subrange(0, k) =~= s);
        assert(escape_quotes(s).subrange(0, escape_quotes(s).len() as int) =~= escape_quotes(s));
    } else {
        lemma_escape_prefix(s, k + 1);
        assert(s.subrange(0, k + 1).drop_last() =~= s.subrange(0, k));
        assert(s.subrange(0, k + 1).last() == s[k]);
        assert(escape_quotes(s.subrange(0, k + 1)) == escape_quotes(s.subrange(0, k)) + (if s[k]
            == '"' {
            seq!['"', '"']
        } else {
            seq![s[k]]
        }));
        let ek = escape_quotes(s.subrange(0, k));
        let ek1 = escape_quotes(s.subrange(0, k + 1));
        assert(escape_quotes(s).subrange(0, ek.len() as int) =~= ek) by {
            assert forall|t: int| 0 <= t < ek.len() implies escape_quotes(s)[t] == ek[t] by {
                assert(escape_quotes(s).subrange(0, ek1.len() as int)[t] == ek1[t]);
            }
        }
    }
}

/// Encodes a response as CSV text, exactly as `csv_text` describes.
pub fn query_response_to_csv(resp: &QueryResponse) -> (r: String)
    ensures
        r@ == csv_text(resp@),
{
    let mut out: Vec<char> = Vec::new();
    let ghost colsv = resp@.columns;
    let mut j: usize = 0;
    while j < resp.columns.len()
        invariant
            j <= resp.columns@.len(),
            colsv == resp@.columns,
            out@ == joined(colsv.subrange(0, j as int)),
        decreases resp.columns@.len() - j,
    {
        proof {
            assert(colsv.subrange(0, j + 1).drop_last() =~= colsv.subrange(0, j as int));
            assert(colsv.subrange(0, j + 1).last() == colsv[j as int]);
        }
        if j > 0 {
            out.push(',');
        }
        let mut piece = str_to_chars(resp.columns[j].as_str());
        out.append(&mut piece);
        proof {
            assert(out@ =~= joined(colsv.subrange(0, j + 1)));
        }
        j = j + 1;
    }
    proof {
        assert(colsv.subrange(0, colsv.len() as int) =~= colsv);
    }
    out.push('\n');
    let ghost rowsv = resp@.rows;
    let ghost header = joined(colsv) + seq!['\n'];
    proof {
        assert(out@ =~= header + rows_text(rowsv.subrange(0, 0)));
    }
    let mut i: usize = 0;
    while i < resp.rows.len()
        invariant
            i <= resp.rows@.len(),
            colsv == resp@.columns,
            rowsv == resp@.rows,
            header == joined(colsv) + seq!['\n'],
            out@ == header + rows_text(rowsv.subrange(0, i as int)),
        decreases resp.rows@.len() - i,
    {
        let row = &resp.rows[i];
        let ghost fieldsv = rowsv[i as int].map_values(|v: JsonV| csv_field(v));
        let ghost linestart = out@;
        let mut k: usize = 0;
        while k < row.len()
            invariant
                k <= row@.len(),
                rowsv == resp@.rows,
                i < rowsv.len(),
                row@.map_values(|v: JsonValue| v@) == rowsv[i as int],
                fieldsv == rowsv[i as int].map_values(|v: JsonV| csv_field(v)),
                out@ == linestart + joined(fieldsv.subrange(0, k as int)),
            decreases row@.len() - k,
        {
            proof {
                assert(fieldsv.subrange(0, k + 1).drop_last() =~= fieldsv.subrange(0, k as int));
                assert(fieldsv.subrange(0, k + 1).last() == fieldsv[k as int]);
                assert(row@[k as int]@ == rowsv[i as int][k as int]);
                assert(fieldsv[k as int] == csv_field(row@[k as int]@));
            }
            if k > 0 {
                out.push(',');
            }
            push_field(&mut out, &row[k]);
            proof {
                assert(out@ =~= linestart + joined(fieldsv.subrange(0, k + 1)));
            }
            k = k + 1;
        }
        out.push('\n');
        proof {
            assert(fieldsv.subrange(0, fieldsv.len() as int) =~= fieldsv);
            assert(rowsv.subrange(0, i + 1).drop_last() =~= rowsv.subrange(0, i as int));
            assert(rowsv.subrange(0, i + 1).last() == rowsv[i as int]);
            assert(out@ =~= header + rows_text(rowsv.subrange(0, i + 1)));
        }
        i = i + 1;
    }
    proof {
        assert(rowsv.subrange(0, rowsv.len() as int) =~= rowsv);
    }
    chars_to_string(&out)
}

} // verus!
