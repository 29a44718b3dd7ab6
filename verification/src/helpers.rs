//! The expression builder: it turns the declarative parts of filter
//! and group-by specifications into evaluated forms, applying the
//! value-typing rule (numeric parse first, text literal as fallback)
//! and the default output naming of aggregations.

use vstd::prelude::*;
use vstd::string::StringExecFns;

use crate::error::DoubledeckerError;
use crate::numeric::{f_eq, f_lt, float_of_int, parse_float, parsed_float};
use crate::statics::{AggFunc, Aggregation, AggregationV, FilterOp};
use crate::table::{Cell, CellV, ColType};
use crate::text::{chars_contains, chars_lt, contains_sub, lex_lt, str_to_chars};

verus! {

/// A filter ready to evaluate: the named column, the operator, the raw
/// comparison text and, when that text parses as a number, its value.
pub struct FilterExpr {
    pub column: String,
    pub op: FilterOp,
    pub value: String,
    pub num: Option<u64>,
}

impl FilterExpr {
    /// The numeric literal is exactly what the raw text parses to.
    pub open spec fn wf(self) -> bool {
        self.num == parsed_float(self.value@)
    }
}

/// Builds a filter expression: the value is tried as a number first
/// and kept as a text literal otherwise.
pub fn build_filter_expr(column: &str, operator: FilterOp, value: &str) -> (r: FilterExpr)
    ensures
        r.column@ == column@,
        r.op == operator,
        r.value@ == value@,
        r.wf(),
{
    let num = parse_float(value);
    FilterExpr { column: column.to_owned(), op: operator, value: value.to_owned(), num }
}

/// A cell coerced to a number: integers convert, floats stand, text is
/// parsed; nulls and booleans do not coerce.
pub open spec fn cell_as_float(c: CellV) -> Option<u64> {
    match c {
        CellV::Int(i) => Some(float_of_int(i)),
        CellV::Float(b) => Some(b),
        CellV::Str(s) => parsed_float(s),
        _ => None,
    }
}

/// Whether a numeric comparison holds (IEEE semantics: every ordered
/// comparison with a NaN fails, while `Ne` holds).
pub open spec fn num_cmp_matches(op: FilterOp, a: u64, b: u64) -> bool {
    match op {
        FilterOp::Eq => f_eq(a, b),
        FilterOp::Ne => !f_eq(a, b),
        FilterOp::Gt => f_lt(b, a),
        FilterOp::Ge => f_lt(b, a) || f_eq(a, b),
        FilterOp::Lt => f_lt(a, b),
        FilterOp::Le => f_lt(a, b) || f_eq(a, b),
        FilterOp::Contains => false,
    }
}

/// Whether a text comparison holds, lexicographically by character code.
pub open spec fn str_cmp_matches(op: FilterOp, s: Seq<char>, v: Seq<char>) -> bool {
    match op {
        FilterOp::Eq => s == v,
        FilterOp::Ne => s != v,
        FilterOp::Gt => lex_lt(v, s),
        FilterOp::Ge => !lex_lt(s, v),
        FilterOp::Lt => lex_lt(s, v),
        FilterOp::Le => !lex_lt(v, s),
        FilterOp::Contains => contains_sub(s, v),
    }
}

/// Whether a cell passes a filter.  A null cell never passes.  When the
/// comparison text parses as a number the comparison is numeric, with
/// the cell coerced; otherwise both sides compare as text.  `Contains`
/// is a case-sensitive substring test on text cells.
pub open spec fn spec_matches(c: CellV, op: FilterOp, value: Seq<char>) -> bool {
    if op is Contains {
        match c {
            CellV::Str(s) => contains_sub(s, value),
            _ => false,
        }
    } else {
        match parsed_float(value) {
            Some(num) => match cell_as_float(c) {
                Some(a) => num_cmp_matches(op, a, num),
                None => false,
            },
            None => match c {
                CellV::Str(s) => str_cmp_matches(op, s, value),
                _ => false,
            },
        }
    }
}

/// The column types a filter can be applied to: `Contains` and text
/// literals ask for a text column; a numeric literal compares against
/// integer, float and text columns.
pub open spec fn filter_type_ok(t: ColType, op: FilterOp, value: Seq<char>) -> bool {
    if op is Contains {
        t is Str
    } else if parsed_float(value) is Some {
        t is Int || t is Float || t is Str
    } else {
        t is Str
    }
}

/// Evaluates a filter against one cell, exactly as `spec_matches` says.
pub(crate) fn eval_filter_cell(c: &Cell, expr: &FilterExpr, value_chars: &Vec<char>) -> (r: bool)
    requires
        expr.wf(),
        value_chars@ == expr.value@,
    ensures
        r == spec_matches(c@, expr.op, expr.value@),
{
    if matches!(expr.op, FilterOp::Contains) {
        match c {
            Cell::Str(s) => {
                let cs = str_to_chars(s.as_str());
                chars_contains(&cs, value_chars)
            },
            _ => false,
        }
    } else {
        match &expr.num {
            Some(num) => {
                let a: Option<u64> = match c {
                    Cell::Int(i) => Some(crate::numeric::int_to_float(*i)),
                    Cell::Float(b) => Some(*b),
                    Cell::Str(s) => parse_float(s.as_str()),
                    _ => None,
                };
                match a {
                    Some(av) => num_cmp(expr.op, av, *num),
                    None => false,
                }
            },
            None => {
                match c {
                    Cell::Str(s) => {
                        let cs = str_to_chars(s.as_str());
                        match expr.op {
                            FilterOp::Eq => *s == expr.value,
                            FilterOp::Ne => !(*s == expr.value),
                            FilterOp::Gt => chars_lt(value_chars, &cs),
                            FilterOp::Ge => !chars_lt(&cs, value_chars),
                            FilterOp::Lt => chars_lt(&cs, value_chars),
                            FilterOp::Le => !chars_lt(value_chars, &cs),
                            FilterOp::Contains => false,
                        }
                    },
                    _ => false,
                }
            },
        }
    }
}

/// Evaluates a numeric comparison on two bit patterns.
fn num_cmp(op: FilterOp, a: u64, b: u64) -> (r: bool)
    ensures
        r == num_cmp_matches(op, a, b),
{
    let c = crate::numeric::float_cmp(a, b);
    match op {
        FilterOp::Eq => matches!(c, Some(0i8)),
        FilterOp::Ne => !matches!(c, Some(0i8)),
        FilterOp::Gt => matches!(c, Some(1i8)),
        FilterOp::Ge => matches!(c, Some(1i8)) || matches!(c, Some(0i8)),
        FilterOp::Lt => matches!(c, Some(-1i8)),
        FilterOp::Le => matches!(c, Some(-1i8)) || matches!(c, Some(0i8)),
        FilterOp::Contains => false,
    }
}

/// An aggregation ready to evaluate: the function, the aggregated
/// column and the name of the output column.
pub struct AggExpr {
    pub function: AggFunc,
    pub column: String,
    pub out_name: String,
}

/// The lower-case name of an aggregation function.
pub open spec fn agg_func_name(f: AggFunc) -> Seq<char> {
    match f {
        AggFunc::Sum => "sum"@,
        AggFunc::Avg => "avg"@,
        AggFunc::Max => "max"@,
        AggFunc::Min => "min"@,
        AggFunc::Count => "count"@,
    }
}

/// The output column name of an aggregation: its alias, or the
/// deterministic `func(column)` form.
pub open spec fn agg_out_name(a: AggregationV) -> Seq<char> {
    match a.alias {
        Some(al) => al,
        None => agg_func_name(a.function) + "("@ + a.column + ")"@,
    }
}

/// Builds an aggregation expression, resolving the output name.
pub fn build_aggregation_expr(agg: &Aggregation) -> (r: AggExpr)
    ensures
        r.function == agg.function,
        r.column@ == agg.column@,
        r.out_name@ == agg_out_name(agg@),
{
    let out_name: String = match &agg.alias {
        Some(al) => al.clone(),
        None => {
            let mut s: String = match agg.function {
                AggFunc::Sum => ("sum").to_owned(),
                AggFunc::Avg => ("avg").to_owned(),
                AggFunc::Max => ("max").to_owned(),
                AggFunc::Min => ("min").to_owned(),
                AggFunc::Count => ("count").to_owned(),
            };
            s.append("(");
            s.append(agg.column.as_str());
            s.append(")");
            s
        },
    };
    AggExpr { function: agg.function, column: agg.column.clone(), out_name }
}

/// A line with one trailing carriage return removed, as a line ending
/// of carriage return and line feed leaves one.
pub open spec fn strip_cr(line: Seq<char>) -> Seq<char> {
    if line.len() > 0 && line.last() == '\r' {
        line.drop_last()
    } else {
        line
    }
}

/// The lines finished within the first `i` characters, and the line
/// still open.
pub open spec fn lines_pre(s: Seq<char>, i: int) -> (Seq<Seq<char>>, Seq<char>)
    decreases i,
{
    if i <= 0 {
        (Seq::empty(), Seq::empty())
    } else {
        let (ls, cur) = lines_pre(s, i - 1);
        if s[i - 1] == '\n' {
            (ls.push(strip_cr(cur)), Seq::empty())
        } else {
            (ls, cur.push(s[i - 1]))
        }
    }
}

/// The lines of a text: split at line feeds, each line's trailing
/// carriage return removed, a final line without an ending included.
pub open spec fn lines_of(s: Seq<char>) -> Seq<Seq<char>> {
    let (ls, cur) = lines_pre(s, s.len() as int);
    if cur.len() > 0 {
        ls.push(cur)
    } else {
        ls
    }
}

/// Lines joined by line feeds, with no trailing one.
pub open spec fn join_lines(ls: Seq<Seq<char>>) -> Seq<char>
    decreases ls.len(),
{
    if ls.len() == 0 {
        Seq::empty()
    } else if ls.len() == 1 {
        ls[0]
    } else {
        join_lines(ls.drop_last()) + seq!['\n'] + ls.last()
    }
}

/// The text with its header line folded to lower case: the first line
/// lower-cased, the rest kept, all rejoined by line feeds.
pub open spec fn normalized_header_text(s: Seq<char>) -> Seq<char> {
    let ls = lines_of(s);
    join_lines(seq![crate::text::lower_of(ls[0])] + ls.skip(1))
}

/// Lower-cases a CSV text's header line and rejoins the lines, so that
/// later column lookups are case-insensitive by construction; a text
/// with no lines at all is refused.
pub fn normalize_csv_header(s: &str) -> (r: Result<String, DoubledeckerError>)
    ensures
        match r {
            Result::Ok(out) => lines_of(s@).len() > 0 && out@ == normalized_header_text(s@),
            Result::Err(e) => lines_of(s@).len() == 0 && (
            e matches DoubledeckerError::FileUpload(m) && m@ == "Empty CSV file"@),
        },
{
    let cs = str_to_chars(s);
    let mut lines: Vec<Vec<char>> = Vec::new();
    let mut cur: Vec<char> = Vec::new();
    let mut i: usize = 0;
    while i < cs.len()
        invariant
            i <= cs@.len(),
            cs@ == s@,
            ({
                let (ls, c) = lines_pre(s@, i as int);
                lines@.map_values(|l: Vec<char>| l@) == ls && cur@ == c
            }),
        decreases cs@.len() - i,
    {
        let c = cs[i];
        let ghost pre = lines_pre(s@, i as int);
        proof {
            assert(lines_pre(s@, i + 1) == (if s@[i as int] == '\n' {
                (pre.0.push(strip_cr(pre.1)), Seq::<char>::empty())
            } else {
                (pre.0, pre.1.push(s@[i as int]))
            }));
        }
        if c == '\n' {
            if cur.len() > 0 && cur[cur.len() - 1] == '\r' {
                cur.pop();
                proof {
                    assert(cur@ =~= strip_cr(pre.1));
                }
            }
            let done = cur;
            cur = Vec::new();
            lines.push(done);
            proof {
                assert(lines@.map_values(|l: Vec<char>| l@) =~= pre.0.push(strip_cr(pre.1)));
            }
        } else {
            cur.push(c);
        }
        i = i + 1;
    }
    if cur.len() > 0 {
        lines.push(cur);
        proof {
            let (ls, c) = lines_pre(s@, s@.len() as int);
            assert(lines@.map_values(|l: Vec<char>| l@) =~= ls.push(c));
        }
    }
    let ghost lsv = lines_of(s@);
    proof {
        assert(lines@.map_values(|l: Vec<char>| l@) == lsv);
    }
    if lines.len() == 0 {
        return Result::Err(DoubledeckerError::FileUpload(("Empty CSV file").to_owned()));
    }
    let header_raw = crate::text::chars_to_string(&lines[0]);
    let lowered = crate::text::lowercase(header_raw.as_str());
    let mut out: Vec<char> = str_to_chars(lowered.as_str());
    let ghost joinedv = seq![crate::text::lower_of(lsv[0])] + lsv.skip(1);
    proof {
        assert(lines@[0]@ == lsv[0]);
        assert(out@ == joinedv[0]);
        assert(join_lines(joinedv.subrange(0, 1)) == joinedv.subrange(0, 1)[0]);
        assert(out@ =~= join_lines(joinedv.subrange(0, 1)));
    }
    let mut k: usize = 1;
    while k < lines.len()
        invariant
            1 <= k <= lines@.len(),
            lines@.map_values(|l: Vec<char>| l@) == lsv,
            lsv.len() == lines@.len(),
            joinedv == seq![crate::text::lower_of(lsv[0])] + lsv.skip(1),
            joinedv.len() == lsv.len(),
            out@ == join_lines(joinedv.subrange(0, k as int)),
        decreases lines@.len() - k,
    {
        proof {
            assert(joinedv.subrange(0, k + 1).drop_last() =~= joinedv.subrange(0, k as int));
            assert(joinedv.subrange(0, k + 1).last() == joinedv[k as int]);
            assert(lines@[k as int]@ == lsv[k as int]);
            assert(joinedv[k as int] == lsv[k as int]);
        }
        out.push('\n');
        let mut piece = copy_chars(&lines[k]);
        out.append(&mut piece);
        proof {
            assert(out@ =~= join_lines(joinedv.subrange(0, k + 1)));
        }
        k = k + 1;
    }
    proof {
        assert(joinedv.subrange(0, joinedv.len() as int) =~= joinedv);
    }
    Result::Ok(crate::text::chars_to_string(&out))
}

/// A copy of a character vector.
fn copy_chars(v: &Vec<char>) -> (r: Vec<char>)
    ensures
        r@ == v@,
{
    let mut r: Vec<char> = Vec::new();
    let mut i: usize = 0;
    while i < v.len()
        invariant
            i <= v@.len(),
            r@ =~= v@.subrange(0, i as int),
        decreases v@.len() - i,
    {
        r.push(v[i]);
        proof {
            assert(r@ =~= v@.subrange(0, i + 1));
        }
        i = i + 1;
    }
    proof {
        assert(r@ =~= v@);
    }
    r
}

} // verus!
