//! The table loader: raw CSV text becomes an in-memory columnar table
//! with an inferred schema.
//!
//! Records are separated by newlines and fields by commas; a quote
//! opens a quoted run in which commas, newlines and (doubled) quotes
//! are content.  A carriage return outside quotes is dropped, so
//! CRLF-separated text loads like LF-separated text.  Blank lines are
//! skipped.  Header names are lower-cased; a data row whose width
//! differs from the header's is refused outright.  A column's type is
//! inferred from its first thousand values: integer if every one
//! parses as an integer, else float if every one parses as a number,
//! else boolean if every one is `true` or `false` in any ASCII case,
//! else text; empty fields are nulls and never constrain the type.

use vstd::prelude::*;

use crate::error::DoubledeckerError;
use crate::executor::names_unique;
use crate::numeric::{parse_float, parsed_float};
use crate::table::{col_typed, CellV, ColType, Column, ColumnData, Table, TableV};
use crate::text::{
    chars_to_string, lower_of, lowercase, parse_bool, parse_int, parsed_bool, parsed_int,
    str_to_chars,
};

verus! {

/// Where the scanner stands: plain text, inside quotes, or just after
/// a quote inside quotes.
#[derive(Clone, Copy, PartialEq, Eq, Structural, Debug)]
pub enum ScanMode {
    Plain,
    Quoted,
    QuoteSeen,
}

/// The scanner's whole state: the mode, the field and record being
/// built, the finished records, and whether the current record has
/// seen any content.
pub struct ScanState {
    pub mode: ScanMode,
    pub field: Seq<char>,
    pub rec: Seq<Seq<char>>,
    pub recs: Seq<Seq<Seq<char>>>,
    pub started: bool,
}

/// The scanner's starting state.
pub open spec fn init_state() -> ScanState {
    ScanState {
        mode: ScanMode::Plain,
        field: Seq::empty(),
        rec: Seq::empty(),
        recs: Seq::empty(),
        started: false,
    }
}

/// One scanner step.
pub open spec fn scan_step(st: ScanState, c: char) -> ScanState {
    match st.mode {
        ScanMode::Plain => {
            if c == '"' {
                ScanState { mode: ScanMode::Quoted, started: true, ..st }
            } else if c == ',' {
                ScanState {
                    field: Seq::empty(),
                    rec: st.rec.push(st.field),
                    started: true,
                    ..st
                }
            } else if c == '\n' {
                if st.started {
                    ScanState {
                        field: Seq::empty(),
                        rec: Seq::empty(),
                        recs: st.recs.push(st.rec.push(st.field)),
                        started: false,
                        ..st
                    }
                } else {
                    st
                }
            } else if c == '\r' {
                st
            } else {
                ScanState { field: st.field.push(c), started: true, ..st }
            }
        },
        ScanMode::Quoted => {
            if c == '"' {
                ScanState { mode: ScanMode::QuoteSeen, ..st }
            } else {
                ScanState { field: st.field.push(c), ..st }
            }
        },
        ScanMode::QuoteSeen => {
            if c == '"' {
                ScanState { mode: ScanMode::Quoted, field: st.field.push('"'), ..st }
            } else if c == ',' {
                ScanState {
                    mode: ScanMode::Plain,
                    field: Seq::empty(),
                    rec: st.rec.push(st.field),
                    ..st
                }
            } else if c == '\n' {
                ScanState {
                    mode: ScanMode::Plain,
                    field: Seq::empty(),
                    rec: Seq::empty(),
                    recs: st.recs.push(st.rec.push(st.field)),
                    started: false,
                    ..st
                }
            } else if c == '\r' {
                ScanState { mode: ScanMode::Plain, ..st }
            } else {
                ScanState { mode: ScanMode::Plain, field: st.field.push(c), ..st }
            }
        },
    }
}

/// The scanner's state after the first `i` characters.
pub open spec fn scan_pre(s: Seq<char>, i: int) -> ScanState
    decreases i,
{
    if i <= 0 {
        init_state()
    } else {
        scan_step(scan_pre(s, i - 1), s[i - 1])
    }
}

/// The records of a CSV text: what the scanner finished, plus the
/// record under construction if it has content.
pub open spec fn csv_records(s: Seq<char>) -> Seq<Seq<Seq<char>>> {
    let st = scan_pre(s, s.len() as int);
    if st.started {
        st.recs.push(st.rec.push(st.field))
    } else {
        st.recs
    }
}

/// Whether a column's sampled values all parse as integers (empty
/// fields are nulls and do not count).
pub open spec fn all_parse_int(data: Seq<Seq<Seq<char>>>, j: int, m: int) -> bool {
    forall|i: int|
        0 <= i < m ==> ((#[trigger] data[i][j]).len() == 0 || parsed_int(data[i][j]) is Some)
}

/// Whether a column's sampled values all parse as numbers.
pub open spec fn all_parse_float(data: Seq<Seq<Seq<char>>>, j: int, m: int) -> bool {
    forall|i: int|
        0 <= i < m ==> ((#[trigger] data[i][j]).len() == 0 || parsed_float(data[i][j]) is Some)
}

/// Whether a column's sampled values are all booleans.
pub open spec fn all_parse_bool(data: Seq<Seq<Seq<char>>>, j: int, m: int) -> bool {
    forall|i: int|
        0 <= i < m ==> ((#[trigger] data[i][j]).len() == 0 || parsed_bool(data[i][j]) is Some)
}

/// The inferred type of one column, from its first `m` values.
pub open spec fn infer_typ(data: Seq<Seq<Seq<char>>>, j: int, m: int) -> ColType {
    if all_parse_int(data, j, m) {
        ColType::Int
    } else if all_parse_float(data, j, m) {
        ColType::Float
    } else if all_parse_bool(data, j, m) {
        ColType::Bool
    } else {
        ColType::Str
    }
}

/// The cell one field stands for under a column type: an empty field
/// is a null, and a value that no longer parses refuses to load.
pub open spec fn parse_cell(typ: ColType, f: Seq<char>) -> Option<CellV> {
    if f.len() == 0 {
        Some(CellV::Null)
    } else {
        match typ {
            ColType::Int => match parsed_int(f) {
                Some(x) => Some(CellV::Int(x)),
                None => None,
            },
            ColType::Float => match parsed_float(f) {
                Some(b) => Some(CellV::Float(b)),
                None => None,
            },
            ColType::Bool => match parsed_bool(f) {
                Some(b) => Some(CellV::Bool(b)),
                None => None,
            },
            ColType::Str => Some(CellV::Str(f)),
        }
    }
}

/// How many rows type inference samples.
pub open spec fn sample_of(nrows: int) -> int {
    if nrows < 1000 {
        nrows
    } else {
        1000
    }
}

/// The lower-cased header names of a CSV text.
pub open spec fn header_of(s: Seq<char>) -> Seq<Seq<char>> {
    csv_records(s)[0].map_values(|f: Seq<char>| lower_of(f))
}

/// The data records of a CSV text: everything after the header.
pub open spec fn data_of(s: Seq<char>) -> Seq<Seq<Seq<char>>> {
    csv_records(s).skip(1)
}

/// Whether a CSV text loads: it has a header, no repeated (lower-cased)
/// name, no ragged row, and every value parses under its column's
/// inferred type.
pub open spec fn loads(s: Seq<char>) -> bool {
    let recs = csv_records(s);
    let hdr = header_of(s);
    let data = data_of(s);
    &&& recs.len() > 0
    &&& names_unique(hdr)
    &&& forall|i: int| 0 <= i < data.len() ==> (#[trigger] data[i]).len() == hdr.len()
    &&& forall|j: int, i: int|
        0 <= j < hdr.len() && 0 <= i < data.len() ==> parse_cell(
            infer_typ(data, j, sample_of(data.len() as int)),
            #[trigger] data[i][j],
        ) is Some
}

/// The table a CSV text loads to.
pub open spec fn loaded_table(s: Seq<char>) -> TableV {
    let hdr = header_of(s);
    let data = data_of(s);
    let m = sample_of(data.len() as int);
    TableV {
        cols: Seq::new(
            hdr.len(),
            |j: int|
                crate::table::ColumnV {
                    name: hdr[j],
                    typ: infer_typ(data, j, m),
                    cells: Seq::new(
                        data.len(),
                        |i: int| parse_cell(infer_typ(data, j, m), data[i][j])->0,
                    ),
                },
        ),
        nrows: data.len() as int,
    }
}

/// The records of a CSV text, scanned.
fn scan_records(s: &str) -> (r: Vec<Vec<Vec<char>>>)
    ensures
        r@.map_values(|rec: Vec<Vec<char>>| rec@.map_values(|f: Vec<char>| f@)) == csv_records(s@),
{
    let cs = str_to_chars(s);
    let mut mode = ScanMode::Plain;
    let mut field: Vec<char> = Vec::new();
    let mut rec: Vec<Vec<char>> = Vec::new();
    let mut recs: Vec<Vec<Vec<char>>> = Vec::new();
    let mut started = false;
    let mut i: usize = 0;
    while i < cs.len()
        invariant
            i <= cs@.len(),
            cs@ == s@,
            ({
                let st = scan_pre(s@, i as int);
                &&& mode == st.mode
                &&& field@ == st.field
                &&& rec@.map_values(|f: Vec<char>| f@) == st.rec
                &&& recs@.map_values(|r2: Vec<Vec<char>>| r2@.map_values(|f: Vec<char>| f@))
                    == st.recs
                &&& started == st.started
            }),
        decreases cs@.len() - i,
    {
        let c = cs[i];
        let ghost st = scan_pre(s@, i as int);
        proof {
            assert(scan_pre(s@, i + 1) == scan_step(st, s@[i as int]));
        }
        match mode {
            ScanMode::Plain => {
                if c == '"' {
                    mode = ScanMode::Quoted;
                    started = true;
                } else if c == ',' {
                    let done = field;
                    field = Vec::new();
                    rec.push(done);
                    started = true;
                    proof {
                        assert(rec@.map_values(|f: Vec<char>| f@) =~= st.rec.push(st.field));
                    }
                } else if c == '\n' {
                    if started {
                        let done = field;
                        field = Vec::new();
                        rec.push(done);
                        let fullrec = rec;
                        rec = Vec::new();
                        recs.push(fullrec);
                        started = false;
                        proof {
                            assert(fullrec@.map_values(|f: Vec<char>| f@) =~= st.rec.push(
                                st.field,
                            ));
                            assert(recs@.map_values(
                                |r2: Vec<Vec<char>>| r2@.map_values(|f: Vec<char>| f@),
                            ) =~= st.recs.push(st.rec.push(st.field)));
                            assert(rec@.map_values(|f: Vec<char>| f@) =~= Seq::<Seq<char>>::empty());
                        }
                    }
                } else if c == '\r' {
                } else {
                    field.push(c);
                    started = true;
                }
            },
            ScanMode::Quoted => {
                if c == '"' {
                    mode = ScanMode::QuoteSeen;
                } else {
                    field.push(c);
                }
            },
            ScanMode::QuoteSeen => {
                if c == '"' {
                    mode = ScanMode::Quoted;
                    field.push('"');
                } else if c == ',' {
                    mode = ScanMode::Plain;
                    let done = field;
                    field = Vec::new();
                    rec.push(done);
                    proof {
                        assert(rec@.map_values(|f: Vec<char>| f@) =~= st.rec.push(st.field));
                    }
                } else if c == '\n' {
                    mode = ScanMode::Plain;
                    let done = field;
                    field = Vec::new();
                    rec.push(done);
                    let fullrec = rec;
                    rec = Vec::new();
                    recs.push(fullrec);
                    started = false;
                    proof {
                        assert(fullrec@.map_values(|f: Vec<char>| f@) =~= st.rec.push(st.field));
                        assert(recs@.map_values(
                            |r2: Vec<Vec<char>>| r2@.map_values(|f: Vec<char>| f@),
                        ) =~= st.recs.push(st.rec.push(st.field)));
                        assert(rec@.map_values(|f: Vec<char>| f@) =~= Seq::<Seq<char>>::empty());
                    }
                } else if c == '\r' {
                    mode = ScanMode::Plain;
                } else {
                    mode = ScanMode::Plain;
                    field.push(c);
                }
            },
        }
        i = i + 1;
    }
    if started {
        let done = field;
        rec.push(done);
        let fullrec = rec;
        recs.push(fullrec);
        proof {
            let st = scan_pre(s@, s@.len() as int);
            assert(fullrec@.map_values(|f: Vec<char>| f@) =~= st.rec.push(st.field));
            assert(recs@.map_values(|r2: Vec<Vec<char>>| r2@.map_values(|f: Vec<char>| f@))
                =~= st.recs.push(st.rec.push(st.field)));
        }
        recs
    } else {
        recs
    }
}

/// Loads CSV text into a typed columnar table, exactly as `loads` and
/// `loaded_table` describe: an input with no records, a repeated
/// lower-cased header name, a ragged row or an unparseable value is
/// refused with a parse error.
pub fn load_csv(s: &str) -> (r: Result<Table, DoubledeckerError>)
    ensures
        match r {
            Result::Ok(t) => loads(s@) && t@ == loaded_table(s@) && t@.wf(),
            Result::Err(e) => !loads(s@) && e is ParseError,
        },
{
    let recs = scan_records(s);
    let ghost recsv = csv_records(s@);
    if recs.len() == 0 {
        return Result::Err(DoubledeckerError::ParseError(("empty CSV input").to_owned()));
    }
    // lower-cased header names
    let mut names: Vec<String> = Vec::new();
    let header = &recs[0];
    let ghost hdr = header_of(s@);
    let mut j: usize = 0;
    while j < header.len()
        invariant
            j <= header@.len(),
            recsv == csv_records(s@),
            recsv.len() > 0,
            header@.map_values(|f: Vec<char>| f@) == recsv[0],
            hdr == header_of(s@),
            names@.len() == j,
            forall|k: int| 0 <= k < j ==> (#[trigger] names@[k])@ == hdr[k],
        decreases header@.len() - j,
    {
        let raw = chars_to_string(&header[j]);
        let low = lowercase(raw.as_str());
        proof {
            assert(header@[j as int]@ == recsv[0][j as int]);
            assert(low@ == lower_of(recsv[0][j as int]));
        }
        names.push(low);
        j = j + 1;
    }
    proof {
        assert(names@.map_values(|n: String| n@) =~= hdr);
    }
    if !crate::executor::all_distinct(&names) {
        return Result::Err(DoubledeckerError::ParseError(("duplicate column name").to_owned()));
    }
    let ncols = names.len();
    let nrows = recs.len() - 1;
    let ghost datav = data_of(s@);
    proof {
        assert forall|i: int| 0 <= i < datav.len() implies #[trigger] datav[i] == recs@[i + 1]@.map_values(
            |f: Vec<char>| f@,
        ) by {
            assert(datav[i] == recsv[i + 1]);
        }
    }
    // refuse ragged rows
    let mut i: usize = 0;
    while i < nrows
        invariant
            i <= nrows,
            nrows == recs@.len() - 1,
            recsv == csv_records(s@),
            recsv.len() > 0,
            recs@.map_values(|rec: Vec<Vec<char>>| rec@.map_values(|f: Vec<char>| f@)) == recsv,
            datav == data_of(s@),
            hdr == header_of(s@),
            ncols == hdr.len(),
            forall|i2: int| 0 <= i2 < i ==> (#[trigger] datav[i2]).len() == hdr.len(),
        decreases nrows - i,
    {
        proof {
            assert(datav[i as int] == recsv[i + 1]);
            assert(recs@[i + 1]@.map_values(|f: Vec<char>| f@) == recsv[i + 1]);
        }
        if recs[i + 1].len() != ncols {
            proof {
                assert(!loads(s@));
            }
            return Result::Err(DoubledeckerError::ParseError(("ragged row").to_owned()));
        }
        i = i + 1;
    }
    let sample: usize = if nrows < 1000 {
        nrows
    } else {
        1000
    };
    // one column at a time: infer the type, then parse every cell
    let mut columns: Vec<Column> = Vec::new();
    let mut cj: usize = 0;
    while cj < ncols
        invariant
            cj <= ncols,
            nrows == recs@.len() - 1,
            recsv == csv_records(s@),
            recsv.len() > 0,
            recs@.map_values(|rec: Vec<Vec<char>>| rec@.map_values(|f: Vec<char>| f@)) == recsv,
            datav == data_of(s@),
            datav.len() == nrows,
            hdr == header_of(s@),
            ncols == hdr.len(),
            names@.len() == ncols,
            forall|k: int| 0 <= k < ncols ==> (#[trigger] names@[k])@ == hdr[k],
            forall|i2: int| 0 <= i2 < datav.len() ==> (#[trigger] datav[i2]).len() == hdr.len(),
            sample == sample_of(nrows as int),
            columns@.len() == cj,
            forall|k: int, i2: int|
                0 <= k < cj && 0 <= i2 < datav.len() ==> parse_cell(
                    #[trigger] infer_typ(datav, k, sample_of(datav.len() as int)),
                    (#[trigger] datav[i2])[k],
                ) is Some,
            forall|k: int|
                0 <= k < cj ==> (#[trigger] columns@[k])@ == (crate::table::ColumnV {
                    name: hdr[k],
                    typ: infer_typ(datav, k, sample_of(datav.len() as int)),
                    cells: Seq::new(
                        datav.len(),
                        |i2: int| parse_cell(
                            infer_typ(datav, k, sample_of(datav.len() as int)),
                            datav[i2][k],
                        )->0,
                    ),
                }),
        decreases ncols - cj,
    {
        // inference over the sample
        let mut can_int = true;
        let mut can_float = true;
        let mut can_bool = true;
        let mut si: usize = 0;
        while si < sample
            invariant
                si <= sample,
                sample <= nrows,
                cj < ncols,
                nrows == recs@.len() - 1,
                recsv == csv_records(s@),
                recs@.map_values(|rec: Vec<Vec<char>>| rec@.map_values(|f: Vec<char>| f@))
                    == recsv,
                datav == data_of(s@),
                datav.len() == nrows,
                ncols == hdr.len(),
                forall|i2: int|
                    0 <= i2 < datav.len() ==> (#[trigger] datav[i2]).len() == hdr.len(),
                can_int == all_parse_int(datav, cj as int, si as int),
                can_float == all_parse_float(datav, cj as int, si as int),
                can_bool == all_parse_bool(datav, cj as int, si as int),
            decreases sample - si,
        {
            proof {
                assert(datav[si as int] == recsv[si + 1]);
                assert(recs@[si + 1]@.map_values(|f: Vec<char>| f@) == recsv[si + 1]);
                assert(recs@[si + 1]@[cj as int]@ == datav[si as int][cj as int]);
            }
            let fld = &recs[si + 1][cj];
            if fld.len() > 0 {
                if can_int && parse_int(fld).is_none() {
                    can_int = false;
                }
                if can_float {
                    let fs = chars_to_string(fld);
                    if parse_float(fs.as_str()).is_none() {
                        can_float = false;
                    }
                }
                if can_bool && parse_bool(fld).is_none() {
                    can_bool = false;
                }
            }
            si = si + 1;
        }
        proof {
            assert(sample as int == sample_of(datav.len() as int));
        }
        let typ = if can_int {
            ColType::Int
        } else if can_float {
            ColType::Float
        } else if can_bool {
            ColType::Bool
        } else {
            ColType::Str
        };
        let ghost styp = infer_typ(datav, cj as int, sample_of(datav.len() as int));
        proof {
            assert(typ == styp);
        }
        // parse every cell of this column
        let mut data = ColumnData::new_empty(typ);
        let mut ri: usize = 0;
        while ri < nrows
            invariant
                ri <= nrows,
                cj < ncols,
                nrows == recs@.len() - 1,
                recsv == csv_records(s@),
                recs@.map_values(|rec: Vec<Vec<char>>| rec@.map_values(|f: Vec<char>| f@))
                    == recsv,
                datav == data_of(s@),
                datav.len() == nrows,
                ncols == hdr.len(),
                forall|i2: int|
                    0 <= i2 < datav.len() ==> (#[trigger] datav[i2]).len() == hdr.len(),
                typ == styp,
                styp == infer_typ(datav, cj as int, sample_of(datav.len() as int)),
                data.typ() == typ,
                data.cells().len() == ri,
                forall|i2: int|
                    0 <= i2 < ri ==> parse_cell(styp, (#[trigger] datav[i2])[cj as int]) is Some
                        && data.cells()[i2] == parse_cell(styp, datav[i2][cj as int])->0,
            decreases nrows - ri,
        {
            proof {
                assert(datav[ri as int] == recsv[ri + 1]);
                assert(recs@[ri + 1]@.map_values(|f: Vec<char>| f@) == recsv[ri + 1]);
                assert(recs@[ri + 1]@[cj as int]@ == datav[ri as int][cj as int]);
            }
            let fld = &recs[ri + 1][cj];
            let cell: crate::table::Cell = if fld.len() == 0 {
                crate::table::Cell::Null
            } else {
                match typ {
                    ColType::Int => match parse_int(fld) {
                        Some(x) => crate::table::Cell::Int(x),
                        None => {
                            proof {
                                assert(parse_cell(styp, datav[ri as int][cj as int]) is None);
                                assert(!loads(s@));
                            }
                            return Result::Err(
                                DoubledeckerError::ParseError(("unparseable value").to_owned()),
                            );
                        },
                    },
                    ColType::Float => {
                        let fs = chars_to_string(fld);
                        match parse_float(fs.as_str()) {
                            Some(b) => crate::table::Cell::Float(b),
                            None => {
                                proof {
                                    assert(parse_cell(styp, datav[ri as int][cj as int]) is None);
                                    assert(!loads(s@));
                                }
                                return Result::Err(
                                    DoubledeckerError::ParseError(("unparseable value").to_owned()),
                                );
                            },
                        }
                    },
                    ColType::Bool => match parse_bool(fld) {
                        Some(b) => crate::table::Cell::Bool(b),
                        None => {
                            proof {
                                assert(parse_cell(styp, datav[ri as int][cj as int]) is None);
                                assert(!loads(s@));
                            }
                            return Result::Err(
                                DoubledeckerError::ParseError(("unparseable value").to_owned()),
                            );
                        },
                    },
                    ColType::Str => crate::table::Cell::Str(chars_to_string(fld)),
                }
            };
            proof {
                assert(parse_cell(styp, datav[ri as int][cj as int]) == Some(cell@));
            }
            let ghost prevc = data.cells();
            data.push_cell(cell);
            proof {
                assert forall|i2: int|
                    0 <= i2 < ri + 1 implies parse_cell(styp, (#[trigger] datav[i2])[cj as int])
                    is Some && data.cells()[i2] == parse_cell(styp, datav[i2][cj as int])->0 by {
                    if i2 < ri {
                        assert(data.cells()[i2] == prevc[i2]);
                        assert(parse_cell(styp, (datav[i2])[cj as int]) is Some && prevc[i2]
                            == parse_cell(styp, datav[i2][cj as int])->0);
                    } else {
                        assert(data.cells()[i2] == cell@);
                    }
                }
            }
            ri = ri + 1;
        }
        proof {
            assert forall|i2: int| 0 <= i2 < datav.len() implies parse_cell(
                infer_typ(datav, cj as int, sample_of(datav.len() as int)),
                (#[trigger] datav[i2])[cj as int],
            ) is Some by {
                assert(parse_cell(styp, (datav[i2])[cj as int]) is Some);
            }
        }
        let newcol = Column { name: names[cj].clone(), data };
        proof {
            assert(newcol@.cells =~= Seq::new(
                datav.len(),
                |i2: int| parse_cell(styp, datav[i2][cj as int])->0,
            ));
        }
        columns.push(newcol);
        cj = cj + 1;
    }
    let t = Table { columns, row_count: nrows };
    proof {
        assert(t@.cols =~= loaded_table(s@).cols);
        assert(t@ == loaded_table(s@));
        assert(loads(s@)) by {
            assert forall|j2: int, i2: int|
                0 <= j2 < hdr.len() && 0 <= i2 < datav.len() implies parse_cell(
                infer_typ(datav, j2, sample_of(datav.len() as int)),
                #[trigger] datav[i2][j2],
            ) is Some by {
                assert(t@.cols[j2].cells[i2] == parse_cell(
                    infer_typ(datav, j2, sample_of(datav.len() as int)),
                    datav[i2][j2],
                )->0);
            }
        }
        assert(t@.wf()) by {
            assert forall|a: int, b: int| 0 <= a < b < t@.cols.len() implies (
            #[trigger] t@.cols[a]).name != (#[trigger] t@.cols[b]).name by {
                assert(t@.cols[a].name == hdr[a]);
                assert(t@.cols[b].name == hdr[b]);
            }
            assert forall|ci: int| 0 <= ci < t@.cols.len() implies col_typed(
                #[trigger] t@.cols[ci],
            ) by {
                crate::table::lemma_column_typed(columns@[ci]);
            }
        }
    }
    Result::Ok(t)
}

} // verus!
