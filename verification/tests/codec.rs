use doubledecker::encode::{query_response_to_csv, table_to_response};
use doubledecker::error::DoubledeckerError;
use doubledecker::helpers::{build_aggregation_expr, build_filter_expr, normalize_csv_header};
use doubledecker::jwt::{token_expired, Claims};
use doubledecker::loader::load_csv;
use doubledecker::statics::{
    default_page, default_page_size, page_offset, total_pages, AggFunc, Aggregation, FilterOp,
    JsonValue, QueryResponse,
};
use doubledecker::table::{Cell, ColType, Column, ColumnData, Table};

#[test]
fn header_names_are_lower_cased_on_load() {
    // loading "Id,Name,Amount" yields the schema ["id","name","amount"]
    let t = load_csv("Id,Name,Amount\n1,a,10.5\n").unwrap();
    let names: Vec<String> = t.columns.iter().map(|c| c.name.clone()).collect();
    assert_eq!(names, vec!["id".to_string(), "name".to_string(), "amount".to_string()]);
}

#[test]
fn loader_infers_column_types_from_values() {
    let t = load_csv("i,f,b,s\n1,1.5,true,x\n-2,2,FALSE,7y\n").unwrap();
    let types: Vec<ColType> = t.columns.iter().map(|c| c.data.typ_of()).collect();
    assert!(matches!(types[0], ColType::Int));
    assert!(matches!(types[1], ColType::Float));
    assert!(matches!(types[2], ColType::Bool));
    assert!(matches!(types[3], ColType::Str));
}

#[test]
fn loader_treats_empty_fields_as_nulls() {
    let t = load_csv("i,j\n1,\n,2\n").unwrap();
    assert_eq!(t.row_count, 2);
    let resp = table_to_response(&t).unwrap();
    assert!(matches!(resp.rows[0][1], JsonValue::Null));
    assert!(matches!(resp.rows[1][0], JsonValue::Null));
}

#[test]
fn loader_rejects_empty_input() {
    match load_csv("") {
        Err(DoubledeckerError::ParseError(m)) => assert_eq!(m, "empty CSV input"),
        other => panic!("expected ParseError, got {:?}", other),
    }
}

#[test]
fn loader_rejects_ragged_rows() {
    match load_csv("a,b\n1,2\n3\n") {
        Err(DoubledeckerError::ParseError(m)) => assert_eq!(m, "ragged row"),
        other => panic!("expected ParseError, got {:?}", other),
    }
}

#[test]
fn loader_rejects_duplicate_header_names() {
    match load_csv("A,a\n1,2\n") {
        Err(DoubledeckerError::ParseError(m)) => assert_eq!(m, "duplicate column name"),
        other => panic!("expected ParseError, got {:?}", other),
    }
}

#[test]
fn loader_handles_quoted_fields_and_doubled_quotes() {
    let t = load_csv("w\n\"a,b\"\n\"say \"\"hi\"\"\"\n").unwrap();
    let resp = table_to_response(&t).unwrap();
    assert!(matches!(&resp.rows[0][0], JsonValue::Str(s) if s == "a,b"));
    assert!(matches!(&resp.rows[1][0], JsonValue::Str(s) if s == "say \"hi\""));
}

#[test]
fn loader_accepts_crlf_line_endings_and_skips_blank_lines() {
    let t = load_csv("a,b\r\n1,2\r\n\r\n3,4\r\n").unwrap();
    assert_eq!(t.row_count, 2);
}

#[test]
fn loader_header_only_gives_empty_table() {
    let t = load_csv("a,b\n").unwrap();
    assert_eq!(t.row_count, 0);
    let resp = table_to_response(&t).unwrap();
    assert_eq!(resp.columns, vec!["a".to_string(), "b".to_string()]);
    assert!(resp.rows.is_empty());
}

#[test]
fn json_encoding_keeps_nulls_explicit() {
    // a null cell becomes a JSON null, never an omitted value
    let t = load_csv("a,b\n1,\n").unwrap();
    let resp = table_to_response(&t).unwrap();
    assert_eq!(resp.rows[0].len(), 2);
    assert!(matches!(resp.rows[0][1], JsonValue::Null));
}

#[test]
fn json_encoding_fails_on_non_finite_float() {
    let t = Table {
        columns: vec![Column {
            name: "x".to_string(),
            data: ColumnData::FloatColumn(vec![Some(f64::INFINITY.to_bits())]),
        }],
        row_count: 1,
    };
    match table_to_response(&t) {
        Err(DoubledeckerError::SerializationError(m)) => {
            assert_eq!(m, "non-finite float value")
        }
        other => panic!("expected SerializationError, got {:?}", other),
    }
}

#[test]
fn csv_encoding_renders_nulls_as_empty_fields() {
    // a null cell is an empty CSV field, and every line ends in a newline
    let t = load_csv("a,b\n1,\n,x\n").unwrap();
    let resp = table_to_response(&t).unwrap();
    let text = query_response_to_csv(&resp);
    assert_eq!(text, "a,b\n1,\n,x\n");
}

#[test]
fn csv_encoding_quotes_only_when_needed() {
    let resp = QueryResponse {
        columns: vec!["w".to_string()],
        rows: vec![
            vec![JsonValue::Str("plain".to_string())],
            vec![JsonValue::Str("a,b".to_string())],
            vec![JsonValue::Str("say \"hi\"".to_string())],
            vec![JsonValue::Str("line\nbreak".to_string())],
        ],
    };
    let text = query_response_to_csv(&resp);
    assert_eq!(
        text,
        "w\nplain\n\"a,b\"\n\"say \"\"hi\"\"\"\n\"line\nbreak\"\n"
    );
}

#[test]
fn csv_encoding_renders_numbers_and_booleans_plainly() {
    let resp = QueryResponse {
        columns: vec!["n".to_string(), "f".to_string(), "b".to_string()],
        rows: vec![vec![
            JsonValue::Int(-42),
            JsonValue::Float((10.5f64).to_bits()),
            JsonValue::Bool(true),
        ]],
    };
    let text = query_response_to_csv(&resp);
    assert_eq!(text, "n,f,b\n-42,10.5,true\n");
}

#[test]
fn csv_round_trip_preserves_values() {
    let source = "id,name,amount\n1,a,10.5\n2,b,20\n3,c,\n";
    let t = load_csv(source).unwrap();
    let text = query_response_to_csv(&table_to_response(&t).unwrap());
    assert_eq!(text, source);
}

#[test]
fn normalize_csv_header_lower_cases_first_line_only() {
    let out = normalize_csv_header("Id,Name\n1,Alice\n").unwrap();
    assert_eq!(out, "id,name\n1,Alice");
}

#[test]
fn normalize_csv_header_rejects_empty_text() {
    match normalize_csv_header("") {
        Err(DoubledeckerError::FileUpload(m)) => assert_eq!(m, "Empty CSV file"),
        other => panic!("expected FileUpload, got {:?}", other),
    }
}

#[test]
fn filter_expr_builder_tries_numeric_parse_first() {
    let e = build_filter_expr("col", FilterOp::Eq, "5.5");
    assert_eq!(e.num, Some((5.5f64).to_bits()));
    let e2 = build_filter_expr("col", FilterOp::Eq, "apple");
    assert_eq!(e2.num, None);
    assert_eq!(e2.value, "apple");
}

#[test]
fn aggregation_expr_builder_defaults_output_name() {
    let a = Aggregation { function: AggFunc::Avg, column: "amount".to_string(), alias: None };
    assert_eq!(build_aggregation_expr(&a).out_name, "avg(amount)");
    let b = Aggregation {
        function: AggFunc::Avg,
        column: "amount".to_string(),
        alias: Some("mean".to_string()),
    };
    assert_eq!(build_aggregation_expr(&b).out_name, "mean");
}

#[test]
fn error_messages_carry_their_kind() {
    assert_eq!(
        DoubledeckerError::ColumnNotFound("id".to_string()).message(),
        "Column not found: id"
    );
    assert_eq!(DoubledeckerError::Unauthorized.message(), "Unauthorized");
    assert_eq!(
        DoubledeckerError::ParseError("ragged row".to_string()).message(),
        "Parse error: ragged row"
    );
}

#[test]
fn cell_eq_compares_values_not_storage() {
    assert!(doubledecker::table::cell_eq(&Cell::Int(3), &Cell::Int(3)));
    assert!(!doubledecker::table::cell_eq(&Cell::Int(3), &Cell::Null));
    assert!(doubledecker::table::cell_eq(
        &Cell::Str("x".to_string()),
        &Cell::Str("x".to_string())
    ));
}

#[test]
fn pagination_defaults_and_arithmetic() {
    assert_eq!(default_page(), 1);
    assert_eq!(default_page_size(), 10);
    assert_eq!(total_pages(0, 10), 0);
    assert_eq!(total_pages(25, 10), 3);
    assert_eq!(total_pages(30, 10), 3);
    assert_eq!(page_offset(1, 10), 0);
    assert_eq!(page_offset(3, 10), 20);
}

#[test]
fn claims_expiry_is_issue_time_plus_hours() {
    let c = Claims::new("user-1".to_string(), "u@example.com".to_string(), 24, 1_000_000);
    assert_eq!(c.iat, 1_000_000);
    assert_eq!(c.exp, 1_000_000 + 24 * 3600);
    assert!(!token_expired(&c, c.exp));
    assert!(token_expired(&c, c.exp + 1));
}

#[test]
fn large_integers_survive_loading_and_rendering() {
    let t = load_csv("n\n-9223372036854775808\n9223372036854775807\n").unwrap();
    assert!(matches!(t.columns[0].data.typ_of(), ColType::Int));
    let text = query_response_to_csv(&table_to_response(&t).unwrap());
    assert_eq!(text, "n\n-9223372036854775808\n9223372036854775807\n");
}

#[test]
fn out_of_range_integers_become_floats() {
    let t = load_csv("n\n9223372036854775808\n1\n").unwrap();
    assert!(matches!(t.columns[0].data.typ_of(), ColType::Float));
}

#[test]
fn null_cells_fail_every_filter_even_not_equal() {
    let t = load_csv("n\n1\n\n3\n").unwrap();
    let op = doubledecker::statics::Operations::Filter {
        column: "n".to_string(),
        operator: FilterOp::Ne,
        value: "1".to_string(),
    };
    let out = doubledecker::executor::apply_operation(&t, &op).unwrap();
    // the null row is dropped along with the matching row
    assert_eq!(out.row_count, 1);
}

#[test]
fn nan_loads_as_float_and_refuses_json_encoding() {
    let t = load_csv("x\nnan\n1.5\n").unwrap();
    assert!(matches!(t.columns[0].data.typ_of(), ColType::Float));
    assert!(matches!(
        table_to_response(&t),
        Err(DoubledeckerError::SerializationError(_))
    ));
}

#[test]
fn nan_sorts_after_every_number_but_before_nulls() {
    let t = load_csv("x,tag\nnan,n\n1.5,a\n,z\n0.5,b\n").unwrap();
    let op = doubledecker::statics::Operations::Sort { column: "x".to_string(), ascending: true };
    let out = doubledecker::executor::apply_operation(&t, &op).unwrap();
    let tags: Vec<Cell> = (0..out.row_count).map(|i| out.columns[1].data.cell(i)).collect();
    assert!(matches!(&tags[0], Cell::Str(s) if s == "b"));
    assert!(matches!(&tags[1], Cell::Str(s) if s == "a"));
    assert!(matches!(&tags[2], Cell::Str(s) if s == "n"));
    assert!(matches!(&tags[3], Cell::Str(s) if s == "z"));
}
