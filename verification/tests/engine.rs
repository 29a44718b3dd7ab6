use doubledecker::encode::{query_response_to_csv, table_to_response};
use doubledecker::error::DoubledeckerError;
use doubledecker::executor::{apply_operation, execute_operations};
use doubledecker::loader::load_csv;
use doubledecker::statics::{AggFunc, Aggregation, FilterOp, JsonValue, Operations, TransformOp};
use doubledecker::table::Table;

fn sample_table() -> Table {
    // columns [id:int, name:string, amount:float], rows
    // (1,"a",10.5), (2,"b",20.0), (3,"c",null)
    load_csv("Id,Name,Amount\n1,a,10.5\n2,b,20.0\n3,c,\n").unwrap()
}

fn names_of(t: &Table) -> Vec<String> {
    t.columns.iter().map(|c| c.name.clone()).collect()
}

#[test]
fn select_projects_in_order() {
    let t = sample_table();
    let op = Operations::Select { columns: vec!["amount".to_string(), "id".to_string()] };
    let out = apply_operation(&t, &op).unwrap();
    assert_eq!(names_of(&out), vec!["amount".to_string(), "id".to_string()]);
    assert_eq!(out.row_count, 3);
}

#[test]
fn column_names_with_dots_spaces_and_dashes_are_literal() {
    // a name holding a dot, a space or a dash is one identifier, never
    // a path or an operator expression
    let t = load_csv("a.b,c d,e-f\n1,2,3\n4,5,6\n").unwrap();
    let op = Operations::Filter {
        column: "a.b".to_string(),
        operator: FilterOp::Gt,
        value: "2".to_string(),
    };
    let out = apply_operation(&t, &op).unwrap();
    assert_eq!(out.row_count, 1);
    let sel = Operations::Select { columns: vec!["e-f".to_string(), "c d".to_string()] };
    let out2 = apply_operation(&t, &sel).unwrap();
    assert_eq!(names_of(&out2), vec!["e-f".to_string(), "c d".to_string()]);
}

#[test]
fn select_missing_column_fails() {
    let t = sample_table();
    let op = Operations::Select { columns: vec!["nope".to_string()] };
    match apply_operation(&t, &op) {
        Err(DoubledeckerError::ColumnNotFound(c)) => assert_eq!(c, "nope"),
        other => panic!("expected ColumnNotFound, got {:?}", other),
    }
}

#[test]
fn select_composition_scenario() {
    // Select([a,b]) then Select([a]) equals Select([a]) directly
    let t = sample_table();
    let ab = Operations::Select { columns: vec!["id".to_string(), "name".to_string()] };
    let a = Operations::Select { columns: vec!["id".to_string()] };
    let t1 = apply_operation(&apply_operation(&t, &ab).unwrap(), &a).unwrap();
    let t2 = apply_operation(&t, &a).unwrap();
    let r1 = query_response_to_csv(&table_to_response(&t1).unwrap());
    let r2 = query_response_to_csv(&table_to_response(&t2).unwrap());
    assert_eq!(r1, r2);
    assert_eq!(r1, "id\n1\n2\n3\n");
}

#[test]
fn filter_numeric_coercion_matches_int_and_float_text() {
    // on an integer column, Eq "5" and Eq "5.0" match the same rows
    let t = load_csv("n\n4\n5\n6\n").unwrap();
    for value in ["5", "5.0"] {
        let op = Operations::Filter {
            column: "n".to_string(),
            operator: FilterOp::Eq,
            value: value.to_string(),
        };
        let out = apply_operation(&t, &op).unwrap();
        assert_eq!(out.row_count, 1, "value {:?}", value);
        let resp = table_to_response(&out).unwrap();
        assert!(matches!(resp.rows[0][0], JsonValue::Int(5)));
    }
}

#[test]
fn filter_gt_drops_nulls_and_smaller_rows() {
    let t = sample_table();
    let op = Operations::Filter {
        column: "amount".to_string(),
        operator: FilterOp::Gt,
        value: "15".to_string(),
    };
    let out = apply_operation(&t, &op).unwrap();
    let resp = table_to_response(&out).unwrap();
    assert_eq!(resp.rows.len(), 1);
    assert!(matches!(resp.rows[0][0], JsonValue::Int(2)));
    assert!(matches!(&resp.rows[0][1], JsonValue::Str(s) if s == "b"));
}

#[test]
fn filter_contains_is_case_sensitive_substring() {
    let t = load_csv("w\nalpha\nALPHA\nbeta\n").unwrap();
    let op = Operations::Filter {
        column: "w".to_string(),
        operator: FilterOp::Contains,
        value: "lph".to_string(),
    };
    let out = apply_operation(&t, &op).unwrap();
    assert_eq!(out.row_count, 1);
}

#[test]
fn filter_contains_on_numeric_column_is_type_error() {
    let t = load_csv("n\n1\n2\n").unwrap();
    let op = Operations::Filter {
        column: "n".to_string(),
        operator: FilterOp::Contains,
        value: "1".to_string(),
    };
    assert!(matches!(
        apply_operation(&t, &op),
        Err(DoubledeckerError::TypeError(_))
    ));
}

#[test]
fn filter_string_comparison_when_value_is_not_numeric() {
    let t = load_csv("w\napple\nbanana\ncherry\n").unwrap();
    let op = Operations::Filter {
        column: "w".to_string(),
        operator: FilterOp::Lt,
        value: "banana".to_string(),
    };
    let out = apply_operation(&t, &op).unwrap();
    let resp = table_to_response(&out).unwrap();
    assert_eq!(resp.rows.len(), 1);
    assert!(matches!(&resp.rows[0][0], JsonValue::Str(s) if s == "apple"));
}

#[test]
fn group_by_empty_columns_is_invalid_query() {
    let t = sample_table();
    let op = Operations::GroupBy {
        columns: vec![],
        aggregations: vec![Aggregation {
            function: AggFunc::Sum,
            column: "amount".to_string(),
            alias: None,
        }],
    };
    match apply_operation(&t, &op) {
        Err(DoubledeckerError::InvalidQuery(m)) => {
            assert_eq!(m, "GroupBy requires at least one column to group by")
        }
        other => panic!("expected InvalidQuery, got {:?}", other),
    }
}

#[test]
fn group_by_empty_aggregations_is_invalid_query() {
    let t = sample_table();
    let op = Operations::GroupBy { columns: vec!["name".to_string()], aggregations: vec![] };
    match apply_operation(&t, &op) {
        Err(DoubledeckerError::InvalidQuery(m)) => assert_eq!(
            m,
            "GroupBy requires at least one aggregation function (e.g., SUM, AVG, COUNT)"
        ),
        other => panic!("expected InvalidQuery, got {:?}", other),
    }
}

#[test]
fn group_by_sum_ignores_nulls_and_keeps_first_occurrence_order() {
    // grouping the sample by name sums amounts; the null-amount row
    // contributes zero to its own group rather than a null
    let t = sample_table();
    let op = Operations::GroupBy {
        columns: vec!["name".to_string()],
        aggregations: vec![Aggregation {
            function: AggFunc::Sum,
            column: "amount".to_string(),
            alias: None,
        }],
    };
    let out = apply_operation(&t, &op).unwrap();
    let resp = table_to_response(&out).unwrap();
    assert_eq!(resp.columns, vec!["name".to_string(), "sum(amount)".to_string()]);
    assert_eq!(resp.rows.len(), 3);
    assert!(matches!(&resp.rows[0][0], JsonValue::Str(s) if s == "a"));
    assert!(matches!(resp.rows[0][1], JsonValue::Float(b) if b == (10.5f64).to_bits()));
    assert!(matches!(&resp.rows[1][0], JsonValue::Str(s) if s == "b"));
    assert!(matches!(resp.rows[1][1], JsonValue::Float(b) if b == (20.0f64).to_bits()));
    assert!(matches!(&resp.rows[2][0], JsonValue::Str(s) if s == "c"));
    assert!(matches!(resp.rows[2][1], JsonValue::Float(b) if b == (0.0f64).to_bits()));
}

#[test]
fn group_by_count_counts_only_non_null_cells() {
    let t = load_csv("k,v\nx,1\nx,\ny,3\n").unwrap();
    let op = Operations::GroupBy {
        columns: vec!["k".to_string()],
        aggregations: vec![Aggregation {
            function: AggFunc::Count,
            column: "v".to_string(),
            alias: Some("cnt".to_string()),
        }],
    };
    let out = apply_operation(&t, &op).unwrap();
    let resp = table_to_response(&out).unwrap();
    assert_eq!(resp.columns, vec!["k".to_string(), "cnt".to_string()]);
    assert!(matches!(resp.rows[0][1], JsonValue::Int(1)));
    assert!(matches!(resp.rows[1][1], JsonValue::Int(1)));
}

#[test]
fn group_by_avg_ignores_nulls() {
    let t = load_csv("k,v\nx,10\nx,\nx,20\n").unwrap();
    let op = Operations::GroupBy {
        columns: vec!["k".to_string()],
        aggregations: vec![Aggregation {
            function: AggFunc::Avg,
            column: "v".to_string(),
            alias: None,
        }],
    };
    let out = apply_operation(&t, &op).unwrap();
    let resp = table_to_response(&out).unwrap();
    assert!(matches!(resp.rows[0][1], JsonValue::Float(b) if b == (15.0f64).to_bits()));
}

#[test]
fn group_by_max_min_over_integers() {
    let t = load_csv("k,v\nx,3\nx,9\nx,1\n").unwrap();
    let op = Operations::GroupBy {
        columns: vec!["k".to_string()],
        aggregations: vec![
            Aggregation { function: AggFunc::Max, column: "v".to_string(), alias: None },
            Aggregation { function: AggFunc::Min, column: "v".to_string(), alias: None },
        ],
    };
    let out = apply_operation(&t, &op).unwrap();
    let resp = table_to_response(&out).unwrap();
    assert_eq!(
        resp.columns,
        vec!["k".to_string(), "max(v)".to_string(), "min(v)".to_string()]
    );
    assert!(matches!(resp.rows[0][1], JsonValue::Int(9)));
    assert!(matches!(resp.rows[0][2], JsonValue::Int(1)));
}

#[test]
fn group_by_sum_of_text_column_is_type_error() {
    let t = sample_table();
    let op = Operations::GroupBy {
        columns: vec!["id".to_string()],
        aggregations: vec![Aggregation {
            function: AggFunc::Sum,
            column: "name".to_string(),
            alias: None,
        }],
    };
    match apply_operation(&t, &op) {
        Err(DoubledeckerError::TypeError(c)) => assert_eq!(c, "name"),
        other => panic!("expected TypeError, got {:?}", other),
    }
}

#[test]
fn group_by_duplicate_output_name_is_invalid_query() {
    let t = sample_table();
    let op = Operations::GroupBy {
        columns: vec!["name".to_string()],
        aggregations: vec![Aggregation {
            function: AggFunc::Count,
            column: "id".to_string(),
            alias: Some("name".to_string()),
        }],
    };
    assert!(matches!(
        apply_operation(&t, &op),
        Err(DoubledeckerError::InvalidQuery(_))
    ));
}

#[test]
fn sort_ascending_is_stable_and_puts_nulls_last() {
    let t = load_csv("k,v\nb,1\na,2\n,3\na,4\n").unwrap();
    let op = Operations::Sort { column: "k".to_string(), ascending: true };
    let out = apply_operation(&t, &op).unwrap();
    let resp = table_to_response(&out).unwrap();
    // a(2), a(4) keep their order; the null key sorts last
    assert!(matches!(resp.rows[0][1], JsonValue::Int(2)));
    assert!(matches!(resp.rows[1][1], JsonValue::Int(4)));
    assert!(matches!(resp.rows[2][1], JsonValue::Int(1)));
    assert!(matches!(resp.rows[3][0], JsonValue::Null));
    assert!(matches!(resp.rows[3][1], JsonValue::Int(3)));
}

#[test]
fn sort_descending_also_puts_nulls_last() {
    let t = load_csv("k,v\nb,1\na,2\n,3\n").unwrap();
    let op = Operations::Sort { column: "k".to_string(), ascending: false };
    let out = apply_operation(&t, &op).unwrap();
    let resp = table_to_response(&out).unwrap();
    assert!(matches!(resp.rows[0][1], JsonValue::Int(1)));
    assert!(matches!(resp.rows[1][1], JsonValue::Int(2)));
    assert!(matches!(resp.rows[2][0], JsonValue::Null));
}

#[test]
fn sort_then_limit_one_returns_global_minimum() {
    // ties are resolved by pre-sort order
    let t = load_csv("v,tag\n7,first7\n3,first3\n7,second7\n3,second3\n").unwrap();
    let ops = vec![
        Operations::Sort { column: "v".to_string(), ascending: true },
        Operations::Limit { count: 1 },
    ];
    let out = execute_operations(&t, &ops).unwrap();
    let resp = table_to_response(&out).unwrap();
    assert_eq!(resp.rows.len(), 1);
    assert!(matches!(resp.rows[0][0], JsonValue::Int(3)));
    assert!(matches!(&resp.rows[0][1], JsonValue::Str(s) if s == "first3"));
}

#[test]
fn limit_beyond_row_count_keeps_all_rows() {
    let t = sample_table();
    let op = Operations::Limit { count: 10 };
    let out = apply_operation(&t, &op).unwrap();
    assert_eq!(out.row_count, 3);
}

#[test]
fn transform_multiply_appends_new_float_column() {
    let t = sample_table();
    let op = Operations::Transform {
        column: "id".to_string(),
        operation: TransformOp::Multiply,
        value: (2.0f64).to_bits(),
        alias: "double_id".to_string(),
    };
    let out = apply_operation(&t, &op).unwrap();
    assert_eq!(
        names_of(&out),
        vec![
            "id".to_string(),
            "name".to_string(),
            "amount".to_string(),
            "double_id".to_string()
        ]
    );
    let resp = table_to_response(&out).unwrap();
    assert!(matches!(resp.rows[0][3], JsonValue::Float(b) if b == (2.0f64).to_bits()));
    assert!(matches!(resp.rows[2][3], JsonValue::Float(b) if b == (6.0f64).to_bits()));
}

#[test]
fn transform_replaces_column_in_place_when_alias_collides() {
    let t = sample_table();
    let op = Operations::Transform {
        column: "amount".to_string(),
        operation: TransformOp::Add,
        value: (1.0f64).to_bits(),
        alias: "amount".to_string(),
    };
    let out = apply_operation(&t, &op).unwrap();
    assert_eq!(names_of(&out), names_of(&t));
    let resp = table_to_response(&out).unwrap();
    assert!(matches!(resp.rows[0][2], JsonValue::Float(b) if b == (11.5f64).to_bits()));
    // a null cell stays null under an elementwise transform
    assert!(matches!(resp.rows[2][2], JsonValue::Null));
}

#[test]
fn transform_divide_by_zero_is_refused() {
    let t = sample_table();
    let op = Operations::Transform {
        column: "amount".to_string(),
        operation: TransformOp::Divide,
        value: (0.0f64).to_bits(),
        alias: "broken".to_string(),
    };
    match apply_operation(&t, &op) {
        Err(DoubledeckerError::QueryExecution(m)) => assert_eq!(m, "division by zero"),
        other => panic!("expected QueryExecution, got {:?}", other),
    }
}

#[test]
fn transform_on_text_column_is_type_error() {
    let t = sample_table();
    let op = Operations::Transform {
        column: "name".to_string(),
        operation: TransformOp::Add,
        value: (1.0f64).to_bits(),
        alias: "x".to_string(),
    };
    assert!(matches!(
        apply_operation(&t, &op),
        Err(DoubledeckerError::TypeError(_))
    ));
}

#[test]
fn pipeline_reports_index_of_first_failing_operation() {
    let t = sample_table();
    let ops = vec![
        Operations::Limit { count: 3 },
        Operations::Select { columns: vec!["ghost_col".to_string()] },
        Operations::Limit { count: 1 },
    ];
    match execute_operations(&t, &ops) {
        Err(pe) => {
            assert_eq!(pe.index, 1);
            assert!(matches!(pe.error, DoubledeckerError::ColumnNotFound(c) if c == "ghost_col"));
        }
        Ok(_) => panic!("expected a pipeline failure"),
    }
}

#[test]
fn pipeline_is_deterministic_across_repeated_runs() {
    let t = sample_table();
    let ops = vec![
        Operations::Filter {
            column: "amount".to_string(),
            operator: FilterOp::Ge,
            value: "10".to_string(),
        },
        Operations::Sort { column: "id".to_string(), ascending: false },
    ];
    let first = query_response_to_csv(
        &table_to_response(&execute_operations(&t, &ops).unwrap()).unwrap(),
    );
    let second = query_response_to_csv(
        &table_to_response(&execute_operations(&t, &ops).unwrap()).unwrap(),
    );
    assert_eq!(first, second);
}

#[test]
fn end_to_end_scenario_filter_then_encode() {
    // filtering the sample on amount > 15 leaves the single row (2, b, 20.0)
    let t = sample_table();
    let ops = vec![Operations::Filter {
        column: "amount".to_string(),
        operator: FilterOp::Gt,
        value: "15".to_string(),
    }];
    let out = execute_operations(&t, &ops).unwrap();
    let resp = table_to_response(&out).unwrap();
    assert_eq!(resp.columns, vec!["id".to_string(), "name".to_string(), "amount".to_string()]);
    assert_eq!(resp.rows.len(), 1);
    assert!(matches!(resp.rows[0][0], JsonValue::Int(2)));
    assert!(matches!(&resp.rows[0][1], JsonValue::Str(s) if s == "b"));
    assert!(matches!(resp.rows[0][2], JsonValue::Float(b) if b == (20.0f64).to_bits()));
}
