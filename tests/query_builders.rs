use tier2_web_server_actix_postgres::{
    get_for_cache_all_function_input_params, get_for_cache_all_view_fields, FieldName, FunctionName,
    LibError, ParamName, PostgresFieldType, PostgresInputType, PostgresValue, SchemaCache,
    ServerSideMultiRow, ServerSideSingleRow, ViewName, WebParams,
};

fn pairs(items: &[(&str, &str)]) -> Vec<(String, String)> {
    items.iter().map(|(k, v)| (k.to_string(), v.to_string())).collect()
}

fn cache() -> SchemaCache {
    let functions = get_for_cache_all_function_input_params(&pairs(&[
        (
            "webpage_hits_insert",
            "_id integer, _webpage character varying, _hit_count integer, OUT id integer, OUT webpage character varying, OUT hit_count integer",
        ),
        ("webpage_hits_edit", "_id integer, OUT id integer, OUT webpage character varying, OUT hit_count integer"),
        ("webpage_hits_new", ""),
        ("webpage_hits_show", "in_id integer"),
    ]))
    .unwrap();
    let views = get_for_cache_all_view_fields(&vec![
        ("webpage_hits".to_string(), "id".to_string(), "int4".to_string()),
        ("webpage_hits".to_string(), "webpage".to_string(), "varchar".to_string()),
        ("webpage_hits".to_string(), "hit_count".to_string(), "int4".to_string()),
    ])
    .unwrap();
    SchemaCache { sql_function_input_params: functions, sql_view_fields: views }
}

fn list_request(params: &[(&str, &str)]) -> ServerSideMultiRow {
    let mut ssmr = ServerSideMultiRow::new("webpage_hits", "webpage_hits", &pairs(params), &None);
    ssmr.where_clause = vec![
        "webpage like {f_like_webpage}".to_string(),
        "hit_counter > {f_gt_hit_counter}".to_string(),
        "hit_counter < {f_lt_hit_counter}".to_string(),
    ];
    ssmr
}

#[test]
fn list_filter_only_supplied_clause() {
    let mut ssmr = ServerSideMultiRow::new(
        "webpage_hits",
        "webpage_hits",
        &pairs(&[("f_like_webpage", "%example%")]),
        &None,
    );
    ssmr.where_clause =
        vec!["webpage like {f_like_webpage}".to_string(), "hit_counter > {f_gt_hit_counter}".to_string()];
    ssmr.prepare_filter_params(&cache()).unwrap();
    assert_eq!(ssmr.sql_where, "WHERE webpage like $1");
    assert_eq!(ssmr.sql_params, vec![PostgresValue::String("%example%".to_string())]);
    assert!(!ssmr.sql_where.contains("hit_counter"));
    assert_eq!(ssmr.sql_order_by, "");
}

#[test]
fn list_filter_numbering_skips_absent_clauses() {
    let mut ssmr = list_request(&[("f_lt_hit_counter", "10"), ("f_like_webpage", "a%")]);
    ssmr.prepare_filter_params(&cache()).unwrap();
    assert_eq!(ssmr.sql_where, "WHERE webpage like $1 AND hit_counter < $2");
    assert_eq!(
        ssmr.sql_params,
        vec![PostgresValue::String("a%".to_string()), PostgresValue::String("10".to_string())]
    );
    assert_eq!(
        ssmr.sql_statement(),
        "SELECT * FROM webpage_hits WHERE webpage like $1 AND hit_counter < $2 ;"
    );
}

#[test]
fn list_filter_all_clauses_numbered_in_order() {
    let mut ssmr =
        list_request(&[("f_gt_hit_counter", "1"), ("f_lt_hit_counter", "9"), ("f_like_webpage", "x")]);
    ssmr.prepare_filter_params(&cache()).unwrap();
    assert_eq!(
        ssmr.sql_where,
        "WHERE webpage like $1 AND hit_counter > $2 AND hit_counter < $3"
    );
    assert_eq!(ssmr.sql_params.len(), 3);
}

#[test]
fn list_without_filters_has_no_where() {
    let mut ssmr = list_request(&[]);
    ssmr.prepare_filter_params(&cache()).unwrap();
    assert_eq!(ssmr.sql_where, "");
    assert!(ssmr.sql_params.is_empty());
    assert_eq!(ssmr.sql_statement(), "SELECT * FROM webpage_hits  ;");
}

#[test]
fn list_order_by_known_field_descending() {
    let mut ssmr = list_request(&[("f_order_by", "hit_count"), ("f_order_by_direction", "DeSc")]);
    ssmr.prepare_filter_params(&cache()).unwrap();
    assert_eq!(ssmr.sql_order_by, "ORDER BY hit_count DESC ");
}

#[test]
fn list_order_by_ascending_and_empty_field() {
    let mut ssmr = list_request(&[("f_order_by", "webpage"), ("f_order_by_direction", "asc")]);
    ssmr.prepare_filter_params(&cache()).unwrap();
    assert_eq!(ssmr.sql_order_by, "ORDER BY webpage");
    let mut empty = list_request(&[("f_order_by", "")]);
    empty.prepare_filter_params(&cache()).unwrap();
    assert_eq!(empty.sql_order_by, "");
}

#[test]
fn list_unknown_sort_field_is_rejected() {
    let mut ssmr = list_request(&[("f_order_by", "id; drop table webpage")]);
    let r = ssmr.prepare_filter_params(&cache());
    match r {
        Err(LibError::UnknownField { user_friendly, .. }) => {
            assert_eq!(user_friendly, "id; drop table webpage")
        }
        other => panic!("unexpected {:?}", other),
    }
}

#[test]
fn list_unknown_view_is_an_error() {
    let mut ssmr = ServerSideMultiRow::new("s", "no_such_view", &vec![], &None);
    assert!(matches!(
        ssmr.prepare_filter_params(&cache()),
        Err(LibError::UnknownView { .. })
    ));
}

#[test]
fn clause_without_placeholder_never_taken() {
    let mut ssmr = ServerSideMultiRow::new("s", "webpage_hits", &pairs(&[("x", "1")]), &None);
    ssmr.where_clause = vec!["plain clause".to_string(), "empty {}".to_string(), "a = {x}".to_string()];
    ssmr.prepare_filter_params(&cache()).unwrap();
    assert_eq!(ssmr.sql_where, "WHERE a = $1");
}

#[test]
fn insert_missing_webpage_reports_missing_parameter() {
    let mut sssr = ServerSideSingleRow::new(
        "webpage_hits",
        "webpage_hits_insert",
        &pairs(&[("id", "7"), ("hit_count", "0")]),
        &None,
    );
    match sssr.prepare_function_params(&cache()) {
        Err(LibError::GetStrFromWebParams { user_friendly, .. }) => assert_eq!(user_friendly, "webpage"),
        other => panic!("unexpected {:?}", other),
    }
    assert!(sssr.sql_params.is_empty());
}

#[test]
fn insert_builds_typed_arguments_and_call() {
    let mut sssr = ServerSideSingleRow::new(
        "webpage_hits",
        "webpage_hits_insert",
        &pairs(&[("id", "7"), ("webpage", "test"), ("hit_count", "0")]),
        &None,
    );
    sssr.prepare_function_params(&cache()).unwrap();
    assert_eq!(
        sssr.sql_params,
        vec![
            PostgresValue::I32(7),
            PostgresValue::String("test".to_string()),
            PostgresValue::I32(0)
        ]
    );
    assert_eq!(sssr.sql_statement(), "SELECT * FROM webpage_hits_insert($1, $2, $3)");
}

#[test]
fn function_without_parameters_gets_empty_call() {
    let mut sssr = ServerSideSingleRow::new("webpage_hits", "webpage_hits_new", &vec![], &None);
    sssr.prepare_function_params(&cache()).unwrap();
    assert!(sssr.sql_params.is_empty());
    assert_eq!(sssr.sql_statement(), "SELECT * FROM webpage_hits_new()");
}

#[test]
fn in_prefix_is_stripped() {
    let mut sssr =
        ServerSideSingleRow::new("webpage_hits", "webpage_hits_show", &pairs(&[("id", "-3")]), &None);
    sssr.prepare_function_params(&cache()).unwrap();
    assert_eq!(sssr.sql_params, vec![PostgresValue::I32(-3)]);
}

#[test]
fn non_integer_parameter_is_reported() {
    let mut sssr =
        ServerSideSingleRow::new("webpage_hits", "webpage_hits_edit", &pairs(&[("id", "4x")]), &None);
    match sssr.prepare_function_params(&cache()) {
        Err(LibError::GetI32FromWebParams { user_friendly, .. }) => assert_eq!(user_friendly, "id"),
        other => panic!("unexpected {:?}", other),
    }
}

#[test]
fn unknown_function_is_an_error() {
    let mut sssr = ServerSideSingleRow::new("s", "nope", &vec![], &None);
    match sssr.prepare_function_params(&cache()) {
        Err(LibError::UnknownFunction { user_friendly, .. }) => assert_eq!(user_friendly, "nope"),
        other => panic!("unexpected {:?}", other),
    }
}

#[test]
fn placeholder_count_matches_declared_inputs() {
    let c = cache();
    let decl = c.function_params(&FunctionName("webpage_hits_insert".to_string())).unwrap();
    assert_eq!(decl.len(), 3);
    let args = vec![PostgresValue::I32(1); decl.len()];
    let list = tier2_web_server_actix_postgres::prepare_placeholders_for_sql_params(&args);
    assert_eq!(list, "$1, $2, $3");
    assert_eq!(list.matches('$').count(), 3);
    assert_eq!(tier2_web_server_actix_postgres::prepare_placeholders_for_sql_params(&vec![]), "");
    let eleven = vec![PostgresValue::I32(0); 11];
    assert!(tier2_web_server_actix_postgres::prepare_placeholders_for_sql_params(&eleven)
        .ends_with("$10, $11"));
}

#[test]
fn form_shadows_query() {
    let query = pairs(&[("id", "1"), ("only_query", "q")]);
    let form = Some(pairs(&[("id", "2"), ("webpage", "w")]));
    let p = WebParams::from_actix(&query, &form);
    assert_eq!(p.get_str("id").unwrap(), "2");
    assert!(p.get_str("only_query").is_err());
    let q = WebParams::from_actix(&query, &None);
    assert_eq!(q.get_str("id").unwrap(), "1");
}

#[test]
fn last_pair_of_a_key_wins() {
    let p = WebParams::from_pairs(&pairs(&[("a", "1"), ("b", "2"), ("a", "3")]));
    assert_eq!(p.0, pairs(&[("a", "3"), ("b", "2")]));
    assert_eq!(p.get_i32("a").unwrap(), 3);
    assert_eq!(p.describe(), "a=3, b=2");
}

#[test]
fn get_i32_edges() {
    let p = WebParams::from_pairs(&pairs(&[
        ("max", "2147483647"),
        ("min", "-2147483648"),
        ("over", "2147483648"),
        ("plus", "+12"),
        ("empty", ""),
        ("sign", "-"),
        ("space", " 1"),
    ]));
    assert_eq!(p.get_i32("max").unwrap(), i32::MAX);
    assert_eq!(p.get_i32("min").unwrap(), i32::MIN);
    assert_eq!(p.get_i32("plus").unwrap(), 12);
    for k in ["over", "empty", "sign", "space"] {
        assert!(matches!(p.get_i32(k), Err(LibError::GetI32FromWebParams { .. })), "{}", k);
    }
    assert!(matches!(p.get_i32("absent"), Err(LibError::GetStrFromWebParams { .. })));
}

#[test]
fn schema_rows_parse_and_group() {
    let c = cache();
    let insert = c.function_params(&FunctionName("webpage_hits_insert".to_string())).unwrap();
    assert_eq!(
        insert,
        &vec![
            (ParamName("_id".to_string()), PostgresInputType::Integer),
            (ParamName("_webpage".to_string()), PostgresInputType::Character),
            (ParamName("_hit_count".to_string()), PostgresInputType::Integer),
        ]
    );
    let fields = c.view_fields(&ViewName("webpage_hits".to_string())).unwrap();
    assert_eq!(fields.len(), 3);
    assert_eq!(fields[1], (FieldName("webpage".to_string()), PostgresFieldType::Varchar));
}

#[test]
fn views_grouped_by_consecutive_rows() {
    let rows = vec![
        ("a".to_string(), "x".to_string(), "TEXT".to_string()),
        ("a".to_string(), "y".to_string(), "name".to_string()),
        ("b".to_string(), "z".to_string(), "int4".to_string()),
    ];
    let v = get_for_cache_all_view_fields(&rows).unwrap();
    assert_eq!(v.len(), 2);
    assert_eq!(v[0].1.len(), 2);
    assert_eq!(v[0].1[0].1, PostgresFieldType::Text);
    assert_eq!(v[1].0, ViewName("b".to_string()));
}

#[test]
fn unrecognized_schema_types_fail_the_load() {
    let bad_fn = get_for_cache_all_function_input_params(&pairs(&[("f", "_x bigint")]));
    assert!(matches!(bad_fn, Err(LibError::UnrecognizedSchemaType { .. })));
    let no_type = get_for_cache_all_function_input_params(&pairs(&[("f", "_x")]));
    assert!(matches!(no_type, Err(LibError::UnrecognizedSchemaType { .. })));
    let bad_view = get_for_cache_all_view_fields(&vec![(
        "v".to_string(),
        "f".to_string(),
        "float8".to_string(),
    )]);
    assert!(matches!(bad_view, Err(LibError::UnrecognizedSchemaType { .. })));
}

#[test]
fn type_names_ignore_case() {
    assert_eq!(PostgresInputType::from_type_name("INTEGER"), Some(PostgresInputType::Integer));
    assert_eq!(PostgresInputType::from_type_name("text"), Some(PostgresInputType::Text));
    assert_eq!(PostgresInputType::from_type_name("bigint"), None);
    assert_eq!(PostgresFieldType::from_type_name("VarChar"), Some(PostgresFieldType::Varchar));
    assert_eq!(PostgresFieldType::from_type_name("int"), None);
}
