use tier2_web_server_actix_postgres::html_templating_mod::substitute_placeholders;
use tier2_web_server_actix_postgres::text_mod::{
    eq_ignore_ascii_case, i32_to_string, parse_i32, split_by,
};
use tier2_web_server_actix_postgres::server_side_single_row_mod::trim_start_matches;
use tier2_web_server_actix_postgres::{
    render_list, template_path, template_replace_fields_from_single_row, time_epoch, Column,
    ColumnValue, LibError, WebParams,
};

fn col(name: &str, value: ColumnValue) -> Column {
    Column { name: name.to_string(), value }
}

fn text(s: &str) -> ColumnValue {
    ColumnValue::Text(s.to_string())
}

fn params(items: &[(&str, &str)]) -> WebParams {
    WebParams::from_pairs(&items.iter().map(|(k, v)| (k.to_string(), v.to_string())).collect())
}

#[test]
fn edit_page_is_filled_from_the_row() {
    let template = "<input name=\"id\" value=\"{id}\"><input value=\"{webpage}\">{hit_count}";
    let row = vec![col("id", ColumnValue::Int4(42)), col("webpage", text("test")), col("hit_count", ColumnValue::Int4(3))];
    let html = template_replace_fields_from_single_row(template, &row).unwrap();
    assert_eq!(html, "<input name=\"id\" value=\"42\"><input value=\"test\">3");
}

#[test]
fn text_values_are_escaped() {
    let row = vec![col("webpage", text("<b>x</b> & y"))];
    let html = template_replace_fields_from_single_row("<td>{webpage}</td>", &row).unwrap();
    assert_eq!(html, "<td>&lt;b&gt;x&lt;/b&gt; &amp; y</td>");
}

#[test]
fn rendering_twice_gives_the_same_bytes() {
    let row = vec![col("id", ColumnValue::Int4(-7)), col("w", text("a<b"))];
    let t = "{id}|{w}|{missing}|{id}";
    let first = template_replace_fields_from_single_row(t, &row).unwrap();
    let second = template_replace_fields_from_single_row(t, &row).unwrap();
    assert_eq!(first, second);
    assert_eq!(first, "-7|a&lt;b|{missing}|-7");
}

#[test]
fn void_column_leaves_placeholder() {
    let row = vec![col("webpage_hits_delete", ColumnValue::Void)];
    let html = template_replace_fields_from_single_row("done {webpage_hits_delete}", &row).unwrap();
    assert_eq!(html, "done {webpage_hits_delete}");
}

#[test]
fn unsupported_column_type_is_an_error() {
    let row = vec![col("id", ColumnValue::Int4(1)), col("price", ColumnValue::Unsupported("numeric".to_string()))];
    assert!(matches!(
        template_replace_fields_from_single_row("{id}", &row),
        Err(LibError::UnrecognizedColumnType { .. })
    ));
}

#[test]
fn substituted_values_are_not_expanded_again() {
    let row = vec![col("a", text("{b}")), col("b", text("B"))];
    let html = template_replace_fields_from_single_row("{a} {b}", &row).unwrap();
    assert_eq!(html, "{b} B");
}

#[test]
fn nested_brace_uses_the_inner_name() {
    let values = vec![("id".to_string(), "9".to_string())];
    assert_eq!(substitute_placeholders("{{id}}", &values), "{9}");
    assert_eq!(substitute_placeholders("{x{id}", &values), "{x9");
    assert_eq!(substitute_placeholders("no braces", &values), "no braces");
    assert_eq!(substitute_placeholders("{id", &values), "{id");
}

#[test]
fn list_page_repeats_rows_and_fills_filters() {
    let t = "<form><input value=\"{f_like_webpage}\"></form><table><!--row_start--><tr><td>{webpage}</td><td>{hit_count}</td></tr><!--row_end--></table>{unknown}";
    let rows = vec![
        vec![col("webpage", text("a&b")), col("hit_count", ColumnValue::Int4(1))],
        vec![col("webpage", text("c")), col("hit_count", ColumnValue::Int4(20))],
    ];
    let html = render_list(t, &rows, &params(&[("f_like_webpage", "%a%")])).unwrap();
    assert_eq!(
        html,
        "<form><input value=\"%a%\"></form><table><tr><td>a&amp;b</td><td>1</td></tr><tr><td>c</td><td>20</td></tr></table>{unknown}"
    );
}

#[test]
fn list_page_with_no_rows_drops_region() {
    let t = "head<!--row_start-->row<!--row_end-->tail";
    let html = render_list(t, &vec![], &params(&[])).unwrap();
    assert_eq!(html, "headtail");
}

#[test]
fn list_template_without_markers_is_an_error() {
    for t in ["no markers", "<!--row_start--> only start", "<!--row_end--> before <!--row_start-->"] {
        assert!(matches!(
            render_list(t, &vec![], &params(&[])),
            Err(LibError::MissingRowMarker { .. })
        ));
    }
}

#[test]
fn list_row_with_unsupported_column_is_an_error() {
    let t = "<!--row_start-->{x}<!--row_end-->";
    let rows = vec![vec![col("x", ColumnValue::Unsupported("bool".to_string()))]];
    assert!(matches!(
        render_list(t, &rows, &params(&[])),
        Err(LibError::UnrecognizedColumnType { .. })
    ));
}

#[test]
fn template_path_is_scope_and_name() {
    assert_eq!(template_path("webpage_hits", "webpage_hits_list"), "webpage_hits_admin/webpage_hits/webpage_hits_list.html");
}

#[test]
fn error_messages_and_body() {
    let e = LibError::GetStrFromWebParams {
        user_friendly: "webpage".to_string(),
        developer_friendly: "id=1".to_string(),
        source_line_column: "here".to_string(),
    };
    assert_eq!(e.user_message(), "The value does not exist in web query: webpage");
    assert_eq!(e.error_response_body(1234), "1234 The value does not exist in web query: webpage");
    assert_eq!(e.status_code(), 500);
    assert_eq!(LibError::DatabaseConnection.user_message(), "Database connection error.");
    let q = LibError::QueryError {
        user_friendly: "duplicate key".to_string(),
        developer_friendly: String::new(),
        source_line_column: String::new(),
    };
    assert_eq!(q.user_message(), "Query error: duplicate key");
}

#[test]
fn time_epoch_is_after_2020() {
    assert!(time_epoch() > 1_577_836_800_000);
}

#[test]
fn integers_in_decimal() {
    assert_eq!(i32_to_string(0), "0");
    assert_eq!(i32_to_string(42), "42");
    assert_eq!(i32_to_string(-10), "-10");
    assert_eq!(i32_to_string(i32::MIN), "-2147483648");
    assert_eq!(i32_to_string(i32::MAX), "2147483647");
}

#[test]
fn parse_i32_matches_std() {
    for s in ["0", "-0", "+7", "007", "2147483647", "-2147483648", "2147483648", "-2147483649", "", "+", "-", "1 ", "x", "99999999999999999999"] {
        assert_eq!(parse_i32(s), s.parse::<i32>().ok(), "{:?}", s);
    }
}

#[test]
fn split_matches_std() {
    for (s, sep) in [("a, b, c", ", "), ("", ", "), (", ", ", "), ("a b", " "), ("a  b", " "), (",,, ,", ", ")] {
        let expected: Vec<String> = s.split(sep).map(|x| x.to_string()).collect();
        assert_eq!(split_by(s, sep), expected, "{:?}", s);
    }
}

#[test]
fn trim_matches_std() {
    for (s, p) in [("__in_x", "_"), ("in_in_x", "in_"), ("x", "_"), ("___", "_"), ("", "in_")] {
        assert_eq!(trim_start_matches(s, p), s.trim_start_matches(p));
    }
}

#[test]
fn case_insensitive_compare() {
    assert!(eq_ignore_ascii_case("DESC", "desc"));
    assert!(eq_ignore_ascii_case("dEsC", "DeSc"));
    assert!(!eq_ignore_ascii_case("des", "desc"));
    assert!(!eq_ignore_ascii_case("descending", "desc"));
}
