//! Server-side rendering: `{name}` placeholders in a template are replaced by
//! values in one left-to-right pass, and a marked region is repeated once
//! per result row.
use vstd::prelude::*;

use crate::error_mod::LibError;
use crate::text_mod::{decimal_int, i32_to_string, occurs_at, push_char, push_str, to_chars};
use crate::web_params_mod::{key_position, lookup, owned, pairs_view, Bindings, WebParams};

verus! {

/// The value of one result column, by the column's database type.
#[derive(Debug, Clone, PartialEq, Eq)]
pub enum ColumnValue {
    /// `text` or `varchar`
    Text(String),
    /// `int4`
    Int4(i32),
    /// `void`: a function that returns nothing
    Void,
    /// any other type, by its name
    Unsupported(String),
}

/// One column of a result row.
#[derive(Debug, Clone, PartialEq, Eq)]
pub struct Column {
    pub name: String,
    pub value: ColumnValue,
}

/// The entity for `&`, `<` and `>`; any other character stands for itself.
pub open spec fn escape_char(c: char) -> Seq<char> {
    if c == '&' {
        "&amp;"@
    } else if c == '<' {
        "&lt;"@
    } else if c == '>' {
        "&gt;"@
    } else {
        seq![c]
    }
}

/// Text made safe to stand between HTML tags.
pub open spec fn html_text_escaped(s: Seq<char>) -> Seq<char>
    decreases s.len(),
{
    if s.len() == 0 {
        Seq::empty()
    } else {
        html_text_escaped(s.drop_last()) + escape_char(s.last())
    }
}

/// Relies on html_escape::encode_text: each `&`, `<` and `>` becomes
/// `&amp;`, `&lt;` and `&gt;`; every other character is kept, in order.
#[verifier::external_body]
fn encode_text(s: &str) -> (r: String)
    ensures
        r@ == html_text_escaped(s@),
{
    html_escape::encode_text(s).into_owned()
}

/// The placeholder values a row supplies: text escaped, integers in
/// decimal, void columns nothing; nothing at all when a column has a type
/// outside that set.
pub open spec fn row_bindings(row: Seq<Column>) -> Option<Bindings>
    decreases row.len(),
{
    if row.len() == 0 {
        Some(Seq::empty())
    } else {
        match row_bindings(row.drop_last()) {
            None => None,
            Some(b) => {
                let c = row.last();
                match c.value {
                    ColumnValue::Text(s) => Some(b.push((c.name@, html_text_escaped(s@)))),
                    ColumnValue::Int4(n) => Some(b.push((c.name@, decimal_int(n as int)))),
                    ColumnValue::Void => Some(b),
                    ColumnValue::Unsupported(_) => None,
                }
            },
        }
    }
}

/// Index of the first `}` at or after `k`, or the length when there is none.
pub open spec fn next_close(t: Seq<char>, k: int) -> int
    decreases t.len() - k,
{
    if k < 0 || k >= t.len() {
        t.len() as int
    } else if t[k] == '}' {
        k
    } else {
        next_close(t, k + 1)
    }
}

/// The placeholder that starts at `i`, if any: `{`, a name that `b`
/// binds, and the first `}` after it.
pub open spec fn bound_at(t: Seq<char>, i: int, b: Bindings) -> bool {
    &&& 0 <= i < t.len()
    &&& t[i] == '{'
    &&& i < next_close(t, i + 1) < t.len()
    &&& lookup(b, t.subrange(i + 1, next_close(t, i + 1))) is Some
}

/// `t[i..]` with each placeholder that `b` binds replaced by its value.
/// The scan moves past each value, so a value is never scanned again.
pub open spec fn subst_from(t: Seq<char>, i: int, b: Bindings) -> Seq<char>
    decreases t.len() - i,
{
    if i < 0 || i >= t.len() {
        Seq::empty()
    } else if bound_at(t, i, b) {
        let j = next_close(t, i + 1);
        lookup(b, t.subrange(i + 1, j)).unwrap() + subst_from(t, j + 1, b)
    } else {
        seq![t[i]] + subst_from(t, i + 1, b)
    }
}

pub open spec fn substituted(t: Seq<char>, b: Bindings) -> Seq<char> {
    subst_from(t, 0, b)
}

pub proof fn lemma_next_close_bounds(t: Seq<char>, k: int)
    requires
        0 <= k,
    ensures
        k <= next_close(t, k) <= t.len() || (k > t.len() && next_close(t, k) == t.len()),
        next_close(t, k) < t.len() ==> t[next_close(t, k)] == '}',
        forall|m: int| k <= m < next_close(t, k) ==> t[m] != '}',
    decreases t.len() - k,
{
    if k < t.len() && t[k] != '}' {
        lemma_next_close_bounds(t, k + 1);
    }
}

/// Whether `cs[from..to]` spells `key`.
fn spells(cs: &Vec<char>, from: usize, to: usize, key: &String) -> (r: bool)
    requires
        from <= to <= cs.len(),
    ensures
        r == (cs@.subrange(from as int, to as int) == key@),
{
    let k = to_chars(key.as_str());
    if k.len() != to - from {
        return false;
    }
    let r = occurs_at(cs, from, &k);
    proof {
        if r {
            assert(cs@.subrange(from as int, to as int) == key@);
        }
    }
    r
}

/// Index of the first binding named `cs[from..to]`, or the length.
fn find_binding(b: &Vec<(String, String)>, cs: &Vec<char>, from: usize, to: usize) -> (r: usize)
    requires
        from <= to <= cs.len(),
    ensures
        r as int == key_position(pairs_view(b@), cs@.subrange(from as int, to as int)),
{
    let ghost name = cs@.subrange(from as int, to as int);
    let ghost bv = pairs_view(b@);
    let mut j: usize = 0;
    while j < b.len()
        invariant
            j <= b.len(),
            from <= to <= cs.len(),
            name == cs@.subrange(from as int, to as int),
            bv == pairs_view(b@),
            bv.len() == b.len(),
            forall|m: int| 0 <= m < j ==> bv[m].0 != name,
        decreases b.len() - j,
    {
        if spells(cs, from, to, &b[j].0) {
            proof {
                lemma_first_key(bv, name, j as int);
            }
            return j;
        }
        j = j + 1;
    }
    proof {
        lemma_first_key(bv, name, b.len() as int);
    }
    b.len()
}

proof fn lemma_first_key(b: Bindings, k: Seq<char>, j: int)
    requires
        0 <= j <= b.len(),
        j < b.len() ==> b[j].0 == k,
        forall|m: int| 0 <= m < j ==> b[m].0 != k,
    ensures
        key_position(b, k) == j,
    decreases b.len(),
{
    if b.len() > 0 && j > 0 {
        assert forall|m: int| 0 <= m < j - 1 implies b.drop_first()[m].0 != k by {
            assert(b.drop_first()[m] == b[m + 1]);
        }
        lemma_first_key(b.drop_first(), k, j - 1);
    }
}

/// Appends `t[from..to]` with its placeholders replaced.
fn substitute_range(out: &mut String, cs: &Vec<char>, from: usize, to: usize, b: &Vec<(String, String)>)
    requires
        from <= to <= cs.len(),
    ensures
        final(out)@ == old(out)@ + substituted(cs@.subrange(from as int, to as int), pairs_view(b@)),
{
    let ghost t = cs@.subrange(from as int, to as int);
    let ghost bv = pairs_view(b@);
    let ghost start = old(out)@;
    let mut i: usize = from;
    while i < to
        invariant
            from <= i <= to,
            to <= cs.len(),
            t == cs@.subrange(from as int, to as int),
            bv == pairs_view(b@),
            subst_from(t, 0, bv) == out@.subrange(start.len() as int, out@.len() as int) + subst_from(t, i - from, bv),
            start.len() <= out@.len(),
            out@.subrange(0, start.len() as int) == start,
        decreases to - i,
    {
        let ghost k = i - from;
        let ghost before = out@;
        let c = cs[i];
        let mut done = false;
        if c == '{' {
            let mut j: usize = i + 1;
            while j < to && cs[j] != '}'
                invariant
                    i + 1 <= j <= to,
                    to <= cs.len(),
                    forall|m: int| i + 1 <= m < j ==> cs@[m] != '}',
                decreases to - j,
            {
                j = j + 1;
            }
            proof {
                lemma_next_close_bounds(t, k + 1);
                lemma_next_close_is(t, k + 1, j - from);
            }
            if j < to {
                let p = find_binding(b, cs, i + 1, j);
                assert(t.subrange(k + 1, j - from) =~= cs@.subrange(i + 1, j as int));
                if p < b.len() {
                    proof {
                        crate::web_params_mod::lemma_key_position_bounds(bv, t.subrange(k + 1, j - from));
                    }
                    push_str(out, b[p].1.as_str());
                    assert(subst_from(t, k, bv) == bv[p as int].1 + subst_from(t, j - from + 1, bv));
                    i = j + 1;
                    done = true;
                } else {
                    proof {
                        crate::web_params_mod::lemma_key_position_bounds(bv, t.subrange(k + 1, j - from));
                    }
                }
            }
        }
        if !done {
            assert(!bound_at(t, k, bv));
            push_char(out, c);
            assert(subst_from(t, k, bv) == seq![c] + subst_from(t, k + 1, bv));
            i = i + 1;
        }
        assert(out@.subrange(0, start.len() as int) =~= start);
        assert(out@.subrange(start.len() as int, out@.len() as int) =~= before.subrange(
            start.len() as int,
            before.len() as int,
        ) + out@.subrange(before.len() as int, out@.len() as int));
    }
    assert(subst_from(t, i - from, bv) == Seq::<char>::empty());
    assert(out@ =~= start + out@.subrange(start.len() as int, out@.len() as int));
}

pub proof fn lemma_next_close_is(t: Seq<char>, k: int, j: int)
    requires
        0 <= k <= j <= t.len(),
        j < t.len() ==> t[j] == '}',
        forall|m: int| k <= m < j ==> t[m] != '}',
    ensures
        next_close(t, k) == j,
    decreases j - k,
{
    if k < j {
        lemma_next_close_is(t, k + 1, j);
    }
}

/// Replaces, in one pass, each `{name}` placeholder of `text` that `values`
/// binds by the value of its first binding; other text is kept as it is.
pub fn substitute_placeholders(text: &str, values: &Vec<(String, String)>) -> (r: String)
    ensures
        r@ == substituted(text@, pairs_view(values@)),
{
    let cs = to_chars(text);
    let mut r = String::new();
    substitute_range(&mut r, &cs, 0, cs.len(), values);
    assert(cs@.subrange(0, cs.len() as int) =~= text@);
    assert(r@ =~= substituted(text@, pairs_view(values@)));
    r
}

fn column_type_error(c: &Column, bad: &String) -> (r: LibError)
    ensures
        r is UnrecognizedColumnType,
{
    let mut detail = String::new();
    push_str(&mut detail, c.name.as_str());
    LibError::UnrecognizedColumnType {
        user_friendly: bad.clone(),
        developer_friendly: detail,
        source_line_column: owned("html_templating_mod::row_values"),
    }
}

/// The placeholder values of one row: text columns escaped for HTML,
/// integer columns in decimal, void columns left out.
pub fn row_values(row: &Vec<Column>) -> (r: Result<Vec<(String, String)>, LibError>)
    ensures
        match row_bindings(row@) {
            Some(b) => r matches Ok(v) && pairs_view(v@) == b,
            None => r matches Err(e) && e is UnrecognizedColumnType,
        },
{
    let mut out: Vec<(String, String)> = Vec::new();
    let mut i: usize = 0;
    while i < row.len()
        invariant
            i <= row.len(),
            row_bindings(row@.take(i as int)) == Some(pairs_view(out@)),
        decreases row.len() - i,
    {
        let ghost t = row@.take(i + 1);
        assert(t.drop_last() =~= row@.take(i as int));
        let ghost before = out@;
        let c = &row[i];
        match &c.value {
            ColumnValue::Text(v) => {
                out.push((c.name.clone(), encode_text(v.as_str())));
                assert(pairs_view(out@) =~= pairs_view(before).push((c.name@, html_text_escaped(v@))));
            },
            ColumnValue::Int4(n) => {
                out.push((c.name.clone(), i32_to_string(*n)));
                assert(pairs_view(out@) =~= pairs_view(before).push((c.name@, decimal_int(*n as int))));
            },
            ColumnValue::Void => {},
            ColumnValue::Unsupported(bad) => {
                proof {
                    lemma_row_prefix_none(row@, i + 1);
                }
                return Err(column_type_error(c, bad));
            },
        }
        i = i + 1;
    }
    assert(row@.take(row.len() as int) =~= row@);
    Ok(out)
}

proof fn lemma_row_prefix_none(row: Seq<Column>, i: int)
    requires
        0 <= i <= row.len(),
        row_bindings(row.take(i)) is None,
    ensures
        row_bindings(row) is None,
    decreases row.len() - i,
{
    if i < row.len() {
        assert(row.take(i + 1).drop_last() =~= row.take(i));
        lemma_row_prefix_none(row, i + 1);
    } else {
        assert(row.take(i) =~= row);
    }
}

/// Fills the placeholders of a template from one result row. A placeholder
/// of a void column, or of no column, stays as it is.
pub fn template_replace_fields_from_single_row(text_with_placeholders: &str, single_row: &Vec<Column>) -> (r: Result<String, LibError>)
    ensures
        match single_row_page(text_with_placeholders@, single_row@) {
            Some(h) => r matches Ok(x) && x@ == h,
            None => r matches Err(e) && e is UnrecognizedColumnType,
        },
{
    let values = row_values(single_row)?;
    Ok(substitute_placeholders(text_with_placeholders, &values))
}

/// Index of the first occurrence of `m` in `t` at or after `i`, or -1.
pub open spec fn find_from(t: Seq<char>, m: Seq<char>, i: int) -> int
    decreases t.len() - i,
{
    if i < 0 || i >= t.len() || i + m.len() > t.len() {
        -1
    } else if t.subrange(i, i + m.len()) == m {
        i
    } else {
        find_from(t, m, i + 1)
    }
}

pub fn find_first(cs: &Vec<char>, m: &Vec<char>) -> (r: Option<usize>)
    ensures
        match r {
            Some(i) => i as int == find_from(cs@, m@, 0) && i + m.len() <= cs.len(),
            None => find_from(cs@, m@, 0) == -1,
        },
{
    let mut i: usize = 0;
    while i < cs.len() && m.len() <= cs.len() - i
        invariant
            i <= cs.len(),
            find_from(cs@, m@, 0) == find_from(cs@, m@, i as int),
        decreases cs.len() - i,
    {
        if occurs_at(cs, i, m) {
            return Some(i);
        }
        i = i + 1;
    }
    None
}

/// The row region rendered once per row, in row order: each row's values
/// first, then the request parameters; nothing when a row has a column of
/// an unsupported type.
pub open spec fn rows_rendered(fragment: Seq<char>, rows: Seq<Seq<Column>>, params: Bindings) -> Option<
    Seq<char>,
>
    decreases rows.len(),
{
    if rows.len() == 0 {
        Some(Seq::empty())
    } else {
        match (rows_rendered(fragment, rows.drop_last(), params), row_bindings(rows.last())) {
            (Some(done), Some(b)) => Some(done + substituted(fragment, b + params)),
            _ => None,
        }
    }
}

pub open spec fn rows_view(rows: Seq<Vec<Column>>) -> Seq<Seq<Column>> {
    rows.map_values(|r: Vec<Column>| r@)
}

/// Where the row region of a list template starts and ends, when the start
/// marker occurs and the first end marker follows it.
pub open spec fn row_region(t: Seq<char>) -> Option<(int, int)> {
    let s = find_from(t, "<!--row_start-->"@, 0);
    let e = find_from(t, "<!--row_end-->"@, 0);
    if s >= 0 && e >= s + "<!--row_start-->"@.len() {
        Some((s, e))
    } else {
        None
    }
}

/// A list page: the region between `<!--row_start-->` and `<!--row_end-->`
/// repeated once per row, markers removed, and the request parameters filled
/// into the rest of the template.
pub open spec fn list_page(t: Seq<char>, rows: Seq<Seq<Column>>, params: Bindings) -> Option<Seq<char>> {
    match row_region(t) {
        None => None,
        Some(se) => {
            let inner = se.0 + "<!--row_start-->"@.len();
            let outer = se.1 + "<!--row_end-->"@.len();
            match rows_rendered(t.subrange(inner, se.1), rows, params) {
                Some(body) => Some(
                    substituted(t.subrange(0, se.0), params) + body + substituted(
                        t.subrange(outer, t.len() as int),
                        params,
                    ),
                ),
                None => None,
            }
        },
    }
}

/// Renders a list page from its template, the result rows and the request
/// parameters.
pub fn render_list(template: &str, rows: &Vec<Vec<Column>>, params: &WebParams) -> (r: Result<String, LibError>)
    ensures
        match row_region(template@) {
            None => r matches Err(e) && e is MissingRowMarker,
            Some(_) => match list_page(template@, rows_view(rows@), params.view()) {
                Some(h) => r matches Ok(x) && x@ == h,
                None => r matches Err(e) && e is UnrecognizedColumnType,
            },
        },
{
    let cs = to_chars(template);
    let ms = to_chars("<!--row_start-->");
    let me = to_chars("<!--row_end-->");
    let s = find_first(&cs, &ms);
    let e = find_first(&cs, &me);
    let (s, e) = match (s, e) {
        (Some(s), Some(e)) => {
            if e < s || e - s < ms.len() {
                return Err(marker_error());
            }
            (s, e)
        },
        _ => {
            return Err(marker_error());
        },
    };
    let inner = s + ms.len();
    let outer = e + me.len();
    let ghost t = template@;
    let ghost pv = params.view();
    let ghost frag = t.subrange(inner as int, e as int);
    let mut out = String::new();
    substitute_range(&mut out, &cs, 0, s, &params.0);
    let ghost head = out@;
    proof {
        reveal_strlit("<!--row_start-->");
        reveal_strlit("<!--row_end-->");
    }
    assert(row_region(t) == Some((s as int, e as int)));
    let mut i: usize = 0;
    while i < rows.len()
        invariant
            i <= rows.len(),
            inner <= e <= cs.len(),
            cs@ == t,
            t == template@,
            pv == params.view(),
            frag == t.subrange(inner as int, e as int),
            row_region(t) == Some((s as int, e as int)),
            inner == s + "<!--row_start-->"@.len(),
            outer == e + "<!--row_end-->"@.len(),
            rows_rendered(frag, rows_view(rows@).take(i as int), pv) matches Some(body) && out@ == head + body,
        decreases rows.len() - i,
    {
        let ghost rs = rows_view(rows@).take(i + 1);
        assert(rs.drop_last() =~= rows_view(rows@).take(i as int));
        assert(rs.last() == rows[i as int]@);
        let values = row_values(&rows[i]);
        match values {
            Ok(v) => {
                let mut all = v;
                let mut k: usize = 0;
                let ghost rb = pairs_view(all@);
                while k < params.0.len()
                    invariant
                        k <= params.0.len(),
                        pairs_view(all@) == rb + pv.take(k as int),
                        pv == params.view(),
                    decreases params.0.len() - k,
                {
                    let ghost before = all@;
                    let key = params.0[k].0.clone();
                    let val = params.0[k].1.clone();
                    assert(pv[k as int] == (key@, val@));
                    all.push((key, val));
                    assert(pairs_view(all@) =~= pairs_view(before).push((key@, val@)));
                    assert(pv.take(k + 1) =~= pv.take(k as int).push(pv[k as int]));
                    assert(pairs_view(all@) =~= rb + pv.take(k + 1));
                    k = k + 1;
                }
                assert(pv.take(params.0.len() as int) =~= pv);
                let ghost mid = out@;
                substitute_range(&mut out, &cs, inner, e, &all);
                assert(out@ =~= head + (mid.subrange(head.len() as int, mid.len() as int) + substituted(frag, rb + pv)));
            },
            Err(err) => {
                assert(row_bindings(rows[i as int]@) is None);
                assert(rows_rendered(frag, rs, pv) is None);
                proof {
                    lemma_rows_prefix_none(frag, rows_view(rows@), pv, i + 1);
                }
                return Err(err);
            },
        }
        i = i + 1;
    }
    assert(rows_view(rows@).take(rows.len() as int) =~= rows_view(rows@));
    substitute_range(&mut out, &cs, outer, cs.len(), &params.0);
    Ok(out)
}

proof fn lemma_rows_prefix_none(fragment: Seq<char>, rows: Seq<Seq<Column>>, params: Bindings, i: int)
    requires
        0 <= i <= rows.len(),
        rows_rendered(fragment, rows.take(i), params) is None,
    ensures
        rows_rendered(fragment, rows, params) is None,
    decreases rows.len() - i,
{
    if i < rows.len() {
        assert(rows.take(i + 1).drop_last() =~= rows.take(i));
        lemma_rows_prefix_none(fragment, rows, params, i + 1);
    } else {
        assert(rows.take(i) =~= rows);
    }
}

fn marker_error() -> (r: LibError)
    ensures
        r is MissingRowMarker,
{
    LibError::MissingRowMarker {
        user_friendly: owned("<!--row_start--> ... <!--row_end-->"),
        developer_friendly: owned("the list template lacks its row region"),
        source_line_column: owned("html_templating_mod::render_list"),
    }
}

/// Where the template of a page lives: `webpage_hits_admin/<scope>/<name>.html`.
pub fn template_path(scope: &str, name: &str) -> (r: String)
    ensures
        r@ == "webpage_hits_admin/"@ + scope@ + "/"@ + name@ + ".html"@,
{
    let mut r = String::new();
    push_str(&mut r, "webpage_hits_admin/");
    push_str(&mut r, scope);
    push_str(&mut r, "/");
    push_str(&mut r, name);
    push_str(&mut r, ".html");
    assert(r@ =~= "webpage_hits_admin/"@ + scope@ + "/"@ + name@ + ".html"@);
    r
}

/// Escaped text holds no `<` and no `>`: a column value can never open or
/// close a tag.
pub proof fn lemma_escaped_has_no_angle_brackets(s: Seq<char>)
    ensures
        forall|i: int| 0 <= i < html_text_escaped(s).len() ==> #[trigger] html_text_escaped(s)[i] != '<'
            && html_text_escaped(s)[i] != '>',
    decreases s.len(),
{
    if s.len() > 0 {
        lemma_escaped_has_no_angle_brackets(s.drop_last());
        reveal_strlit("&amp;");
        reveal_strlit("&lt;");
        reveal_strlit("&gt;");
        let a = html_text_escaped(s.drop_last());
        let e = escape_char(s.last());
        assert forall|i: int| 0 <= i < e.len() implies e[i] != '<' && e[i] != '>' by {
            if s.last() == '&' {
                assert(e =~= seq!['&', 'a', 'm', 'p', ';']);
            } else if s.last() == '<' {
                assert(e =~= seq!['&', 'l', 't', ';']);
            } else if s.last() == '>' {
                assert(e =~= seq!['&', 'g', 't', ';']);
            }
        }
        assert forall|i: int| 0 <= i < html_text_escaped(s).len() implies #[trigger] html_text_escaped(s)[i] != '<'
            && html_text_escaped(s)[i] != '>' by {
            if i < a.len() {
                assert(html_text_escaped(s)[i] == a[i]);
            } else {
                assert(html_text_escaped(s)[i] == e[i - a.len()]);
            }
        }
    }
}

/// What rendering a template from one row gives, when every column has a
/// supported type.
pub open spec fn single_row_page(t: Seq<char>, row: Seq<Column>) -> Option<Seq<char>> {
    match row_bindings(row) {
        Some(b) => Some(substituted(t, b)),
        None => None,
    }
}

/// Rendering is repeatable: two renderings of one template from one row
/// give the same text, byte for byte.
pub proof fn lemma_single_row_render_repeatable(t: Seq<char>, row: Seq<Column>, first: Seq<char>, second: Seq<char>)
    requires
        single_row_page(t, row) == Some(first),
        single_row_page(t, row) == Some(second),
    ensures
        first == second,
{
}

/// Text without a `{` comes out of substitution unchanged.
pub proof fn lemma_no_placeholder_unchanged(t: Seq<char>, b: Bindings)
    requires
        forall|i: int| 0 <= i < t.len() ==> t[i] != '{',
    ensures
        substituted(t, b) == t,
{
    lemma_subst_from_plain(t, 0, b);
    assert(t.subrange(0, t.len() as int) =~= t);
}

proof fn lemma_subst_from_plain(t: Seq<char>, i: int, b: Bindings)
    requires
        0 <= i <= t.len(),
        forall|k: int| 0 <= k < t.len() ==> t[k] != '{',
    ensures
        subst_from(t, i, b) == t.subrange(i, t.len() as int),
    decreases t.len() - i,
{
    if i < t.len() {
        lemma_subst_from_plain(t, i + 1, b);
        assert(t.subrange(i, t.len() as int) =~= seq![t[i]] + t.subrange(i + 1, t.len() as int));
    } else {
        assert(t.subrange(i, t.len() as int) =~= Seq::<char>::empty());
    }
}

} // verus!
