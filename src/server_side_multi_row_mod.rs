//! The multi-record path: a list query over a database view, with a WHERE
//! clause made only of the filters the request supplies and an optional
//! ORDER BY on a field of the view.
use vstd::prelude::*;

use crate::error_mod::{fails_as, BuildFailure, LibError};
use crate::html_templating_mod::{find_first, find_from, lemma_next_close_bounds, lemma_next_close_is, next_close};
use crate::postgres_mod::{field_type, fields_view, find_last, joined, FieldsView, SchemaCache, ViewName};
use crate::postgres_type_mod::{values_view, PostgresValue, ValueView};
use crate::text_mod::{
    decimal_nat, eq_ignore_ascii_case, push_decimal_u128, push_str, same_ignoring_ascii_case,
    string_of_range, to_chars,
};
use crate::web_params_mod::{lookup, normalized, owned, Bindings, WebParams};

verus! {

/// Where the placeholder of a filter clause stands: the first `{`, and the
/// first `}` that follows it with at least one character between.
pub open spec fn placeholder_span(c: Seq<char>) -> Option<(int, int)> {
    let i = find_from(c, "{"@, 0);
    if i >= 0 && next_close(c, i + 2) < c.len() {
        Some((i, next_close(c, i + 2)))
    } else {
        None
    }
}

/// The parameter name of a filter clause: the text between its braces.
pub open spec fn clause_param(c: Seq<char>) -> Seq<char> {
    let span = placeholder_span(c).unwrap();
    c.subrange(span.0 + 1, span.1)
}

/// A filter clause with its placeholder replaced by `$k`.
pub open spec fn numbered_clause(c: Seq<char>, k: nat) -> Seq<char> {
    let span = placeholder_span(c).unwrap();
    c.subrange(0, span.0) + "$"@ + decimal_nat(k) + c.subrange(span.1 + 1, c.len() as int)
}

/// A clause takes part when it has a placeholder and the request supplies a
/// parameter of that name.
pub open spec fn clause_active(c: Seq<char>, params: Bindings) -> bool {
    placeholder_span(c) is Some && lookup(params, clause_param(c)) is Some
}

/// The clauses that take part, in their given order.
pub open spec fn active_clauses(clauses: Seq<Seq<char>>, params: Bindings) -> Seq<Seq<char>> {
    clauses.filter(|c: Seq<char>| clause_active(c, params))
}

/// The WHERE text of the clauses that take part: the first after `WHERE `,
/// each other after ` AND `, the k-th numbered `$k`.
pub open spec fn where_text(active: Seq<Seq<char>>) -> Seq<char>
    decreases active.len(),
{
    if active.len() == 0 {
        Seq::empty()
    } else {
        where_text(active.drop_last()) + (if active.len() == 1 {
            "WHERE "@
        } else {
            " AND "@
        }) + numbered_clause(active.last(), active.len())
    }
}

/// The arguments of the clauses that take part, as text, in clause order.
pub open spec fn filter_values(active: Seq<Seq<char>>, params: Bindings) -> Seq<ValueView> {
    active.map_values(|c: Seq<char>| ValueView::Text(lookup(params, clause_param(c)).unwrap()))
}

/// The ORDER BY text: `ORDER BY <field>` when the request names a field to
/// sort by, which must be a field of the view, then ` DESC ` when it asks
/// for descending order.
pub open spec fn order_text(fields: FieldsView, params: Bindings) -> Result<Seq<char>, BuildFailure> {
    let desc = match lookup(params, "f_order_by_direction"@) {
        Some(d) => same_ignoring_ascii_case(d, "desc"@),
        None => false,
    };
    let tail = if desc {
        " DESC "@
    } else {
        Seq::empty()
    };
    match lookup(params, "f_order_by"@) {
        Some(f) => if f.len() == 0 {
            Ok(tail)
        } else if find_last(fields, f) is Some {
            Ok("ORDER BY "@ + f + tail)
        } else {
            Err(BuildFailure::UnknownField(f))
        },
        None => Ok(tail),
    }
}

proof fn lemma_active_step(s: Seq<Seq<char>>, params: Bindings)
    requires
        s.len() > 0,
    ensures
        active_clauses(s, params) == if clause_active(s.last(), params) {
            active_clauses(s.drop_last(), params).push(s.last())
        } else {
            active_clauses(s.drop_last(), params)
        },
{
    reveal_with_fuel(Seq::filter, 1);
}

pub open spec fn strings_view(v: Seq<String>) -> Seq<Seq<char>> {
    v.map_values(|s: String| s@)
}

/// The placeholder span of a clause, found by scanning.
fn clause_span(cs: &Vec<char>) -> (r: Option<(usize, usize)>)
    ensures
        match r {
            Some((a, b)) => placeholder_span(cs@) == Some((a as int, b as int)) && a + 2 <= b < cs.len(),
            None => placeholder_span(cs@) is None,
        },
{
    let open = to_chars("{");
    proof {
        reveal_strlit("{");
    }
    let i = match find_first(cs, &open) {
        Some(i) => i,
        None => {
            return None;
        },
    };
    if cs.len() - i < 2 {
        proof {
            lemma_next_close_bounds(cs@, i + 2);
        }
        return None;
    }
    let mut j: usize = i + 2;
    while j < cs.len() && cs[j] != '}'
        invariant
            i + 2 <= j <= cs.len(),
            forall|m: int| i + 2 <= m < j ==> cs@[m] != '}',
        decreases cs.len() - j,
    {
        j = j + 1;
    }
    proof {
        lemma_next_close_is(cs@, i + 2, j as int);
    }
    if j < cs.len() {
        Some((i, j))
    } else {
        None
    }
}

/// The WHERE text and the arguments of the clauses that the request's
/// parameters fill, numbered from `$1` in clause order.
pub fn build_where(clauses: &Vec<String>, params: &WebParams) -> (r: (String, Vec<PostgresValue>))
    ensures
        r.0@ == where_text(active_clauses(strings_view(clauses@), params.view())),
        values_view(r.1@) == filter_values(active_clauses(strings_view(clauses@), params.view()), params.view()),
{
    let ghost sv = strings_view(clauses@);
    let ghost pv = params.view();
    let mut w = String::new();
    let mut vals: Vec<PostgresValue> = Vec::new();
    let mut i: usize = 0;
    assert(sv.take(0) =~= Seq::<Seq<char>>::empty());
    assert(values_view(vals@) =~= Seq::<ValueView>::empty());
    assert(filter_values(active_clauses(sv.take(0), pv), pv) =~= Seq::<ValueView>::empty());
    while i < clauses.len()
        invariant
            i <= clauses.len(),
            sv == strings_view(clauses@),
            pv == params.view(),
            w@ == where_text(active_clauses(sv.take(i as int), pv)),
            values_view(vals@) == filter_values(active_clauses(sv.take(i as int), pv), pv),
            vals.len() == active_clauses(sv.take(i as int), pv).len(),
        decreases clauses.len() - i,
    {
        let ghost t = sv.take(i + 1);
        let ghost before = active_clauses(sv.take(i as int), pv);
        assert(t.drop_last() =~= sv.take(i as int));
        assert(t.last() == clauses[i as int]@);
        let cs = to_chars(clauses[i].as_str());
        match clause_span(&cs) {
            Some((a, b)) => {
                let name = string_of_range(&cs, a + 1, b);
                match params.get_str(name.as_str()) {
                    Ok(v) => {
                        let ghost w0 = w@;
                        let ghost vals0 = vals@;
                        if vals.len() == 0 {
                            push_str(&mut w, "WHERE ");
                        } else {
                            push_str(&mut w, " AND ");
                        }
                        let head = string_of_range(&cs, 0, a);
                        push_str(&mut w, head.as_str());
                        push_str(&mut w, "$");
                        push_decimal_u128(&mut w, (vals.len() + 1) as u128);
                        let rest = string_of_range(&cs, b + 1, cs.len());
                        push_str(&mut w, rest.as_str());
                        vals.push(PostgresValue::String(owned(v)));
                        assert(clause_active(t.last(), pv));
                        proof {
                            lemma_active_step(t, pv);
                        }
                        let ghost now = before.push(t.last());
                        assert(now.drop_last() =~= before);
                        assert(w@ =~= where_text(now));
                        assert(values_view(vals@) =~= values_view(vals0).push(ValueView::Text(v@)));
                        assert(filter_values(now, pv) =~= filter_values(before, pv).push(ValueView::Text(v@)));
                    },
                    Err(_) => {
                        proof {
                            lemma_active_step(t, pv);
                        }
                    },
                }
            },
            None => {
                proof {
                    lemma_active_step(t, pv);
                }
            },
        }
        i = i + 1;
    }
    assert(sv.take(clauses.len() as int) =~= sv);
    (w, vals)
}

/// The ORDER BY text that the request's parameters ask for, checked
/// against the fields of the view.
pub fn order_by(fields: &Vec<(crate::postgres_mod::FieldName, crate::postgres_type_mod::PostgresFieldType)>, params: &WebParams) -> (r: Result<String, LibError>)
    ensures
        match order_text(fields_view(fields@), params.view()) {
            Ok(o) => r matches Ok(s) && s@ == o,
            Err(f) => r matches Err(e) && fails_as(e, f),
        },
{
    let mut tail = String::new();
    let desc = match params.get_str("f_order_by_direction") {
        Ok(d) => eq_ignore_ascii_case(d, "desc"),
        Err(_) => false,
    };
    if desc {
        push_str(&mut tail, " DESC ");
    }
    assert(tail@ =~= if desc {
        " DESC "@
    } else {
        Seq::<char>::empty()
    });
    match params.get_str("f_order_by") {
        Ok(f) => {
            if f.unicode_len() == 0 {
                Ok(tail)
            } else {
                let name = owned(f);
                if field_type(fields, &name).is_some() {
                    let mut r = String::new();
                    push_str(&mut r, "ORDER BY ");
                    push_str(&mut r, f);
                    push_str(&mut r, tail.as_str());
                    assert(r@ =~= "ORDER BY "@ + f@ + tail@);
                    Ok(r)
                } else {
                    Err(
                        LibError::UnknownField {
                            user_friendly: name,
                            developer_friendly: params.describe(),
                            source_line_column: owned("ServerSideMultiRow::prepare_filter_params"),
                        },
                    )
                }
            }
        },
        Err(_) => Ok(tail),
    }
}

/// The multi-record rendering of one request: a list query over one view.
pub struct ServerSideMultiRow {
    pub scope: String,
    pub view_name: ViewName,
    pub web_params: WebParams,
    pub sql_params: Vec<PostgresValue>,
    /// Candidate filter clauses, each with one `{parameter}` placeholder.
    pub where_clause: Vec<String>,
    pub sql_where: String,
    pub sql_order_by: String,
}

impl ServerSideMultiRow {
    /// Takes the request's parameters from the form if there is one, else
    /// from the query string; no filter clause is set yet.
    pub fn new(
        scope: &str,
        view_name: &str,
        query: &Vec<(String, String)>,
        form: &Option<Vec<(String, String)>>,
    ) -> (r: ServerSideMultiRow)
        ensures
            r.scope@ == scope@,
            r.view_name.0@ == view_name@,
            r.web_params.wf(),
            r.web_params.view() == normalized(query@, match form {
                Some(f) => Some(f@),
                None => None,
            }),
            r.sql_params@.len() == 0,
            r.where_clause@.len() == 0,
            r.sql_where@.len() == 0,
            r.sql_order_by@.len() == 0,
    {
        ServerSideMultiRow {
            scope: owned(scope),
            view_name: ViewName(owned(view_name)),
            web_params: WebParams::from_actix(query, form),
            sql_params: Vec::new(),
            where_clause: Vec::new(),
            sql_where: String::new(),
            sql_order_by: String::new(),
        }
    }

    /// Builds the WHERE clause from the candidate clauses whose parameter the
    /// request supplies, their arguments, and the ORDER BY clause.
    pub fn prepare_filter_params(&mut self, cache: &SchemaCache) -> (r: Result<(), LibError>)
        ensures
            final(self).scope == old(self).scope,
            final(self).view_name == old(self).view_name,
            final(self).web_params == old(self).web_params,
            final(self).where_clause == old(self).where_clause,
            r is Err ==> *final(self) == *old(self),
            match find_last(cache.views(), old(self).view_name.0@) {
                None => r matches Err(e) && fails_as(e, BuildFailure::UnknownView(old(self).view_name.0@)),
                Some(fields) => match order_text(fields, old(self).web_params.view()) {
                    Err(f) => r matches Err(e) && fails_as(e, f),
                    Ok(o) => {
                        let active = active_clauses(strings_view(old(self).where_clause@), old(self).web_params.view());
                        &&& r is Ok
                        &&& final(self).sql_where@ == where_text(active)
                        &&& values_view(final(self).sql_params@) == filter_values(active, old(self).web_params.view())
                        &&& final(self).sql_order_by@ == o
                    },
                },
            },
            // a sort field that the view lacks never reaches a statement
            forall|f: Seq<char>|
                r is Ok && lookup(old(self).web_params.view(), "f_order_by"@) == Some(f) && f.len() > 0
                    ==> find_last(cache.views(), old(self).view_name.0@) is Some && find_last(
                    find_last(cache.views(), old(self).view_name.0@).unwrap(),
                    f,
                ) is Some,
    {
        let fields = match cache.view_fields(&self.view_name) {
            Some(f) => f,
            None => {
                return Err(
                    LibError::UnknownView {
                        user_friendly: self.view_name.0.clone(),
                        developer_friendly: owned("the schema cache has no such view"),
                        source_line_column: owned("ServerSideMultiRow::prepare_filter_params"),
                    },
                );
            },
        };
        let order = order_by(fields, &self.web_params)?;
        let (w, vals) = build_where(&self.where_clause, &self.web_params);
        self.sql_where = w;
        self.sql_params = vals;
        self.sql_order_by = order;
        Ok(())
    }

    /// The list query: `SELECT * FROM <view> <where> <order by>;`.
    pub fn sql_statement(&self) -> (r: String)
        ensures
            r@ == "SELECT * FROM "@ + self.view_name.0@ + " "@ + self.sql_where@ + " "@ + self.sql_order_by@ + ";"@,
    {
        let mut r = String::new();
        push_str(&mut r, "SELECT * FROM ");
        push_str(&mut r, self.view_name.0.as_str());
        push_str(&mut r, " ");
        push_str(&mut r, self.sql_where.as_str());
        push_str(&mut r, " ");
        push_str(&mut r, self.sql_order_by.as_str());
        push_str(&mut r, ";");
        assert(r@ =~= "SELECT * FROM "@ + self.view_name.0@ + " "@ + self.sql_where@ + " "@ + self.sql_order_by@ + ";"@);
        r
    }
}

/// A candidate clause takes part in the WHERE text exactly when it has a
/// placeholder and the request supplies a parameter of that name.
pub proof fn lemma_clause_present_iff_param_present(clauses: Seq<Seq<char>>, params: Bindings, c: Seq<char>)
    requires
        clauses.contains(c),
    ensures
        active_clauses(clauses, params).contains(c) <==> (placeholder_span(c) is Some && lookup(
            params,
            clause_param(c),
        ) is Some),
{
    let pred = |x: Seq<char>| clause_active(x, params);
    if clause_active(c, params) {
        clauses.lemma_filter_contains_rev(pred, c);
    } else {
        if active_clauses(clauses, params).contains(c) {
            let k = choose|k: int| 0 <= k < active_clauses(clauses, params).len() && active_clauses(clauses, params)[k] == c;
            clauses.lemma_filter_pred(pred, k);
        }
    }
}

/// A clause whose parameter the request lacks changes nothing, wherever it
/// stands among the candidates: the WHERE text, its numbering and the
/// arguments are those of the candidates without it.
pub proof fn lemma_absent_clause_changes_nothing(
    before: Seq<Seq<char>>,
    c: Seq<char>,
    after: Seq<Seq<char>>,
    params: Bindings,
)
    requires
        !clause_active(c, params),
    ensures
        where_text(active_clauses(before + seq![c] + after, params)) == where_text(active_clauses(before + after, params)),
        filter_values(active_clauses(before + seq![c] + after, params), params) == filter_values(active_clauses(before + after, params), params),
{
    let pred = |x: Seq<char>| clause_active(x, params);
    Seq::filter_distributes_over_add(before + seq![c], after, pred);
    Seq::filter_distributes_over_add(before, seq![c], pred);
    Seq::filter_distributes_over_add(before, after, pred);
    reveal_with_fuel(Seq::filter, 2);
    assert(seq![c].drop_last() =~= Seq::<Seq<char>>::empty());
    assert(seq![c].filter(pred) =~= Seq::<Seq<char>>::empty());
    assert(before.filter(pred) + Seq::<Seq<char>>::empty() =~= before.filter(pred));
}

/// The k-th clause of the WHERE text, `k` from 1, carries `$k`.
pub open spec fn numbered_clauses(active: Seq<Seq<char>>) -> Seq<Seq<char>> {
    Seq::new(active.len(), |i: int| numbered_clause(active[i], (i + 1) as nat))
}

/// The placeholders of the WHERE text are `$1` to `$n` in clause order, `n`
/// the number of arguments: the text is the numbered clauses, the first
/// after `WHERE `, the others after ` AND `.
pub proof fn lemma_where_numbered(clauses: Seq<Seq<char>>, params: Bindings)
    ensures
        where_text(active_clauses(clauses, params)) == joined(
            numbered_clauses(active_clauses(clauses, params)),
            "WHERE "@,
            " AND "@,
        ),
        filter_values(active_clauses(clauses, params), params).len() == active_clauses(clauses, params).len(),
{
    lemma_where_joined(active_clauses(clauses, params));
}

proof fn lemma_where_joined(active: Seq<Seq<char>>)
    ensures
        where_text(active) == joined(numbered_clauses(active), "WHERE "@, " AND "@),
    decreases active.len(),
{
    if active.len() > 1 {
        lemma_where_joined(active.drop_last());
        assert(numbered_clauses(active).drop_last() =~= numbered_clauses(active.drop_last()));
    } else if active.len() == 1 {
        assert(where_text(active.drop_last()) =~= Seq::<char>::empty());
        assert(where_text(active) =~= "WHERE "@ + numbered_clauses(active)[0]);
    }
}

} // verus!
