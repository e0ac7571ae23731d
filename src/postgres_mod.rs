//! Names of database objects, the schema cache read once at start-up, and
//! the placeholder list of a function call.
use vstd::prelude::*;

use crate::error_mod::LibError;
use crate::postgres_type_mod::{
    field_type_of, input_type_of, PostgresFieldType, PostgresInputType, PostgresValue,
};
use crate::text_mod::{decimal_nat, digit_char, push_decimal_u128, push_str, split_by, split_pieces, views_of};
use crate::web_params_mod::owned;

verus! {

/// Name of a database function.
#[derive(Debug, Clone, PartialEq, Eq, Hash)]
pub struct FunctionName(pub String);

/// Name of an input parameter of a database function.
#[derive(Debug, Clone, PartialEq, Eq, Hash)]
pub struct ParamName(pub String);

/// Name of a database view.
#[derive(Debug, Clone, PartialEq, Eq, Hash)]
pub struct ViewName(pub String);

/// Name of a field of a database view.
#[derive(Debug, Clone, PartialEq, Eq, Hash)]
pub struct FieldName(pub String);

pub type ParamsView = Seq<(Seq<char>, PostgresInputType)>;

pub type FieldsView = Seq<(Seq<char>, PostgresFieldType)>;

pub open spec fn params_view(v: Seq<(ParamName, PostgresInputType)>) -> ParamsView {
    v.map_values(|p: (ParamName, PostgresInputType)| (p.0.0@, p.1))
}

pub open spec fn fields_view(v: Seq<(FieldName, PostgresFieldType)>) -> FieldsView {
    v.map_values(|p: (FieldName, PostgresFieldType)| (p.0.0@, p.1))
}

pub open spec fn functions_view(v: Seq<(FunctionName, Vec<(ParamName, PostgresInputType)>)>) -> Seq<
    (Seq<char>, ParamsView),
> {
    v.map_values(|p: (FunctionName, Vec<(ParamName, PostgresInputType)>)| (p.0.0@, params_view(p.1@)))
}

pub open spec fn views_view(v: Seq<(ViewName, Vec<(FieldName, PostgresFieldType)>)>) -> Seq<
    (Seq<char>, FieldsView),
> {
    v.map_values(|p: (ViewName, Vec<(FieldName, PostgresFieldType)>)| (p.0.0@, fields_view(p.1@)))
}

/// Index of the last entry named `k`, or -1 when there is none: a later
/// entry of one name overrides an earlier one.
pub open spec fn last_index<V>(s: Seq<(Seq<char>, V)>, k: Seq<char>) -> int
    decreases s.len(),
{
    if s.len() == 0 {
        -1
    } else if s.last().0 == k {
        s.len() - 1
    } else {
        last_index(s.drop_last(), k)
    }
}

pub open spec fn find_last<V>(s: Seq<(Seq<char>, V)>, k: Seq<char>) -> Option<V> {
    let i = last_index(s, k);
    if 0 <= i < s.len() {
        Some(s[i].1)
    } else {
        None
    }
}

pub proof fn lemma_last_index_bounds<V>(s: Seq<(Seq<char>, V)>, k: Seq<char>)
    ensures
        -1 <= last_index(s, k) < s.len(),
        last_index(s, k) >= 0 ==> s[last_index(s, k)].0 == k,
        forall|j: int| last_index(s, k) < j < s.len() ==> s[j].0 != k,
    decreases s.len(),
{
    if s.len() > 0 && s.last().0 != k {
        lemma_last_index_bounds(s.drop_last(), k);
        assert forall|j: int| last_index(s, k) < j < s.len() implies s[j].0 != k by {
            if j < s.len() - 1 {
                assert(s[j] == s.drop_last()[j]);
            }
        }
    }
}

proof fn lemma_last_index_is<V>(s: Seq<(Seq<char>, V)>, k: Seq<char>, i: int)
    requires
        -1 <= i < s.len(),
        i >= 0 ==> s[i].0 == k,
        forall|j: int| i < j < s.len() ==> s[j].0 != k,
    ensures
        last_index(s, k) == i,
    decreases s.len(),
{
    if s.len() > 0 && i < s.len() - 1 {
        assert(s.last().0 != k);
        assert forall|j: int| i < j < s.drop_last().len() implies s.drop_last()[j].0 != k by {
            assert(s.drop_last()[j] == s[j]);
        }
        lemma_last_index_is(s.drop_last(), k, i);
    }
}

/// `s` with every leading copy of the nonempty `p` removed, as
/// `str::trim_start_matches` gives it.
pub open spec fn trim_start_all(s: Seq<char>, p: Seq<char>) -> Seq<char>
    decreases s.len(),
{
    if p.len() > 0 && p.len() <= s.len() && s.subrange(0, p.len() as int) == p {
        trim_start_all(s.subrange(p.len() as int, s.len() as int), p)
    } else {
        s
    }
}

/// The web parameter name for a function's input parameter: leading `_`
/// marks, then leading `in_` marks, removed.
pub open spec fn stripped_param_name(s: Seq<char>) -> Seq<char> {
    trim_start_all(trim_start_all(s, "_"@), "in_"@)
}

/// Input parameters of one function, read from its argument definition:
/// `name type` items joined by `, `. Items named `OUT` are output
/// parameters and are left out; only the first word of a type counts.
pub open spec fn args_from_items(items: Seq<Seq<char>>) -> Option<ParamsView>
    decreases items.len(),
{
    if items.len() == 0 {
        Some(Seq::empty())
    } else {
        match args_from_items(items.drop_last()) {
            None => None,
            Some(done) => {
                let words = split_pieces(items.last(), " "@);
                if words[0] == "OUT"@ {
                    Some(done)
                } else if words.len() < 2 {
                    None
                } else {
                    match input_type_of(words[1]) {
                        Some(t) => Some(done.push((words[0], t))),
                        None => None,
                    }
                }
            },
        }
    }
}

pub open spec fn args_of_definition(def: Seq<char>) -> Option<ParamsView> {
    if def.len() == 0 {
        Some(Seq::empty())
    } else {
        args_from_items(split_pieces(def, ", "@))
    }
}

/// The function entries of the cache, one per row `(name, definition)`, in
/// row order; nothing when a type is outside the supported set.
pub open spec fn functions_from_rows(rows: Seq<(Seq<char>, Seq<char>)>) -> Option<
    Seq<(Seq<char>, ParamsView)>,
>
    decreases rows.len(),
{
    if rows.len() == 0 {
        Some(Seq::empty())
    } else {
        match (functions_from_rows(rows.drop_last()), args_of_definition(rows.last().1)) {
            (Some(done), Some(args)) => Some(done.push((rows.last().0, args))),
            _ => None,
        }
    }
}

/// The view entries of the cache from rows `(view, field, type)`: each run
/// of consecutive rows of one view makes one entry; nothing when a type is
/// outside the supported set.
pub open spec fn views_from_rows(rows: Seq<(Seq<char>, Seq<char>, Seq<char>)>) -> Option<
    Seq<(Seq<char>, FieldsView)>,
>
    decreases rows.len(),
{
    if rows.len() == 0 {
        Some(Seq::empty())
    } else {
        let r = rows.last();
        match (views_from_rows(rows.drop_last()), field_type_of(r.2)) {
            (Some(g), Some(t)) => if g.len() > 0 && g.last().0 == r.0 {
                Some(g.update(g.len() - 1, (r.0, g.last().1.push((r.1, t)))))
            } else {
                Some(g.push((r.0, seq![(r.1, t)])))
            },
            _ => None,
        }
    }
}

pub open spec fn string_pairs_view(v: Seq<(String, String)>) -> Seq<(Seq<char>, Seq<char>)> {
    v.map_values(|p: (String, String)| (p.0@, p.1@))
}

pub open spec fn string_triples_view(v: Seq<(String, String, String)>) -> Seq<
    (Seq<char>, Seq<char>, Seq<char>),
> {
    v.map_values(|p: (String, String, String)| (p.0@, p.1@, p.2@))
}

/// The schema cache: the input parameters of each database function and the
/// fields of each view, both with their types, read once at start-up.
#[derive(Debug, Clone)]
pub struct SchemaCache {
    pub sql_function_input_params: Vec<(FunctionName, Vec<(ParamName, PostgresInputType)>)>,
    pub sql_view_fields: Vec<(ViewName, Vec<(FieldName, PostgresFieldType)>)>,
}

impl SchemaCache {
    pub open spec fn functions(&self) -> Seq<(Seq<char>, ParamsView)> {
        functions_view(self.sql_function_input_params@)
    }

    pub open spec fn views(&self) -> Seq<(Seq<char>, FieldsView)> {
        views_view(self.sql_view_fields@)
    }

    /// The declared input parameters of a function, in declaration order.
    pub fn function_params(&self, name: &FunctionName) -> (r: Option<&Vec<(ParamName, PostgresInputType)>>)
        ensures
            match find_last(self.functions(), name.0@) {
                Some(ps) => r matches Some(v) && params_view(v@) == ps,
                None => r is None,
            },
    {
        let v = &self.sql_function_input_params;
        let mut i: usize = v.len();
        while i > 0
            invariant
                i <= v.len(),
                v == &self.sql_function_input_params,
                self.functions().len() == v.len(),
                forall|j: int| i <= j < v.len() ==> self.functions()[j].0 != name.0@,
            decreases i,
        {
            if v[i - 1].0.0 == name.0 {
                proof {
                    lemma_last_index_is(self.functions(), name.0@, i - 1);
                }
                return Some(&v[i - 1].1);
            }
            i = i - 1;
        }
        proof {
            lemma_last_index_is(self.functions(), name.0@, -1);
        }
        None
    }

    /// The fields of a view.
    pub fn view_fields(&self, name: &ViewName) -> (r: Option<&Vec<(FieldName, PostgresFieldType)>>)
        ensures
            match find_last(self.views(), name.0@) {
                Some(fs) => r matches Some(v) && fields_view(v@) == fs,
                None => r is None,
            },
    {
        let v = &self.sql_view_fields;
        let mut i: usize = v.len();
        while i > 0
            invariant
                i <= v.len(),
                v == &self.sql_view_fields,
                self.views().len() == v.len(),
                forall|j: int| i <= j < v.len() ==> self.views()[j].0 != name.0@,
            decreases i,
        {
            if v[i - 1].0.0 == name.0 {
                proof {
                    lemma_last_index_is(self.views(), name.0@, i - 1);
                }
                return Some(&v[i - 1].1);
            }
            i = i - 1;
        }
        proof {
            lemma_last_index_is(self.views(), name.0@, -1);
        }
        None
    }
}

/// The type of a field of a view.
pub fn field_type(fields: &Vec<(FieldName, PostgresFieldType)>, name: &String) -> (r: Option<PostgresFieldType>)
    ensures
        r == find_last(fields_view(fields@), name@),
{
    let mut i: usize = fields.len();
    while i > 0
        invariant
            i <= fields.len(),
            forall|j: int| i <= j < fields.len() ==> fields_view(fields@)[j].0 != name@,
        decreases i,
    {
        if fields[i - 1].0.0 == *name {
            proof {
                lemma_last_index_is(fields_view(fields@), name@, i - 1);
            }
            return Some(fields[i - 1].1);
        }
        i = i - 1;
    }
    proof {
        lemma_last_index_is(fields_view(fields@), name@, -1);
    }
    None
}

fn schema_type_error(bad_type: &str, detail: &str) -> (r: LibError)
    ensures
        r is UnrecognizedSchemaType,
{
    LibError::UnrecognizedSchemaType {
        user_friendly: owned(bad_type),
        developer_friendly: owned(detail),
        source_line_column: owned("postgres_mod::schema"),
    }
}

/// Reads the input parameters out of a function's argument definition.
pub fn parse_args_definition(def: &str) -> (r: Result<Vec<(ParamName, PostgresInputType)>, LibError>)
    ensures
        match args_of_definition(def@) {
            Some(ps) => r matches Ok(v) && params_view(v@) == ps,
            None => r matches Err(e) && e is UnrecognizedSchemaType,
        },
{
    let mut out: Vec<(ParamName, PostgresInputType)> = Vec::new();
    if def.unicode_len() == 0 {
        assert(params_view(out@) =~= Seq::empty());
        return Ok(out);
    }
    proof {
        reveal_strlit(", ");
        reveal_strlit(" ");
    }
    let items = split_by(def, ", ");
    let ghost iv = views_of(items@);
    let mut i: usize = 0;
    while i < items.len()
        invariant
            i <= items.len(),
            iv == views_of(items@),
            iv == split_pieces(def@, ", "@),
            def@.len() > 0,
            args_from_items(iv.take(i as int)) == Some(params_view(out@)),
        decreases items.len() - i,
    {
        let ghost t = iv.take(i + 1);
        assert(t.drop_last() =~= iv.take(i as int));
        assert(t.last() == items[i as int]@);
        proof {
            reveal_strlit(" ");
        }
        let words = split_by(items[i].as_str(), " ");
        let ghost wv = views_of(words@);
        assert(wv.len() == words.len());
        assert(wv == split_pieces(t.last(), " "@));
        proof {
            lemma_split_nonempty(items[i as int]@, " "@);
        }
        assert(wv[0] == words[0]@);
        let is_out = words[0] == owned("OUT");
        if is_out {
            assert(args_from_items(t) == Some(params_view(out@)));
        } else {
            if words.len() < 2 {
                proof {
                    lemma_args_prefix_none(iv, i + 1);
                }
                return Err(schema_type_error(items[i].as_str(), def));
            }
            match PostgresInputType::from_type_name(words[1].as_str()) {
                Some(ty) => {
                    let ghost before = out@;
                    out.push((ParamName(words[0].clone()), ty));
                    assert(params_view(out@) =~= params_view(before).push((wv[0], ty)));
                },
                None => {
                    proof {
                        lemma_args_prefix_none(iv, i + 1);
                    }
                    return Err(schema_type_error(words[1].as_str(), def));
                },
            }
        }
        i = i + 1;
    }
    assert(iv.take(items.len() as int) =~= iv);
    Ok(out)
}

proof fn lemma_args_prefix_none(s: Seq<Seq<char>>, i: int)
    requires
        0 <= i <= s.len(),
        args_from_items(s.take(i)) is None,
    ensures
        args_from_items(s) is None,
    decreases s.len() - i,
{
    if i < s.len() {
        assert(s.take(i + 1).drop_last() =~= s.take(i));
        lemma_args_prefix_none(s, i + 1);
    } else {
        assert(s.take(i) =~= s);
    }
}

proof fn lemma_functions_prefix_none(s: Seq<(Seq<char>, Seq<char>)>, i: int)
    requires
        0 <= i <= s.len(),
        functions_from_rows(s.take(i)) is None,
    ensures
        functions_from_rows(s) is None,
    decreases s.len() - i,
{
    if i < s.len() {
        assert(s.take(i + 1).drop_last() =~= s.take(i));
        lemma_functions_prefix_none(s, i + 1);
    } else {
        assert(s.take(i) =~= s);
    }
}

proof fn lemma_views_prefix_none(s: Seq<(Seq<char>, Seq<char>, Seq<char>)>, i: int)
    requires
        0 <= i <= s.len(),
        views_from_rows(s.take(i)) is None,
    ensures
        views_from_rows(s) is None,
    decreases s.len() - i,
{
    if i < s.len() {
        assert(s.take(i + 1).drop_last() =~= s.take(i));
        lemma_views_prefix_none(s, i + 1);
    } else {
        assert(s.take(i) =~= s);
    }
}

proof fn lemma_split_from_nonempty(s: Seq<char>, i: int, cur: Seq<char>, sep: Seq<char>)
    ensures
        split_from_len_pos(s, i, cur, sep),
    decreases s.len() - i,
{
    if sep.len() == 0 || i < 0 || i + sep.len() > s.len() {
    } else if s.subrange(i, i + sep.len()) == sep {
        lemma_split_from_nonempty(s, i + sep.len(), Seq::empty(), sep);
    } else {
        lemma_split_from_nonempty(s, i + 1, cur.push(s[i]), sep);
    }
}

spec fn split_from_len_pos(s: Seq<char>, i: int, cur: Seq<char>, sep: Seq<char>) -> bool {
    crate::text_mod::split_from(s, i, cur, sep).len() > 0
}

proof fn lemma_split_nonempty(s: Seq<char>, sep: Seq<char>)
    ensures
        split_pieces(s, sep).len() > 0,
{
    lemma_split_from_nonempty(s, 0, Seq::empty(), sep);
}

/// The function entries of the schema cache, from the rows
/// `(function name, argument definition)` of the database's introspection
/// view; the rows are read by the caller.
pub fn get_for_cache_all_function_input_params(rows: &Vec<(String, String)>) -> (r: Result<
    Vec<(FunctionName, Vec<(ParamName, PostgresInputType)>)>,
    LibError,
>)
    ensures
        match functions_from_rows(string_pairs_view(rows@)) {
            Some(fs) => r matches Ok(v) && functions_view(v@) == fs,
            None => r matches Err(e) && e is UnrecognizedSchemaType,
        },
{
    let mut out: Vec<(FunctionName, Vec<(ParamName, PostgresInputType)>)> = Vec::new();
    let ghost rv = string_pairs_view(rows@);
    let mut i: usize = 0;
    while i < rows.len()
        invariant
            i <= rows.len(),
            rv == string_pairs_view(rows@),
            functions_from_rows(rv.take(i as int)) == Some(functions_view(out@)),
        decreases rows.len() - i,
    {
        let ghost t = rv.take(i + 1);
        assert(t.drop_last() =~= rv.take(i as int));
        let args = parse_args_definition(rows[i].1.as_str());
        match args {
            Ok(a) => {
                let ghost before = out@;
                out.push((FunctionName(rows[i].0.clone()), a));
                assert(functions_view(out@) =~= functions_view(before).push((t.last().0, params_view(a@))));
            },
            Err(e) => {
                proof {
                    lemma_functions_prefix_none(rv, i + 1);
                }
                return Err(e);
            },
        }
        i = i + 1;
    }
    assert(rv.take(rows.len() as int) =~= rv);
    Ok(out)
}

/// The view entries of the schema cache, from the rows
/// `(view name, field name, type name)` of the database's introspection
/// view, ordered by view name; the rows are read by the caller.
pub fn get_for_cache_all_view_fields(rows: &Vec<(String, String, String)>) -> (r: Result<
    Vec<(ViewName, Vec<(FieldName, PostgresFieldType)>)>,
    LibError,
>)
    ensures
        match views_from_rows(string_triples_view(rows@)) {
            Some(vs) => r matches Ok(v) && views_view(v@) == vs,
            None => r matches Err(e) && e is UnrecognizedSchemaType,
        },
{
    let mut out: Vec<(ViewName, Vec<(FieldName, PostgresFieldType)>)> = Vec::new();
    let ghost rv = string_triples_view(rows@);
    let mut i: usize = 0;
    while i < rows.len()
        invariant
            i <= rows.len(),
            rv == string_triples_view(rows@),
            views_from_rows(rv.take(i as int)) == Some(views_view(out@)),
        decreases rows.len() - i,
    {
        let ghost t = rv.take(i + 1);
        assert(t.drop_last() =~= rv.take(i as int));
        let ghost r = t.last();
        assert(r == (rows[i as int].0@, rows[i as int].1@, rows[i as int].2@));
        match PostgresFieldType::from_type_name(rows[i].2.as_str()) {
            Some(ty) => {
                let ghost before = out@;
                let n = out.len();
                if n > 0 && out[n - 1].0.0 == rows[i].0 {
                    let (vname, mut fields) = out.pop().unwrap();
                    let ghost old_fields = fields@;
                    fields.push((FieldName(rows[i].1.clone()), ty));
                    out.push((vname, fields));
                    assert(fields_view(fields@) =~= fields_view(old_fields).push((r.1, ty)));
                    assert(views_view(out@) =~= views_view(before).update(
                        n - 1,
                        (r.0, views_view(before).last().1.push((r.1, ty))),
                    ));
                } else {
                    let mut fields: Vec<(FieldName, PostgresFieldType)> = Vec::new();
                    fields.push((FieldName(rows[i].1.clone()), ty));
                    out.push((ViewName(rows[i].0.clone()), fields));
                    assert(fields_view(fields@) =~= seq![(r.1, ty)]);
                    assert(views_view(out@) =~= views_view(before).push((r.0, seq![(r.1, ty)])));
                }
            },
            None => {
                proof {
                    lemma_views_prefix_none(rv, i + 1);
                }
                return Err(schema_type_error(rows[i].2.as_str(), rows[i].0.as_str()));
            },
        }
        i = i + 1;
    }
    assert(rv.take(rows.len() as int) =~= rv);
    Ok(out)
}

/// The placeholders `$1, $2, ..., $n` of a call with `n` arguments.
pub open spec fn placeholder_list(n: nat) -> Seq<char>
    decreases n,
{
    if n == 0 {
        Seq::empty()
    } else if n == 1 {
        "$"@ + decimal_nat(1)
    } else {
        placeholder_list((n - 1) as nat) + ", $"@ + decimal_nat(n)
    }
}

/// One placeholder per argument, numbered from 1 and joined by `, `.
pub fn prepare_placeholders_for_sql_params(params: &Vec<PostgresValue>) -> (r: String)
    ensures
        r@ == placeholder_list(params.len() as nat),
{
    let mut r = String::new();
    let n = params.len();
    let mut i: usize = 0;
    while i < n
        invariant
            i <= n,
            r@ == placeholder_list(i as nat),
        decreases n - i,
    {
        if i > 0 {
            push_str(&mut r, ", $");
        } else {
            push_str(&mut r, "$");
        }
        push_decimal_u128(&mut r, (i + 1) as u128);
        assert(r@ =~= placeholder_list((i + 1) as nat));
        i = i + 1;
    }
    r
}

/// How many times `c` occurs in `s`.
pub open spec fn count_char(s: Seq<char>, c: char) -> nat
    decreases s.len(),
{
    if s.len() == 0 {
        0
    } else {
        count_char(s.drop_last(), c) + if s.last() == c {
            1nat
        } else {
            0nat
        }
    }
}

pub proof fn lemma_count_concat(a: Seq<char>, b: Seq<char>, c: char)
    ensures
        count_char(a + b, c) == count_char(a, c) + count_char(b, c),
    decreases b.len(),
{
    if b.len() > 0 {
        assert((a + b).drop_last() =~= a + b.drop_last());
        lemma_count_concat(a, b.drop_last(), c);
    } else {
        assert(a + b =~= a);
    }
}

proof fn lemma_decimal_has_no_dollar(n: nat)
    ensures
        count_char(decimal_nat(n), '$') == 0,
    decreases n,
{
    let d = decimal_nat(n);
    if n >= 10 {
        lemma_decimal_has_no_dollar(n / 10);
        assert(d.drop_last() =~= decimal_nat(n / 10));
        assert(d.last() == digit_char((n % 10) as int));
    } else {
        assert(d.drop_last() =~= Seq::<char>::empty());
        assert(d.last() == digit_char(n as int));
        assert(count_char(d.drop_last(), '$') == 0);
    }
    assert(d.last() != '$');
}

/// Items joined: `first` before the first item, `sep` before each other.
pub open spec fn joined(items: Seq<Seq<char>>, first: Seq<char>, sep: Seq<char>) -> Seq<char>
    decreases items.len(),
{
    if items.len() == 0 {
        Seq::empty()
    } else if items.len() == 1 {
        first + items[0]
    } else {
        joined(items.drop_last(), first, sep) + sep + items.last()
    }
}

/// `$k` for the k-th of `n` placeholders, `k` from 1.
pub open spec fn numbered_placeholders(n: nat) -> Seq<Seq<char>> {
    Seq::new(n, |i: int| "$"@ + decimal_nat((i + 1) as nat))
}

/// The placeholders of a call are `$1` to `$n` in order, each once: the
/// list holds exactly `n` `$` signs, and the k-th item is `$k`.
pub proof fn lemma_placeholders_numbered(n: nat)
    ensures
        placeholder_list(n) == joined(numbered_placeholders(n), Seq::empty(), ", "@),
        count_char(placeholder_list(n), '$') == n,
    decreases n,
{
    reveal_strlit("$");
    reveal_strlit(", $");
    reveal_strlit(", ");
    if n > 0 {
        lemma_decimal_has_no_dollar(n);
        assert(", $"@ =~= ", "@ + "$"@);
        assert("$"@ =~= seq!['$']);
        assert(seq!['$'].drop_last() =~= Seq::<char>::empty());
        assert(count_char(Seq::<char>::empty(), '$') == 0);
        assert(count_char(seq!['$'], '$') == 1);
        assert(", "@ =~= seq![',', ' ']);
        assert(seq![',', ' '].drop_last() =~= seq![',']);
        assert(seq![','].drop_last() =~= Seq::<char>::empty());
        assert(count_char(seq![','], '$') == 0);
        assert(count_char(seq![',', ' '], '$') == 0);
        if n == 1 {
            assert(numbered_placeholders(1)[0] == "$"@ + decimal_nat(1));
            assert(Seq::<char>::empty() + numbered_placeholders(1)[0] =~= placeholder_list(1));
            lemma_count_concat("$"@, decimal_nat(1), '$');
        } else {
            lemma_placeholders_numbered((n - 1) as nat);
            assert(numbered_placeholders(n).drop_last() =~= numbered_placeholders((n - 1) as nat));
            assert(placeholder_list(n) =~= placeholder_list((n - 1) as nat) + ", "@ + numbered_placeholders(n).last());
            lemma_count_concat(placeholder_list((n - 1) as nat), ", $"@, '$');
            lemma_count_concat(", "@, "$"@, '$');
            lemma_count_concat(placeholder_list((n - 1) as nat) + ", $"@, decimal_nat(n), '$');
        }
    }
}

} // verus!
