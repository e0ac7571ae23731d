//! The single-record path: the input parameters that the schema cache
//! declares for a database function are read from the request, typed, and
//! passed to a call of the function with one placeholder each.
use vstd::prelude::*;

use crate::error_mod::{fails_as, BuildFailure, LibError};
use crate::postgres_mod::{
    count_char, find_last, lemma_placeholders_numbered, params_view, placeholder_list, prepare_placeholders_for_sql_params, stripped_param_name,
    trim_start_all, FunctionName, ParamsView, SchemaCache,
};
use crate::postgres_type_mod::{values_view, PostgresInputType, PostgresValue, ValueView};
use crate::text_mod::{occurs_at, parsed_i32, push_str, string_of_range, to_chars};
use crate::web_params_mod::{lookup, normalized, owned, Bindings, WebParams};

verus! {

/// The argument for one declared parameter, read from the request under
/// the parameter's name without its input marks.
pub open spec fn coerce_one(params: Bindings, declared: Seq<char>, t: PostgresInputType) -> Result<
    ValueView,
    BuildFailure,
> {
    let n = stripped_param_name(declared);
    match lookup(params, n) {
        None => Err(BuildFailure::Missing(n)),
        Some(v) => match t {
            PostgresInputType::Integer => match parsed_i32(v) {
                Some(x) => Ok(ValueView::Int32(x)),
                None => Err(BuildFailure::NotInteger(n)),
            },
            _ => Ok(ValueView::Text(v)),
        },
    }
}

/// The arguments for all declared parameters, in declaration order; the
/// first parameter that cannot be read decides the failure.
pub open spec fn coerce_all(params: Bindings, decl: ParamsView) -> Result<Seq<ValueView>, BuildFailure>
    decreases decl.len(),
{
    if decl.len() == 0 {
        Ok(Seq::empty())
    } else {
        match coerce_all(params, decl.drop_last()) {
            Err(f) => Err(f),
            Ok(done) => match coerce_one(params, decl.last().0, decl.last().1) {
                Ok(v) => Ok(done.push(v)),
                Err(f) => Err(f),
            },
        }
    }
}

/// The arguments of a call of function `f`, as the schema cache declares
/// its input parameters.
pub open spec fn function_args(
    functions: Seq<(Seq<char>, ParamsView)>,
    f: Seq<char>,
    params: Bindings,
) -> Result<Seq<ValueView>, BuildFailure> {
    match find_last(functions, f) {
        None => Err(BuildFailure::UnknownFunction(f)),
        Some(decl) => coerce_all(params, decl),
    }
}

/// The text of a call of function `f` with `n` arguments.
pub open spec fn call_text(f: Seq<char>, n: nat) -> Seq<char> {
    "SELECT * FROM "@ + f + "("@ + placeholder_list(n) + ")"@
}

/// `s` without its leading copies of the nonempty `p`.
pub fn trim_start_matches(s: &str, p: &str) -> (r: String)
    requires
        p@.len() > 0,
    ensures
        r@ == trim_start_all(s@, p@),
{
    let cs = to_chars(s);
    let ps = to_chars(p);
    let n = cs.len();
    let mut i: usize = 0;
    assert(s@.subrange(0, n as int) =~= s@);
    while i < n && occurs_at(&cs, i, &ps)
        invariant
            i <= n,
            n == cs.len(),
            cs@ == s@,
            ps@ == p@,
            ps.len() > 0,
            trim_start_all(s@, p@) == trim_start_all(s@.subrange(i as int, n as int), p@),
        decreases n - i,
    {
        let ghost rest = s@.subrange(i as int, n as int);
        assert(rest.subrange(0, ps.len() as int) =~= s@.subrange(i as int, i + ps.len()));
        assert(rest.subrange(ps.len() as int, rest.len() as int) =~= s@.subrange(i + ps.len(), n as int));
        i = i + ps.len();
    }
    let ghost rest = s@.subrange(i as int, n as int);
    assert(trim_start_all(rest, p@) == rest) by {
        if ps.len() <= rest.len() {
            assert(rest.subrange(0, ps.len() as int) =~= s@.subrange(i as int, i + ps.len()));
        }
    }
    string_of_range(&cs, i, n)
}

proof fn lemma_coerce_prefix_err(params: Bindings, decl: ParamsView, i: int, f: BuildFailure)
    requires
        0 <= i <= decl.len(),
        coerce_all(params, decl.take(i)) == Err::<Seq<ValueView>, BuildFailure>(f),
    ensures
        coerce_all(params, decl) == Err::<Seq<ValueView>, BuildFailure>(f),
    decreases decl.len() - i,
{
    if i < decl.len() {
        assert(decl.take(i + 1).drop_last() =~= decl.take(i));
        lemma_coerce_prefix_err(params, decl, i + 1, f);
    } else {
        assert(decl.take(i) =~= decl);
    }
}

/// The single-record rendering of one request: a call of one database
/// function with the arguments the request supplies.
pub struct ServerSideSingleRow {
    pub scope: String,
    pub function_name: FunctionName,
    pub web_params: WebParams,
    pub sql_params: Vec<PostgresValue>,
}

impl ServerSideSingleRow {
    /// Takes the request's parameters from the form if there is one, else
    /// from the query string; no argument is prepared yet.
    pub fn new(
        scope: &str,
        function_name: &str,
        query: &Vec<(String, String)>,
        form: &Option<Vec<(String, String)>>,
    ) -> (r: ServerSideSingleRow)
        ensures
            r.scope@ == scope@,
            r.function_name.0@ == function_name@,
            r.web_params.wf(),
            r.web_params.view() == normalized(query@, match form {
                Some(f) => Some(f@),
                None => None,
            }),
            r.sql_params@.len() == 0,
    {
        ServerSideSingleRow {
            scope: owned(scope),
            function_name: FunctionName(owned(function_name)),
            web_params: WebParams::from_actix(query, form),
            sql_params: Vec::new(),
        }
    }

    /// Reads one argument per input parameter that the schema cache declares
    /// for the function, typed as declared, in declaration order.
    pub fn prepare_function_params(&mut self, cache: &SchemaCache) -> (r: Result<(), LibError>)
        ensures
            final(self).scope == old(self).scope,
            final(self).function_name == old(self).function_name,
            final(self).web_params == old(self).web_params,
            r is Err ==> *final(self) == *old(self),
            match function_args(cache.functions(), old(self).function_name.0@, old(self).web_params.view()) {
                Ok(args) => r is Ok && values_view(final(self).sql_params@) == args,
                Err(f) => r matches Err(e) && fails_as(e, f) && final(self).sql_params == old(self).sql_params,
            },
    {
        let decl = match cache.function_params(&self.function_name) {
            Some(d) => d,
            None => {
                return Err(
                    LibError::UnknownFunction {
                        user_friendly: self.function_name.0.clone(),
                        developer_friendly: owned("the schema cache has no such function"),
                        source_line_column: owned("ServerSideSingleRow::prepare_function_params"),
                    },
                );
            },
        };
        let ghost dv = params_view(decl@);
        let ghost pv = self.web_params.view();
        let mut vals: Vec<PostgresValue> = Vec::new();
        let mut i: usize = 0;
        assert(dv.take(0) =~= Seq::<(Seq<char>, PostgresInputType)>::empty());
        assert(values_view(vals@) =~= Seq::<ValueView>::empty());
        proof {
            reveal_strlit("_");
            reveal_strlit("in_");
        }
        while i < decl.len()
            invariant
                i <= decl.len(),
                dv == params_view(decl@),
                *self == *old(self),
                find_last(cache.functions(), self.function_name.0@) == Some(dv),
                pv == self.web_params.view(),
                "_"@.len() == 1,
                "in_"@.len() == 3,
                coerce_all(pv, dv.take(i as int)) == Ok::<Seq<ValueView>, BuildFailure>(values_view(vals@)),
            decreases decl.len() - i,
        {
            let ghost t = dv.take(i + 1);
            assert(t.drop_last() =~= dv.take(i as int));
            assert(t.last() == (decl[i as int].0.0@, decl[i as int].1));
            let n1 = trim_start_matches(decl[i].0.0.as_str(), "_");
            let n = trim_start_matches(n1.as_str(), "in_");
            let ghost before = vals@;
            match decl[i].1 {
                PostgresInputType::Integer => {
                    match self.web_params.get_i32(n.as_str()) {
                        Ok(x) => {
                            vals.push(PostgresValue::I32(x));
                        },
                        Err(e) => {
                            proof {
                                lemma_coerce_prefix_err(pv, dv, i + 1, coerce_one(pv, t.last().0, t.last().1)->Err_0);
                            }
                            return Err(e);
                        },
                    }
                },
                _ => {
                    match self.web_params.get_str(n.as_str()) {
                        Ok(x) => {
                            vals.push(PostgresValue::String(owned(x)));
                        },
                        Err(e) => {
                            proof {
                                lemma_coerce_prefix_err(pv, dv, i + 1, coerce_one(pv, t.last().0, t.last().1)->Err_0);
                            }
                            return Err(e);
                        },
                    }
                },
            }
            assert(values_view(vals@) =~= values_view(before).push(coerce_one(pv, t.last().0, t.last().1)->Ok_0));
            i = i + 1;
        }
        assert(dv.take(decl.len() as int) =~= dv);
        self.sql_params = vals;
        Ok(())
    }

    /// The call of the function: `SELECT * FROM name($1, ..., $n)`, one
    /// placeholder per prepared argument.
    pub fn sql_statement(&self) -> (r: String)
        ensures
            r@ == call_text(self.function_name.0@, self.sql_params@.len()),
    {
        let mut r = String::new();
        push_str(&mut r, "SELECT * FROM ");
        push_str(&mut r, self.function_name.0.as_str());
        push_str(&mut r, "(");
        let p = prepare_placeholders_for_sql_params(&self.sql_params);
        push_str(&mut r, p.as_str());
        push_str(&mut r, ")");
        assert(r@ =~= call_text(self.function_name.0@, self.sql_params@.len()));
        r
    }
}

/// A call gets one placeholder per input parameter that the schema cache
/// declares for the function (input marks stripped, `OUT` parameters never
/// cached), numbered `$1` to `$n` in order.
pub proof fn lemma_call_placeholders_match_declaration(
    functions: Seq<(Seq<char>, ParamsView)>,
    f: Seq<char>,
    params: Bindings,
)
    requires
        function_args(functions, f, params) is Ok,
    ensures
        find_last(functions, f) is Some,
        function_args(functions, f, params)->Ok_0.len() == find_last(functions, f)->Some_0.len(),
        count_char(placeholder_list(function_args(functions, f, params)->Ok_0.len()), '$') == find_last(
            functions,
            f,
        )->Some_0.len(),
{
    let decl = find_last(functions, f)->Some_0;
    lemma_coerce_all_len(params, decl);
    lemma_placeholders_numbered(decl.len());
}

proof fn lemma_coerce_all_len(params: Bindings, decl: ParamsView)
    requires
        coerce_all(params, decl) is Ok,
    ensures
        coerce_all(params, decl)->Ok_0.len() == decl.len(),
    decreases decl.len(),
{
    if decl.len() > 0 {
        lemma_coerce_all_len(params, decl.drop_last());
    }
}

} // verus!
