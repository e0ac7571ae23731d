//! Request parameters: one ordered key-value collection, taken from the
//! submitted form when there is one and from the query string otherwise.
use vstd::prelude::*;

use crate::error_mod::LibError;
use crate::text_mod::{parse_i32, parsed_i32, push_str};

verus! {

/// Key-value pairs as character sequences.
pub type Bindings = Seq<(Seq<char>, Seq<char>)>;

pub open spec fn pairs_view(v: Seq<(String, String)>) -> Bindings {
    v.map_values(|p: (String, String)| (p.0@, p.1@))
}

/// Index of the first pair with key `k`, or `b.len()` when there is none.
pub open spec fn key_position(b: Bindings, k: Seq<char>) -> int
    decreases b.len(),
{
    if b.len() == 0 {
        0
    } else if b[0].0 == k {
        0
    } else {
        1 + key_position(b.drop_first(), k)
    }
}

/// The value of the first pair with key `k`.
pub open spec fn lookup(b: Bindings, k: Seq<char>) -> Option<Seq<char>> {
    let i = key_position(b, k);
    if i < b.len() {
        Some(b[i].1)
    } else {
        None
    }
}

pub open spec fn keys_unique(b: Bindings) -> bool {
    forall|i: int, j: int| 0 <= i < j < b.len() ==> #[trigger] b[i].0 != #[trigger] b[j].0
}

/// Sets the value of key `k`: in place where the key is present, at the end
/// where it is not.
pub open spec fn upsert(b: Bindings, k: Seq<char>, v: Seq<char>) -> Bindings {
    let i = key_position(b, k);
    if i < b.len() {
        b.update(i, (k, v))
    } else {
        b.push((k, v))
    }
}

/// The collection made from a list of pairs: keys in the order they first
/// appear, each with the value of its last pair.
pub open spec fn collect_pairs(s: Bindings) -> Bindings
    decreases s.len(),
{
    if s.len() == 0 {
        Seq::empty()
    } else {
        upsert(collect_pairs(s.drop_last()), s.last().0, s.last().1)
    }
}

/// The value of the last pair with key `k` in a list of pairs.
pub open spec fn last_value(s: Bindings, k: Seq<char>) -> Option<Seq<char>>
    decreases s.len(),
{
    if s.len() == 0 {
        None
    } else if s.last().0 == k {
        Some(s.last().1)
    } else {
        last_value(s.drop_last(), k)
    }
}

/// The normalized parameters of a request: the form when present, else the
/// query string; the other source is not consulted.
pub open spec fn normalized(query: Seq<(String, String)>, form: Option<Seq<(String, String)>>) -> Bindings {
    match form {
        Some(f) => collect_pairs(pairs_view(f)),
        None => collect_pairs(pairs_view(query)),
    }
}

/// The developer-facing description of a collection: `key=value` items
/// joined by `, `.
pub open spec fn described(b: Bindings) -> Seq<char>
    decreases b.len(),
{
    if b.len() == 0 {
        Seq::empty()
    } else if b.len() == 1 {
        b[0].0 + "="@ + b[0].1
    } else {
        described(b.drop_last()) + ", "@ + b.last().0 + "="@ + b.last().1
    }
}

pub proof fn lemma_key_position_bounds(b: Bindings, k: Seq<char>)
    ensures
        0 <= key_position(b, k) <= b.len(),
        key_position(b, k) < b.len() ==> b[key_position(b, k)].0 == k,
        forall|j: int| 0 <= j < key_position(b, k) ==> b[j].0 != k,
    decreases b.len(),
{
    if b.len() > 0 && b[0].0 != k {
        lemma_key_position_bounds(b.drop_first(), k);
        assert forall|j: int| 0 <= j < key_position(b, k) implies b[j].0 != k by {
            if j > 0 {
                assert(b[j] == b.drop_first()[j - 1]);
            }
        }
    }
}

/// Keeps keys unique, and moves the value of `k` to `v`.
proof fn lemma_upsert(b: Bindings, k: Seq<char>, v: Seq<char>)
    requires
        keys_unique(b),
    ensures
        keys_unique(upsert(b, k, v)),
        lookup(upsert(b, k, v), k) == Some(v),
        forall|q: Seq<char>| q != k ==> lookup(upsert(b, k, v), q) == lookup(b, q),
{
    let u = upsert(b, k, v);
    lemma_key_position_bounds(b, k);
    let p = key_position(b, k);
    if p < b.len() {
        assert forall|m: int| 0 <= m < p implies u[m].0 != k by {
            assert(u[m] == b[m]);
        }
        lemma_position_first(u, k, p);
    } else {
        assert forall|m: int| 0 <= m < b.len() implies u[m].0 != k by {
            assert(u[m] == b[m]);
        }
        lemma_position_first(u, k, b.len() as int);
    }
    lemma_key_position_bounds(u, k);
    assert forall|q: Seq<char>| q != k implies lookup(u, q) == lookup(b, q) by {
        lemma_key_position_bounds(b, q);
        lemma_key_position_bounds(u, q);
        let i = key_position(b, q);
        let j = key_position(u, q);
        if i < b.len() {
            assert(u[i].0 == q);
            if j < i {
                assert(u[j] == b[j]);
            }
        } else {
            if j < u.len() {
                assert(j < b.len() ==> u[j] == b[j]);
            }
        }
    }
}

proof fn lemma_collect_unique(s: Bindings)
    ensures
        keys_unique(collect_pairs(s)),
    decreases s.len(),
{
    if s.len() > 0 {
        lemma_collect_unique(s.drop_last());
        lemma_upsert(collect_pairs(s.drop_last()), s.last().0, s.last().1);
    }
}

/// In a collection made from a list of pairs, each key holds the value of its
/// last pair in the list.
pub proof fn lemma_last_write_wins(s: Bindings, k: Seq<char>)
    ensures
        lookup(collect_pairs(s), k) == last_value(s, k),
    decreases s.len(),
{
    if s.len() > 0 {
        lemma_last_write_wins(s.drop_last(), k);
        lemma_collect_unique(s.drop_last());
        lemma_upsert(collect_pairs(s.drop_last()), s.last().0, s.last().1);
    }
}

/// When a form was submitted, every key resolves to the form's value for
/// it (its last one), whatever the query string holds; a key that the form
/// lacks is absent, even if the query string has it.
pub proof fn lemma_form_shadows_query(
    query: Seq<(String, String)>,
    form: Seq<(String, String)>,
    k: Seq<char>,
)
    ensures
        lookup(normalized(query, Some(form)), k) == last_value(pairs_view(form), k),
{
    lemma_last_write_wins(pairs_view(form), k);
}

/// The parameters of one request, with unique keys.
#[derive(Debug, Clone)]
pub struct WebParams(pub Vec<(String, String)>);

impl WebParams {
    pub open spec fn view(&self) -> Bindings {
        pairs_view(self.0@)
    }

    pub open spec fn wf(&self) -> bool {
        keys_unique(self.view())
    }

    /// Parameters from the submitted form if there is one, else from the
    /// query string. Of two pairs with one key, the later one's value stays.
    pub fn from_actix(query: &Vec<(String, String)>, form: &Option<Vec<(String, String)>>) -> (r: WebParams)
        ensures
            r.wf(),
            r.view() == normalized(query@, match form {
                Some(f) => Some(f@),
                None => None,
            }),
    {
        match form {
            Some(f) => WebParams::from_pairs(f),
            None => WebParams::from_pairs(query),
        }
    }

    /// Collects a list of pairs: keys in the order they first appear, each
    /// with the value of its last pair.
    pub fn from_pairs(pairs: &Vec<(String, String)>) -> (r: WebParams)
        ensures
            r.wf(),
            r.view() == collect_pairs(pairs_view(pairs@)),
    {
        let mut v: Vec<(String, String)> = Vec::new();
        let mut i: usize = 0;
        while i < pairs.len()
            invariant
                i <= pairs.len(),
                pairs_view(v@) == collect_pairs(pairs_view(pairs@).take(i as int)),
            decreases pairs.len() - i,
        {
            let k = pairs[i].0.clone();
            let val = pairs[i].1.clone();
            let ghost before = pairs_view(v@);
            let pos = Self::position(&v, &k);
            let ghost s = pairs_view(pairs@).take(i + 1);
            assert(s.drop_last() =~= pairs_view(pairs@).take(i as int));
            assert(s.last() == (k@, val@));
            if pos < v.len() {
                v.set(pos, (k, val));
            } else {
                v.push((k, val));
            }
            assert(pairs_view(v@) =~= upsert(before, s.last().0, s.last().1));
            i = i + 1;
        }
        assert(pairs_view(pairs@).take(pairs.len() as int) =~= pairs_view(pairs@));
        proof {
            lemma_collect_unique(pairs_view(pairs@));
        }
        WebParams(v)
    }

    /// Index of the pair with key `k`, or the length when there is none.
    fn position(v: &Vec<(String, String)>, k: &String) -> (r: usize)
        ensures
            r as int == key_position(pairs_view(v@), k@),
    {
        let mut j: usize = 0;
        while j < v.len()
            invariant
                j <= v.len(),
                forall|m: int| 0 <= m < j ==> pairs_view(v@)[m].0 != k@,
            decreases v.len() - j,
        {
            if v[j].0 == *k {
                proof {
                    lemma_key_position_bounds(pairs_view(v@), k@);
                    lemma_position_first(pairs_view(v@), k@, j as int);
                }
                return j;
            }
            j = j + 1;
        }
        proof {
            lemma_key_position_bounds(pairs_view(v@), k@);
        }
        v.len()
    }

    /// The value of a parameter as text.
    pub fn get_str(&self, param_name: &str) -> (r: Result<&str, LibError>)
        ensures
            match lookup(self.view(), param_name@) {
                Some(v) => r matches Ok(x) && x@ == v,
                None => r matches Err(LibError::GetStrFromWebParams { user_friendly, .. })
                    && user_friendly@ == param_name@,
            },
    {
        let name = owned(param_name);
        let pos = Self::position(&self.0, &name);
        proof {
            lemma_key_position_bounds(self.view(), param_name@);
        }
        if pos < self.0.len() {
            Ok(self.0[pos].1.as_str())
        } else {
            Err(
                LibError::GetStrFromWebParams {
                    user_friendly: name,
                    developer_friendly: self.describe(),
                    source_line_column: owned("WebParams::get_str"),
                },
            )
        }
    }

    /// The value of a parameter as a signed 32-bit integer.
    pub fn get_i32(&self, param_name: &str) -> (r: Result<i32, LibError>)
        ensures
            match lookup(self.view(), param_name@) {
                Some(v) => match parsed_i32(v) {
                    Some(n) => r == Ok::<i32, LibError>(n),
                    None => r matches Err(LibError::GetI32FromWebParams { user_friendly, .. })
                        && user_friendly@ == param_name@,
                },
                None => r matches Err(LibError::GetStrFromWebParams { user_friendly, .. })
                    && user_friendly@ == param_name@,
            },
    {
        let s = self.get_str(param_name)?;
        match parse_i32(s) {
            Some(n) => Ok(n),
            None => {
                Err(
                    LibError::GetI32FromWebParams {
                        user_friendly: owned(param_name),
                        developer_friendly: self.describe(),
                        source_line_column: owned("WebParams::get_i32"),
                    },
                )
            },
        }
    }

    /// All parameters as `key=value` items joined by `, `, for the log.
    pub fn describe(&self) -> (r: String)
        ensures
            r@ == described(self.view()),
    {
        let mut r = String::new();
        let mut i: usize = 0;
        while i < self.0.len()
            invariant
                i <= self.0.len(),
                r@ == described(self.view().take(i as int)),
            decreases self.0.len() - i,
        {
            let ghost t = self.view().take(i + 1);
            assert(t.drop_last() =~= self.view().take(i as int));
            if i > 0 {
                push_str(&mut r, ", ");
            }
            push_str(&mut r, self.0[i].0.as_str());
            push_str(&mut r, "=");
            push_str(&mut r, self.0[i].1.as_str());
            assert(r@ =~= described(t));
            i = i + 1;
        }
        assert(self.view().take(self.0.len() as int) =~= self.view());
        r
    }
}

proof fn lemma_position_first(b: Bindings, k: Seq<char>, j: int)
    requires
        0 <= j < b.len(),
        b[j].0 == k,
        forall|m: int| 0 <= m < j ==> b[m].0 != k,
    ensures
        key_position(b, k) == j,
{
    lemma_key_position_bounds(b, k);
}

/// An owned copy of a string slice.
pub fn owned(tag: &str) -> (r: String)
    ensures
        r@ == tag@,
{
    let mut r = String::new();
    push_str(&mut r, tag);
    assert(r@ =~= tag@);
    r
}

} // verus!
