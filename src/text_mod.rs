//! Character-level helpers shared by the parameter, query and template code.
use vstd::prelude::*;

verus! {

/// Relies on String::push: appends one character at the end.
#[verifier::external_body]
pub(crate) fn push_char(s: &mut String, c: char)
    ensures
        final(s)@ == old(s)@.push(c),
{
    s.push(c)
}

/// Appends the characters of `t` to `s`.
pub fn push_str(s: &mut String, t: &str)
    ensures
        final(s)@ == old(s)@ + t@,
{
    s.append(t);
}

/// The characters of a string, in order.
pub fn to_chars(s: &str) -> (r: Vec<char>)
    ensures
        r@ == s@,
{
    broadcast use vstd::string::group_string_axioms;

    let mut r: Vec<char> = Vec::new();
    for c in it: s.chars()
        invariant
            r@ == it.seq().take(it.index() as int),
            it.seq() == s@,
    {
        r.push(c);
    }
    r
}

/// The decimal digit character for `d` in `0..10`.
pub open spec fn digit_char(d: int) -> char {
    if d == 0 {
        '0'
    } else if d == 1 {
        '1'
    } else if d == 2 {
        '2'
    } else if d == 3 {
        '3'
    } else if d == 4 {
        '4'
    } else if d == 5 {
        '5'
    } else if d == 6 {
        '6'
    } else if d == 7 {
        '7'
    } else if d == 8 {
        '8'
    } else {
        '9'
    }
}

/// The value of an ASCII digit character.
pub open spec fn digit_value(c: char) -> int {
    (c as u32) - 48
}

pub open spec fn is_digit(c: char) -> bool {
    48 <= (c as u32) <= 57
}

/// Decimal notation of a natural number, most significant digit first.
pub open spec fn decimal_nat(n: nat) -> Seq<char>
    decreases n,
{
    if n < 10 {
        seq![digit_char(n as int)]
    } else {
        decimal_nat(n / 10).push(digit_char((n % 10) as int))
    }
}

/// Decimal notation of an integer, with a leading `-` when negative.
pub open spec fn decimal_int(v: int) -> Seq<char> {
    if v < 0 {
        seq!['-'] + decimal_nat((-v) as nat)
    } else {
        decimal_nat(v as nat)
    }
}

fn digit_to_char(d: u128) -> (c: char)
    requires
        d < 10,
    ensures
        c == digit_char(d as int),
{
    if d == 0 {
        '0'
    } else if d == 1 {
        '1'
    } else if d == 2 {
        '2'
    } else if d == 3 {
        '3'
    } else if d == 4 {
        '4'
    } else if d == 5 {
        '5'
    } else if d == 6 {
        '6'
    } else if d == 7 {
        '7'
    } else if d == 8 {
        '8'
    } else {
        '9'
    }
}

/// Appends the decimal notation of `n`.
pub fn push_decimal_u128(s: &mut String, n: u128)
    ensures
        final(s)@ == old(s)@ + decimal_nat(n as nat),
    decreases n,
{
    if n >= 10 {
        push_decimal_u128(s, n / 10);
    }
    push_char(s, digit_to_char(n % 10));
    assert(final(s)@ =~= old(s)@ + decimal_nat(n as nat));
}

/// Appends the decimal notation of a signed 32-bit integer.
pub fn push_decimal_i32(s: &mut String, v: i32)
    ensures
        final(s)@ == old(s)@ + decimal_int(v as int),
{
    if v < 0 {
        push_char(s, '-');
        let m: i64 = -(v as i64);
        push_decimal_u128(s, m as u128);
        assert(final(s)@ =~= old(s)@ + decimal_int(v as int));
    } else {
        push_decimal_u128(s, v as u128);
    }
}

/// The decimal text of a signed 32-bit integer.
pub fn i32_to_string(v: i32) -> (r: String)
    ensures
        r@ == decimal_int(v as int),
{
    let mut r = String::new();
    push_decimal_i32(&mut r, v);
    assert(r@ =~= decimal_int(v as int));
    r
}

/// The value of a nonempty run of decimal digits.
pub open spec fn digits_value(s: Seq<char>) -> int
    decreases s.len(),
{
    if s.len() == 0 {
        0
    } else {
        digits_value(s.drop_last()) * 10 + digit_value(s.last())
    }
}

pub open spec fn all_digits(s: Seq<char>) -> bool {
    forall|i: int| 0 <= i < s.len() ==> is_digit(#[trigger] s[i])
}

/// Signed 32-bit integer notation: an optional `+` or `-`, then one or more
/// decimal digits, with a value in the range of `i32`.
pub open spec fn parsed_i32(s: Seq<char>) -> Option<i32> {
    let signed = s.len() > 0 && (s[0] == '-' || s[0] == '+');
    let body = if signed {
        s.drop_first()
    } else {
        s
    };
    let v = if signed && s[0] == '-' {
        -digits_value(body)
    } else {
        digits_value(body)
    };
    if body.len() > 0 && all_digits(body) && i32::MIN <= v <= i32::MAX {
        Some(v as i32)
    } else {
        None
    }
}

/// Reads a signed 32-bit integer written in decimal.
pub fn parse_i32(s: &str) -> (r: Option<i32>)
    ensures
        r == parsed_i32(s@),
{
    let cs = to_chars(s);
    let n = cs.len();
    let signed = n > 0 && (cs[0] == '-' || cs[0] == '+');
    let negative = signed && cs[0] == '-';
    let start: usize = if signed {
        1
    } else {
        0
    };
    let ghost body = if signed {
        s@.drop_first()
    } else {
        s@
    };
    assert(body =~= s@.subrange(start as int, n as int));
    if start == n {
        return None;
    }
    // Values above the cap are all out of range; the cap keeps the sum small.

    let cap: i64 = 2147483649;
    let mut acc: i64 = 0;
    let mut i: usize = start;
    while i < n
        invariant
            start <= i <= n,
            n == cs@.len(),
            cs@ == s@,
            body == s@.subrange(start as int, n as int),
            cap == 2147483649,
            signed == (s@.len() > 0 && (s@[0] == '-' || s@[0] == '+')),
            negative == (signed && s@[0] == '-'),
            body == if signed {
                s@.drop_first()
            } else {
                s@
            },
            all_digits(s@.subrange(start as int, i as int)),
            acc == if digits_value(s@.subrange(start as int, i as int)) < cap {
                digits_value(s@.subrange(start as int, i as int))
            } else {
                cap as int
            },
            0 <= digits_value(s@.subrange(start as int, i as int)),
        decreases n - i,
    {
        let c = cs[i];
        let u = c as u32;
        if u < 48 || u > 57 {
            assert(body[i - start] == c);
            assert(!is_digit(body[i - start]));
            assert(!all_digits(body));
            return None;
        }
        let ghost prev = s@.subrange(start as int, i as int);
        let ghost next = s@.subrange(start as int, i + 1);
        assert(next.drop_last() =~= prev);
        assert(next.last() == c);
        let d = (u - 48) as i64;
        let t = acc * 10 + d;
        acc = if t < cap {
            t
        } else {
            cap
        };
        assert(digits_value(next) == digits_value(prev) * 10 + d);
        assert(acc == if digits_value(next) < cap {
            digits_value(next)
        } else {
            cap as int
        }) by (nonlinear_arith)
            requires
                acc == (if t < cap {
                    t
                } else {
                    cap
                }),
                t == (if digits_value(prev) < cap {
                    digits_value(prev)
                } else {
                    cap as int
                }) * 10 + d,
                digits_value(next) == digits_value(prev) * 10 + d,
                0 <= d,
                0 <= digits_value(prev),
                cap > 0,
        ;
        assert forall|j: int| 0 <= j < next.len() implies is_digit(#[trigger] next[j]) by {
            if j < prev.len() {
                assert(next[j] == prev[j]);
            }
        }
        i = i + 1;
    }
    assert(s@.subrange(start as int, n as int) == body);
    let v: i64 = if negative {
        -acc
    } else {
        acc
    };
    if v < -2147483648 || v > 2147483647 {
        None
    } else {
        Some(v as i32)
    }
}

/// ASCII lower-casing of one character code; other characters keep theirs.
pub open spec fn lower_code(c: char) -> int {
    if 65 <= (c as u32) <= 90 {
        (c as u32) + 32
    } else {
        c as u32 as int
    }
}

/// Equality of two texts up to the case of ASCII letters.
pub open spec fn same_ignoring_ascii_case(a: Seq<char>, b: Seq<char>) -> bool {
    &&& a.len() == b.len()
    &&& forall|i: int| 0 <= i < a.len() ==> lower_code(#[trigger] a[i]) == lower_code(b[i])
}

fn lower_code_exec(c: char) -> (r: u32)
    ensures
        r == lower_code(c),
{
    let u = c as u32;
    if 65 <= u && u <= 90 {
        u + 32
    } else {
        u
    }
}

/// Compares two texts, ignoring the case of ASCII letters.
pub fn eq_ignore_ascii_case(a: &str, b: &str) -> (r: bool)
    ensures
        r == same_ignoring_ascii_case(a@, b@),
{
    let x = to_chars(a);
    let y = to_chars(b);
    if x.len() != y.len() {
        return false;
    }
    let mut i: usize = 0;
    while i < x.len()
        invariant
            x@ == a@,
            y@ == b@,
            x.len() == y.len(),
            i <= x.len(),
            forall|j: int| 0 <= j < i ==> lower_code(#[trigger] a@[j]) == lower_code(b@[j]),
        decreases x.len() - i,
    {
        if lower_code_exec(x[i]) != lower_code_exec(y[i]) {
            return false;
        }
        i = i + 1;
    }
    true
}

/// The pieces of `s[i..]` between the non-overlapping occurrences of `sep`,
/// leftmost first, where `cur` is the part of the current piece already read.
pub open spec fn split_from(s: Seq<char>, i: int, cur: Seq<char>, sep: Seq<char>) -> Seq<Seq<char>>
    decreases s.len() - i,
{
    if sep.len() == 0 || i < 0 || i + sep.len() > s.len() {
        seq![cur + s.subrange(i, s.len() as int)]
    } else if s.subrange(i, i + sep.len()) == sep {
        seq![cur] + split_from(s, i + sep.len(), Seq::empty(), sep)
    } else {
        split_from(s, i + 1, cur.push(s[i]), sep)
    }
}

/// The pieces of `s` between the non-overlapping occurrences of a nonempty
/// `sep`, as `str::split` gives them.
pub open spec fn split_pieces(s: Seq<char>, sep: Seq<char>) -> Seq<Seq<char>> {
    split_from(s, 0, Seq::empty(), sep)
}

pub open spec fn views_of(v: Seq<String>) -> Seq<Seq<char>> {
    v.map_values(|p: String| p@)
}

/// Whether `t` occurs in `s` at position `i`.
pub fn occurs_at(s: &Vec<char>, i: usize, t: &Vec<char>) -> (r: bool)
    requires
        i <= s.len(),
    ensures
        r == (i + t.len() <= s.len() && s@.subrange(i as int, i + t.len()) == t@),
{
    if t.len() > s.len() - i {
        return false;
    }
    let mut k: usize = 0;
    while k < t.len()
        invariant
            i + t.len() <= s.len(),
            k <= t.len(),
            forall|j: int| 0 <= j < k ==> s@[i + j] == t@[j],
        decreases t.len() - k,
    {
        if s[i + k] != t[k] {
            assert(s@.subrange(i as int, i + t.len())[k as int] != t@[k as int]);
            return false;
        }
        k = k + 1;
    }
    assert(s@.subrange(i as int, i + t.len()) =~= t@);
    true
}

pub fn string_of(cs: &Vec<char>) -> (r: String)
    ensures
        r@ == cs@,
{
    let r = string_of_range(cs, 0, cs.len());
    assert(cs@.subrange(0, cs.len() as int) =~= cs@);
    r
}

/// The characters `cs[from..to]` as a string.
pub fn string_of_range(cs: &Vec<char>, from: usize, to: usize) -> (r: String)
    requires
        from <= to <= cs.len(),
    ensures
        r@ == cs@.subrange(from as int, to as int),
{
    let mut r = String::new();
    let mut i: usize = from;
    while i < to
        invariant
            from <= i <= to <= cs.len(),
            r@ == cs@.subrange(from as int, i as int),
        decreases to - i,
    {
        push_char(&mut r, cs[i]);
        assert(r@ =~= cs@.subrange(from as int, i + 1));
        i = i + 1;
    }
    r
}

/// Splits `s` at each occurrence of the nonempty `sep`.
pub fn split_by(s: &str, sep: &str) -> (r: Vec<String>)
    requires
        sep@.len() > 0,
    ensures
        views_of(r@) == split_pieces(s@, sep@),
{
    let cs = to_chars(s);
    let sp = to_chars(sep);
    let mut done: Vec<String> = Vec::new();
    let mut cur: Vec<char> = Vec::new();
    let mut i: usize = 0;
    while sp.len() <= cs.len() - i
        invariant
            cs@ == s@,
            sp@ == sep@,
            sp.len() > 0,
            i <= cs.len(),
            split_pieces(s@, sep@) == views_of(done@) + split_from(s@, i as int, cur@, sep@),
        decreases cs.len() - i,
    {
        if occurs_at(&cs, i, &sp) {
            let piece = string_of(&cur);
            let ghost before = done@;
            done.push(piece);
            assert(views_of(done@) =~= views_of(before).push(cur@));
            assert(split_from(s@, i as int, cur@, sep@) == seq![cur@] + split_from(
                s@,
                i + sp.len(),
                Seq::empty(),
                sep@,
            ));
            cur = Vec::new();
            assert(views_of(done@) + split_from(s@, i + sp.len(), cur@, sep@) =~= views_of(before)
                + (seq![piece@] + split_from(s@, i + sp.len(), cur@, sep@)));
            i = i + sp.len();
        } else {
            let ghost old_cur = cur@;
            cur.push(cs[i]);
            assert(cur@ == old_cur.push(s@[i as int]));
            i = i + 1;
        }
    }
    while i < cs.len()
        invariant
            cs@ == s@,
            i <= cs.len(),
            sp.len() > 0,
            i + sp.len() > cs.len(),
            split_pieces(s@, sep@) == views_of(done@) + seq![cur@ + s@.subrange(i as int, s@.len() as int)],
        decreases cs.len() - i,
    {
        let ghost old_cur = cur@;
        cur.push(cs[i]);
        assert(cur@ + s@.subrange(i + 1, s@.len() as int) =~= old_cur + s@.subrange(i as int, s@.len() as int));
        i = i + 1;
    }
    let last = string_of(&cur);
    let ghost before = done@;
    done.push(last);
    assert(views_of(done@) =~= views_of(before) + seq![cur@ + s@.subrange(i as int, s@.len() as int)]);
    done
}

} // verus!
