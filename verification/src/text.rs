//! Verified helpers for the comma-separated payload formats the compositor
//! uses: finding the first comma, splitting a payload in two, testing a
//! comma-separated token list for an exact token, and substring search.

use vstd::prelude::*;

verus! {

/// Index of the first comma in `s`, or `s.len()` if `s` holds none.
pub open spec fn first_comma_index(s: Seq<char>) -> int
    decreases s.len(),
{
    if s.len() == 0 {
        0
    } else if s[0] == ',' {
        0
    } else {
        1 + first_comma_index(s.drop_first())
    }
}

pub proof fn lemma_first_comma_index_bounds(s: Seq<char>)
    ensures
        0 <= first_comma_index(s) <= s.len(),
        first_comma_index(s) < s.len() ==> s[first_comma_index(s)] == ',',
        forall|j: int| 0 <= j < first_comma_index(s) ==> s[j] != ',',
    decreases s.len(),
{
    if s.len() == 0 {
    } else if s[0] == ',' {
    } else {
        lemma_first_comma_index_bounds(s.drop_first());
        assert forall|j: int| 0 <= j < first_comma_index(s) implies s[j] != ',' by {
            if j > 0 {
                assert(s.drop_first()[j - 1] != ',');
                assert(s[j] == s.drop_first()[j - 1]);
            }
        }
    }
}

pub proof fn lemma_first_comma_index_is(s: Seq<char>, i: int)
    requires
        0 <= i <= s.len(),
        forall|j: int| 0 <= j < i ==> s[j] != ',',
        i < s.len() ==> s[i] == ',',
    ensures
        first_comma_index(s) == i,
    decreases s.len(),
{
    if s.len() == 0 {
    } else if s[0] == ',' {
        assert(i == 0);
    } else {
        assert(i >= 1);
        assert forall|j: int| 0 <= j < i - 1 implies s.drop_first()[j] != ',' by {
            assert(s.drop_first()[j] == s[j + 1]);
        }
        if i - 1 < s.drop_first().len() {
            assert(s.drop_first()[i - 1] == s[i]);
        }
        lemma_first_comma_index_is(s.drop_first(), i - 1);
    }
}

/// Position of the first comma of `s`, or its length if there is none.
pub fn find_comma(s: &str) -> (i: usize)
    ensures
        i == first_comma_index(s@),
{
    let n: usize = s.unicode_len();
    let mut i: usize = 0;
    while i < n
        invariant
            n == s@.len(),
            0 <= i <= n,
            forall|j: int| 0 <= j < i ==> s@[j] != ',',
        decreases n - i,
    {
        if s.get_char(i) == ',' {
            proof {
                lemma_first_comma_index_is(s@, i as int);
            }
            return i;
        }
        i = i + 1;
    }
    proof {
        lemma_first_comma_index_is(s@, n as int);
    }
    n
}

/// Exact string equality, reflected into the views.
pub fn str_eq(a: &str, b: &str) -> (r: bool)
    ensures
        r == (a@ == b@),
{
    let sa: String = a.to_owned();
    let sb: String = b.to_owned();
    sa == sb
}

/// The part of `s` before its first comma; all of `s` if it has none.
pub fn prefix_before_comma(s: &str) -> (r: String)
    ensures
        r@ == s@.subrange(0, first_comma_index(s@)),
{
    proof {
        lemma_first_comma_index_bounds(s@);
    }
    let i: usize = find_comma(s);
    let part: &str = s.substring_char(0, i);
    part.to_owned()
}

/// Splits `s` at its first comma into the parts before and after it;
/// `None` if `s` holds no comma.
pub fn split_at_first_comma(s: &str) -> (r: Option<(String, String)>)
    ensures
        match r {
            Some(p) => first_comma_index(s@) < s@.len() && p.0@ == s@.subrange(
                0,
                first_comma_index(s@),
            ) && p.1@ == s@.subrange(first_comma_index(s@) + 1, s@.len() as int),
            None => first_comma_index(s@) == s@.len(),
        },
{
    proof {
        lemma_first_comma_index_bounds(s@);
    }
    let n: usize = s.unicode_len();
    let i: usize = find_comma(s);
    if i == n {
        None
    } else {
        let head: String = s.substring_char(0, i).to_owned();
        let tail: String = s.substring_char(i + 1, n).to_owned();
        Some((head, tail))
    }
}

/// Whether some comma-separated token of `s` is exactly `t`.
pub open spec fn has_token(s: Seq<char>, t: Seq<char>) -> bool
    decreases s.len(),
    via has_token_decreases
{
    let i = first_comma_index(s);
    if i == s.len() {
        s == t
    } else {
        s.subrange(0, i) == t || has_token(s.subrange(i + 1, s.len() as int), t)
    }
}

#[via_fn]
proof fn has_token_decreases(s: Seq<char>, t: Seq<char>) {
    lemma_first_comma_index_bounds(s);
}

/// Tests each comma-separated token of `s` for exact equality with `t`.
pub fn has_token_exec(s: &str, t: &str) -> (r: bool)
    ensures
        r == has_token(s@, t@),
    decreases s@.len(),
{
    proof {
        lemma_first_comma_index_bounds(s@);
    }
    let n: usize = s.unicode_len();
    let i: usize = find_comma(s);
    if i == n {
        str_eq(s, t)
    } else {
        let head: &str = s.substring_char(0, i);
        if str_eq(head, t) {
            true
        } else {
            let rest: &str = s.substring_char(i + 1, n);
            has_token_exec(rest, t)
        }
    }
}

/// Number of comma-separated fields of `s`: one more than its commas.
pub open spec fn comma_field_count(s: Seq<char>) -> int
    decreases s.len(),
    via comma_field_count_decreases
{
    let i = first_comma_index(s);
    if i == s.len() {
        1
    } else {
        1 + comma_field_count(s.subrange(i + 1, s.len() as int))
    }
}

#[via_fn]
proof fn comma_field_count_decreases(s: Seq<char>) {
    lemma_first_comma_index_bounds(s);
}

pub proof fn lemma_comma_field_count_bounds(s: Seq<char>)
    ensures
        1 <= comma_field_count(s) <= s.len() + 1,
    decreases s.len(),
{
    lemma_first_comma_index_bounds(s);
    let i = first_comma_index(s);
    if i < s.len() {
        lemma_comma_field_count_bounds(s.subrange(i + 1, s.len() as int));
    }
}

/// Counts the comma-separated fields of `s`.
pub fn count_comma_fields(s: &str) -> (r: usize)
    requires
        s@.len() < usize::MAX,
    ensures
        r == comma_field_count(s@),
    decreases s@.len(),
{
    proof {
        lemma_first_comma_index_bounds(s@);
        lemma_comma_field_count_bounds(s@);
    }
    let n: usize = s.unicode_len();
    let i: usize = find_comma(s);
    if i == n {
        1
    } else {
        let rest: &str = s.substring_char(i + 1, n);
        proof {
            lemma_comma_field_count_bounds(rest@);
        }
        1 + count_comma_fields(rest)
    }
}

/// Whether `n` occurs in `h` as a contiguous substring.
pub open spec fn contains_seq(h: Seq<char>, n: Seq<char>) -> bool {
    exists|i: int| 0 <= i && i + n.len() <= h.len() && #[trigger] h.subrange(i, i + n.len()) == n
}

/// Substring search: whether `n` occurs anywhere in `h`.
pub fn contains_str(h: &str, n: &str) -> (r: bool)
    ensures
        r == contains_seq(h@, n@),
{
    let hn: usize = h.unicode_len();
    let nn: usize = n.unicode_len();
    if nn > hn {
        return false;
    }
    if nn == 0 {
        proof {
            assert(h@.subrange(0, 0 + n@.len() as int) =~= n@);
        }
        return true;
    }
    let mut i: usize = 0;
    while i <= hn - nn
        invariant
            1 <= nn <= hn,
            hn == h@.len(),
            nn == n@.len(),
            0 <= i <= hn - nn + 1,
            forall|k: int| 0 <= k < i ==> #[trigger] h@.subrange(k, k + n@.len()) != n@,
        decreases hn + 1 - nn - i,
    {
        let mut j: usize = 0;
        let mut mismatch = false;
        while j < nn
            invariant
                nn <= hn,
                hn == h@.len(),
                nn == n@.len(),
                0 <= i <= hn - nn,
                0 <= j <= nn,
                !mismatch ==> forall|m: int| 0 <= m < j ==> h@[i + m] == n@[m],
                mismatch ==> h@.subrange(i as int, i + n@.len()) != n@,
            decreases nn - j,
        {
            if h.get_char(i + j) != n.get_char(j) {
                proof {
                    assert(h@.subrange(i as int, i + n@.len())[j as int] == h@[i + j]);
                }
                mismatch = true;
                j = nn;
            } else {
                j = j + 1;
            }
        }
        if !mismatch {
            proof {
                assert(h@.subrange(i as int, i + n@.len()) =~= n@);
            }
            return true;
        }
        i = i + 1;
    }
    proof {
        assert forall|k: int| 0 <= k && k + n@.len() <= h@.len() implies #[trigger] h@.subrange(
            k,
            k + n@.len(),
        ) != n@ by {
            assert(k < i);
        }
    }
    false
}

} // verus!
